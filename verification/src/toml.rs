//! Tokens and the parser front end for the configuration format the
//! filesystem layer reads.

use vstd::prelude::*;

verus! {

/// One lexed token of the configuration text.
#[derive(Debug, Clone)]
pub enum TomlToken {
    /// A bare key.
    Identifier(String),
    /// A quoted string.
    Text(String),
    /// An integer literal.
    Interger(i64),
    /// A boolean literal.
    Boolean(bool),
    /// `=`
    Equal,
    /// End of a line.
    NewLine,
    /// `.`
    Dot,
    /// `,`
    Comma,
    /// `[`
    LBracket,
    /// `]`
    RBracket,
    /// `{`
    LCurly,
    /// `}`
    RCurly,
}

/// Structural equality of two tokens, over the string views.
pub open spec fn token_eq(a: TomlToken, b: TomlToken) -> bool {
    match (a, b) {
        (TomlToken::Identifier(x), TomlToken::Identifier(y)) => x@ == y@,
        (TomlToken::Text(x), TomlToken::Text(y)) => x@ == y@,
        (TomlToken::Interger(x), TomlToken::Interger(y)) => x == y,
        (TomlToken::Boolean(x), TomlToken::Boolean(y)) => x == y,
        (TomlToken::Equal, TomlToken::Equal) => true,
        (TomlToken::NewLine, TomlToken::NewLine) => true,
        (TomlToken::Dot, TomlToken::Dot) => true,
        (TomlToken::Comma, TomlToken::Comma) => true,
        (TomlToken::LBracket, TomlToken::LBracket) => true,
        (TomlToken::RBracket, TomlToken::RBracket) => true,
        (TomlToken::LCurly, TomlToken::LCurly) => true,
        (TomlToken::RCurly, TomlToken::RCurly) => true,
        _ => false,
    }
}

/// The text a key-position token carries: an identifier's or string's
/// characters, nothing for any other token.
pub open spec fn key_token_view(t: TomlToken) -> Option<Seq<char>> {
    match t {
        TomlToken::Identifier(x) => Some(x@),
        TomlToken::Text(x) => Some(x@),
        _ => None,
    }
}

impl TomlToken {
    /// Whether two tokens are the same token with the same payload.
    pub fn matches_token(&self, other: &TomlToken) -> (r: bool)
        ensures
            r == token_eq(*self, *other),
    {
        match (self, other) {
            (TomlToken::Identifier(x), TomlToken::Identifier(y)) => *x == *y,
            (TomlToken::Text(x), TomlToken::Text(y)) => *x == *y,
            (TomlToken::Interger(x), TomlToken::Interger(y)) => *x == *y,
            (TomlToken::Boolean(x), TomlToken::Boolean(y)) => *x == *y,
            (TomlToken::Equal, TomlToken::Equal) => true,
            (TomlToken::NewLine, TomlToken::NewLine) => true,
            (TomlToken::Dot, TomlToken::Dot) => true,
            (TomlToken::Comma, TomlToken::Comma) => true,
            (TomlToken::LBracket, TomlToken::LBracket) => true,
            (TomlToken::RBracket, TomlToken::RBracket) => true,
            (TomlToken::LCurly, TomlToken::LCurly) => true,
            (TomlToken::RCurly, TomlToken::RCurly) => true,
            _ => false,
        }
    }
}

/// What stopped the parser.
#[derive(Debug, Clone)]
pub enum TomlParserError {
    /// A token that fits no rule at this point, or a missing one.
    UnexpectedToken(Option<TomlToken>),
    /// A looked-up key that the parsed table does not hold.
    KeyNotFound(String),
    /// A value was used as a table but is none.
    NotATable,
}

/// Walks a token list and builds the parsed structure.
pub struct TomlParser {
    tokens: Vec<TomlToken>,
    index: usize,
}

impl TomlParser {
    /// The tokens being parsed.
    pub closed spec fn tokens_spec(&self) -> Seq<TomlToken> {
        self.tokens@
    }

    /// The position of the next unread token.
    pub closed spec fn index_spec(&self) -> int {
        self.index as int
    }

    /// A parser at the start of the token list.
    pub fn new(tokens: Vec<TomlToken>) -> (p: TomlParser)
        ensures
            p.tokens_spec() == tokens@,
            p.index_spec() == 0,
    {
        TomlParser { tokens, index: 0 }
    }

    /// The token `offset` places ahead of the cursor, if any.
    pub fn peek(&self, offset: usize) -> (r: Option<&TomlToken>)
        ensures
            (match r {
                Some(t) => self.index_spec() + offset < self.tokens_spec().len() && *t
                    == self.tokens_spec()[self.index_spec() + offset],
                None => self.index_spec() + offset >= self.tokens_spec().len(),
            }),
    {
        let n = self.tokens.len();
        if offset <= usize::MAX - self.index && self.index + offset < n {
            Some(&self.tokens[self.index + offset])
        } else {
            proof {
                assert(self.tokens_spec().len() <= usize::MAX);
            }
            None
        }
    }

    /// The token under the cursor, advancing past it.
    pub fn consume(&mut self) -> (r: Option<&TomlToken>)
        ensures
            final(self).tokens_spec() == old(self).tokens_spec(),
            (match r {
                Some(t) => old(self).index_spec() < old(self).tokens_spec().len()
                    && *t == old(self).tokens_spec()[old(self).index_spec()]
                    && final(self).index_spec() == old(self).index_spec() + 1,
                None => old(self).index_spec() >= old(self).tokens_spec().len()
                    && final(self).index_spec() == old(self).index_spec(),
            }),
    {
        let i = self.index;
        if i < self.tokens.len() {
            self.index = i + 1;
            Some(&self.tokens[i])
        } else {
            None
        }
    }

    /// Read a dotted key path whose first segment is already known: each
    /// further segment is one `.` followed by one identifier or string
    /// token, and the path stops just before `=` or `]`.
    pub fn parse_keys(&mut self, first_iden: String) -> (r: Result<Vec<String>, TomlParserError>)
        ensures
            final(self).tokens_spec() == old(self).tokens_spec(),
            final(self).index_spec() >= old(self).index_spec(),
            (match r {
                Ok(keys) => {
                    &&& keys@.len() >= 1
                    &&& keys@[0]@ == first_iden@
                    &&& final(self).index_spec() == old(self).index_spec() + 2 * (keys@.len()
                        - 1)
                    &&& forall|m: int|
                        1 <= m < keys@.len() ==> old(self).tokens_spec()[old(self).index_spec()
                            + 2 * m - 2] is Dot && #[trigger] key_token_view(
                            old(self).tokens_spec()[old(self).index_spec() + 2 * m - 1],
                        ) == Some(keys@[m]@)
                    &&& final(self).index_spec() < old(self).tokens_spec().len()
                    &&& (old(self).tokens_spec()[final(self).index_spec()] is Equal || old(
                        self,
                    ).tokens_spec()[final(self).index_spec()] is RBracket)
                },
                Err(_) => true,
            }),
    {
        let mut keys: Vec<String> = Vec::new();
        let ghost first_view = first_iden@;
        let ghost i0 = self.index_spec();
        keys.push(first_iden);
        loop
            invariant
                self.tokens_spec() == old(self).tokens_spec(),
                i0 == old(self).index_spec(),
                keys@.len() >= 1,
                keys@[0]@ == first_view,
                self.index_spec() == i0 + 2 * (keys@.len() - 1),
                forall|m: int|
                    1 <= m < keys@.len() ==> self.tokens_spec()[i0 + 2 * m - 2] is Dot
                        && #[trigger] key_token_view(self.tokens_spec()[i0 + 2 * m - 1]) == Some(
                        keys@[m]@,
                    ),
            ensures
                self.tokens_spec() == old(self).tokens_spec(),
                keys@.len() >= 1,
                keys@[0]@ == first_view,
                self.index_spec() == i0 + 2 * (keys@.len() - 1),
                forall|m: int|
                    1 <= m < keys@.len() ==> self.tokens_spec()[i0 + 2 * m - 2] is Dot
                        && #[trigger] key_token_view(self.tokens_spec()[i0 + 2 * m - 1]) == Some(
                        keys@[m]@,
                    ),
                self.index_spec() < self.tokens_spec().len(),
                (self.tokens_spec()[self.index_spec()] is Equal || self.tokens_spec()[
                    self.index_spec()] is RBracket),
            decreases self.tokens_spec().len() - self.index_spec(),
        {
            let next_is = match self.peek(0) {
                None => {
                    return Err(TomlParserError::UnexpectedToken(None));
                },
                Some(t) => match t {
                    TomlToken::Dot => 0u8,
                    TomlToken::Equal => 1u8,
                    TomlToken::RBracket => 1u8,
                    _ => 2u8,
                },
            };
            if next_is == 1 {
                break ;
            }
            if next_is == 2 {
                let t = self.consume();
                return Err(
                    TomlParserError::UnexpectedToken(
                        match t {
                            Some(tok) => Some(tok.clone()),
                            None => None,
                        },
                    ),
                );
            }
            self.consume();
            let id: String = match self.consume() {
                None => {
                    return Err(TomlParserError::UnexpectedToken(None));
                },
                Some(tok) => match tok {
                    TomlToken::Identifier(x) => x.clone(),
                    TomlToken::Text(x) => x.clone(),
                    unexpected => {
                        return Err(TomlParserError::UnexpectedToken(Some(unexpected.clone())));
                    },
                },
            };
            keys.push(id);
        }
        Ok(keys)
    }

    /// Read the name of a table heading: one identifier or string token,
    /// whose text is returned.
    pub fn parse_table_name(&mut self) -> (r: Result<String, TomlParserError>)
        ensures
            final(self).tokens_spec() == old(self).tokens_spec(),
            (match r {
                Ok(name) => old(self).index_spec() < old(self).tokens_spec().len()
                    && final(self).index_spec() == old(self).index_spec() + 1 && key_token_view(
                    old(self).tokens_spec()[old(self).index_spec()],
                ) == Some(name@),
                Err(_) => true,
            }),
    {
        match self.consume() {
            None => Err(TomlParserError::UnexpectedToken(None)),
            Some(tok) => match tok {
                TomlToken::Identifier(x) => Ok(x.clone()),
                TomlToken::Text(x) => Ok(x.clone()),
                unexpected => Err(TomlParserError::UnexpectedToken(Some(unexpected.clone()))),
            },
        }
    }

    /// Step over the expected token; any other token is an error and the
    /// cursor does not move.
    pub fn expect_token(&mut self, expected: TomlToken) -> (r: Result<(), TomlParserError>)
        ensures
            final(self).tokens_spec() == old(self).tokens_spec(),
            (match r {
                Ok(_) => old(self).index_spec() < old(self).tokens_spec().len() && token_eq(
                    old(self).tokens_spec()[old(self).index_spec()],
                    expected,
                ) && final(self).index_spec() == old(self).index_spec() + 1,
                Err(_) => final(self).index_spec() == old(self).index_spec()
                    && (old(self).index_spec() >= old(self).tokens_spec().len() || !token_eq(
                    old(self).tokens_spec()[old(self).index_spec()],
                    expected,
                )),
            }),
    {
        let matched = match self.peek(0) {
            None => {
                return Err(TomlParserError::UnexpectedToken(None));
            },
            Some(token) => token.matches_token(&expected),
        };
        if matched {
            self.consume();
            Ok(())
        } else {
            let cloned = match self.peek(0) {
                Some(token) => Some(token.clone()),
                None => None,
            };
            Err(TomlParserError::UnexpectedToken(cloned))
        }
    }
}

} // verus!
