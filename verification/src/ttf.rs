//! The glyph console's bookkeeping: the text it shows, the per-character
//! spacing cache, and the colors.  Parsing the font and rasterising glyph
//! outlines is floating-point work done outside the library, which hands
//! each glyph's spacing in.

use vstd::prelude::*;

verus! {

use vstd::string::StrSliceExecFns;

/// The spacing recorded for `c`, if any: the first matching cache entry.
pub open spec fn cached_spacing(cache: Seq<(char, u32)>, c: char) -> Option<u32>
    decreases cache.len(),
{
    if cache.len() == 0 {
        None
    } else if cache[0].0 == c {
        Some(cache[0].1)
    } else {
        cached_spacing(cache.drop_first(), c)
    }
}

/// Draws text as glyphs: holds the characters, their cached spacings, the
/// foreground color and the first line still on screen.
pub struct TtfRenderer {
    data: Vec<char>,
    cache: Vec<(char, u32)>,
    foreground_color: u32,
    curr_line: u64,
}

impl TtfRenderer {
    /// The characters put so far.
    pub closed spec fn data_spec(&self) -> Seq<char> {
        self.data@
    }

    /// The spacing cache.
    pub closed spec fn cache_spec(&self) -> Seq<(char, u32)> {
        self.cache@
    }

    /// The foreground color.
    pub closed spec fn color_spec(&self) -> u32 {
        self.foreground_color
    }

    /// An empty renderer drawing in the given color.
    pub fn new(foreground_color: u32) -> (t: TtfRenderer)
        ensures
            t.data_spec().len() == 0,
            t.cache_spec().len() == 0,
            t.color_spec() == foreground_color,
    {
        TtfRenderer { data: Vec::new(), cache: Vec::new(), foreground_color, curr_line: 0 }
    }

    /// Change the drawing color.
    pub fn set_color(&mut self, color: &u32)
        ensures
            final(self).color_spec() == *color,
            final(self).data_spec() == old(self).data_spec(),
            final(self).cache_spec() == old(self).cache_spec(),
    {
        self.foreground_color = *color;
    }

    /// Append one character to the shown text.
    pub fn put_char(&mut self, charactor: &char)
        ensures
            final(self).data_spec() == old(self).data_spec().push(*charactor),
            final(self).cache_spec() == old(self).cache_spec(),
            final(self).color_spec() == old(self).color_spec(),
    {
        self.data.push(*charactor);
    }

    /// Append every character of the text, in order.
    pub fn put_str(&mut self, string: &str)
        ensures
            final(self).data_spec() == old(self).data_spec() + string@,
            final(self).cache_spec() == old(self).cache_spec(),
            final(self).color_spec() == old(self).color_spec(),
    {
        let n = string.unicode_len();
        let mut i: usize = 0;
        proof {
            assert(self.data@ =~= old(self).data@ + string@.take(0));
        }
        while i < n
            invariant
                n == string@.len(),
                i <= n,
                self.data@ == old(self).data@ + string@.take(i as int),
                self.cache@ == old(self).cache@,
                self.foreground_color == old(self).foreground_color,
            decreases n - i,
        {
            let c = string.get_char(i);
            self.put_char(&c);
            proof {
                assert(string@.take(i + 1) =~= string@.take(i as int).push(string@[i as int]));
                assert(self.data@ =~= old(self).data@ + string@.take(i + 1));
            }
            i = i + 1;
        }
        proof {
            assert(string@.take(n as int) =~= string@);
        }
    }

    /// Record the spacing drawn for a character, unless it is already
    /// cached; reports whether it was.
    pub fn cache(&mut self, charactor: &char, spacing: u32) -> (hit: bool)
        ensures
            final(self).data_spec() == old(self).data_spec(),
            final(self).color_spec() == old(self).color_spec(),
            hit == (cached_spacing(old(self).cache_spec(), *charactor) is Some),
            hit ==> final(self).cache_spec() == old(self).cache_spec(),
            !hit ==> final(self).cache_spec() == old(self).cache_spec().push(
                (*charactor, spacing),
            ),
            cached_spacing(final(self).cache_spec(), *charactor) is Some,
    {
        let mut i: usize = 0;
        let n = self.cache.len();
        proof {
            assert(self.cache@.skip(0) =~= self.cache@);
        }
        while i < n
            invariant
                n == self.cache@.len(),
                i <= n,
                cached_spacing(self.cache@.skip(i as int), *charactor) == cached_spacing(
                    self.cache@,
                    *charactor,
                ),
                forall|j: int| 0 <= j < i ==> (#[trigger] self.cache@[j]).0 != *charactor,
            decreases n - i,
        {
            proof {
                assert(self.cache@.skip(i as int).drop_first() =~= self.cache@.skip(i + 1));
            }
            if self.cache[i].0 == *charactor {
                proof {
                    assert(self.cache@.skip(i as int)[0] == self.cache@[i as int]);
                }
                return true;
            }
            i = i + 1;
        }
        proof {
            assert(self.cache@.skip(n as int) =~= Seq::<(char, u32)>::empty());
            assert(cached_spacing(self.cache@, *charactor) is None);
        }
        self.cache.push((*charactor, spacing));
        proof {
            lemma_cached_spacing_push(old(self).cache@, *charactor, spacing);
        }
        false
    }
}

/// Appending a fresh entry makes its character cached.
proof fn lemma_cached_spacing_push(cache: Seq<(char, u32)>, c: char, spacing: u32)
    requires
        cached_spacing(cache, c) is None,
    ensures
        cached_spacing(cache.push((c, spacing)), c) == Some(spacing),
    decreases cache.len(),
{
    if cache.len() == 0 {
        assert(cache.push((c, spacing)).drop_first() =~= Seq::<(char, u32)>::empty());
    } else {
        assert(cache.push((c, spacing)).drop_first() =~= cache.drop_first().push((c, spacing)));
        lemma_cached_spacing_push(cache.drop_first(), c, spacing);
    }
}

} // verus!
