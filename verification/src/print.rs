//! The text console's state: an owned character buffer with cursor,
//! colors, line wrap and scrolling.  Copying the buffer into the video
//! memory is a machine effect outside the library.

use vstd::prelude::*;

verus! {

use vstd::string::StrSliceExecFns;

/// Columns of the text screen.
pub const NUM_COL: usize = 80;

/// Rows of the text screen.
pub const NUM_ROW: usize = 25;

/// Characters the whole screen holds.
pub const BUFFER_SIZE: usize = NUM_COL * NUM_ROW;

/// One screen cell: a character byte and its color attribute.
#[derive(Debug, Clone, Copy, PartialEq, Eq, Structural)]
pub struct Char {
    /// The character byte shown in the cell.
    pub charactor: u8,
    /// The cell's color attribute.
    pub color: u8,
}

impl Char {
    /// A cell showing `charactor` in `color`.
    pub fn new(charactor: char, color: u8) -> (c: Char)
        ensures
            c.charactor == charactor as u8,
            c.color == color,
    {
        Char { charactor: charactor as u8, color }
    }

    /// An empty cell.
    pub fn empty() -> (c: Char)
        ensures
            c.charactor == 32,
            c.color == 0,
    {
        Char { charactor: 32, color: 0 }
    }
}

/// The console state: cursor position, color, and the owned screen buffer.
pub struct Print {
    col: usize,
    row: usize,
    color: u8,
    buffer: Vec<Char>,
    buffer_addr: u64,
}

impl Print {
    /// The cursor column.
    pub closed spec fn col_spec(&self) -> int {
        self.col as int
    }

    /// The cursor row.
    pub closed spec fn row_spec(&self) -> int {
        self.row as int
    }

    /// The current color attribute.
    pub closed spec fn color_spec(&self) -> u8 {
        self.color
    }

    /// The screen cells, row-major.
    pub closed spec fn cells(&self) -> Seq<Char> {
        self.buffer@
    }

    /// The physical address of the video memory this console writes to.
    pub closed spec fn buffer_addr_spec(&self) -> u64 {
        self.buffer_addr
    }

    /// The buffer covers the whole screen and the cursor is inside it.
    pub closed spec fn wf_spec(&self) -> bool {
        &&& self.buffer@.len() == BUFFER_SIZE
        &&& self.col <= NUM_COL
        &&& self.row < NUM_ROW
    }

    /// The console's well-formedness.
    pub open spec fn wf(&self) -> bool {
        self.wf_spec()
    }

    /// A console over the video memory at `buffer_addr`, cleared, with the
    /// given foreground and background colors.
    pub fn new(buffer_addr: u64, foreground: &u8, background: &u8) -> (p: Print)
        requires
            *foreground < 16,
            *background < 16,
        ensures
            p.wf(),
            p.col_spec() == 0,
            p.row_spec() == 0,
            p.color_spec() == *foreground + (*background << 4),
            p.buffer_addr_spec() == buffer_addr,
    {
        let mut buffer: Vec<Char> = Vec::new();
        let mut i: usize = 0;
        while i < BUFFER_SIZE
            invariant
                i <= BUFFER_SIZE,
                buffer@.len() == i,
            decreases BUFFER_SIZE - i,
        {
            buffer.push(Char { charactor: 0, color: 0 });
            i = i + 1;
        }
        proof {
            let b = *background;
            assert(b < 16 ==> (b << 4) <= 240) by (bit_vector);
        }
        Print { col: 0, row: 0, color: *foreground + (*background << 4u8), buffer, buffer_addr }
    }

    /// Change the colors used for what is printed next.
    pub fn set_color(&mut self, foreground: &u8, background: &u8)
        requires
            *foreground < 16,
            *background < 16,
        ensures
            final(self).color_spec() == *foreground + (*background << 4),
            final(self).cells() == old(self).cells(),
            final(self).col_spec() == old(self).col_spec(),
            final(self).row_spec() == old(self).row_spec(),
            final(self).wf() == old(self).wf(),
    {
        proof {
            let b = *background;
            assert(b < 16 ==> (b << 4) <= 240) by (bit_vector);
        }
        self.color = *foreground + (*background << 4u8);
    }

    /// Clear one row to empty cells.
    pub fn clear_row(&mut self, row: usize)
        requires
            old(self).wf(),
            row < NUM_ROW,
        ensures
            final(self).wf(),
            final(self).col_spec() == old(self).col_spec(),
            final(self).row_spec() == old(self).row_spec(),
            forall|c: int|
                0 <= c < NUM_COL ==> #[trigger] final(self).cells()[row * NUM_COL + c] == (Char {
                    charactor: 32,
                    color: 0,
                }),
            forall|i: int|
                0 <= i < BUFFER_SIZE && !(row * NUM_COL <= i < row * NUM_COL + NUM_COL)
                    ==> #[trigger] final(self).cells()[i] == old(self).cells()[i],
    {
        let mut c: usize = 0;
        while c < NUM_COL
            invariant
                old(self).wf(),
                self.wf(),
                c <= NUM_COL,
                row < NUM_ROW,
                self.col == old(self).col,
                self.row == old(self).row,
                self.color == old(self).color,
                self.buffer_addr == old(self).buffer_addr,
                forall|k: int|
                    0 <= k < c ==> #[trigger] self.cells()[row * NUM_COL + k] == (Char {
                        charactor: 32,
                        color: 0,
                    }),
                forall|i: int|
                    0 <= i < BUFFER_SIZE && !(row * NUM_COL <= i < row * NUM_COL + c)
                        ==> #[trigger] self.cells()[i] == old(self).cells()[i],
            decreases NUM_COL - c,
        {
            let ghost prev = *self;
            self.buffer.set(c + NUM_COL * row, Char::empty());
            proof {
                assert(self.cells() =~= prev.cells().update(
                    c + NUM_COL * row,
                    Char { charactor: 32, color: 0 },
                ));
                assert forall|k: int|
                    0 <= k < c + 1 implies #[trigger] self.cells()[row * NUM_COL + k] == (Char {
                    charactor: 32,
                    color: 0,
                }) by {
                    if k < c {
                        assert(prev.cells()[row * NUM_COL + k] == (Char {
                            charactor: 32,
                            color: 0,
                        }));
                    }
                }
                assert forall|i: int|
                    0 <= i < BUFFER_SIZE && !(row * NUM_COL <= i < row * NUM_COL + c + 1) implies
                #[trigger] self.cells()[i] == old(self).cells()[i] by {
                    assert(prev.cells()[i] == old(self).cells()[i]);
                }
            }
            c = c + 1;
        }
    }

    /// Move to the start of the next line, scrolling the screen up one row
    /// and clearing the last row once the bottom is reached.
    pub fn print_newline(&mut self)
        requires
            old(self).wf(),
        ensures
            final(self).wf(),
            final(self).col_spec() == 0,
            old(self).row_spec() < NUM_ROW - 1 ==> final(self).row_spec() == old(self).row_spec()
                + 1 && final(self).cells() == old(self).cells(),
            old(self).row_spec() == NUM_ROW - 1 ==> final(self).row_spec() == old(self).row_spec(),
    {
        self.col = 0;
        if self.row < NUM_ROW - 1 {
            self.row = self.row + 1;
            return ;
        }
        let mut row: usize = 1;
        while row < NUM_ROW
            invariant
                self.wf(),
                1 <= row <= NUM_ROW,
                self.col == 0,
                self.row == NUM_ROW - 1,
            decreases NUM_ROW - row,
        {
            let mut c: usize = 0;
            while c < NUM_COL
                invariant
                    self.wf(),
                    c <= NUM_COL,
                    1 <= row < NUM_ROW,
                    self.col == 0,
                    self.row == NUM_ROW - 1,
                decreases NUM_COL - c,
            {
                let charactor = self.buffer[c + NUM_COL * row];
                self.buffer.set(c + NUM_COL * (row - 1), charactor);
                c = c + 1;
            }
            row = row + 1;
        }
        self.clear_row(NUM_ROW - 1);
    }

    /// Put one character at the cursor, wrapping at the end of the line;
    /// a line feed only moves to the next line.
    pub fn print_char(&mut self, charactor: &char)
        requires
            old(self).wf(),
        ensures
            final(self).wf(),
            *charactor == '\n' ==> final(self).col_spec() == 0,
            *charactor != '\n' && old(self).col_spec() < NUM_COL ==> final(self).cells() == old(
                self,
            ).cells().update(
                old(self).row_spec() * NUM_COL + old(self).col_spec(),
                (Char { charactor: *charactor as u8, color: old(self).color_spec() }),
            ) && final(self).col_spec() == old(self).col_spec() + 1 && final(self).row_spec()
                == old(self).row_spec(),
    {
        if *charactor == '\n' {
            self.print_newline();
            return ;
        }
        if self.col >= NUM_COL {
            self.print_newline();
        }
        self.buffer.set(self.col + NUM_COL * self.row, Char::new(*charactor, self.color));
        self.col = self.col + 1;
    }

    /// Put every character of the text, in order.
    pub fn print_str(&mut self, string: &str)
        requires
            old(self).wf(),
        ensures
            final(self).wf(),
    {
        let n = string.unicode_len();
        let mut i: usize = 0;
        while i < n
            invariant
                self.wf(),
                n == string@.len(),
                i <= n,
            decreases n - i,
        {
            let c = string.get_char(i);
            self.print_char(&c);
            i = i + 1;
        }
    }
}

} // verus!
