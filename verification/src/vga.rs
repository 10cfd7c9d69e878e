use vstd::prelude::*;
use vstd::string::StringSliceAdditionalSpecFns;

verus! {

/// Character cells per row (each cell is a byte pair).
pub const VGA_COLS: usize = 80;

/// Rows on the screen.
pub const VGA_ROWS: usize = 25;

/// Bytes in one row: a character byte and an attribute byte per cell.
pub const VGA_ROW_BYTES: usize = VGA_COLS * 2;

/// Bytes in the whole cell buffer.
pub const VGA_BYTES: usize = VGA_COLS * VGA_ROWS * 2;

/// The attribute written with every character: light grey on black.
pub const VGA_ATTR: u8 = 0x07;

/// The text-mode screen, modelled as its cell bytes and a cursor offset.
///
/// The cells mirror the hardware framebuffer cell for cell: even offsets
/// hold characters, odd offsets attributes. Flushing the cells to the
/// device's memory happens outside the library.
pub struct VgaScreen {
    pub cells: Vec<u8>,
    pub cursor: usize,
}

/// A blank screen: spaces with the standard attribute.
pub open spec fn spec_blank_cells() -> Seq<u8> {
    Seq::new(
        VGA_BYTES as nat,
        |i: int|
            if i % 2 == 0 {
                32u8
            } else {
                VGA_ATTR
            },
    )
}

/// The cells after scrolling one row up: every row moves up, the bottom
/// row is blanked.
pub open spec fn spec_scroll(c: Seq<u8>) -> Seq<u8> {
    Seq::new(
        VGA_BYTES as nat,
        |i: int|
            if i < VGA_BYTES - VGA_ROW_BYTES {
                c[i + VGA_ROW_BYTES]
            } else if i % 2 == 0 {
                32u8
            } else {
                VGA_ATTR
            },
    )
}

/// Printing one byte: a newline moves the cursor to the next row's
/// start, any other byte lands at the cursor with the standard
/// attribute; passing the bottom of the screen scrolls.
pub open spec fn spec_putc(cells: Seq<u8>, cursor: int, c: u8) -> (Seq<u8>, int) {
    let (cells1, cursor1) = if c == 10 {
        (cells, (cursor / VGA_ROW_BYTES as int + 1) * VGA_ROW_BYTES as int)
    } else {
        (cells.update(cursor, c).update(cursor + 1, VGA_ATTR), cursor + 2)
    };
    if cursor1 >= VGA_BYTES {
        (spec_scroll(cells1), VGA_BYTES - VGA_ROW_BYTES as int)
    } else {
        (cells1, cursor1)
    }
}

/// Printing a byte string, front to back.
pub open spec fn spec_puts(cells: Seq<u8>, cursor: int, s: Seq<u8>) -> (Seq<u8>, int)
    decreases s.len(),
{
    if s.len() == 0 {
        (cells, cursor)
    } else {
        let (cells1, cursor1) = spec_putc(cells, cursor, s[0]);
        spec_puts(cells1, cursor1, s.skip(1))
    }
}

impl VgaScreen {
    /// Well-formedness: full cell buffer, cursor on a cell boundary
    /// within it.
    pub open spec fn wf(self) -> bool {
        &&& self.cells@.len() == VGA_BYTES
        &&& self.cursor < VGA_BYTES
        &&& self.cursor % 2 == 0
    }

    /// A cleared screen with the cursor at the top left.
    pub fn new() -> (s: VgaScreen)
        ensures
            s.wf(),
            s.cells@ == spec_blank_cells(),
            s.cursor == 0,
    {
        let mut cells: Vec<u8> = Vec::new();
        let mut i: usize = 0;
        while i < VGA_BYTES
            invariant
                i <= VGA_BYTES,
                cells@ == spec_blank_cells().subrange(0, i as int),
            decreases VGA_BYTES - i,
        {
            if i % 2 == 0 {
                cells.push(32u8);
            } else {
                cells.push(VGA_ATTR);
            }
            proof {
                assert(cells@ =~= spec_blank_cells().subrange(0, i + 1));
            }
            i = i + 1;
        }
        proof {
            assert(cells@ =~= spec_blank_cells());
        }
        VgaScreen { cells, cursor: 0 }
    }

    /// Reset the screen: blank cells, cursor at the top left.
    pub fn init(&mut self)
        ensures
            final(self).wf(),
            final(self).cells@ == spec_blank_cells(),
            final(self).cursor == 0,
    {
        self.clear_screen();
    }

    /// Blank every cell and home the cursor.
    pub fn clear_screen(&mut self)
        ensures
            final(self).wf(),
            final(self).cells@ == spec_blank_cells(),
            final(self).cursor == 0,
    {
        let fresh = VgaScreen::new();
        self.cells = fresh.cells;
        self.cursor = 0;
    }

    /// Move every row up one and blank the bottom row.
    fn scroll_up(&mut self)
        requires
            old(self).cells@.len() == VGA_BYTES,
        ensures
            final(self).cells@.len() == VGA_BYTES,
            final(self).cells@ == spec_scroll(old(self).cells@),
            final(self).cursor == old(self).cursor,
    {
        let mut i: usize = 0;
        while i < VGA_BYTES - VGA_ROW_BYTES
            invariant
                old(self).cells@.len() == VGA_BYTES,
                i <= VGA_BYTES - VGA_ROW_BYTES,
                self.cells@.len() == VGA_BYTES,
                self.cursor == old(self).cursor,
                forall|k: int| 0 <= k < i ==> self.cells@[k] == spec_scroll(old(self).cells@)[k],
                forall|k: int|
                    i <= k < VGA_BYTES ==> self.cells@[k] == old(self).cells@[k],
            decreases VGA_BYTES - VGA_ROW_BYTES - i,
        {
            let b: u8 = self.cells[i + VGA_ROW_BYTES];
            self.cells.set(i, b);
            i = i + 1;
        }
        while i < VGA_BYTES
            invariant
                old(self).cells@.len() == VGA_BYTES,
                VGA_BYTES - VGA_ROW_BYTES <= i <= VGA_BYTES,
                self.cells@.len() == VGA_BYTES,
                self.cursor == old(self).cursor,
                forall|k: int| 0 <= k < i ==> self.cells@[k] == spec_scroll(old(self).cells@)[k],
            decreases VGA_BYTES - i,
        {
            if i % 2 == 0 {
                self.cells.set(i, 32u8);
            } else {
                self.cells.set(i, VGA_ATTR);
            }
            i = i + 1;
        }
        proof {
            assert(self.cells@ =~= spec_scroll(old(self).cells@));
        }
    }

    /// Print one byte.
    pub fn print_char(&mut self, c: u8)
        requires
            old(self).wf(),
        ensures
            final(self).wf(),
            (final(self).cells@, final(self).cursor as int) == spec_putc(
                old(self).cells@,
                old(self).cursor as int,
                c,
            ),
    {
        if c == 10 {
            self.cursor = (self.cursor / VGA_ROW_BYTES + 1) * VGA_ROW_BYTES;
        } else {
            let cur: usize = self.cursor;
            proof {
                assert(cur + 1 < VGA_BYTES);
            }
            self.cells.set(cur, c);
            self.cells.set(cur + 1, VGA_ATTR);
            self.cursor = cur + 2;
        }
        if self.cursor >= VGA_BYTES {
            self.scroll_up();
            self.cursor = VGA_BYTES - VGA_ROW_BYTES;
        }
    }

    /// Print every byte of `s` in order.
    pub fn print_string(&mut self, s: &str)
        requires
            old(self).wf(),
        ensures
            final(self).wf(),
            (final(self).cells@, final(self).cursor as int) == spec_puts(
                old(self).cells@,
                old(self).cursor as int,
                s.spec_bytes(),
            ),
    {
        let bytes: &[u8] = s.as_bytes();
        let n: usize = bytes.len();
        proof {
            assert(bytes@.skip(0) =~= bytes@);
        }
        let mut i: usize = 0;
        while i < n
            invariant
                self.wf(),
                n == bytes@.len(),
                bytes@ == s.spec_bytes(),
                i <= n,
                spec_puts(self.cells@, self.cursor as int, bytes@.skip(i as int)) == spec_puts(
                    old(self).cells@,
                    old(self).cursor as int,
                    bytes@,
                ),
            decreases n - i,
        {
            proof {
                assert(bytes@.skip(i as int)[0] == bytes@[i as int]);
                assert(bytes@.skip(i as int).skip(1) =~= bytes@.skip(i + 1));
            }
            self.print_char(bytes[i]);
            i = i + 1;
        }
        proof {
            assert(bytes@.skip(n as int) =~= Seq::<u8>::empty());
        }
    }
}

} // verus!
