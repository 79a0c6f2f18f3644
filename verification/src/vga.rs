//! VGA text mode: 80 x 25 cells, each an ASCII byte followed by a colour
//! attribute byte. The screen contents are held in a `ScreenBuffer` laid out
//! exactly like the hardware buffer at `0xb8000`, which the kernel copies
//! out to the device.
use vstd::prelude::*;

verus! {

/// Screen width in cells.
pub const VGA_WIDTH: usize = 80;

/// Screen height in cells.
pub const VGA_HEIGHT: usize = 25;

/// Bytes of the text buffer: two per cell.
pub const VGA_BYTES: usize = 4000;

/// The 16 colours of the VGA text palette.
#[derive(Debug, Clone, Copy, PartialEq, Eq, Structural)]
pub enum Color {
    Black,
    Blue,
    Green,
    Cyan,
    Red,
    Magenta,
    Brown,
    LightGray,
    DarkGray,
    LightBlue,
    LightGreen,
    LightCyan,
    LightRed,
    Pink,
    Yellow,
    White,
}

/// Palette index of a colour.
pub open spec fn color_index(c: Color) -> u8 {
    match c {
        Color::Black => 0,
        Color::Blue => 1,
        Color::Green => 2,
        Color::Cyan => 3,
        Color::Red => 4,
        Color::Magenta => 5,
        Color::Brown => 6,
        Color::LightGray => 7,
        Color::DarkGray => 8,
        Color::LightBlue => 9,
        Color::LightGreen => 10,
        Color::LightCyan => 11,
        Color::LightRed => 12,
        Color::Pink => 13,
        Color::Yellow => 14,
        Color::White => 15,
    }
}

/// Attribute byte with foreground `fg` and background `bg`.
pub open spec fn attribute(fg: Color, bg: Color) -> u8 {
    (color_index(bg) * 16 + color_index(fg)) as u8
}

/// Palette index of a colour.
pub fn color_value(c: Color) -> (r: u8)
    ensures
        r == color_index(c),
        r < 16,
{
    match c {
        Color::Black => 0,
        Color::Blue => 1,
        Color::Green => 2,
        Color::Cyan => 3,
        Color::Red => 4,
        Color::Magenta => 5,
        Color::Brown => 6,
        Color::LightGray => 7,
        Color::DarkGray => 8,
        Color::LightBlue => 9,
        Color::LightGreen => 10,
        Color::LightCyan => 11,
        Color::LightRed => 12,
        Color::Pink => 13,
        Color::Yellow => 14,
        Color::White => 15,
    }
}

/// Packs foreground and background into one attribute byte: background in
/// the high nibble, foreground in the low nibble.
pub fn make_color(fg: Color, bg: Color) -> (r: u8)
    ensures
        r == attribute(fg, bg),
{
    let f: u8 = color_value(fg);
    let b: u8 = color_value(bg);
    let r: u8 = (b << 4) | f;
    assert(r == b * 16 + f) by (bit_vector)
        requires
            r == (b << 4) | f,
            b < 16,
            f < 16,
    ;
    r
}

/// The attribute byte unpacks back into its colours: background in the high
/// nibble, foreground in the low nibble.
pub proof fn law_attribute_nibbles(fg: Color, bg: Color)
    ensures
        attribute(fg, bg) / 16 == color_index(bg),
        attribute(fg, bg) % 16 == color_index(fg),
{
}

/// Byte offset of cell (`row`, `col`) in the text buffer.
pub open spec fn cell_offset(row: int, col: int) -> int {
    (row * 80 + col) * 2
}

/// `cells` with cell (`row`, `col`) set to `ascii` in colour `color`; cells
/// outside the screen leave it unchanged.
pub open spec fn put_cell(cells: Seq<u8>, row: int, col: int, ascii: u8, color: u8) -> Seq<u8> {
    if 0 <= row < VGA_HEIGHT && 0 <= col < VGA_WIDTH {
        cells.update(cell_offset(row, col), ascii).update(cell_offset(row, col) + 1, color)
    } else {
        cells
    }
}

/// A screen of blanks in colour `color`.
pub open spec fn blank_screen(color: u8) -> Seq<u8> {
    Seq::new(VGA_BYTES as nat, |i: int| if i % 2 == 0 { 32u8 } else { color })
}

/// `cells` moved up one line, with a blank bottom line in colour `color`.
pub open spec fn scrolled(cells: Seq<u8>, color: u8) -> Seq<u8> {
    Seq::new(
        VGA_BYTES as nat,
        |i: int|
            if i < 3840 {
                cells[i + 160]
            } else if i % 2 == 0 {
                32u8
            } else {
                color
            },
    )
}

/// Scrolling moves every line up by one: each cell of rows 0 to 23 shows,
/// character and colour, the cell below it, and every cell of the bottom
/// row becomes a blank in the writer's colour.
pub proof fn law_scroll_moves_lines_up(cells: Seq<u8>, color: u8)
    requires
        cells.len() == 4000,
    ensures
        scrolled(cells, color).len() == 4000,
        forall|row: int, col: int|
            0 <= row < 24 && 0 <= col < 80 ==> {
                &&& #[trigger] scrolled(cells, color)[(row * 80 + col) * 2] == cells[((row + 1) * 80 + col) * 2]
                &&& scrolled(cells, color)[(row * 80 + col) * 2 + 1] == cells[((row + 1) * 80 + col) * 2 + 1]
            },
        forall|col: int|
            0 <= col < 80 ==> {
                &&& #[trigger] scrolled(cells, color)[3840 + 2 * col] == 32u8
                &&& scrolled(cells, color)[3841 + 2 * col] == color
            },
{
    assert forall|row: int, col: int| 0 <= row < 24 && 0 <= col < 80 implies {
        &&& #[trigger] scrolled(cells, color)[(row * 80 + col) * 2] == cells[((row + 1) * 80 + col) * 2]
        &&& scrolled(cells, color)[(row * 80 + col) * 2 + 1] == cells[((row + 1) * 80 + col) * 2 + 1]
    } by {
        assert((row * 80 + col) * 2 + 1 < 3840) by (nonlinear_arith)
            requires
                0 <= row < 24,
                0 <= col < 80,
        ;
        assert((row * 80 + col) * 2 >= 0) by (nonlinear_arith)
            requires
                0 <= row < 24,
                0 <= col < 80,
        ;
        assert(((row + 1) * 80 + col) * 2 == (row * 80 + col) * 2 + 160) by (nonlinear_arith);
    }
    assert forall|col: int| 0 <= col < 80 implies {
        &&& #[trigger] scrolled(cells, color)[3840 + 2 * col] == 32u8
        &&& scrolled(cells, color)[3841 + 2 * col] == color
    } by {
        assert((3840 + 2 * col) % 2 == 0);
        assert((3841 + 2 * col) % 2 == 1);
    }
}

/// `cells` after writing the first `n` bytes of `bytes` from (`row`, `col`)
/// along the line.
pub open spec fn put_prefix(cells: Seq<u8>, row: int, col: int, bytes: Seq<u8>, color: u8, n: int) -> Seq<u8>
    decreases n,
{
    if n <= 0 {
        cells
    } else {
        put_cell(put_prefix(cells, row, col, bytes, color, n - 1), row, col + n - 1, bytes[n - 1], color)
    }
}

/// The bytes of `s` (its UTF-8 encoding).
pub open spec fn text_bytes(s: &str) -> Seq<u8> {
    vstd::string::StringSliceAdditionalSpecFns::spec_bytes(s)
}

/// How many bytes of a string of `len` bytes fit on the line from column `col`.
pub open spec fn fitting(col: int, len: int) -> int {
    if col >= VGA_WIDTH {
        0
    } else if len < VGA_WIDTH - col {
        len
    } else {
        VGA_WIDTH - col
    }
}

/// The text buffer of the screen.
pub struct ScreenBuffer {
    cells: Vec<u8>,
}

impl View for ScreenBuffer {
    type V = Seq<u8>;

    closed spec fn view(&self) -> Seq<u8> {
        self.cells@
    }
}

impl ScreenBuffer {
    /// A buffer of zero bytes.
    pub fn new() -> (r: Self)
        ensures
            r@.len() == VGA_BYTES,
            forall|i: int| 0 <= i < VGA_BYTES ==> r@[i] == 0,
    {
        let mut cells: Vec<u8> = Vec::new();
        let mut i: usize = 0;
        while i < VGA_BYTES
            invariant
                i <= VGA_BYTES,
                cells@.len() == i,
                forall|j: int| 0 <= j < i ==> cells@[j] == 0,
            decreases VGA_BYTES - i,
        {
            cells.push(0);
            i = i + 1;
        }
        ScreenBuffer { cells }
    }

    /// Byte `i` of the buffer.
    pub fn byte(&self, i: usize) -> (r: u8)
        requires
            i < self@.len(),
        ensures
            r == self@[i as int],
    {
        self.cells[i]
    }

    /// Sets cell (`row`, `col`); out-of-range coordinates change nothing.
    pub fn set_cell(&mut self, row: usize, col: usize, ascii: u8, color: u8)
        requires
            old(self)@.len() == VGA_BYTES,
        ensures
            final(self)@ == put_cell(old(self)@, row as int, col as int, ascii, color),
    {
        if row >= VGA_HEIGHT || col >= VGA_WIDTH {
            return;
        }
        let offset: usize = (row * VGA_WIDTH + col) * 2;
        self.cells.set(offset, ascii);
        self.cells.set(offset + 1, color);
    }
}

/// Writes `ascii` in colour `color` at (`row`, `col`); does nothing when the
/// coordinates are off screen.
pub fn write_char(screen: &mut ScreenBuffer, row: usize, col: usize, ascii: u8, color: u8)
    requires
        old(screen)@.len() == VGA_BYTES,
    ensures
        final(screen)@ == put_cell(old(screen)@, row as int, col as int, ascii, color),
{
    screen.set_cell(row, col, ascii, color);
}

/// Fills every cell with a blank, white on black.
pub fn clear_screen(screen: &mut ScreenBuffer)
    requires
        old(screen)@.len() == VGA_BYTES,
    ensures
        final(screen)@ == blank_screen(attribute(Color::White, Color::Black)),
{
    let colour: u8 = make_color(Color::White, Color::Black);
    fill_blank(screen, colour);
}

/// Fills every cell with a blank in colour `color`.
fn fill_blank(screen: &mut ScreenBuffer, color: u8)
    requires
        old(screen)@.len() == VGA_BYTES,
    ensures
        final(screen)@ == blank_screen(color),
{
    let mut k: usize = 0;
    while k < VGA_BYTES
        invariant
            screen@.len() == VGA_BYTES,
            k <= VGA_BYTES,
            k % 2 == 0,
            forall|j: int| 0 <= j < k ==> screen@[j] == blank_screen(color)[j],
        decreases VGA_BYTES - k,
    {
        screen.cells.set(k, 32u8);
        screen.cells.set(k + 1, color);
        k = k + 2;
    }
    assert(screen@ =~= blank_screen(color));
}

/// Writes the bytes of `s` from (`row`, `col`) along the line, stopping at
/// the right edge of the screen.
pub fn write_str(screen: &mut ScreenBuffer, row: usize, col: usize, s: &str, colour: u8)
    requires
        old(screen)@.len() == VGA_BYTES,
    ensures
        final(screen)@ == put_prefix(old(screen)@, row as int, col as int, text_bytes(s), colour,
            fitting(col as int, text_bytes(s).len() as int)),
{
    write_bytes(screen, row, col, s.as_bytes(), colour);
}

/// Writes `bytes` from (`row`, `col`) along the line, stopping at the right
/// edge of the screen.
pub fn write_bytes(screen: &mut ScreenBuffer, row: usize, col: usize, bytes: &[u8], colour: u8)
    requires
        old(screen)@.len() == VGA_BYTES,
    ensures
        final(screen)@.len() == VGA_BYTES,
        final(screen)@ == put_prefix(old(screen)@, row as int, col as int, bytes@, colour,
            fitting(col as int, bytes@.len() as int)),
{
    let mut i: usize = 0;
    while i < bytes.len()
        invariant
            screen@.len() == VGA_BYTES,
            0 <= i <= bytes@.len(),
            i <= fitting(col as int, bytes@.len() as int),
            col < VGA_WIDTH ==> col + i <= VGA_WIDTH,
            col >= VGA_WIDTH ==> i == 0,
            screen@ == put_prefix(old(screen)@, row as int, col as int, bytes@, colour, i as int),
        ensures
            screen@.len() == VGA_BYTES,
            screen@ == put_prefix(old(screen)@, row as int, col as int, bytes@, colour, i as int),
            i == fitting(col as int, bytes@.len() as int),
        decreases bytes@.len() - i,
    {
        if col >= VGA_WIDTH || col + i >= VGA_WIDTH {
            break;
        }
        write_char(screen, row, col + i, bytes[i], colour);
        i = i + 1;
    }
}

/// Cursor row and screen after a line feed from row `row`: the next row, or
/// the last row of a screen scrolled up by one line.
pub open spec fn after_newline(row: int, cells: Seq<u8>, color: u8) -> (int, Seq<u8>) {
    if row < VGA_HEIGHT - 1 {
        (row + 1, cells)
    } else {
        (VGA_HEIGHT - 1, scrolled(cells, color))
    }
}

/// Cursor (row, column) and screen after writing `byte` at (`row`, `col`):
/// a line feed moves to the start of the next line; any other byte is put at
/// the cursor, after wrapping to the next line when the cursor is past the
/// right edge, and moves the cursor one column right.
pub open spec fn after_byte(row: int, col: int, color: u8, cells: Seq<u8>, byte: u8) -> (int, int, Seq<u8>) {
    if byte == 10 {
        (after_newline(row, cells, color).0, 0, after_newline(row, cells, color).1)
    } else if col >= VGA_WIDTH {
        let r = after_newline(row, cells, color).0;
        let cs = after_newline(row, cells, color).1;
        (r, 1, put_cell(cs, r, 0, byte, color))
    } else {
        (row, col + 1, put_cell(cells, row, col, byte, color))
    }
}

/// The byte shown for `b` by `write_string`: printable ASCII and line feed
/// as they are, anything else as the block character 0xfe.
pub open spec fn shown_byte(b: u8) -> u8 {
    if (0x20 <= b <= 0x7e) || b == 10 {
        b
    } else {
        0xfe
    }
}

/// Cursor and screen after `write_string` of `bytes`.
pub open spec fn after_bytes(row: int, col: int, color: u8, cells: Seq<u8>, bytes: Seq<u8>) -> (int, int, Seq<u8>)
    decreases bytes.len(),
{
    if bytes.len() == 0 {
        (row, col, cells)
    } else {
        let prev = after_bytes(row, col, color, cells, bytes.drop_last());
        after_byte(prev.0, prev.1, color, prev.2, shown_byte(bytes.last()))
    }
}

/// Screen writer: a cursor, a current colour and the screen it writes to.
pub struct Writer {
    col: usize,
    row: usize,
    color: u8,
    screen: ScreenBuffer,
}

impl Writer {
    /// Cursor row.
    pub closed spec fn row(&self) -> int {
        self.row as int
    }

    /// Cursor column; equal to the width once a line is full.
    pub closed spec fn col(&self) -> int {
        self.col as int
    }

    /// Current colour attribute.
    pub closed spec fn color(&self) -> u8 {
        self.color
    }

    /// Screen contents.
    pub closed spec fn cells(&self) -> Seq<u8> {
        self.screen@
    }

    /// The cursor is on screen (the column may sit just past the last one)
    /// and the screen has its full size.
    pub open spec fn wf(&self) -> bool {
        &&& 0 <= self.row() < VGA_HEIGHT
        &&& 0 <= self.col() <= VGA_WIDTH
        &&& self.cells().len() == VGA_BYTES
    }

    /// A writer at the top left corner, white on black, over a zeroed screen.
    pub fn new() -> (r: Self)
        ensures
            r.wf(),
            r.row() == 0,
            r.col() == 0,
            r.color() == attribute(Color::White, Color::Black),
            forall|i: int| 0 <= i < VGA_BYTES ==> r.cells()[i] == 0,
    {
        Writer { col: 0, row: 0, color: make_color(Color::White, Color::Black), screen: ScreenBuffer::new() }
    }

    /// The screen the writer draws on.
    pub fn screen(&self) -> (r: &ScreenBuffer)
        ensures
            r@ == self.cells(),
    {
        &self.screen
    }

    /// The screen the writer draws on, for drawing outside the cursor
    /// (such as a status line); the cursor and the colour stay as they are.
    pub fn screen_mut(&mut self) -> (r: &mut ScreenBuffer)
        ensures
            r@ == old(self).cells(),
            final(self).cells() == final(r)@,
            final(self).row() == old(self).row(),
            final(self).col() == old(self).col(),
            final(self).color() == old(self).color(),
    {
        &mut self.screen
    }

    /// Cursor row and column.
    pub fn position(&self) -> (r: (usize, usize))
        ensures
            r.0 == self.row(),
            r.1 == self.col(),
    {
        (self.row, self.col)
    }

    /// Current colour attribute.
    pub fn current_color(&self) -> (r: u8)
        ensures
            r == self.color(),
    {
        self.color
    }

    /// Changes the colour of what is written next.
    pub fn set_color(&mut self, fg: Color, bg: Color)
        requires
            old(self).wf(),
        ensures
            final(self).wf(),
            final(self).color() == attribute(fg, bg),
            final(self).row() == old(self).row(),
            final(self).col() == old(self).col(),
            final(self).cells() == old(self).cells(),
    {
        self.color = make_color(fg, bg);
    }

    /// Blanks the whole screen in the current colour and moves the cursor to
    /// the top left corner.
    pub fn clear(&mut self)
        requires
            old(self).wf(),
        ensures
            final(self).wf(),
            final(self).cells() == blank_screen(old(self).color()),
            final(self).row() == 0,
            final(self).col() == 0,
            final(self).color() == old(self).color(),
    {
        let color: u8 = self.color;
        fill_blank(&mut self.screen, color);
        self.row = 0;
        self.col = 0;
    }

    /// Writes one byte at the cursor (a line feed starts a new line).
    pub fn write_byte(&mut self, byte: u8)
        requires
            old(self).wf(),
        ensures
            final(self).wf(),
            final(self).color() == old(self).color(),
            (final(self).row(), final(self).col(), final(self).cells()) == after_byte(
                old(self).row(),
                old(self).col(),
                old(self).color(),
                old(self).cells(),
                byte,
            ),
    {
        if byte == 10u8 {
            self.newline();
        } else {
            if self.col >= VGA_WIDTH {
                self.newline();
            }
            let row: usize = self.row;
            let col: usize = self.col;
            let color: u8 = self.color;
            self.write_cell(row, col, byte, color);
            self.col = self.col + 1;
        }
    }

    /// Writes a string: printable ASCII and line feeds as they are, every
    /// other byte as the block character 0xfe.
    pub fn write_string(&mut self, s: &str)
        requires
            old(self).wf(),
        ensures
            final(self).wf(),
            final(self).color() == old(self).color(),
            (final(self).row(), final(self).col(), final(self).cells()) == after_bytes(
                old(self).row(),
                old(self).col(),
                old(self).color(),
                old(self).cells(),
                text_bytes(s),
            ),
    {
        let bytes: &[u8] = s.as_bytes();
        let mut i: usize = 0;
        while i < bytes.len()
            invariant
                self.wf(),
                self.color() == old(self).color(),
                bytes@ == text_bytes(s),
                0 <= i <= bytes@.len(),
                (self.row(), self.col(), self.cells()) == after_bytes(
                    old(self).row(),
                    old(self).col(),
                    old(self).color(),
                    old(self).cells(),
                    bytes@.subrange(0, i as int),
                ),
            decreases bytes@.len() - i,
        {
            let byte: u8 = bytes[i];
            let shown: u8 = if (0x20u8 <= byte && byte <= 0x7eu8) || byte == 10u8 {
                byte
            } else {
                0xfeu8
            };
            proof {
                let p = bytes@.subrange(0, i + 1);
                assert(p.drop_last() =~= bytes@.subrange(0, i as int));
                assert(p.last() == byte);
            }
            self.write_byte(shown);
            i = i + 1;
        }
        proof {
            assert(bytes@.subrange(0, bytes@.len() as int) =~= bytes@);
        }
    }

    /// Moves to the start of the next line, scrolling when on the last line.
    fn newline(&mut self)
        requires
            old(self).wf(),
        ensures
            final(self).wf(),
            final(self).color() == old(self).color(),
            final(self).col() == 0,
            (final(self).row(), final(self).cells()) == after_newline(
                old(self).row(),
                old(self).cells(),
                old(self).color(),
            ),
    {
        self.col = 0;
        if self.row < VGA_HEIGHT - 1 {
            self.row = self.row + 1;
        } else {
            self.scroll();
        }
    }

    /// Moves every line up by one and blanks the bottom line.
    fn scroll(&mut self)
        requires
            old(self).wf(),
        ensures
            final(self).wf(),
            final(self).color() == old(self).color(),
            final(self).col() == old(self).col(),
            final(self).row() == VGA_HEIGHT - 1,
            final(self).cells() == scrolled(old(self).cells(), old(self).color()),
            forall|j: int| 0 <= j < 3840 ==> final(self).cells()[j] == old(self).cells()[j + 160],
            forall|col: int|
                0 <= col < 80 ==> {
                    &&& #[trigger] final(self).cells()[3840 + 2 * col] == 32u8
                    &&& final(self).cells()[3841 + 2 * col] == old(self).color()
                },
    {
        let ghost old_cells = self.screen@;
        let mut k: usize = 0;
        while k < 3840
            invariant
                self.wf(),
                self.color() == old(self).color(),
                self.col() == old(self).col(),
                old_cells == old(self).cells(),
                k <= 3840,
                forall|j: int| 0 <= j < k ==> self.cells()[j] == old_cells[j + 160],
                forall|j: int| k <= j < VGA_BYTES ==> self.cells()[j] == old_cells[j],
            decreases 3840 - k,
        {
            let b: u8 = self.screen.cells[k + 160];
            self.screen.cells.set(k, b);
            k = k + 1;
        }
        let mut col: usize = 0;
        while col < VGA_WIDTH
            invariant
                self.wf(),
                self.color() == old(self).color(),
                self.col() == old(self).col(),
                old_cells == old(self).cells(),
                col <= VGA_WIDTH,
                forall|j: int| 0 <= j < 3840 ==> self.cells()[j] == old_cells[j + 160],
                forall|j: int| 3840 <= j < 3840 + 2 * col ==> self.cells()[j] == scrolled(old_cells, self.color())[j],
            decreases VGA_WIDTH - col,
        {
            let color: u8 = self.color;
            self.write_cell(VGA_HEIGHT - 1, col, 32u8, color);
            col = col + 1;
        }
        self.row = VGA_HEIGHT - 1;
        proof {
            assert(self.cells() =~= scrolled(old_cells, self.color()));
            law_scroll_moves_lines_up(old_cells, self.color());
        }
    }

    /// Writes one cell; off-screen coordinates change nothing.
    fn write_cell(&mut self, row: usize, col: usize, ascii: u8, color: u8)
        requires
            old(self).wf(),
        ensures
            final(self).wf(),
            final(self).row() == old(self).row(),
            final(self).col() == old(self).col(),
            final(self).color() == old(self).color(),
            final(self).cells() == put_cell(old(self).cells(), row as int, col as int, ascii, color),
    {
        self.screen.set_cell(row, col, ascii, color);
    }
}

/// Writes `label` in cyan, then `OK` and a line feed in light green, then
/// returns to white on black.
pub fn ok_label(w: &mut Writer, label: &str)
    requires
        old(w).wf(),
    ensures
        final(w).wf(),
        final(w).color() == attribute(Color::White, Color::Black),
        ({
            let first = after_bytes(
                old(w).row(),
                old(w).col(),
                attribute(Color::Cyan, Color::Black),
                old(w).cells(),
                text_bytes(label),
            );
            (final(w).row(), final(w).col(), final(w).cells()) == after_bytes(
                first.0,
                first.1,
                attribute(Color::LightGreen, Color::Black),
                first.2,
                text_bytes("OK\n"),
            )
        }),
{
    w.set_color(Color::Cyan, Color::Black);
    w.write_string(label);
    w.set_color(Color::LightGreen, Color::Black);
    w.write_string("OK\n");
    w.set_color(Color::White, Color::Black);
}

} // verus!
