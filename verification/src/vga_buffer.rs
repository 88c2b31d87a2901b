//! The console writer: colors, character cells, the display grid, and the
//! byte/string output path with line wrapping and scroll-up.

use vstd::prelude::*;
use vstd::string::StringSliceAdditionalSpecFns;
use volatile::Volatile;

verus! {

/// Number of text rows on the display.
pub const BUFFER_HEIGHT: usize = 25;

/// Number of text columns on the display.
pub const BUFFER_WIDTH: usize = 80;

/// The sixteen colors of the text-mode palette.
#[derive(Debug, Clone, Copy, PartialEq, Eq, Structural)]
pub enum Color {
    Black,
    Blue,
    Green,
    Cyan,
    Red,
    Magenta,
    Brown,
    LightGray,
    DarkGray,
    LightBlue,
    LightGreen,
    LightCyan,
    LightRed,
    Pink,
    Yellow,
    White,
}

/// The palette index of a color, as the display hardware numbers them.
pub open spec fn color_number(c: Color) -> u8 {
    match c {
        Color::Black => 0,
        Color::Blue => 1,
        Color::Green => 2,
        Color::Cyan => 3,
        Color::Red => 4,
        Color::Magenta => 5,
        Color::Brown => 6,
        Color::LightGray => 7,
        Color::DarkGray => 8,
        Color::LightBlue => 9,
        Color::LightGreen => 10,
        Color::LightCyan => 11,
        Color::LightRed => 12,
        Color::Pink => 13,
        Color::Yellow => 14,
        Color::White => 15,
    }
}

#[verifier::when_used_as_spec(color_number)]
pub fn color_value(c: Color) -> (v: u8)
    ensures
        v == color_number(c),
{
    match c {
        Color::Black => 0,
        Color::Blue => 1,
        Color::Green => 2,
        Color::Cyan => 3,
        Color::Red => 4,
        Color::Magenta => 5,
        Color::Brown => 6,
        Color::LightGray => 7,
        Color::DarkGray => 8,
        Color::LightBlue => 9,
        Color::LightGreen => 10,
        Color::LightCyan => 11,
        Color::LightRed => 12,
        Color::Pink => 13,
        Color::Yellow => 14,
        Color::White => 15,
    }
}

/// A foreground/background pair packed into one byte, background in the
/// high nibble, exactly as the display controller expects it.
#[derive(Debug, Clone, Copy, PartialEq, Eq, Structural)]
pub struct ColorCode(pub u8);

impl ColorCode {
    pub fn new(foreground: Color, background: Color) -> (code: ColorCode)
        ensures
            code.0 == color_number(background) * 16 + color_number(foreground),
    {
        let fg = color_value(foreground);
        let bg = color_value(background);
        proof {
            assert((bg << 4) | fg == bg * 16 + fg) by (bit_vector)
                requires
                    fg < 16,
                    bg < 16,
            ;
        }
        ColorCode((bg << 4) | fg)
    }
}

/// One character position: a displayable byte and its color pair, in the
/// two-byte layout the display hardware reads.
#[derive(Debug, Clone, Copy, PartialEq, Eq, Structural)]
pub struct ScreenChar {
    pub ascii_char: u8,
    pub color_code: ColorCode,
}

/// A byte that is allowed to sit in a cell: printable ASCII or the
/// substitution glyph.
pub open spec fn is_displayable(b: u8) -> bool {
    0x20 <= b <= 0x7e || b == 0xfe
}

/// The cell stored for a displayable byte under a color pair.
pub open spec fn encode(b: u8, color: ColorCode) -> ScreenChar {
    ScreenChar { ascii_char: b, color_code: color }
}

/// The display grid: `BUFFER_HEIGHT` rows of `BUFFER_WIDTH` cells. Each cell
/// sits behind `volatile::Volatile`, so the stores that paint the screen are
/// never merged or elided; Verus sees the grid only through the trusted
/// accessors below.
#[verifier::external_body]
pub struct Buffer {
    chars: [[Volatile<ScreenChar>; BUFFER_WIDTH]; BUFFER_HEIGHT],
}

/// The cells a `Buffer` holds, row-major.
pub uninterp spec fn buffer_chars(b: Buffer) -> Seq<Seq<ScreenChar>>;

/// Relies on volatile::Volatile::read: a volatile load returning a copy of
/// the cell last stored.
#[verifier::external_body]
fn buffer_read(b: &Buffer, row: usize, col: usize) -> (c: ScreenChar)
    requires
        row < BUFFER_HEIGHT,
        col < BUFFER_WIDTH,
    ensures
        c == buffer_chars(*b)[row as int][col as int],
{
    b.chars[row][col].read()
}

/// Relies on volatile::Volatile::write: a volatile store of the cell; no
/// other cell is touched.
#[verifier::external_body]
fn buffer_write(b: &mut Buffer, row: usize, col: usize, value: ScreenChar)
    requires
        row < BUFFER_HEIGHT,
        col < BUFFER_WIDTH,
    ensures
        buffer_chars(*final(b)) == buffer_chars(*old(b)).update(
            row as int,
            buffer_chars(*old(b))[row as int].update(col as int, value),
        ),
{
    b.chars[row][col].write(value)
}

/// Relies on volatile::Volatile::new: wraps a value; the grid starts with
/// the given cell in every position.
#[verifier::external_body]
fn buffer_filled(value: ScreenChar) -> (b: Buffer)
    ensures
        buffer_chars(b).len() == BUFFER_HEIGHT,
        forall|r: int| 0 <= r < BUFFER_HEIGHT ==> (#[trigger] buffer_chars(b)[r]).len()
            == BUFFER_WIDTH,
        forall|r: int, c: int|
            0 <= r < BUFFER_HEIGHT && 0 <= c < BUFFER_WIDTH ==> #[trigger] buffer_chars(b)[r][c]
                == value,
{
    Buffer {
        chars: core::array::from_fn(|_r| core::array::from_fn(|_c| Volatile::new(value))),
    }
}

/// The cell a scroll leaves in the cleared bottom row: a space on the
/// black-on-black color pair.
pub open spec fn blank_char() -> ScreenChar {
    ScreenChar { ascii_char: 0x20, color_code: ColorCode(0) }
}

/// A fully cleared row.
pub open spec fn blank_row() -> Seq<ScreenChar> {
    Seq::new(BUFFER_WIDTH as nat, |c: int| blank_char())
}

/// A fully cleared grid.
pub open spec fn blank_grid() -> Seq<Seq<ScreenChar>> {
    Seq::new(BUFFER_HEIGHT as nat, |r: int| blank_row())
}

/// A row of the right width whose cells all hold displayable bytes.
pub open spec fn row_ok(row: Seq<ScreenChar>) -> bool {
    &&& row.len() == BUFFER_WIDTH
    &&& forall|c: int| 0 <= c < row.len() ==> is_displayable((#[trigger] row[c]).ascii_char)
}

/// A grid of the right dimensions whose cells all hold displayable bytes.
pub open spec fn grid_ok(g: Seq<Seq<ScreenChar>>) -> bool {
    &&& g.len() == BUFFER_HEIGHT
    &&& forall|r: int| 0 <= r < g.len() ==> row_ok(#[trigger] g[r])
}

/// The grid with one cell of the bottom row replaced.
pub open spec fn cell_put(g: Seq<Seq<ScreenChar>>, col: int, sc: ScreenChar) -> Seq<Seq<ScreenChar>> {
    g.update(BUFFER_HEIGHT - 1, g[BUFFER_HEIGHT - 1].update(col, sc))
}

/// The grid after one scroll: every row moves up one place and the bottom
/// row is cleared.
pub open spec fn scrolled(g: Seq<Seq<ScreenChar>>) -> Seq<Seq<ScreenChar>> {
    Seq::new(
        BUFFER_HEIGHT as nat,
        |r: int|
            if r < BUFFER_HEIGHT - 1 {
                g[r + 1]
            } else {
                blank_row()
            },
    )
}

/// The byte a cell actually stores: printable ASCII stays, anything else
/// becomes the substitution glyph.
pub open spec fn glyph(b: u8) -> u8 {
    if 0x20 <= b <= 0x7e {
        b
    } else {
        0xfe
    }
}

/// The writer's whole step for one byte: a newline scrolls and rewinds the
/// cursor; a full row scrolls first; then the byte's glyph lands at the
/// cursor in the bottom row and the cursor advances.
pub open spec fn byte_written(g: Seq<Seq<ScreenChar>>, col: int, color: ColorCode, b: u8) -> (
    Seq<Seq<ScreenChar>>,
    int,
) {
    if b == 0x0a {
        (scrolled(g), 0)
    } else if col >= BUFFER_WIDTH {
        (cell_put(scrolled(g), 0, encode(glyph(b), color)), 1)
    } else {
        (cell_put(g, col, encode(glyph(b), color)), col + 1)
    }
}

/// The byte `write_string` forwards for an input byte: printable ASCII and
/// the newline pass through, every other byte becomes the substitution
/// glyph. Bytes are classified one by one, so a multi-byte encoded
/// character renders as a run of substitution glyphs.
pub open spec fn classified(b: u8) -> u8 {
    if 0x20 <= b <= 0x7e || b == 0x0a {
        b
    } else {
        0xfe
    }
}

/// The writer's step for a whole byte sequence, front to back.
pub open spec fn string_written(
    g: Seq<Seq<ScreenChar>>,
    col: int,
    color: ColorCode,
    s: Seq<u8>,
) -> (Seq<Seq<ScreenChar>>, int)
    decreases s.len(),
{
    if s.len() == 0 {
        (g, col)
    } else {
        let step = byte_written(g, col, color, classified(s[0]));
        string_written(step.0, step.1, color, s.skip(1))
    }
}

/// Writing a sequence and then one more byte is writing the sequence, then
/// stepping once with that byte.
proof fn lemma_string_written_push(
    g: Seq<Seq<ScreenChar>>,
    col: int,
    color: ColorCode,
    t: Seq<u8>,
    b: u8,
)
    ensures
        ({
            let m = string_written(g, col, color, t);
            &&& string_written(g, col, color, t.push(b)).0 == byte_written(
                m.0,
                m.1,
                color,
                classified(b),
            ).0
            &&& string_written(g, col, color, t.push(b)).1 == byte_written(
                m.0,
                m.1,
                color,
                classified(b),
            ).1
        }),
    decreases t.len(),
{
    if t.len() == 0 {
        assert(t.push(b)[0] == b);
        assert(t.push(b).skip(1) =~= Seq::<u8>::empty());
        let step = byte_written(g, col, color, classified(b));
        assert(string_written(g, col, color, t.push(b)) == string_written(
            step.0,
            step.1,
            color,
            t.push(b).skip(1),
        ));
    } else {
        assert(t.push(b)[0] == t[0]);
        assert(t.push(b).skip(1) =~= t.skip(1).push(b));
        let step = byte_written(g, col, color, classified(t[0]));
        lemma_string_written_push(step.0, step.1, color, t.skip(1), b);
    }
}

/// The console writer: owns the grid, the next free column of the bottom
/// row, and the color pair used for subsequent writes.
pub struct Writer {
    pub column_position: usize,
    pub color_code: ColorCode,
    pub buffer: Buffer,
}

impl Writer {
    /// The grid as the writer sees it.
    pub open spec fn grid(self) -> Seq<Seq<ScreenChar>> {
        buffer_chars(self.buffer)
    }

    /// The writer's invariant: the cursor is within the row (one past the
    /// end means the row is full), and the grid is well formed.
    pub open spec fn wf(self) -> bool {
        &&& self.column_position <= BUFFER_WIDTH
        &&& grid_ok(self.grid())
    }

    /// A fresh writer over a cleared grid, writing white on black from
    /// column 0.
    pub fn new() -> (w: Writer)
        ensures
            w.wf(),
            w.column_position == 0,
            w.color_code.0 == 0x0f,
            w.grid() == blank_grid(),
    {
        let blank = ScreenChar { ascii_char: 0x20, color_code: ColorCode(0) };
        let buffer = buffer_filled(blank);
        proof {
            assert forall|r: int| 0 <= r < BUFFER_HEIGHT implies buffer_chars(buffer)[r]
                == blank_grid()[r] by {
                assert(buffer_chars(buffer)[r] =~= blank_row());
            }
            assert(buffer_chars(buffer) =~= blank_grid());
        }
        Writer { column_position: 0, color_code: ColorCode::new(Color::White, Color::Black), buffer }
    }

    /// The cell currently stored at the given position.
    pub fn char_at(&self, row: usize, col: usize) -> (c: ScreenChar)
        requires
            row < BUFFER_HEIGHT,
            col < BUFFER_WIDTH,
        ensures
            c == self.grid()[row as int][col as int],
    {
        buffer_read(&self.buffer, row, col)
    }

    /// Replaces the color pair used for every subsequent write; cells
    /// already on screen keep theirs.
    pub fn set_color(&mut self, foreground: Color, background: Color)
        ensures
            final(self).color_code.0 == color_number(background) * 16 + color_number(foreground),
            final(self).column_position == old(self).column_position,
            final(self).grid() == old(self).grid(),
    {
        self.color_code = ColorCode::new(foreground, background);
    }

    /// Writes a space with the black-on-black pair into every column of the
    /// given row.
    fn clear_line(&mut self, row: usize)
        requires
            old(self).wf(),
            row < BUFFER_HEIGHT,
        ensures
            final(self).wf(),
            final(self).color_code == old(self).color_code,
            final(self).column_position == old(self).column_position,
            final(self).grid() == old(self).grid().update(row as int, blank_row()),
    {
        let ghost w0 = *self;
        let black_color_code = ColorCode::new(Color::Black, Color::Black);
        let blank = ScreenChar { ascii_char: 0x20, color_code: black_color_code };
        assert(blank == blank_char());
        let mut col: usize = 0;
        while col < BUFFER_WIDTH
            invariant
                col <= BUFFER_WIDTH,
                row < BUFFER_HEIGHT,
                self.column_position == w0.column_position,
                self.color_code == w0.color_code,
                blank == blank_char(),
                self.grid().len() == BUFFER_HEIGHT,
                forall|i: int| 0 <= i < BUFFER_HEIGHT ==> (#[trigger] self.grid()[i]).len()
                    == BUFFER_WIDTH,
                forall|i: int|
                    0 <= i < BUFFER_HEIGHT && i != row ==> #[trigger] self.grid()[i]
                        == w0.grid()[i],
                forall|j: int| 0 <= j < col ==> #[trigger] self.grid()[row as int][j]
                    == blank_char(),
                forall|j: int|
                    col <= j < BUFFER_WIDTH ==> #[trigger] self.grid()[row as int][j]
                        == w0.grid()[row as int][j],
            decreases BUFFER_WIDTH - col,
        {
            buffer_write(&mut self.buffer, row, col, blank);
            col = col + 1;
        }
        proof {
            assert(self.grid()[row as int] =~= blank_row());
            assert(self.grid() =~= w0.grid().update(row as int, blank_row()));
            assert forall|i: int| 0 <= i < self.grid().len() implies row_ok(
                #[trigger] self.grid()[i],
            ) by {
                if i == row {
                    assert forall|c: int| 0 <= c < blank_row().len() implies is_displayable(
                        (#[trigger] blank_row()[c]).ascii_char,
                    ) by {
                        assert(blank_row()[c] == blank_char());
                    }
                } else {
                    assert(row_ok(w0.grid()[i]));
                }
            }
        }
    }

    /// Scrolls the grid up one row, clears the bottom row, and rewinds the
    /// cursor to column 0.
    fn new_line(&mut self)
        requires
            old(self).wf(),
        ensures
            final(self).wf(),
            final(self).color_code == old(self).color_code,
            final(self).column_position == 0,
            final(self).grid() == scrolled(old(self).grid()),
    {
        let ghost w0 = *self;
        let mut row: usize = 1;
        while row < BUFFER_HEIGHT
            invariant
                1 <= row <= BUFFER_HEIGHT,
                self.column_position == w0.column_position,
                self.color_code == w0.color_code,
                w0.wf(),
                self.grid().len() == BUFFER_HEIGHT,
                forall|i: int| 0 <= i < BUFFER_HEIGHT ==> (#[trigger] self.grid()[i]).len()
                    == BUFFER_WIDTH,
                forall|i: int| 0 <= i < row - 1 ==> #[trigger] self.grid()[i] == w0.grid()[i + 1],
                forall|i: int|
                    row - 1 <= i < BUFFER_HEIGHT ==> #[trigger] self.grid()[i] == w0.grid()[i],
            decreases BUFFER_HEIGHT - row,
        {
            let mut col: usize = 0;
            while col < BUFFER_WIDTH
                invariant
                    1 <= row < BUFFER_HEIGHT,
                    col <= BUFFER_WIDTH,
                    self.column_position == w0.column_position,
                    self.color_code == w0.color_code,
                    w0.wf(),
                    self.grid().len() == BUFFER_HEIGHT,
                    forall|i: int| 0 <= i < BUFFER_HEIGHT ==> (#[trigger] self.grid()[i]).len()
                        == BUFFER_WIDTH,
                    forall|i: int|
                        0 <= i < row - 1 ==> #[trigger] self.grid()[i] == w0.grid()[i + 1],
                    forall|i: int|
                        row <= i < BUFFER_HEIGHT ==> #[trigger] self.grid()[i] == w0.grid()[i],
                    forall|j: int| 0 <= j < col ==> #[trigger] self.grid()[row - 1][j]
                        == w0.grid()[row as int][j],
                decreases BUFFER_WIDTH - col,
            {
                let value = buffer_read(&self.buffer, row, col);
                buffer_write(&mut self.buffer, row - 1, col, value);
                col = col + 1;
            }
            proof {
                assert(self.grid()[row - 1] =~= w0.grid()[row as int]);
            }
            row = row + 1;
        }
        proof {
            assert forall|i: int| 0 <= i < self.grid().len() implies row_ok(
                #[trigger] self.grid()[i],
            ) by {
                if i < BUFFER_HEIGHT - 1 {
                    assert(self.grid()[i] == w0.grid()[i + 1]);
                    assert(row_ok(w0.grid()[i + 1]));
                } else {
                    assert(row_ok(w0.grid()[i]));
                }
            }
        }
        self.clear_line(BUFFER_HEIGHT - 1);
        self.column_position = 0;
        proof {
            assert forall|r: int| 0 <= r < BUFFER_HEIGHT implies #[trigger] self.grid()[r]
                == scrolled(w0.grid())[r] by {
                if r < BUFFER_HEIGHT - 1 {
                    assert(self.grid()[r] == w0.grid()[r + 1]);
                }
            }
            assert(self.grid() =~= scrolled(w0.grid()));
        }
    }

    /// Emits one byte: a newline scrolls; otherwise the byte's glyph (the
    /// byte itself if printable, the substitution glyph if not) is placed at
    /// the cursor, after a scroll if the bottom row is already full.
    pub fn write_byte(&mut self, byte: u8)
        requires
            old(self).wf(),
        ensures
            final(self).wf(),
            final(self).color_code == old(self).color_code,
            final(self).grid() == byte_written(
                old(self).grid(),
                old(self).column_position as int,
                old(self).color_code,
                byte,
            ).0,
            final(self).column_position as int == byte_written(
                old(self).grid(),
                old(self).column_position as int,
                old(self).color_code,
                byte,
            ).1,
    {
        if byte == 0x0a {
            self.new_line();
        } else {
            if self.column_position >= BUFFER_WIDTH {
                self.new_line();
            }
            let ghost g1 = self.grid();
            let row = BUFFER_HEIGHT - 1;
            let col = self.column_position;
            let display_byte = if 0x20 <= byte && byte <= 0x7e {
                byte
            } else {
                0xfe
            };
            let cell = ScreenChar { ascii_char: display_byte, color_code: self.color_code };
            buffer_write(&mut self.buffer, row, col, cell);
            self.column_position = col + 1;
            proof {
                assert(cell == encode(glyph(byte), self.color_code));
                assert(self.grid() == cell_put(g1, col as int, cell));
                assert forall|i: int| 0 <= i < self.grid().len() implies row_ok(
                    #[trigger] self.grid()[i],
                ) by {
                    if i == BUFFER_HEIGHT - 1 {
                        assert forall|c: int|
                            0 <= c < self.grid()[i].len() implies is_displayable(
                            (#[trigger] self.grid()[i][c]).ascii_char,
                        ) by {
                            if c != col {
                                assert(self.grid()[i][c] == g1[i][c]);
                            }
                        }
                    } else {
                        assert(self.grid()[i] == g1[i]);
                        assert(row_ok(g1[i]));
                    }
                }
            }
        }
    }

    /// Emits a string byte by byte: each byte in the printable range or the
    /// newline goes through unchanged, every other byte goes through as the
    /// substitution glyph.
    pub fn write_string(&mut self, s: &str)
        requires
            old(self).wf(),
        ensures
            final(self).wf(),
            final(self).color_code == old(self).color_code,
            final(self).grid() == string_written(
                old(self).grid(),
                old(self).column_position as int,
                old(self).color_code,
                s.spec_bytes(),
            ).0,
            final(self).column_position as int == string_written(
                old(self).grid(),
                old(self).column_position as int,
                old(self).color_code,
                s.spec_bytes(),
            ).1,
    {
        let ghost w0 = *self;
        let bytes = s.as_bytes();
        let n = bytes.len();
        let mut i: usize = 0;
        while i < n
            invariant
                i <= n,
                n == bytes@.len(),
                bytes@ == s.spec_bytes(),
                self.wf(),
                self.color_code == w0.color_code,
                self.grid() == string_written(
                    w0.grid(),
                    w0.column_position as int,
                    w0.color_code,
                    bytes@.take(i as int),
                ).0,
                self.column_position as int == string_written(
                    w0.grid(),
                    w0.column_position as int,
                    w0.color_code,
                    bytes@.take(i as int),
                ).1,
            decreases n - i,
        {
            let byte = bytes[i];
            proof {
                assert(bytes@.take(i + 1) =~= bytes@.take(i as int).push(byte));
                lemma_string_written_push(
                    w0.grid(),
                    w0.column_position as int,
                    w0.color_code,
                    bytes@.take(i as int),
                    byte,
                );
            }
            if (0x20 <= byte && byte <= 0x7e) || byte == 0x0a {
                self.write_byte(byte);
            } else {
                self.write_byte(0xfe);
            }
            i = i + 1;
        }
        proof {
            assert(bytes@.take(n as int) =~= bytes@);
        }
    }
}

/// Law: with room in the bottom row, a printable byte lands at the cursor
/// as `encode(b, color)`, the cursor advances by one, and every other cell,
/// in particular every row above, is unchanged.
pub proof fn lemma_write_byte_printable(g: Seq<Seq<ScreenChar>>, col: int, color: ColorCode, b: u8)
    requires
        grid_ok(g),
        0 <= col < BUFFER_WIDTH,
        0x20 <= b <= 0x7e,
    ensures
        byte_written(g, col, color, b).1 == col + 1,
        byte_written(g, col, color, b).0[BUFFER_HEIGHT - 1][col] == encode(b, color),
        forall|r: int|
            0 <= r < BUFFER_HEIGHT - 1 ==> #[trigger] byte_written(g, col, color, b).0[r] == g[r],
        forall|c: int|
            0 <= c < BUFFER_WIDTH && c != col ==> (#[trigger] byte_written(g, col, color, b).0[
                BUFFER_HEIGHT - 1][c]) == g[BUFFER_HEIGHT - 1][c],
{
    assert(glyph(b) == b);
}

/// Law: a byte outside the printable range that is not the newline writes
/// exactly what the substitution glyph writes.
pub proof fn lemma_write_byte_substitution(
    g: Seq<Seq<ScreenChar>>,
    col: int,
    color: ColorCode,
    b: u8,
)
    requires
        !(0x20 <= b <= 0x7e),
        b != 0x0a,
    ensures
        byte_written(g, col, color, b).0 == byte_written(g, col, color, 0xfe).0,
        byte_written(g, col, color, b).1 == byte_written(g, col, color, 0xfe).1,
{
    assert(glyph(b) == glyph(0xfe));
}

/// Law: scrolling an all-blank grid gives back the all-blank grid, so a
/// newline on it changes nothing but the cursor, which rewinds to 0.
pub proof fn lemma_scroll_blank(col: int, color: ColorCode)
    ensures
        scrolled(blank_grid()) == blank_grid(),
        byte_written(blank_grid(), col, color, 0x0a).0 == blank_grid(),
        byte_written(blank_grid(), col, color, 0x0a).1 == 0,
{
    assert(scrolled(blank_grid()) =~= blank_grid());
}

/// Law: a newline always rewinds the cursor to column 0 and performs
/// exactly one scroll, whatever the column.
pub proof fn lemma_newline(g: Seq<Seq<ScreenChar>>, col: int, color: ColorCode)
    ensures
        byte_written(g, col, color, 0x0a).0 == scrolled(g),
        byte_written(g, col, color, 0x0a).1 == 0,
{
}

/// Law: a run of printable bytes that fits in the bottom row lands left to
/// right at the cursor, advances the cursor by its length, and touches no
/// other cell.
pub proof fn lemma_fill_row(g: Seq<Seq<ScreenChar>>, col: int, color: ColorCode, s: Seq<u8>)
    requires
        grid_ok(g),
        0 <= col,
        col + s.len() <= BUFFER_WIDTH,
        forall|i: int| 0 <= i < s.len() ==> 0x20 <= #[trigger] s[i] <= 0x7e,
    ensures
        string_written(g, col, color, s).1 == col + s.len(),
        grid_ok(string_written(g, col, color, s).0),
        forall|r: int|
            0 <= r < BUFFER_HEIGHT - 1 ==> #[trigger] string_written(g, col, color, s).0[r] == g[r],
        forall|c: int|
            0 <= c < BUFFER_WIDTH && !(col <= c < col + s.len()) ==> (#[trigger] string_written(
                g,
                col,
                color,
                s,
            ).0[BUFFER_HEIGHT - 1][c]) == g[BUFFER_HEIGHT - 1][c],
        forall|i: int|
            0 <= i < s.len() ==> (#[trigger] string_written(g, col, color, s).0[BUFFER_HEIGHT - 1][col
                + i]) == encode(s[i], color),
    decreases s.len(),
{
    if s.len() == 0 {
    } else {
        let b = s[0];
        assert(classified(b) == b);
        assert(glyph(b) == b);
        let g1 = cell_put(g, col, encode(b, color));
        assert(grid_ok(g1)) by {
            assert forall|r: int| 0 <= r < g1.len() implies row_ok(#[trigger] g1[r]) by {
                if r == BUFFER_HEIGHT - 1 {
                    assert(row_ok(g[r]));
                    assert forall|c: int| 0 <= c < g1[r].len() implies is_displayable(
                        (#[trigger] g1[r][c]).ascii_char,
                    ) by {
                        if c != col {
                            assert(g1[r][c] == g[r][c]);
                        }
                    }
                } else {
                    assert(g1[r] == g[r]);
                    assert(row_ok(g[r]));
                }
            }
        }
        lemma_fill_row(g1, col + 1, color, s.skip(1));
        let rest = string_written(g1, col + 1, color, s.skip(1));
        assert(string_written(g, col, color, s).0 == rest.0);
        assert(string_written(g, col, color, s).1 == rest.1);
        assert forall|i: int| 0 <= i < s.len() implies string_written(g, col, color, s).0[
            BUFFER_HEIGHT - 1][col + i] == encode(s[i], color) by {
            if i == 0 {
                assert(rest.0[BUFFER_HEIGHT - 1][col] == g1[BUFFER_HEIGHT - 1][col]);
                assert(g1[BUFFER_HEIGHT - 1][col] == encode(b, color));
            } else {
                assert(s.skip(1)[i - 1] == s[i]);
                assert(rest.0[BUFFER_HEIGHT - 1][col + 1 + (i - 1)] == encode(
                    s.skip(1)[i - 1],
                    color,
                ));
            }
        }
        assert forall|c: int|
            0 <= c < BUFFER_WIDTH && !(col <= c < col + s.len()) implies (
        #[trigger] string_written(g, col, color, s).0[BUFFER_HEIGHT - 1][c]) == g[BUFFER_HEIGHT
            - 1][c] by {
            assert(rest.0[BUFFER_HEIGHT - 1][c] == g1[BUFFER_HEIGHT - 1][c]);
            assert(g1[BUFFER_HEIGHT - 1][c] == g[BUFFER_HEIGHT - 1][c]);
        }
    }
}

/// Law: after exactly one row's worth of printable bytes from column 0 the
/// cursor sits at the row's end; one more printable byte scrolls exactly
/// once and lands at column 0 of the new bottom row, leaving the cursor at
/// 1.
pub proof fn lemma_wrap(g: Seq<Seq<ScreenChar>>, color: ColorCode, s: Seq<u8>, b: u8)
    requires
        grid_ok(g),
        s.len() == BUFFER_WIDTH,
        forall|i: int| 0 <= i < s.len() ==> 0x20 <= #[trigger] s[i] <= 0x7e,
        0x20 <= b <= 0x7e,
    ensures
        string_written(g, 0, color, s).1 == BUFFER_WIDTH,
        string_written(g, 0, color, s.push(b)).0 == cell_put(
            scrolled(string_written(g, 0, color, s).0),
            0,
            encode(b, color),
        ),
        string_written(g, 0, color, s.push(b)).1 == 1,
{
    lemma_fill_row(g, 0, color, s);
    lemma_string_written_push(g, 0, color, s, b);
    assert(classified(b) == b);
    assert(glyph(b) == b);
}

/// Law: a string of printable ASCII no longer than a row, written from
/// column 0, can be read back: the bottom row's first cells hold exactly
/// its bytes.
pub proof fn lemma_round_trip(g: Seq<Seq<ScreenChar>>, color: ColorCode, s: Seq<u8>)
    requires
        grid_ok(g),
        s.len() <= BUFFER_WIDTH,
        forall|i: int| 0 <= i < s.len() ==> 0x20 <= #[trigger] s[i] <= 0x7e,
    ensures
        forall|i: int|
            0 <= i < s.len() ==> (#[trigger] string_written(g, 0, color, s).0[BUFFER_HEIGHT - 1][i]).ascii_char
                == s[i],
{
    lemma_fill_row(g, 0, color, s);
    assert forall|i: int| 0 <= i < s.len() implies (#[trigger] string_written(g, 0, color, s).0[
        BUFFER_HEIGHT - 1][i]).ascii_char == s[i] by {
        assert(string_written(g, 0, color, s).0[BUFFER_HEIGHT - 1][0 + i] == encode(s[i], color));
    }
}

} // verus!

