//! The text buffer: colors, cell layout, and the writer that keeps the cursor.
use vstd::prelude::*;
use volatile::Volatile;
use vstd::string::StringSliceAdditionalSpecFns;

verus! {

/// Rows of the text buffer.
pub const BUFFER_HEIGHT: usize = 25;

/// Columns of the text buffer.
pub const BUFFER_WIDTH: usize = 80;

/// The byte shown in place of one that the display cannot render.
pub const PLACEHOLDER: u8 = 0xfe;

/// volatile::Volatile, the cell wrapper whose loads and stores the compiler
/// may not elide or merge.
#[verifier::external_type_specification]
#[verifier::external_body]
#[verifier::reject_recursive_types(T)]
pub struct ExVolatile<T: Copy>(Volatile<T>);

/// The 16-bit word that a volatile cell holds.
pub uninterp spec fn word_of(v: Volatile<u16>) -> u16;

/// Relies on volatile::Volatile::read: a volatile load of the wrapped value.
#[verifier::external_body]
fn read_word(v: &Volatile<u16>) -> (r: u16)
    ensures
        r == word_of(*v),
{
    v.read()
}

/// Relies on volatile::Volatile::write: a volatile store of the given value.
#[verifier::external_body]
fn write_word(v: &mut Volatile<u16>, w: u16)
    ensures
        word_of(*final(v)) == w,
    no_unwind
{
    v.write(w)
}

/// The sixteen colors of text mode.
#[derive(Clone, Copy, Debug, PartialEq, Eq, Structural)]
pub enum Color {
    Black,
    Blue,
    Green,
    Cyan,
    Red,
    Magenta,
    Brown,
    LightGray,
    DarkGray,
    LightBlue,
    LightGreen,
    LightCyan,
    LightRed,
    Pink,
    Yellow,
    White,
}

impl Color {
    /// The 4-bit hardware number of the color.
    pub open spec fn spec_code(self) -> u8 {
        match self {
            Color::Black => 0,
            Color::Blue => 1,
            Color::Green => 2,
            Color::Cyan => 3,
            Color::Red => 4,
            Color::Magenta => 5,
            Color::Brown => 6,
            Color::LightGray => 7,
            Color::DarkGray => 8,
            Color::LightBlue => 9,
            Color::LightGreen => 10,
            Color::LightCyan => 11,
            Color::LightRed => 12,
            Color::Pink => 13,
            Color::Yellow => 14,
            Color::White => 15,
        }
    }

    pub fn code(self) -> (r: u8)
        ensures
            r == self.spec_code(),
            r < 16,
    {
        match self {
            Color::Black => 0,
            Color::Blue => 1,
            Color::Green => 2,
            Color::Cyan => 3,
            Color::Red => 4,
            Color::Magenta => 5,
            Color::Brown => 6,
            Color::LightGray => 7,
            Color::DarkGray => 8,
            Color::LightBlue => 9,
            Color::LightGreen => 10,
            Color::LightCyan => 11,
            Color::LightRed => 12,
            Color::Pink => 13,
            Color::Yellow => 14,
            Color::White => 15,
        }
    }
}

/// Foreground in the low nibble, background in the high nibble.
pub open spec fn pack(foreground: u8, background: u8) -> u8 {
    ((background << 4u8) | foreground) as u8
}

/// One attribute byte: background and foreground color.
#[derive(Clone, Copy, Debug, PartialEq, Eq, Structural)]
pub struct ColorCode(pub u8);

impl ColorCode {
    pub fn new(foreground: Color, background: Color) -> (r: ColorCode)
        ensures
            r.0 == pack(foreground.spec_code(), background.spec_code()),
            r.0 == background.spec_code() * 16 + foreground.spec_code(),
    {
        let f = foreground.code();
        let b = background.code();
        assert(((b << 4u8) | f) as u8 == b * 16 + f) by (bit_vector)
            requires
                f < 16,
                b < 16,
        ;
        ColorCode((b << 4) | f)
    }
}

/// A character cell: a code point byte and its attribute byte.
#[derive(Clone, Copy, Debug, PartialEq, Eq, Structural)]
pub struct ScreenChar {
    pub ascii_character: u8,
    pub color_code: ColorCode,
}

/// The cell as the hardware stores it: code point in the low byte, attribute
/// in the high byte, so that on a little-endian machine the code point comes
/// first in memory.
pub open spec fn encode(c: ScreenChar) -> u16 {
    (((c.color_code.0 as u16) << 8u16) | (c.ascii_character as u16)) as u16
}

pub open spec fn decode(w: u16) -> ScreenChar {
    ScreenChar { ascii_character: (w & 0xffu16) as u8, color_code: ColorCode((w >> 8u16) as u8) }
}

pub proof fn lemma_decode_encode(c: ScreenChar)
    ensures
        decode(encode(c)) == c,
{
    let a = c.ascii_character;
    let k = c.color_code.0;
    assert((((((k as u16) << 8u16) | (a as u16)) as u16) & 0xffu16) as u8 == a) by (bit_vector);
    assert((((((k as u16) << 8u16) | (a as u16)) as u16) >> 8u16) as u8 == k) by (bit_vector);
}

impl ScreenChar {
    pub fn to_word(self) -> (r: u16)
        ensures
            r == encode(self),
    {
        ((self.color_code.0 as u16) << 8) | (self.ascii_character as u16)
    }

    pub fn from_word(w: u16) -> (r: ScreenChar)
        ensures
            r == decode(w),
    {
        ScreenChar { ascii_character: (w & 0xff) as u8, color_code: ColorCode((w >> 8) as u8) }
    }
}

/// The memory-mapped text buffer: rows of volatile cells, without gaps.
pub struct Buffer {
    pub chars: [[Volatile<u16>; BUFFER_WIDTH]; BUFFER_HEIGHT],
}


/// What the writer holds, as mathematics: the cursor column, the color of new
/// cells, and the grid of cells, row by row.
pub ghost struct Screen {
    pub column: nat,
    pub color: ColorCode,
    pub rows: Seq<Seq<ScreenChar>>,
}

/// A row of blank cells in the given color.
pub open spec fn blank_row(color: ColorCode) -> Seq<ScreenChar> {
    Seq::new(BUFFER_WIDTH as nat, |c: int| ScreenChar { ascii_character: 0x20u8, color_code: color })
}

/// The byte that is stored for `b`: printable ASCII and newline pass, the rest
/// become the placeholder.
pub open spec fn displayable(b: u8) -> u8 {
    if (0x20 <= b && b <= 0x7e) || b == 0x0a {
        b
    } else {
        PLACEHOLDER
    }
}

impl Screen {
    /// The cursor stays within the row, every row has the full width, and
    /// there are exactly the buffer's rows.
    pub open spec fn wf(self) -> bool {
        &&& self.column <= BUFFER_WIDTH
        &&& self.rows.len() == BUFFER_HEIGHT
        &&& forall|r: int| 0 <= r < BUFFER_HEIGHT ==> #[trigger] self.rows[r].len() == BUFFER_WIDTH
    }

    /// Every row moves up by one; the top row is lost, the bottom row is
    /// blanked in the current color, and the cursor goes to column 0.
    pub open spec fn new_line(self) -> Screen {
        Screen {
            column: 0,
            color: self.color,
            rows: Seq::new(
                BUFFER_HEIGHT as nat,
                |r: int|
                    if r < BUFFER_HEIGHT - 1 {
                        self.rows[r + 1]
                    } else {
                        blank_row(self.color)
                    },
            ),
        }
    }

    /// Stores `b` at the cursor on the bottom row and advances the cursor.
    pub open spec fn put(self, b: u8) -> Screen {
        let last = BUFFER_HEIGHT - 1;
        Screen {
            column: self.column + 1,
            color: self.color,
            rows: self.rows.update(
                last,
                self.rows[last].update(
                    self.column as int,
                    ScreenChar { ascii_character: b, color_code: self.color },
                ),
            ),
        }
    }

    /// One byte: a newline scrolls; any other byte is made displayable and
    /// stored at the cursor, after a scroll when the bottom row is full.
    pub open spec fn write_byte(self, b: u8) -> Screen {
        if b == 0x0a {
            self.new_line()
        } else if self.column >= BUFFER_WIDTH {
            self.new_line().put(displayable(b))
        } else {
            self.put(displayable(b))
        }
    }

    /// The bytes one after another.
    pub open spec fn write_bytes(self, bs: Seq<u8>) -> Screen
        decreases bs.len(),
    {
        if bs.len() == 0 {
            self
        } else {
            self.write_bytes(bs.drop_last()).write_byte(bs.last())
        }
    }
}

/// The decimal digits of `n`, most significant first, without leading zeros.
pub open spec fn decimal(n: nat) -> Seq<u8>
    decreases n,
{
    if n < 10 {
        seq![(0x30 + n) as u8]
    } else {
        decimal(n / 10).push((0x30 + n % 10) as u8)
    }
}

/// Writing two byte strings one after the other is writing their concatenation.
pub proof fn lemma_write_bytes_append(v: Screen, a: Seq<u8>, b: Seq<u8>)
    ensures
        v.write_bytes(a + b) == v.write_bytes(a).write_bytes(b),
    decreases b.len(),
{
    if b.len() == 0 {
        assert(a + b =~= a);
    } else {
        assert((a + b).drop_last() =~= a + b.drop_last());
        assert((a + b).last() == b.last());
        lemma_write_bytes_append(v, a, b.drop_last());
    }
}

/// Bytes that hold no newline, written where they fit on the bottom row, land
/// on that row from the cursor on, in order: a printable ASCII byte as it is,
/// any other byte as the placeholder, all in the current color. No row
/// scrolls and no other cell changes.
pub proof fn lemma_write_within_row(v: Screen, bs: Seq<u8>)
    requires
        v.wf(),
        v.column + bs.len() <= BUFFER_WIDTH,
        forall|i: int| 0 <= i < bs.len() ==> bs[i] != 0x0a,
    ensures
        ({
            let w = v.write_bytes(bs);
            &&& w.wf()
            &&& w.column == v.column + bs.len()
            &&& w.color == v.color
            &&& forall|r: int| 0 <= r < BUFFER_HEIGHT - 1 ==> #[trigger] w.rows[r] == v.rows[r]
            &&& forall|c: int|
                0 <= c < BUFFER_WIDTH ==> #[trigger] w.rows[BUFFER_HEIGHT - 1][c] == if v.column
                    <= c < v.column + bs.len() {
                    ScreenChar {
                        ascii_character: if 0x20 <= bs[c - v.column] <= 0x7e {
                            bs[c - v.column]
                        } else {
                            PLACEHOLDER
                        },
                        color_code: v.color,
                    }
                } else {
                    v.rows[BUFFER_HEIGHT - 1][c]
                }
        }),
    decreases bs.len(),
{
    if bs.len() > 0 {
        let front = bs.drop_last();
        lemma_write_within_row(v, front);
        let w0 = v.write_bytes(front);
        let w = v.write_bytes(bs);
        assert(w == w0.put(displayable(bs.last())));
        assert forall|r: int| 0 <= r < BUFFER_HEIGHT implies #[trigger] w.rows[r].len()
            == BUFFER_WIDTH by {
            assert(w0.rows[r].len() == BUFFER_WIDTH);
        }
        assert forall|r: int| 0 <= r < BUFFER_HEIGHT - 1 implies #[trigger] w.rows[r] == v.rows[r] by {
            assert(w0.rows[r] == v.rows[r]);
        }
    }
}

/// A code point that the display can show: printable ASCII or the placeholder.
pub open spec fn shown(b: u8) -> bool {
    (0x20 <= b && b <= 0x7e) || b == PLACEHOLDER
}

impl Screen {
    /// Every cell holds a code point that the display can show.
    pub open spec fn clean(self) -> bool {
        forall|r: int, c: int|
            0 <= r < BUFFER_HEIGHT && 0 <= c < BUFFER_WIDTH ==> shown(
                #[trigger] self.rows[r][c].ascii_character,
            )
    }
}

proof fn lemma_write_byte_keeps_clean(v: Screen, b: u8)
    requires
        v.wf(),
        v.clean(),
    ensures
        v.write_byte(b).wf(),
        v.write_byte(b).clean(),
{
    let n = v.new_line();
    assert(n.wf());
    assert forall|r: int, c: int| 0 <= r < BUFFER_HEIGHT && 0 <= c < BUFFER_WIDTH implies shown(
        #[trigger] n.rows[r][c].ascii_character,
    ) by {
        if r < BUFFER_HEIGHT - 1 {
            assert(n.rows[r][c] == v.rows[r + 1][c]);
        }
    }
}

/// Whatever bytes are written, a screen whose cells the display can all show
/// stays so: no control byte, DEL or non-ASCII byte reaches a cell, and a
/// newline never lands in one.
pub proof fn lemma_write_bytes_keeps_clean(v: Screen, bs: Seq<u8>)
    requires
        v.wf(),
        v.clean(),
    ensures
        v.write_bytes(bs).wf(),
        v.write_bytes(bs).clean(),
    decreases bs.len(),
{
    if bs.len() > 0 {
        lemma_write_bytes_keeps_clean(v, bs.drop_last());
        lemma_write_byte_keeps_clean(v.write_bytes(bs.drop_last()), bs.last());
    }
}

/// On an empty bottom row, eighty bytes without a newline fill it exactly,
/// with no scroll; the byte after them scrolls exactly once and then lands in
/// column 0 of the new bottom row.
pub proof fn lemma_full_row_then_wrap(v: Screen, bs: Seq<u8>)
    requires
        v.wf(),
        v.column == 0,
        bs.len() == BUFFER_WIDTH + 1,
        forall|i: int| 0 <= i < bs.len() ==> bs[i] != 0x0a,
    ensures
        ({
            let full = v.write_bytes(bs.take(BUFFER_WIDTH as int));
            &&& full.column == BUFFER_WIDTH
            &&& forall|r: int| 0 <= r < BUFFER_HEIGHT - 1 ==> #[trigger] full.rows[r] == v.rows[r]
            &&& forall|c: int|
                0 <= c < BUFFER_WIDTH ==> #[trigger] full.rows[BUFFER_HEIGHT - 1][c] == (ScreenChar {
                    ascii_character: displayable(bs[c]),
                    color_code: v.color,
                })
            &&& v.write_bytes(bs) == full.new_line().put(displayable(bs[BUFFER_WIDTH as int]))
        }),
{
    let head = bs.take(BUFFER_WIDTH as int);
    lemma_write_within_row(v, head);
    assert(bs.drop_last() =~= head);
}

/// From column 0, between 81 and 160 bytes without a newline scroll exactly
/// once: the first eighty end up on the row above the bottom, the rest on the
/// bottom row from column 0, which is blank after them; every other row moves
/// up by one.
pub proof fn lemma_wrap_once(v: Screen, bs: Seq<u8>)
    requires
        v.wf(),
        v.column == 0,
        BUFFER_WIDTH < bs.len() <= 2 * BUFFER_WIDTH,
        forall|i: int| 0 <= i < bs.len() ==> bs[i] != 0x0a,
    ensures
        ({
            let w = v.write_bytes(bs);
            let m = bs.len() - BUFFER_WIDTH;
            &&& w.wf()
            &&& w.column == m
            &&& w.color == v.color
            &&& forall|r: int| 0 <= r < BUFFER_HEIGHT - 2 ==> #[trigger] w.rows[r] == v.rows[r + 1]
            &&& forall|c: int|
                0 <= c < BUFFER_WIDTH ==> #[trigger] w.rows[BUFFER_HEIGHT - 2][c] == (ScreenChar {
                    ascii_character: displayable(bs[c]),
                    color_code: v.color,
                })
            &&& forall|c: int|
                0 <= c < BUFFER_WIDTH ==> #[trigger] w.rows[BUFFER_HEIGHT - 1][c] == if c < m {
                    ScreenChar { ascii_character: displayable(bs[BUFFER_WIDTH + c]), color_code: v.color }
                } else {
                    ScreenChar { ascii_character: 0x20u8, color_code: v.color }
                }
        }),
{
    let head = bs.take(BUFFER_WIDTH as int);
    let rest = bs.skip(BUFFER_WIDTH as int);
    lemma_write_within_row(v, head);
    let full = v.write_bytes(head);
    assert(head + rest =~= bs);
    lemma_write_bytes_append(v, head, rest);
    let first = seq![rest[0]];
    let tail = rest.skip(1);
    assert(first + tail =~= rest);
    assert(first.drop_last() =~= Seq::<u8>::empty());
    let n = full.new_line();
    assert(n.wf());
    assert(rest[0] == bs[BUFFER_WIDTH as int]);
    assert(first.last() == rest[0]);
    assert(full.write_bytes(first.drop_last()) == full);
    assert(n.write_bytes(first.drop_last()) == n);
    assert(full.write_bytes(first) == n.put(displayable(rest[0])));
    assert(n.write_bytes(first) == n.put(displayable(rest[0])));
    lemma_write_bytes_append(full, first, tail);
    lemma_write_bytes_append(n, first, tail);
    assert(full.write_bytes(rest) == n.write_bytes(rest));
    assert forall|i: int| 0 <= i < rest.len() implies rest[i] != 0x0a by {
        assert(rest[i] == bs[BUFFER_WIDTH + i]);
    }
    lemma_write_within_row(n, rest);
    let w = n.write_bytes(rest);
    assert forall|c: int| 0 <= c < BUFFER_WIDTH implies #[trigger] w.rows[BUFFER_HEIGHT
        - 1][c] == if c < rest.len() {
        ScreenChar { ascii_character: displayable(bs[BUFFER_WIDTH + c]), color_code: v.color }
    } else {
        ScreenChar { ascii_character: 0x20u8, color_code: v.color }
    } by {
        if c < rest.len() {
            assert(rest[c] == bs[BUFFER_WIDTH + c]);
        }
    }
    assert forall|c: int| 0 <= c < BUFFER_WIDTH implies #[trigger] w.rows[BUFFER_HEIGHT
        - 2][c] == (ScreenChar { ascii_character: displayable(bs[c]), color_code: v.color }) by {
        assert(head[c] == bs[c]);
    }
}

/// The cursor and color over the hardware buffer. Output always goes to the
/// bottom row; only scrolling moves content between rows.
pub struct Writer {
    column_position: usize,
    color_code: ColorCode,
    buffer: &'static mut Buffer,
}

impl View for Writer {
    type V = Screen;

    closed spec fn view(&self) -> Screen {
        Screen {
            column: self.column_position as nat,
            color: self.color_code,
            rows: Seq::new(
                BUFFER_HEIGHT as nat,
                |r: int| Seq::new(BUFFER_WIDTH as nat, |c: int| self.cell(r, c)),
            ),
        }
    }
}

impl Writer {
    /// The cursor never passes the end of the row.
    #[verifier::type_invariant]
    closed spec fn inv(&self) -> bool {
        self.column_position <= BUFFER_WIDTH
    }

    /// A writer's cursor lies in `0..=BUFFER_WIDTH` and its grid has the
    /// buffer's shape.
    proof fn lemma_view_wf(&self)
        requires
            self.column_position <= BUFFER_WIDTH,
        ensures
            self@.wf(),
    {
    }

    /// The cell at row `r`, column `c`, decoded.
    pub closed spec fn cell(&self, r: int, c: int) -> ScreenChar {
        decode(word_of(self.buffer.chars[r][c]))
    }

    pub fn new(buffer: &'static mut Buffer, color_code: ColorCode) -> (r: Writer)
        ensures
            r@.column == 0,
            r@.color == color_code,
            r@.rows == buffer_rows(*old(buffer)),
            r@.wf(),
    {
        let w = Writer { column_position: 0, color_code, buffer };
        assert(w@.rows =~~= buffer_rows(*old(buffer)));
        proof {
            w.lemma_view_wf();
        }
        w
    }

    /// The cursor column: how many cells of the bottom row are taken.
    pub fn column_position(&self) -> (r: usize)
        ensures
            r == self@.column,
            self@.wf(),
    {
        proof {
            use_type_invariant(self);
            self.lemma_view_wf();
        }
        self.column_position
    }

    /// The color given to new cells.
    pub fn color_code(&self) -> (r: ColorCode)
        ensures
            r == self@.color,
    {
        self.color_code
    }

    /// Reads the cell at `row`, `col` from the buffer.
    pub fn read_char(&self, row: usize, col: usize) -> (r: ScreenChar)
        requires
            row < BUFFER_HEIGHT,
            col < BUFFER_WIDTH,
        ensures
            r == self@.rows[row as int][col as int],
    {
        ScreenChar::from_word(read_word(&self.buffer.chars[row][col]))
    }

    /// Writes the bytes of `s` one by one; a byte that the display cannot
    /// render is stored as the placeholder. UTF-8 is not decoded.
    pub fn write_string(&mut self, s: &str)
        ensures
            final(self)@ == old(self)@.write_bytes(s.spec_bytes()),
            final(self)@.wf(),
    {
        self.write_slice(s.as_bytes());
    }

    /// Writes `n` in decimal.
    pub fn write_decimal(&mut self, n: usize)
        ensures
            final(self)@ == old(self)@.write_bytes(decimal(n as nat)),
            final(self)@.wf(),
    {
        let digits = decimal_digits(n);
        self.write_slice(digits.as_slice());
    }

    fn write_slice(&mut self, bytes: &[u8])
        ensures
            final(self)@ == old(self)@.write_bytes(bytes@),
            final(self)@.wf(),
    {
        proof {
            use_type_invariant(&*self);
            self.lemma_view_wf();
        }
        let mut i: usize = 0;
        while i < bytes.len()
            invariant
                i <= bytes@.len(),
                self@ == old(self)@.write_bytes(bytes@.take(i as int)),
                self@.wf(),
            decreases bytes@.len() - i,
        {
            self.write_byte(bytes[i]);
            assert(bytes@.take(i + 1).drop_last() =~= bytes@.take(i as int));
            i += 1;
        }
        assert(bytes@.take(i as int) =~= bytes@);
    }

    /// Writes one byte at the cursor. A newline scrolls; another byte first
    /// scrolls when the bottom row is full, and is stored as the placeholder
    /// when the display cannot render it.
    pub fn write_byte(&mut self, byte: u8)
        ensures
            final(self)@ == old(self)@.write_byte(byte),
            final(self)@.wf(),
    {
        if byte == 0x0a {
            self.new_line();
        } else {
            if self.column_position >= BUFFER_WIDTH {
                self.new_line();
            }
            let ghost before = self@;
            let row = BUFFER_HEIGHT - 1;
            let col = self.column_position;
            let shown = if 0x20 <= byte && byte <= 0x7e {
                byte
            } else {
                PLACEHOLDER
            };
            let ch = ScreenChar { ascii_character: shown, color_code: self.color_code };
            self.write_char(row, col, ch);
            let ghost written = self@;
            self.column_position = col + 1;
            assert(self@.rows =~~= written.rows);
            assert forall|r: int| 0 <= r < BUFFER_HEIGHT implies written.rows[r] == before.put(
                displayable(byte),
            ).rows[r] by {
                assert(written.rows[r] =~= before.put(displayable(byte)).rows[r]);
            }
            assert(written.rows =~= before.put(displayable(byte)).rows);
        }
        proof {
            use_type_invariant(&*self);
            self.lemma_view_wf();
        }
    }

    /// Fills row `row` with blanks in the current color.
    pub fn clear_row(&mut self, row: usize)
        requires
            row < BUFFER_HEIGHT,
        ensures
            final(self)@ == (Screen {
                rows: old(self)@.rows.update(row as int, blank_row(old(self)@.color)),
                ..old(self)@
            }),
            final(self)@.wf(),
    {
        let blank = ScreenChar { ascii_character: 0x20, color_code: self.color_code };
        let mut col: usize = 0;
        while col < BUFFER_WIDTH
            invariant
                row < BUFFER_HEIGHT,
                col <= BUFFER_WIDTH,
                blank == (ScreenChar { ascii_character: 0x20u8, color_code: old(self).color_code }),
                self.column_position == old(self).column_position,
                self.color_code == old(self).color_code,
                forall|r: int, c: int|
                    #![trigger self.cell(r, c)]
                    0 <= r < BUFFER_HEIGHT && 0 <= c < BUFFER_WIDTH ==> self.cell(r, c) == if r
                        == row && c < col {
                        blank
                    } else {
                        old(self).cell(r, c)
                    },
            decreases BUFFER_WIDTH - col,
        {
            self.write_char(row, col, blank);
            col += 1;
        }
        assert(self@.rows =~~= old(self)@.rows.update(row as int, blank_row(old(self)@.color)));
        proof {
            use_type_invariant(&*self);
            self.lemma_view_wf();
        }
    }

    /// Moves every row up by one, drops the top row, blanks the bottom row and
    /// puts the cursor at column 0.
    pub fn new_line(&mut self)
        ensures
            final(self)@ == old(self)@.new_line(),
            final(self)@.wf(),
    {
        let mut row: usize = 1;
        while row < BUFFER_HEIGHT
            invariant
                1 <= row <= BUFFER_HEIGHT,
                self.column_position == old(self).column_position,
                self.color_code == old(self).color_code,
                forall|r: int, c: int|
                    #![trigger self.cell(r, c)]
                    0 <= r < BUFFER_HEIGHT && 0 <= c < BUFFER_WIDTH ==> self.cell(r, c) == if r
                        < row - 1 {
                        old(self).cell(r + 1, c)
                    } else {
                        old(self).cell(r, c)
                    },
            decreases BUFFER_HEIGHT - row,
        {
            let mut col: usize = 0;
            while col < BUFFER_WIDTH
                invariant
                    1 <= row < BUFFER_HEIGHT,
                    col <= BUFFER_WIDTH,
                    self.column_position == old(self).column_position,
                    self.color_code == old(self).color_code,
                    forall|r: int, c: int|
                        #![trigger self.cell(r, c)]
                        0 <= r < BUFFER_HEIGHT && 0 <= c < BUFFER_WIDTH ==> self.cell(r, c) == if r
                            < row - 1 || (r == row - 1 && c < col) {
                            old(self).cell(r + 1, c)
                        } else {
                            old(self).cell(r, c)
                        },
                decreases BUFFER_WIDTH - col,
            {
                let character = self.read_char(row, col);
                self.write_char(row - 1, col, character);
                col += 1;
            }
            row += 1;
        }
        let ghost moved = self@;
        assert forall|r: int| 0 <= r < BUFFER_HEIGHT - 1 implies moved.rows[r] == old(self)@.rows[r
            + 1] by {
            assert(moved.rows[r] =~= old(self)@.rows[r + 1]);
        }
        self.clear_row(BUFFER_HEIGHT - 1);
        let ghost cleared = self@;
        self.column_position = 0;
        assert(self@.rows =~~= cleared.rows);
        assert(cleared.rows =~= old(self)@.new_line().rows);
        proof {
            use_type_invariant(&*self);
            self.lemma_view_wf();
        }
    }

    /// Stores one cell; nothing else changes.
    fn write_char(&mut self, row: usize, col: usize, ch: ScreenChar)
        requires
            row < BUFFER_HEIGHT,
            col < BUFFER_WIDTH,
        ensures
            final(self).column_position == old(self).column_position,
            final(self).color_code == old(self).color_code,
            forall|r: int, c: int|
                #![trigger final(self).cell(r, c)]
                0 <= r < BUFFER_HEIGHT && 0 <= c < BUFFER_WIDTH ==> final(self).cell(r, c) == if r
                    == row && c == col {
                    ch
                } else {
                    old(self).cell(r, c)
                },
    {
        proof {
            use_type_invariant(&*self);
            lemma_decode_encode(ch);
        }
        write_word(&mut self.buffer.chars[row][col], ch.to_word());
    }
}

/// The digits of `n`, as `decimal` gives them.
fn decimal_digits(n: usize) -> (r: Vec<u8>)
    ensures
        r@ == decimal(n as nat),
    decreases n,
{
    if n < 10 {
        let mut v: Vec<u8> = Vec::new();
        v.push(0x30 + n as u8);
        assert(v@ =~= decimal(n as nat));
        v
    } else {
        let mut v = decimal_digits(n / 10);
        v.push(0x30 + (n % 10) as u8);
        v
    }
}

/// The grid of cells that a buffer holds.
pub open spec fn buffer_rows(b: Buffer) -> Seq<Seq<ScreenChar>> {
    Seq::new(
        BUFFER_HEIGHT as nat,
        |r: int| Seq::new(BUFFER_WIDTH as nat, |c: int| decode(word_of(b.chars[r][c]))),
    )
}

} // verus!
