use vstd::prelude::*;
use volatile::Volatile;
use vstd::string::StringSliceAdditionalSpecFns;

verus! {

pub const BUFFER_HEIGHT: usize = 25;

pub const BUFFER_WIDTH: usize = 80;

/// The sixteen colours of the text mode palette, in palette order.
#[derive(Debug, Clone, Copy, PartialEq, Eq, Structural)]
pub enum Colour {
    Black,
    Blue,
    Green,
    Cyan,
    Red,
    Magenta,
    Brown,
    LightGray,
    DarkGray,
    LightBlue,
    LightGreen,
    LightCyan,
    LightRed,
    Pink,
    Yellow,
    White,
}

impl Colour {
    pub open spec fn spec_value(self) -> u8 {
        match self {
            Colour::Black => 0,
            Colour::Blue => 1,
            Colour::Green => 2,
            Colour::Cyan => 3,
            Colour::Red => 4,
            Colour::Magenta => 5,
            Colour::Brown => 6,
            Colour::LightGray => 7,
            Colour::DarkGray => 8,
            Colour::LightBlue => 9,
            Colour::LightGreen => 10,
            Colour::LightCyan => 11,
            Colour::LightRed => 12,
            Colour::Pink => 13,
            Colour::Yellow => 14,
            Colour::White => 15,
        }
    }

    /// The palette index of the colour.
    pub fn value(self) -> (r: u8)
        ensures
            r == self.spec_value(),
            r < 16,
    {
        match self {
            Colour::Black => 0,
            Colour::Blue => 1,
            Colour::Green => 2,
            Colour::Cyan => 3,
            Colour::Red => 4,
            Colour::Magenta => 5,
            Colour::Brown => 6,
            Colour::LightGray => 7,
            Colour::DarkGray => 8,
            Colour::LightBlue => 9,
            Colour::LightGreen => 10,
            Colour::LightCyan => 11,
            Colour::LightRed => 12,
            Colour::Pink => 13,
            Colour::Yellow => 14,
            Colour::White => 15,
        }
    }
}

/// An attribute byte: background colour in the high nibble, foreground in the low one.
#[derive(Debug, Clone, Copy, PartialEq, Eq, Structural)]
pub struct ColourCode(pub u8);

impl ColourCode {
    pub fn new(foreground: Colour, background: Colour) -> (r: ColourCode)
        ensures
            r.0 == background.spec_value() * 16 + foreground.spec_value(),
    {
        let f = foreground.value();
        let b = background.value();
        assert((b << 4u8) | f == b * 16 + f) by (bit_vector)
            requires
                b < 16u8,
                f < 16u8,
        ;
        ColourCode((b << 4u8) | f)
    }
}


/// One character cell of the text grid: a code point byte and its attribute byte.
#[derive(Debug, Clone, Copy, PartialEq, Eq, Structural)]
pub struct ScreenChar {
    pub ascii_character: u8,
    pub colour_code: ColourCode,
}

/// volatile::Volatile, a value that is only loaded and stored with volatile accesses,
/// so that writes to device memory are neither elided nor reordered.
#[verifier::external_type_specification]
#[verifier::external_body]
#[verifier::reject_recursive_types(T)]
pub struct ExVolatile<T: Copy>(Volatile<T>);

/// The memory-mapped character grid, row by row.
pub type Buffer = [[Volatile<ScreenChar>; BUFFER_WIDTH]; BUFFER_HEIGHT];

/// What a volatile cell holds.
pub uninterp spec fn cell_value(v: Volatile<ScreenChar>) -> ScreenChar;

/// The grid as the rows of cells it holds.
pub open spec fn screen(buffer: &Buffer) -> Seq<Seq<ScreenChar>> {
    Seq::new(
        BUFFER_HEIGHT as nat,
        |r: int| Seq::new(BUFFER_WIDTH as nat, |c: int| cell_value(buffer[r][c])),
    )
}

/// Relies on volatile::Volatile::read: a volatile load returns the value the cell holds.
#[verifier::external_body]
fn read_cell(buffer: &Buffer, row: usize, col: usize) -> (r: ScreenChar)
    requires
        row < BUFFER_HEIGHT,
        col < BUFFER_WIDTH,
    ensures
        r == cell_value(buffer[row as int][col as int]),
{
    buffer[row][col].read()
}

/// Relies on volatile::Volatile::write: a volatile store replaces the value of that cell
/// alone.
#[verifier::external_body]
fn write_cell(buffer: &mut Buffer, row: usize, col: usize, c: ScreenChar)
    requires
        row < BUFFER_HEIGHT,
        col < BUFFER_WIDTH,
    ensures
        cell_value(final(buffer)[row as int][col as int]) == c,
        forall|i: int, j: int|
            0 <= i < BUFFER_HEIGHT && 0 <= j < BUFFER_WIDTH && (i != row || j != col)
                ==> cell_value(#[trigger] final(buffer)[i][j]) == cell_value(old(buffer)[i][j]),
{
    buffer[row][col].write(c)
}


/// The glyph written in place of a byte that the grid cannot show.
pub const REPLACEMENT_GLYPH: u8 = 0xfe;

pub open spec fn blank(colour: ColourCode) -> ScreenChar {
    ScreenChar { ascii_character: 0x20, colour_code: colour }
}

pub open spec fn blank_row(colour: ColourCode) -> Seq<ScreenChar> {
    Seq::new(BUFFER_WIDTH as nat, |c: int| blank(colour))
}

/// Every row moves up by one; the top row is lost and the bottom row becomes blank.
pub open spec fn scrolled(g: Seq<Seq<ScreenChar>>, colour: ColourCode) -> Seq<Seq<ScreenChar>> {
    g.subrange(1, BUFFER_HEIGHT as int).push(blank_row(colour))
}

/// The grid with one cell of the bottom row replaced.
pub open spec fn placed(g: Seq<Seq<ScreenChar>>, col: int, c: ScreenChar) -> Seq<Seq<ScreenChar>> {
    g.update(BUFFER_HEIGHT - 1, g[BUFFER_HEIGHT - 1].update(col, c))
}

/// The grid and the column after one byte is written at column `col`.
pub open spec fn after_byte(g: Seq<Seq<ScreenChar>>, col: nat, colour: ColourCode, byte: u8) -> (
    Seq<Seq<ScreenChar>>,
    nat,
) {
    if byte == 0x0a {
        (scrolled(g, colour), 0)
    } else if col >= BUFFER_WIDTH {
        (
            placed(
                scrolled(g, colour),
                0,
                ScreenChar { ascii_character: byte, colour_code: colour },
            ),
            1,
        )
    } else {
        (
            placed(g, col as int, ScreenChar { ascii_character: byte, colour_code: colour }),
            col + 1,
        )
    }
}

/// Printable ASCII and the newline pass through; every other byte shows as the
/// replacement glyph.
pub open spec fn shown_byte(b: u8) -> u8 {
    if (0x20 <= b && b <= 0x7e) || b == 0x0a {
        b
    } else {
        REPLACEMENT_GLYPH
    }
}

/// The grid and the column after the bytes `bs` are written, each through `shown_byte`.
pub open spec fn after_bytes(g: Seq<Seq<ScreenChar>>, col: nat, colour: ColourCode, bs: Seq<u8>) -> (
    Seq<Seq<ScreenChar>>,
    nat,
)
    decreases bs.len(),
{
    if bs.len() == 0 {
        (g, col)
    } else {
        let prev = after_bytes(g, col, colour, bs.drop_last());
        after_byte(prev.0, prev.1, colour, shown_byte(bs.last()))
    }
}

/// The cursor state of the text console: the column of the next character on the
/// bottom row and the attribute that new cells get.
pub struct Writer {
    column_position: usize,
    colour_code: ColourCode,
}

impl Writer {
    pub closed spec fn column(&self) -> nat {
        self.column_position as nat
    }

    pub closed spec fn colour(&self) -> ColourCode {
        self.colour_code
    }

    /// The column never passes the width of a row.
    pub closed spec fn wf(&self) -> bool {
        self.column_position <= BUFFER_WIDTH
    }

    pub fn new(colour_code: ColourCode) -> (r: Writer)
        ensures
            r.wf(),
            r.column() == 0,
            r.colour() == colour_code,
    {
        Writer { column_position: 0, colour_code }
    }

    pub fn column_position(&self) -> (r: usize)
        ensures
            r == self.column(),
    {
        self.column_position
    }

    pub fn colour_code(&self) -> (r: ColourCode)
        ensures
            r == self.colour(),
    {
        self.colour_code
    }

    /// Moves every row up by one, blanks the bottom row and returns to column 0.
    pub fn new_line(&mut self, buffer: &mut Buffer)
        ensures
            final(self).wf(),
            final(self).column() == 0,
            final(self).colour() == old(self).colour(),
            screen(final(buffer)) == scrolled(screen(old(buffer)), old(self).colour()),
    {
        let mut row: usize = 1;
        while row < BUFFER_HEIGHT
            invariant
                1 <= row <= BUFFER_HEIGHT,
                forall|i: int, j: int|
                    0 <= i < row - 1 && 0 <= j < BUFFER_WIDTH ==> cell_value(#[trigger] buffer[i][j])
                        == cell_value(old(buffer)[i + 1][j]),
                forall|i: int, j: int|
                    row - 1 <= i < BUFFER_HEIGHT && 0 <= j < BUFFER_WIDTH ==> cell_value(
                        #[trigger] buffer[i][j],
                    ) == cell_value(old(buffer)[i][j]),
            decreases BUFFER_HEIGHT - row,
        {
            let mut col: usize = 0;
            while col < BUFFER_WIDTH
                invariant
                    1 <= row < BUFFER_HEIGHT,
                    col <= BUFFER_WIDTH,
                    forall|i: int, j: int|
                        0 <= i < row - 1 && 0 <= j < BUFFER_WIDTH ==> cell_value(
                            #[trigger] buffer[i][j],
                        ) == cell_value(old(buffer)[i + 1][j]),
                    forall|j: int|
                        0 <= j < col ==> cell_value(#[trigger] buffer[row - 1][j]) == cell_value(
                            old(buffer)[row as int][j],
                        ),
                    forall|j: int|
                        col <= j < BUFFER_WIDTH ==> cell_value(#[trigger] buffer[row - 1][j])
                            == cell_value(old(buffer)[row - 1][j]),
                    forall|i: int, j: int|
                        row <= i < BUFFER_HEIGHT && 0 <= j < BUFFER_WIDTH ==> cell_value(
                            #[trigger] buffer[i][j],
                        ) == cell_value(old(buffer)[i][j]),
                decreases BUFFER_WIDTH - col,
            {
                let character = read_cell(buffer, row, col);
                write_cell(buffer, row - 1, col, character);
                col += 1;
            }
            row += 1;
        }
        let ghost moved = screen(buffer);
        assert(moved.subrange(0, BUFFER_HEIGHT - 1) =~~= screen(old(buffer)).subrange(
            1,
            BUFFER_HEIGHT as int,
        ));
        self.clear_row(buffer, BUFFER_HEIGHT - 1);
        self.column_position = 0;
        assert(screen(buffer) =~~= scrolled(screen(old(buffer)), self.colour()));
    }

    /// Writes one byte: a newline starts a new line; any other byte goes to the
    /// current column of the bottom row, after a new line if the row is full.
    pub fn write_byte(&mut self, buffer: &mut Buffer, byte: u8)
        requires
            old(self).wf(),
        ensures
            final(self).wf(),
            final(self).colour() == old(self).colour(),
            (screen(final(buffer)), final(self).column()) == after_byte(
                screen(old(buffer)),
                old(self).column(),
                old(self).colour(),
                byte,
            ),
    {
        if byte == 0x0a {
            self.new_line(buffer);
        } else {
            if self.column_position >= BUFFER_WIDTH {
                self.new_line(buffer);
            }
            let row = BUFFER_HEIGHT - 1;
            let col = self.column_position;
            let colour_code = self.colour_code;
            let ghost before = screen(buffer);
            write_cell(buffer, row, col, ScreenChar { ascii_character: byte, colour_code });
            assert(screen(buffer) =~~= placed(
                before,
                col as int,
                ScreenChar { ascii_character: byte, colour_code },
            ));
            self.column_position = col + 1;
        }
    }

    /// Writes the bytes of `s` in order, each printable ASCII byte and newline as it
    /// is and every other byte as the replacement glyph.
    pub fn write_string(&mut self, buffer: &mut Buffer, s: &str)
        requires
            old(self).wf(),
        ensures
            final(self).wf(),
            final(self).colour() == old(self).colour(),
            (screen(final(buffer)), final(self).column()) == after_bytes(
                screen(old(buffer)),
                old(self).column(),
                old(self).colour(),
                s.spec_bytes(),
            ),
    {
        let bytes = s.as_bytes();
        let mut i: usize = 0;
        while i < bytes.len()
            invariant
                i <= bytes@.len(),
                bytes@ == s.spec_bytes(),
                self.wf(),
                self.colour() == old(self).colour(),
                (screen(buffer), self.column()) == after_bytes(
                    screen(old(buffer)),
                    old(self).column(),
                    old(self).colour(),
                    bytes@.subrange(0, i as int),
                ),
            decreases bytes@.len() - i,
        {
            let byte = bytes[i];
            let shown = if (0x20 <= byte && byte <= 0x7e) || byte == 0x0a {
                byte
            } else {
                REPLACEMENT_GLYPH
            };
            self.write_byte(buffer, shown);
            assert(bytes@.subrange(0, i + 1).drop_last() =~= bytes@.subrange(0, i as int));
            i += 1;
        }
        assert(bytes@.subrange(0, bytes@.len() as int) =~= bytes@);
    }

    /// Overwrites every cell of `row` with a blank in the current colour.
    pub fn clear_row(&self, buffer: &mut Buffer, row: usize)
        requires
            row < BUFFER_HEIGHT,
        ensures
            screen(final(buffer)) == screen(old(buffer)).update(row as int, blank_row(self.colour())),
    {
        let blank = ScreenChar { ascii_character: 0x20, colour_code: self.colour_code };
        let mut col: usize = 0;
        while col < BUFFER_WIDTH
            invariant
                row < BUFFER_HEIGHT,
                col <= BUFFER_WIDTH,
                blank == crate::vga::blank(self.colour()),
                forall|j: int| 0 <= j < col ==> cell_value(#[trigger] buffer[row as int][j]) == blank,
                forall|i: int, j: int|
                    0 <= i < BUFFER_HEIGHT && 0 <= j < BUFFER_WIDTH && (i != row || j >= col)
                        ==> cell_value(#[trigger] buffer[i][j]) == cell_value(old(buffer)[i][j]),
            decreases BUFFER_WIDTH - col,
        {
            write_cell(buffer, row, col, blank);
            col += 1;
        }
        assert(screen(buffer) =~~= screen(old(buffer)).update(row as int, blank_row(self.colour())));
    }
}

pub open spec fn printable(b: u8) -> bool {
    0x20 <= b && b <= 0x7e
}

/// A grid of `BUFFER_HEIGHT` rows of `BUFFER_WIDTH` cells, as `screen` gives.
pub open spec fn well_shaped(g: Seq<Seq<ScreenChar>>) -> bool {
    &&& g.len() == BUFFER_HEIGHT
    &&& forall|i: int| 0 <= i < BUFFER_HEIGHT ==> (#[trigger] g[i]).len() == BUFFER_WIDTH
}

/// `row` with the cells from `col` on holding the bytes `bs` in colour `colour`.
pub open spec fn written_row(row: Seq<ScreenChar>, col: nat, colour: ColourCode, bs: Seq<u8>) -> Seq<
    ScreenChar,
> {
    Seq::new(
        row.len(),
        |j: int|
            if col <= j < col + bs.len() {
                ScreenChar { ascii_character: bs[j - col], colour_code: colour }
            } else {
                row[j]
            },
    )
}

/// Writing keeps the grid's shape.
pub proof fn lemma_shape_kept(g: Seq<Seq<ScreenChar>>, col: nat, colour: ColourCode, bs: Seq<u8>)
    requires
        well_shaped(g),
    ensures
        well_shaped(after_bytes(g, col, colour, bs).0),
        col <= BUFFER_WIDTH ==> after_bytes(g, col, colour, bs).1 <= BUFFER_WIDTH,
    decreases bs.len(),
{
    if bs.len() > 0 {
        lemma_shape_kept(g, col, colour, bs.drop_last());
    }
}

/// Printable bytes that fit on the bottom row are stored there as they are, one
/// column further per byte, and no other cell changes.
pub proof fn lemma_line_round_trip(g: Seq<Seq<ScreenChar>>, col: nat, colour: ColourCode, bs: Seq<u8>)
    requires
        well_shaped(g),
        col + bs.len() <= BUFFER_WIDTH,
        forall|k: int| 0 <= k < bs.len() ==> printable(#[trigger] bs[k]),
    ensures
        after_bytes(g, col, colour, bs).1 == col + bs.len(),
        after_bytes(g, col, colour, bs).0 == g.update(
            BUFFER_HEIGHT - 1,
            written_row(g[BUFFER_HEIGHT - 1], col, colour, bs),
        ),
    decreases bs.len(),
{
    if bs.len() == 0 {
        assert(written_row(g[BUFFER_HEIGHT - 1], col, colour, bs) =~= g[BUFFER_HEIGHT - 1]);
        assert(g.update(BUFFER_HEIGHT - 1, g[BUFFER_HEIGHT - 1]) =~= g);
    } else {
        let init = bs.drop_last();
        assert forall|k: int| 0 <= k < init.len() implies printable(#[trigger] init[k]) by {
            assert(init[k] == bs[k]);
        }
        lemma_line_round_trip(g, col, colour, init);
        assert(printable(bs[bs.len() - 1]));
        let prev = after_bytes(g, col, colour, init);
        let r = after_bytes(g, col, colour, bs);
        assert(r == after_byte(prev.0, prev.1, colour, bs.last()));
        assert(r.0 =~~= g.update(
            BUFFER_HEIGHT - 1,
            written_row(g[BUFFER_HEIGHT - 1], col, colour, bs),
        ));
    }
}

/// A newline scrolls the grid by exactly one row, whatever was written before it:
/// the top row is dropped, every other row moves up one, the bottom row is blank
/// and the column returns to 0.
pub proof fn lemma_newline_scrolls(g: Seq<Seq<ScreenChar>>, col: nat, colour: ColourCode, bs: Seq<u8>)
    requires
        well_shaped(g),
    ensures
        ({
            let before = after_bytes(g, col, colour, bs);
            let after = after_bytes(g, col, colour, bs.push(0x0a));
            &&& after.1 == 0
            &&& forall|i: int| 0 <= i < BUFFER_HEIGHT - 1 ==> #[trigger] after.0[i] == before.0[i + 1]
            &&& after.0[BUFFER_HEIGHT - 1] == blank_row(colour)
            &&& well_shaped(after.0)
        }),
{
    assert(bs.push(0x0a).drop_last() =~= bs);
    lemma_shape_kept(g, col, colour, bs);
    lemma_shape_kept(g, col, colour, bs.push(0x0a));
}

/// A byte that is neither printable nor a newline is stored as the replacement
/// glyph, and so never as itself unless it is that glyph.
pub proof fn lemma_unprintable_replaced(
    g: Seq<Seq<ScreenChar>>,
    col: nat,
    colour: ColourCode,
    bs: Seq<u8>,
    b: u8,
)
    requires
        well_shaped(g),
        col <= BUFFER_WIDTH,
        !printable(b),
        b != 0x0a,
    ensures
        ({
            let before = after_bytes(g, col, colour, bs);
            let after = after_bytes(g, col, colour, bs.push(b));
            let at = if before.1 < BUFFER_WIDTH {
                before.1 as int
            } else {
                0
            };
            &&& after.1 == at + 1
            &&& after.0[BUFFER_HEIGHT - 1][at] == ScreenChar {
                ascii_character: REPLACEMENT_GLYPH,
                colour_code: colour,
            }
            &&& b != REPLACEMENT_GLYPH ==> after.0[BUFFER_HEIGHT - 1][at].ascii_character != b
        }),
{
    assert(bs.push(b).drop_last() =~= bs);
    lemma_shape_kept(g, col, colour, bs);
}

/// From column `col`, one byte more than the row has room for wraps exactly once:
/// the row filled so far moves up by one and the last byte lands at column 0 of the
/// new bottom row.
pub proof fn lemma_overflow_wraps_once(
    g: Seq<Seq<ScreenChar>>,
    col: nat,
    colour: ColourCode,
    bs: Seq<u8>,
)
    requires
        well_shaped(g),
        col <= BUFFER_WIDTH,
        col + bs.len() == BUFFER_WIDTH + 1,
        forall|k: int| 0 <= k < bs.len() ==> printable(#[trigger] bs[k]),
    ensures
        ({
            let filled = g.update(
                BUFFER_HEIGHT - 1,
                written_row(g[BUFFER_HEIGHT - 1], col, colour, bs.drop_last()),
            );
            let after = after_bytes(g, col, colour, bs);
            &&& after.1 == 1
            &&& after.0 == placed(
                scrolled(filled, colour),
                0,
                ScreenChar { ascii_character: bs.last(), colour_code: colour },
            )
        }),
{
    let init = bs.drop_last();
    assert forall|k: int| 0 <= k < init.len() implies printable(#[trigger] init[k]) by {
        assert(init[k] == bs[k]);
    }
    lemma_line_round_trip(g, col, colour, init);
    assert(printable(bs[bs.len() - 1]));
}

/// `k` newlines move every row up by `k`: the `k` oldest rows are gone and the
/// bottom `k` rows are blank.
pub proof fn lemma_newlines_evict(g: Seq<Seq<ScreenChar>>, col: nat, colour: ColourCode, k: nat)
    requires
        well_shaped(g),
        k <= BUFFER_HEIGHT,
    ensures
        ({
            let after = after_bytes(g, col, colour, Seq::new(k, |i: int| 0x0au8));
            &&& k > 0 ==> after.1 == 0
            &&& well_shaped(after.0)
            &&& forall|i: int| 0 <= i < BUFFER_HEIGHT - k ==> #[trigger] after.0[i] == g[i + k]
            &&& forall|i: int|
                BUFFER_HEIGHT - k <= i < BUFFER_HEIGHT ==> #[trigger] after.0[i] == blank_row(colour)
        }),
    decreases k,
{
    let nl = Seq::new(k, |i: int| 0x0au8);
    if k == 0 {
        assert(nl =~= Seq::<u8>::empty());
    } else {
        let fewer = Seq::new((k - 1) as nat, |i: int| 0x0au8);
        lemma_newlines_evict(g, col, colour, (k - 1) as nat);
        assert(fewer.push(0x0a) =~= nl);
        lemma_newline_scrolls(g, col, colour, fewer);
    }
}

/// A newline followed by printable bytes that fit on one row: the earlier bottom
/// row moves up by one, and the new bottom row reads back those bytes from column 0
/// followed by blanks, with the column just after them.
pub proof fn lemma_next_line_round_trip(
    g: Seq<Seq<ScreenChar>>,
    col: nat,
    colour: ColourCode,
    bs: Seq<u8>,
    line: Seq<u8>,
)
    requires
        well_shaped(g),
        line.len() <= BUFFER_WIDTH,
        forall|k: int| 0 <= k < line.len() ==> printable(#[trigger] line[k]),
    ensures
        ({
            let before = after_bytes(g, col, colour, bs);
            let after = after_bytes(g, col, colour, bs.push(0x0a) + line);
            &&& after.1 == line.len()
            &&& after.0[BUFFER_HEIGHT - 2] == before.0[BUFFER_HEIGHT - 1]
            &&& after.0[BUFFER_HEIGHT - 1] == written_row(blank_row(colour), 0, colour, line)
        }),
{
    let mid = after_bytes(g, col, colour, bs.push(0x0a));
    lemma_newline_scrolls(g, col, colour, bs);
    lemma_after_concat(g, col, colour, bs.push(0x0a), line);
    lemma_line_round_trip(mid.0, 0, colour, line);
}

/// Writing two byte sequences one after the other is writing their concatenation.
pub proof fn lemma_after_concat(
    g: Seq<Seq<ScreenChar>>,
    col: nat,
    colour: ColourCode,
    xs: Seq<u8>,
    ys: Seq<u8>,
)
    ensures
        ({
            let mid = after_bytes(g, col, colour, xs);
            after_bytes(g, col, colour, xs + ys) == after_bytes(mid.0, mid.1, colour, ys)
        }),
    decreases ys.len(),
{
    if ys.len() == 0 {
        assert(xs + ys =~= xs);
    } else {
        lemma_after_concat(g, col, colour, xs, ys.drop_last());
        assert((xs + ys).drop_last() =~= xs + ys.drop_last());
        assert((xs + ys).last() == ys.last());
    }
}

} // verus!
