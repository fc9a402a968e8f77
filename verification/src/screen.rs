//! The display: a frame buffer of 4-bit pixels, two per byte, and the
//! sequence of bus operations that puts it on the panel. Every drawing call
//! updates the frame buffer and queues the operations that the panel needs;
//! the driver around the library sends them.

use vstd::prelude::*;
use crate::bounded::{digit_items, digits_as_slice, digits_new, digits_push};

verus! {

/// Bytes per row of the frame buffer (two pixels per byte).
pub const FB_COLS: usize = 64;
/// Rows of the frame buffer.
pub const FB_ROWS: usize = 80;
/// Horizontal distance between the digits of a number.
pub const DIGIT_ADVANCE: u8 = 12;

/// One operation on the display bus.
#[derive(Debug, Clone, Copy, PartialEq, Eq, Structural)]
pub enum BusOp {
    /// Switch the panel to command mode.
    CommandMode,
    /// Switch the panel to data mode.
    DataMode,
    /// Send one word.
    Write(u16),
}

/// A grey level; the low four bits are shown.
#[derive(Debug, Clone, Copy, PartialEq, Eq, Structural)]
pub struct Brightness {
    pub level: u8,
}

impl Brightness {
    /// The level as a byte.
    pub fn value(&self) -> (r: u8)
        ensures
            r == self.level,
    {
        self.level
    }
}

/// The grey levels the walker draws with.
#[derive(Debug, Clone, Copy, PartialEq, Eq, Structural)]
pub struct Palette {
    /// The background.
    pub white: Brightness,
    /// The start of the path and the digits.
    pub black: Brightness,
    /// The path walked.
    pub path: Brightness,
}

/// A glyph: rows from the top, each row a pixel per column from the left;
/// `true` pixels are drawn.
pub type Character = Vec<Vec<bool>>;

/// The display as the contracts see it.
pub struct ScreenView {
    /// The frame buffer, row by row.
    pub fb: Seq<Seq<u8>>,
    /// The bus operations queued so far.
    pub ops: Seq<BusOp>,
}

/// The glyph as rows of pixels.
pub open spec fn glyph_view(g: Seq<Vec<bool>>) -> Seq<Seq<bool>> {
    g.map_values(|r: Vec<bool>| r@)
}

/// A frame buffer whose bytes all hold `value`.
pub open spec fn filled(value: u8) -> Seq<Seq<u8>> {
    Seq::new(FB_ROWS as nat, |y: int| Seq::new(FB_COLS as nat, |x: int| value))
}

/// Whether `fb` has the frame buffer's shape.
pub open spec fn fb_shaped(fb: Seq<Seq<u8>>) -> bool {
    &&& fb.len() == FB_ROWS
    &&& forall|y: int| 0 <= y < FB_ROWS ==> #[trigger] fb[y].len() == FB_COLS
}

/// The byte holding pixel `x` after giving that pixel the grey `level`: odd
/// pixels take the low nibble, even ones the high nibble.
pub open spec fn nibble_set(cur: u8, x: int, level: u8) -> u8 {
    if x % 2 == 1 {
        (cur & 0xf0u8) | level
    } else {
        (cur & 0x0fu8) | (level << 4u8)
    }
}

/// The byte that fills both pixels of a byte with `level`.
pub open spec fn both_nibbles(level: u8) -> u8 {
    level | (level << 4u8)
}

/// Addressing one byte column from `col` and one row from `row`, then data mode.
pub open spec fn pixel_header(col: int, row: int) -> Seq<BusOp> {
    seq![
        BusOp::CommandMode,
        BusOp::Write(0x15),
        BusOp::Write(col as u16),
        BusOp::Write(127),
        BusOp::Write(0x75),
        BusOp::Write(row as u16),
        BusOp::Write(79),
        BusOp::DataMode,
    ]
}

/// Addressing the whole panel, then data mode.
pub open spec fn full_header() -> Seq<BusOp> {
    seq![
        BusOp::CommandMode,
        BusOp::Write(0x75),
        BusOp::Write(0),
        BusOp::Write(79),
        BusOp::Write(0x15),
        BusOp::Write(0),
        BusOp::Write(127),
        BusOp::DataMode,
    ]
}

/// The display after drawing pixel (`x`, `y`) with grey `level`.
pub open spec fn pixel_drawn(s: ScreenView, x: int, y: int, level: u8) -> ScreenView {
    let v = nibble_set(s.fb[y][x / 2], x, level);
    ScreenView {
        fb: s.fb.update(y, s.fb[y].update(x / 2, v)),
        ops: s.ops + pixel_header(x / 2, y) + seq![BusOp::Write(v as u16)],
    }
}

/// The display after filling it with grey `level`.
pub open spec fn cleared(s: ScreenView, level: u8) -> ScreenView {
    let pix = both_nibbles(level);
    ScreenView {
        fb: filled(pix),
        ops: s.ops + full_header() + Seq::new(
            (FB_ROWS * FB_COLS) as nat,
            |k: int| BusOp::Write(pix as u16),
        ),
    }
}

/// The display after sending the whole frame buffer again.
pub open spec fn redrawn(s: ScreenView) -> ScreenView {
    ScreenView {
        fb: s.fb,
        ops: s.ops + full_header() + Seq::new(
            (FB_ROWS * FB_COLS) as nat,
            |k: int| BusOp::Write(s.fb[k / FB_COLS as int][k % FB_COLS as int] as u16),
        ),
    }
}

/// The drawn pixels of row `r` of a glyph, as (row, column), left to right.
pub open spec fn row_points(row: Seq<bool>, r: int) -> Seq<(int, int)>
    decreases row.len(),
{
    if row.len() == 0 {
        seq![]
    } else {
        row_points(row.drop_last(), r) + if row.last() {
            seq![(r, row.len() - 1)]
        } else {
            seq![]
        }
    }
}

/// The drawn pixels of a glyph, as (row, column), row by row from the top.
pub open spec fn glyph_points(g: Seq<Seq<bool>>) -> Seq<(int, int)>
    decreases g.len(),
{
    if g.len() == 0 {
        seq![]
    } else {
        glyph_points(g.drop_last()) + row_points(g.last(), g.len() - 1)
    }
}

/// The display after drawing the points `pts`, in order, offset by (`x`, `y`).
pub open spec fn points_drawn(s: ScreenView, pts: Seq<(int, int)>, x: int, y: int, level: u8) -> ScreenView
    decreases pts.len(),
{
    if pts.len() == 0 {
        s
    } else {
        pixel_drawn(
            points_drawn(s, pts.drop_last(), x, y, level),
            x + pts.last().1 % 256,
            y + pts.last().0 % 256,
            level,
        )
    }
}

/// Whether every drawn pixel of glyph `g` placed at (`x`, `y`) lies on the
/// drawable part of the panel.
pub open spec fn glyph_fits(g: Seq<Seq<bool>>, x: int, y: int) -> bool {
    forall|r: int, c: int|
        #![trigger g[r][c]]
        0 <= r < g.len() && 0 <= c < g[r].len() && g[r][c] ==> x + c % 256 < 128 && y + r % 256
            < 80
}

/// The decimal digits of `n`, most significant first (`0` is one digit).
pub open spec fn decimal_digits(n: nat) -> Seq<u8>
    decreases n,
{
    if n < 10 {
        seq![n as u8]
    } else {
        decimal_digits(n / 10).push((n % 10) as u8)
    }
}

/// The display after drawing the glyphs of `digits`, in order, the `i`-th at
/// (`x + 12 i`, `y`).
pub open spec fn digits_drawn(
    s: ScreenView,
    font: Seq<Seq<Seq<bool>>>,
    digits: Seq<u8>,
    x: int,
    y: int,
    level: u8,
) -> ScreenView
    decreases digits.len(),
{
    if digits.len() == 0 {
        s
    } else {
        points_drawn(
            digits_drawn(s, font, digits.drop_last(), x, y, level),
            glyph_points(font[digits.last() as int]),
            x + 12 * (digits.len() - 1),
            y,
            level,
        )
    }
}

/// Whether the digits `d` drawn at (`x`, `y`) with `font`, twelve pixels
/// apart, stay on the drawable part of the panel.
pub open spec fn digits_fit(font: Seq<Seq<Seq<bool>>>, x: int, y: int, d: Seq<u8>) -> bool {
    &&& x + 12 * (d.len() - 1) <= 255
    &&& forall|i: int|
        0 <= i < d.len() ==> glyph_fits(#[trigger] font[d[i] as int], x + 12 * i, y)
}

/// Whether number `n` drawn at (`x`, `y`) with `font` stays on the drawable
/// part of the panel.
pub open spec fn number_fits(font: Seq<Seq<Seq<bool>>>, x: int, y: int, n: nat) -> bool {
    digits_fit(font, x, y, decimal_digits(n))
}

/// The frame buffer as rows.
pub open spec fn fb_rows(fb: [[u8; 64]; 80]) -> Seq<Seq<u8>> {
    Seq::new(FB_ROWS as nat, |y: int| fb@[y]@)
}

/// The display as the contracts see it, from its parts.
pub open spec fn canvas(fb: [[u8; 64]; 80], ops: Seq<BusOp>) -> ScreenView {
    ScreenView { fb: fb_rows(fb), ops: ops }
}

/// The display model: frame buffer, queued bus operations, digit glyphs and palette.
pub struct Screen {
    fb: [[u8; 64]; 80],
    ops: Vec<BusOp>,
    numbers: Vec<Character>,
    palette: Palette,
}

impl View for Screen {
    type V = ScreenView;

    closed spec fn view(&self) -> ScreenView {
        canvas(self.fb, self.ops@)
    }
}

fn write_ssi(ops: &mut Vec<BusOp>, data: u16)
    ensures
        final(ops)@ == old(ops)@.push(BusOp::Write(data)),
{
    ops.push(BusOp::Write(data));
}

fn set_col(ops: &mut Vec<BusOp>, min_curr: u8, max: u8)
    ensures
        final(ops)@ == old(ops)@ + seq![
            BusOp::Write(0x15),
            BusOp::Write(min_curr as u16),
            BusOp::Write(max as u16),
        ],
{
    write_ssi(ops, 0x15);
    write_ssi(ops, min_curr as u16);
    write_ssi(ops, max as u16);
    proof {
        assert(ops@ =~= old(ops)@ + seq![
            BusOp::Write(0x15),
            BusOp::Write(min_curr as u16),
            BusOp::Write(max as u16),
        ]);
    }
}

fn set_row(ops: &mut Vec<BusOp>, min_curr: u8, max: u8)
    ensures
        final(ops)@ == old(ops)@ + seq![
            BusOp::Write(0x75),
            BusOp::Write(min_curr as u16),
            BusOp::Write(max as u16),
        ],
{
    write_ssi(ops, 0x75);
    write_ssi(ops, min_curr as u16);
    write_ssi(ops, max as u16);
    proof {
        assert(ops@ =~= old(ops)@ + seq![
            BusOp::Write(0x75),
            BusOp::Write(min_curr as u16),
            BusOp::Write(max as u16),
        ]);
    }
}

/// Draws pixel (`x`, `y`): updates its nibble and queues its byte for the panel.
fn paint_pixel(fb: &mut [[u8; 64]; 80], ops: &mut Vec<BusOp>, x: u8, y: u8, level: u8)
    requires
        x < 128,
        y < 80,
    ensures
        canvas(*final(fb), final(ops)@) == pixel_drawn(
            canvas(*old(fb), old(ops)@),
            x as int,
            y as int,
            level,
        ),
{
    let ghost s = canvas(*fb, ops@);
    ops.push(BusOp::CommandMode);
    set_col(ops, x / 2, 127);
    set_row(ops, y, 79);
    ops.push(BusOp::DataMode);
    let current = fb[y as usize][x as usize / 2];
    let value = if x % 2 == 1 {
        (current & 0xf0) | level
    } else {
        (current & 0x0f) | (level << 4)
    };
    fb[y as usize][x as usize / 2] = value;
    write_ssi(ops, value as u16);
    proof {
        let t = pixel_drawn(s, x as int, y as int, level);
        assert(ops@ =~= t.ops);
        assert(fb_rows(*fb) =~= t.fb) by {
            assert forall|r: int| 0 <= r < FB_ROWS implies #[trigger] fb_rows(*fb)[r] =~= t.fb[r] by {
                if r == y {
                }
            }
        }
    }
}

/// Draws the pixels of `glyph` with its top left corner at (`x`, `y`).
fn paint_glyph(
    fb: &mut [[u8; 64]; 80],
    ops: &mut Vec<BusOp>,
    x: u8,
    y: u8,
    glyph: &Character,
    level: u8,
)
    requires
        glyph_fits(glyph_view(glyph@), x as int, y as int),
    ensures
        canvas(*final(fb), final(ops)@) == points_drawn(
            canvas(*old(fb), old(ops)@),
            glyph_points(glyph_view(glyph@)),
            x as int,
            y as int,
            level,
        ),
{
    let ghost s = canvas(*fb, ops@);
    let ghost g = glyph_view(glyph@);
    let mut row_idx: usize = 0;
    while row_idx < glyph.len()
        invariant
            g == glyph_view(glyph@),
            glyph_fits(g, x as int, y as int),
            row_idx <= glyph@.len(),
            canvas(*fb, ops@) == points_drawn(s, glyph_points(g.take(row_idx as int)), x as int, y as int, level),
        decreases glyph@.len() - row_idx,
    {
        let row = &glyph[row_idx];
        assert(row@ == g[row_idx as int]);
        let mut col_idx: usize = 0;
        while col_idx < row.len()
            invariant
                g == glyph_view(glyph@),
                glyph_fits(g, x as int, y as int),
                row_idx < glyph@.len(),
                row@ == g[row_idx as int],
                col_idx <= row@.len(),
                canvas(*fb, ops@) == points_drawn(
                    s,
                    glyph_points(g.take(row_idx as int)) + row_points(row@.take(col_idx as int), row_idx as int),
                    x as int,
                    y as int,
                    level,
                ),
            decreases row@.len() - col_idx,
        {
            let ghost before = glyph_points(g.take(row_idx as int)) + row_points(row@.take(col_idx as int), row_idx as int);
            proof {
                assert(row@.take(col_idx + 1).drop_last() =~= row@.take(col_idx as int));
                assert(row@.take(col_idx + 1).last() == row@[col_idx as int]);
            }
            if row[col_idx] {
                assert(g[row_idx as int][col_idx as int]);
                paint_pixel(fb, ops, x + (col_idx % 256) as u8, y + (row_idx % 256) as u8, level);
                proof {
                    let after = glyph_points(g.take(row_idx as int)) + row_points(row@.take(col_idx + 1), row_idx as int);
                    assert(after =~= before.push((row_idx as int, col_idx as int)));
                    assert(after.drop_last() =~= before);
                }
            } else {
                proof {
                    let after = glyph_points(g.take(row_idx as int)) + row_points(row@.take(col_idx + 1), row_idx as int);
                    assert(after =~= before);
                }
            }
            col_idx = col_idx + 1;
        }
        proof {
            assert(row@.take(row@.len() as int) =~= row@);
            assert(g.take(row_idx + 1).drop_last() =~= g.take(row_idx as int));
            assert(g.take(row_idx + 1).last() == g[row_idx as int]);
        }
        row_idx = row_idx + 1;
    }
    proof {
        assert(g.take(glyph@.len() as int) =~= g);
    }
}

impl Screen {
    /// Frame buffer width in pixels.
    pub const WIDTH: u8 = 128;
    /// Frame buffer height in pixels.
    pub const HEIGHT: u8 = 80;

    /// The digit glyphs, `0` to `9`.
    pub closed spec fn font(&self) -> Seq<Seq<Seq<bool>>> {
        self.numbers@.map_values(|c: Character| glyph_view(c@))
    }

    /// The grey levels in use.
    pub closed spec fn colors(&self) -> Palette {
        self.palette
    }

    /// The screen's own invariant: a glyph for each decimal digit.
    pub closed spec fn wf(&self) -> bool {
        self.numbers@.len() == 10
    }

    /// A blank screen (all bytes zero, nothing queued) that draws digits with
    /// `numbers` and uses `palette`.
    pub fn new(numbers: Vec<Character>, palette: Palette) -> (s: Self)
        requires
            numbers@.len() == 10,
        ensures
            s.wf(),
            s@.fb == filled(0),
            s@.ops == Seq::<BusOp>::empty(),
            s.font() == numbers@.map_values(|c: Character| glyph_view(c@)),
            s.colors() == palette,
    {
        let s = Screen { fb: [[0u8; 64]; 80], ops: Vec::new(), numbers, palette };
        proof {
            assert(s@.fb =~= filled(0)) by {
                assert forall|y: int| 0 <= y < FB_ROWS implies #[trigger] s@.fb[y] =~= filled(0)[y] by {}
            }
        }
        s
    }

    /// The frame buffer has 80 rows of 64 bytes.
    pub proof fn lemma_fb_shape(&self)
        ensures
            fb_shaped(self@.fb),
    {
    }

    /// The frame buffer, row by row.
    pub fn fb(&self) -> (fb: &[[u8; 64]; 80])
        ensures
            fb_rows(*fb) == self@.fb,
            forall|y: int, x: int|
                0 <= y < FB_ROWS && 0 <= x < FB_COLS ==> #[trigger] fb@[y]@[x] == self@.fb[y][x],
    {
        &self.fb
    }

    /// The grey levels in use.
    pub fn palette(&self) -> (p: Palette)
        ensures
            p == self.colors(),
    {
        self.palette
    }

    /// Hands out the queued bus operations, oldest first, and forgets them.
    pub fn take_ops(&mut self) -> (ops: Vec<BusOp>)
        ensures
            ops@ == old(self)@.ops,
            final(self)@ == (ScreenView { fb: old(self)@.fb, ops: Seq::<BusOp>::empty() }),
            final(self).font() == old(self).font(),
            final(self).colors() == old(self).colors(),
            final(self).wf() == old(self).wf(),
    {
        let mut ops: Vec<BusOp> = Vec::new();
        std::mem::swap(&mut ops, &mut self.ops);
        ops
    }

    /// Gives pixel (`x`, `y`) the grey `brightness` and queues it for the panel.
    pub fn draw_pixel(&mut self, x: u8, y: u8, brightness: Brightness)
        requires
            x < 128,
            y < 80,
        ensures
            final(self)@ == pixel_drawn(old(self)@, x as int, y as int, brightness.level),
            final(self).font() == old(self).font(),
            final(self).colors() == old(self).colors(),
            final(self).wf() == old(self).wf(),
    {
        paint_pixel(&mut self.fb, &mut self.ops, x, y, brightness.value());
    }

    /// Fills the screen with `brightness` and queues the whole panel.
    pub fn clear(&mut self, brightness: Brightness)
        ensures
            final(self)@ == cleared(old(self)@, brightness.level),
            final(self).font() == old(self).font(),
            final(self).colors() == old(self).colors(),
            final(self).wf() == old(self).wf(),
    {
        let ghost s = self@;
        self.ops.push(BusOp::CommandMode);
        set_row(&mut self.ops, 0, 79);
        set_col(&mut self.ops, 0, 127);
        self.ops.push(BusOp::DataMode);
        let brightness: u8 = brightness.value();
        let pix = brightness | (brightness << 4);
        let ghost base = s.ops + full_header();
        proof {
            assert(self.ops@ =~= base);
        }
        let mut x: usize = 0;
        while x < FB_COLS
            invariant
                x <= FB_COLS,
                self.ops@ == base + Seq::new((x * FB_ROWS) as nat, |k: int| BusOp::Write(pix as u16)),
                forall|yy: int, xx: int| 0 <= yy < FB_ROWS && 0 <= xx < FB_COLS ==>
                    #[trigger] self.fb@[yy]@[xx] == if xx < x { pix } else { s.fb[yy][xx] },
                self.numbers == old(self).numbers,
                self.palette == old(self).palette,
            decreases FB_COLS - x,
        {
            let mut y: usize = 0;
            while y < FB_ROWS
                invariant
                    x < FB_COLS,
                    y <= FB_ROWS,
                    self.ops@ == base + Seq::new((x * FB_ROWS + y) as nat, |k: int| BusOp::Write(pix as u16)),
                    forall|yy: int, xx: int| 0 <= yy < FB_ROWS && 0 <= xx < FB_COLS ==>
                        #[trigger] self.fb@[yy]@[xx] == if xx < x || (xx == x && yy < y) { pix } else { s.fb[yy][xx] },
                    self.numbers == old(self).numbers,
                    self.palette == old(self).palette,
                decreases FB_ROWS - y,
            {
                write_ssi(&mut self.ops, pix as u16);
                self.fb[y][x] = pix;
                proof {
                    assert(self.ops@ =~= base + Seq::new((x * FB_ROWS + y + 1) as nat, |k: int| BusOp::Write(pix as u16)));
                }
                y = y + 1;
            }
            x = x + 1;
        }
        proof {
            let t = cleared(s, brightness);
            assert(self.ops@ =~= t.ops);
            assert(self@.fb =~= t.fb) by {
                assert forall|yy: int| 0 <= yy < FB_ROWS implies #[trigger] self@.fb[yy] =~= t.fb[yy] by {
                    assert forall|xx: int| 0 <= xx < FB_COLS implies #[trigger] self@.fb[yy][xx] == t.fb[yy][xx] by {
                        assert(self.fb@[yy]@[xx] == pix);
                    }
                }
            }
        }
    }

    /// Draws the pixels of `char` with its top left corner at (`x`, `y`);
    /// column and row numbers of the glyph count modulo 256, as their
    /// conversion to a byte does.
    pub fn draw_char(&mut self, x: u8, y: u8, char: &Character, brightness: Brightness)
        requires
            glyph_fits(glyph_view(char@), x as int, y as int),
        ensures
            final(self)@ == points_drawn(
                old(self)@,
                glyph_points(glyph_view(char@)),
                x as int,
                y as int,
                brightness.level,
            ),
            final(self).font() == old(self).font(),
            final(self).colors() == old(self).colors(),
            final(self).wf() == old(self).wf(),
    {
        paint_glyph(&mut self.fb, &mut self.ops, x, y, char, brightness.value());
    }

    /// Sends the whole frame buffer to the panel again, without changing it.
    pub fn redraw_fb(&mut self)
        ensures
            final(self)@ == redrawn(old(self)@),
            final(self).font() == old(self).font(),
            final(self).colors() == old(self).colors(),
            final(self).wf() == old(self).wf(),
    {
        let ghost s = self@;
        self.ops.push(BusOp::CommandMode);
        set_row(&mut self.ops, 0, 79);
        set_col(&mut self.ops, 0, 127);
        self.ops.push(BusOp::DataMode);
        let ghost base = s.ops + full_header();
        proof {
            assert(self.ops@ =~= base);
        }
        let mut y: usize = 0;
        while y < FB_ROWS
            invariant
                y <= FB_ROWS,
                self@.fb == s.fb,
                self.ops@ == base + Seq::new((y * FB_COLS) as nat, |k: int| BusOp::Write(s.fb[k / FB_COLS as int][k % FB_COLS as int] as u16)),
                self.numbers == old(self).numbers,
                self.palette == old(self).palette,
            decreases FB_ROWS - y,
        {
            let mut x: usize = 0;
            while x < FB_COLS
                invariant
                    y < FB_ROWS,
                    x <= FB_COLS,
                    self@.fb == s.fb,
                    self.ops@ == base + Seq::new((y * FB_COLS + x) as nat, |k: int| BusOp::Write(s.fb[k / FB_COLS as int][k % FB_COLS as int] as u16)),
                    self.numbers == old(self).numbers,
                    self.palette == old(self).palette,
                decreases FB_COLS - x,
            {
                let value = self.fb[y][x];
                write_ssi(&mut self.ops, value as u16);
                proof {
                    let k = (y * FB_COLS + x) as int;
                    assert(k / FB_COLS as int == y && k % FB_COLS as int == x) by (nonlinear_arith)
                        requires k == y * 64 + x, x < 64, y < 80;
                    assert(self@.fb[y as int][x as int] == value);
                    assert(self.ops@ =~= base + Seq::new((y * FB_COLS + x + 1) as nat, |k: int| BusOp::Write(s.fb[k / FB_COLS as int][k % FB_COLS as int] as u16)));
                }
                x = x + 1;
            }
            y = y + 1;
        }
        proof {
            assert(self.ops@ =~= redrawn(s).ops);
        }
    }
}

/// Ten to the power `k`.
pub open spec fn pow10(k: nat) -> nat
    decreases k,
{
    if k == 0 {
        1
    } else {
        10 * pow10((k - 1) as nat)
    }
}

proof fn lemma_digits_len(n: nat, k: nat)
    requires
        n < pow10(k),
        k >= 1,
    ensures
        decimal_digits(n).len() <= k,
        decimal_digits(n).len() >= 1,
    decreases n,
{
    if n >= 10 {
        reveal_with_fuel(pow10, 2);
        assert(k >= 2) by {
            if k == 1 {
                assert(pow10(1) == 10);
            }
        }
        assert(n / 10 < pow10((k - 1) as nat));
        lemma_digits_len(n / 10, (k - 1) as nat);
    }
}

proof fn lemma_digits_small(n: nat)
    ensures
        forall|i: int| 0 <= i < decimal_digits(n).len() ==> #[trigger] decimal_digits(n)[i] < 10,
    decreases n,
{
    if n >= 10 {
        lemma_digits_small(n / 10);
        let d = decimal_digits(n);
        assert forall|i: int| 0 <= i < d.len() implies #[trigger] d[i] < 10 by {
            if i < d.len() - 1 {
                assert(d[i] == decimal_digits(n / 10)[i]);
            }
        }
    }
}

/// A `u32` has at most ten decimal digits, each below ten.
pub proof fn lemma_u32_digits(n: u32)
    ensures
        1 <= decimal_digits(n as nat).len() <= 10,
        forall|i: int|
            0 <= i < decimal_digits(n as nat).len() ==> #[trigger] decimal_digits(n as nat)[i] < 10,
{
    reveal_with_fuel(pow10, 11);
    assert(pow10(10) == 10000000000);
    lemma_digits_len(n as nat, 10);
    lemma_digits_small(n as nat);
}

/// The decimal digits of `number`, most significant first, in a digit list.
fn decimal_digit_list(number: u32) -> (v: heapless::Vec<u8, 10>)
    ensures
        digit_items(v) == decimal_digits(number as nat),
{
    let ghost d = decimal_digits(number as nat);
    proof {
        lemma_u32_digits(number);
    }
    let mut v = digits_new();
    let mut n = number;
    if n == 0 {
        digits_push(&mut v, 0).unwrap();
    } else {
        let mut rev_digits = digits_new();
        while n > 0
            invariant
                d == decimal_digits(number as nat),
                d.len() <= 10,
                n > 0 ==> decimal_digits(n as nat) + digit_items(rev_digits).reverse() == d,
                n == 0 ==> digit_items(rev_digits).reverse() == d,
            decreases n,
        {
            proof {
                lemma_u32_digits(n);
                assert(digit_items(rev_digits).len() + decimal_digits(n as nat).len() == d.len());
            }
            let ghost old_items = digit_items(rev_digits);
            digits_push(&mut rev_digits, (n % 10) as u8).unwrap();
            n = n / 10;
            proof {
                let items = digit_items(rev_digits);
                assert(items.reverse() =~= seq![((n * 10 + items.last()) % 10) as u8] + old_items.reverse()) by {
                    assert(items =~= old_items.push(items.last()));
                }
                if n > 0 {
                    assert(decimal_digits(n as nat) + items.reverse() =~= decimal_digits(n as nat).push(items.last()) + old_items.reverse());
                } else {
                    assert(items.reverse() =~= seq![items.last()] + old_items.reverse());
                }
            }
        }
        let rs = digits_as_slice(&rev_digits);
        let mut j = rs.len();
        while j > 0
            invariant
                j <= rs@.len(),
                rs@.reverse() == d,
                d.len() <= 10,
                digit_items(v) == rs@.reverse().take(rs@.len() - j),
            decreases j,
        {
            j = j - 1;
            digits_push(&mut v, rs[j]).unwrap();
            proof {
                assert(digit_items(v) =~= rs@.reverse().take(rs@.len() - j));
            }
        }
        proof {
            assert(rs@.reverse().take(rs@.len() as int) =~= rs@.reverse());
        }
    }
    proof {
        if number == 0 {
            assert(digit_items(v) =~= d);
        }
    }
    v
}

impl Screen {
    /// Draws `number` in decimal with the digit glyphs, the first digit's top
    /// left corner at (`x`, `y`), each next one twelve pixels to the right.
    pub fn draw_number(&mut self, x: u8, y: u8, number: u32, brightness: Brightness)
        requires
            old(self).wf(),
            number_fits(old(self).font(), x as int, y as int, number as nat),
        ensures
            final(self)@ == digits_drawn(
                old(self)@,
                old(self).font(),
                decimal_digits(number as nat),
                x as int,
                y as int,
                brightness.level,
            ),
            final(self).font() == old(self).font(),
            final(self).colors() == old(self).colors(),
            final(self).wf() == old(self).wf(),
    {
        let ghost s = self@;
        let ghost font = self.font();
        let ghost d = decimal_digits(number as nat);
        let digits = decimal_digit_list(number);
        proof {
            lemma_u32_digits(number);
        }
        let list = digits_as_slice(&digits);
        let mut x_offset: u8 = 0;
        let mut i: usize = 0;
        while i < list.len()
            invariant
                list@ == d,
                d == decimal_digits(number as nat),
                1 <= d.len() <= 10,
                forall|k: int| 0 <= k < d.len() ==> #[trigger] d[k] < 10,
                self.wf(),
                font == self.font(),
                self.palette == old(self).palette,
                number_fits(font, x as int, y as int, number as nat),
                i <= d.len(),
                x_offset == 12 * i,
                self@ == digits_drawn(s, font, d.take(i as int), x as int, y as int, brightness.level),
            decreases d.len() - i,
        {
            let digit = list[i];
            proof {
                assert(d[i as int] < 10);
                assert(font[digit as int] == glyph_view(self.numbers@[digit as int]@));
                assert(glyph_fits(font[d[i as int] as int], x + 12 * i, y as int));
                assert(d.take(i + 1).drop_last() =~= d.take(i as int));
            }
            paint_glyph(
                &mut self.fb,
                &mut self.ops,
                x + x_offset,
                y,
                &self.numbers[digit as usize],
                brightness.value(),
            );
            x_offset = x_offset + DIGIT_ADVANCE;
            i = i + 1;
        }
        proof {
            assert(d.take(d.len() as int) =~= d);
        }
    }
}

/// Whether glyph `glyph` placed at (`x`, `y`) stays on the drawable part of the panel.
fn glyph_fits_at(glyph: &Character, x: u8, y: u8) -> (r: bool)
    ensures
        r == glyph_fits(glyph_view(glyph@), x as int, y as int),
{
    let ghost g = glyph_view(glyph@);
    let mut row_idx: usize = 0;
    while row_idx < glyph.len()
        invariant
            g == glyph_view(glyph@),
            row_idx <= glyph@.len(),
            forall|r: int, c: int|
                #![trigger g[r][c]]
                0 <= r < row_idx && 0 <= c < g[r].len() && g[r][c] ==> x + c % 256 < 128 && y + r
                    % 256 < 80,
        decreases glyph@.len() - row_idx,
    {
        let row = &glyph[row_idx];
        assert(row@ == g[row_idx as int]);
        let mut col_idx: usize = 0;
        while col_idx < row.len()
            invariant
                g == glyph_view(glyph@),
                row_idx < glyph@.len(),
                row@ == g[row_idx as int],
                col_idx <= row@.len(),
                forall|r: int, c: int|
                    #![trigger g[r][c]]
                    0 <= r < row_idx && 0 <= c < g[r].len() && g[r][c] ==> x + c % 256 < 128 && y
                        + r % 256 < 80,
                forall|c: int|
                    #![trigger g[row_idx as int][c]]
                    0 <= c < col_idx && g[row_idx as int][c] ==> x + c % 256 < 128 && y + row_idx
                        % 256 < 80,
            decreases row@.len() - col_idx,
        {
            if row[col_idx] && (x as usize + col_idx % 256 >= 128 || y as usize + row_idx % 256
                >= 80) {
                return false;
            }
            col_idx = col_idx + 1;
        }
        row_idx = row_idx + 1;
    }
    true
}

impl Screen {
    /// Whether `number` drawn at (`x`, `y`) stays on the drawable part of the panel.
    pub fn number_fits_at(&self, x: u8, y: u8, number: u32) -> (r: bool)
        requires
            self.wf(),
        ensures
            r == number_fits(self.font(), x as int, y as int, number as nat),
    {
        let ghost font = self.font();
        let ghost d = decimal_digits(number as nat);
        let ghost xi = x as int;
        let ghost yi = y as int;
        let digits = decimal_digit_list(number);
        proof {
            lemma_u32_digits(number);
        }
        let list = digits_as_slice(&digits);
        if x as usize + DIGIT_ADVANCE as usize * (list.len() - 1) > 255 {
            return false;
        }
        let mut i: usize = 0;
        while i < list.len()
            invariant
                list@ == d,
                d == decimal_digits(number as nat),
                1 <= d.len() <= 10,
                forall|k: int| 0 <= k < d.len() ==> #[trigger] d[k] < 10,
                self.wf(),
                font == self.font(),
                xi == x,
                yi == y,
                i <= d.len(),
                xi + 12 * (d.len() - 1) <= 255,
                forall|k: int|
                    0 <= k < i ==> glyph_fits(#[trigger] font[d[k] as int], xi + 12 * k, yi),
            decreases d.len() - i,
        {
            let digit = list[i];
            proof {
                assert(d[i as int] < 10);
                assert(font[digit as int] == glyph_view(self.numbers@[digit as int]@));
            }
            let offset = DIGIT_ADVANCE as usize * i;
            if !glyph_fits_at(&self.numbers[digit as usize], x + offset as u8, y) {
                return false;
            }
            i = i + 1;
        }
        true
    }
}

/// The grey level of pixel (`x`, `y`) in a frame buffer: odd pixels are the
/// low nibble of their byte, even ones the high nibble.
pub open spec fn pixel_at(fb: Seq<Seq<u8>>, x: int, y: int) -> u8 {
    if x % 2 == 1 {
        fb[y][x / 2] & 0x0fu8
    } else {
        fb[y][x / 2] >> 4u8
    }
}

proof fn lemma_nibbles(cur: u8, level: u8)
    requires
        level < 16,
    ensures
        ((cur & 0xf0u8) | level) & 0x0fu8 == level,
        ((cur & 0xf0u8) | level) >> 4u8 == cur >> 4u8,
        ((cur & 0x0fu8) | (level << 4u8)) >> 4u8 == level,
        ((cur & 0x0fu8) | (level << 4u8)) & 0x0fu8 == cur & 0x0fu8,
        (level | (level << 4u8)) & 0x0fu8 == level,
        (level | (level << 4u8)) >> 4u8 == level,
{
    assert(((cur & 0xf0u8) | level) & 0x0fu8 == level) by (bit_vector)
        requires
            level < 16,
    ;
    assert(((cur & 0xf0u8) | level) >> 4u8 == cur >> 4u8) by (bit_vector)
        requires
            level < 16,
    ;
    assert(((cur & 0x0fu8) | (level << 4u8)) >> 4u8 == level) by (bit_vector)
        requires
            level < 16,
    ;
    assert(((cur & 0x0fu8) | (level << 4u8)) & 0x0fu8 == cur & 0x0fu8) by (bit_vector)
        requires
            level < 16,
    ;
    assert((level | (level << 4u8)) & 0x0fu8 == level) by (bit_vector)
        requires
            level < 16,
    ;
    assert((level | (level << 4u8)) >> 4u8 == level) by (bit_vector)
        requires
            level < 16,
    ;
}

/// Drawing a pixel with a grey level below 16 makes that pixel read back
/// that level and leaves every other pixel as it was, the other pixel of
/// the same byte included.
pub proof fn lemma_pixel_read_back(s: ScreenView, x: int, y: int, level: u8)
    requires
        fb_shaped(s.fb),
        0 <= x < 128,
        0 <= y < 80,
        level < 16,
    ensures
        fb_shaped(pixel_drawn(s, x, y, level).fb),
        pixel_at(pixel_drawn(s, x, y, level).fb, x, y) == level,
        forall|x2: int, y2: int|
            0 <= x2 < 128 && 0 <= y2 < 80 && (x2 != x || y2 != y) ==> #[trigger] pixel_at(
                pixel_drawn(s, x, y, level).fb,
                x2,
                y2,
            ) == pixel_at(s.fb, x2, y2),
{
    let t = pixel_drawn(s, x, y, level);
    let cur = s.fb[y][x / 2];
    lemma_nibbles(cur, level);
    assert(fb_shaped(t.fb)) by {
        assert forall|r: int| 0 <= r < FB_ROWS implies #[trigger] t.fb[r].len() == FB_COLS by {
            if r == y {
            }
        }
    }
}

/// Clearing with a grey level below 16 makes every pixel read back that level.
pub proof fn lemma_clear_read_back(s: ScreenView, level: u8)
    requires
        level < 16,
    ensures
        fb_shaped(cleared(s, level).fb),
        forall|x: int, y: int|
            0 <= x < 128 && 0 <= y < 80 ==> #[trigger] pixel_at(cleared(s, level).fb, x, y)
                == level,
{
    lemma_nibbles(0, level);
}

/// Redrawing leaves every pixel as it was and sends each byte of the frame
/// buffer once, row by row.
pub proof fn lemma_redraw_keeps_pixels(s: ScreenView)
    ensures
        redrawn(s).fb == s.fb,
        redrawn(s).ops.len() == s.ops.len() + 8 + FB_ROWS * FB_COLS,
{
}

/// The number that decimal digits spell, most significant first: the digit
/// at position `i` counts `10` to the power of the number of digits after it.
pub open spec fn digits_value(d: Seq<u8>) -> int
    decreases d.len(),
{
    if d.len() == 0 {
        0
    } else {
        d[0] * pow10((d.len() - 1) as nat) + digits_value(d.drop_first())
    }
}

proof fn lemma_digits_value_push(d: Seq<u8>, b: u8)
    ensures
        digits_value(d.push(b)) == 10 * digits_value(d) + b,
    decreases d.len(),
{
    let e = d.push(b);
    if d.len() == 0 {
        assert(e.drop_first() =~= Seq::<u8>::empty());
        assert(pow10(0) == 1);
        assert(digits_value(e.drop_first()) == 0);
        assert(e[0] == b);
        assert(digits_value(e) == e[0] * pow10(0) + digits_value(e.drop_first()));
        assert(digits_value(d) == 0);
    } else {
        lemma_digits_value_push(d.drop_first(), b);
        assert(e.drop_first() =~= d.drop_first().push(b));
        let p = pow10((d.len() - 1) as nat);
        assert(pow10(d.len() as nat) == 10 * p);
        let x = d[0] as int;
        assert(e[0] == d[0]);
        assert(digits_value(e) == x * pow10(d.len() as nat) + digits_value(e.drop_first()));
        assert(digits_value(d) == x * p + digits_value(d.drop_first()));
        assert(x * (10 * p) == 10 * (x * p)) by (nonlinear_arith);
    }
}

/// The digits drawn for a number spell that number in decimal, most
/// significant first, each below ten, with no leading zero (zero is the one
/// digit `0`).
pub proof fn lemma_decimal_digits_spell(n: nat)
    ensures
        digits_value(decimal_digits(n)) == n,
        decimal_digits(n).len() >= 1,
        n > 0 ==> decimal_digits(n)[0] != 0,
        n == 0 ==> decimal_digits(n) == seq![0u8],
        forall|i: int| 0 <= i < decimal_digits(n).len() ==> #[trigger] decimal_digits(n)[i] < 10,
    decreases n,
{
    lemma_digits_small(n);
    if n < 10 {
        let d = decimal_digits(n);
        assert(d =~= seq![n as u8]);
        assert(d.drop_first() =~= Seq::<u8>::empty());
        assert(pow10(0) == 1);
        assert(digits_value(d.drop_first()) == 0);
        assert(digits_value(d) == d[0] * pow10(0) + digits_value(d.drop_first()));
    } else {
        lemma_decimal_digits_spell(n / 10);
        lemma_digits_value_push(decimal_digits(n / 10), (n % 10) as u8);
    }
}

/// The two numbers that follow the first `Write(cmd)` from position `i` on,
/// as a command's start and end parameters; `(-1, -1)` if there are none.
pub open spec fn window_from(ops: Seq<BusOp>, cmd: u16, i: int) -> (int, int)
    decreases ops.len() - i,
{
    if i < 0 || i + 2 >= ops.len() {
        (-1, -1)
    } else if ops[i] == BusOp::Write(cmd) {
        (
            match ops[i + 1] {
                BusOp::Write(w) => w as int,
                _ => -1,
            },
            match ops[i + 2] {
                BusOp::Write(w) => w as int,
                _ => -1,
            },
        )
    } else {
        window_from(ops, cmd, i + 1)
    }
}

/// The window that bus operations `ops` set with command `cmd` (`0x75` for
/// rows, `0x15` for columns): first and last row or column addressed.
pub open spec fn window(ops: Seq<BusOp>, cmd: u16) -> (int, int) {
    window_from(ops, cmd, 0)
}

/// Addressing the whole panel (before a clear or a redraw) opens the row
/// window 0 to `HEIGHT - 1` and the column window 0 to `WIDTH - 1`, ending
/// where the window of every single pixel ends; its rows times the bytes of
/// a row are exactly the bytes that a clear or a redraw sends after it.
pub proof fn lemma_full_header_addresses_whole_panel(s: ScreenView, level: u8, col: int, row: int)
    requires
        0 <= col < 64,
        0 <= row < 80,
    ensures
        full_header()[0] == BusOp::CommandMode,
        full_header().last() == BusOp::DataMode,
        window(full_header(), 0x75) == (0int, Screen::HEIGHT - 1),
        window(full_header(), 0x15) == (0int, Screen::WIDTH - 1),
        window(pixel_header(col, row), 0x75) == (row, window(full_header(), 0x75).1),
        window(pixel_header(col, row), 0x15) == (col, window(full_header(), 0x15).1),
        (window(full_header(), 0x75).1 - window(full_header(), 0x75).0 + 1) * FB_COLS
            == cleared(s, level).ops.len() - s.ops.len() - full_header().len(),
        (window(full_header(), 0x75).1 - window(full_header(), 0x75).0 + 1) * FB_COLS
            == redrawn(s).ops.len() - s.ops.len() - full_header().len(),
{
    reveal_with_fuel(window_from, 8);
    let f = full_header();
    assert(f[0] != BusOp::Write(0x75) && f[1] == BusOp::Write(0x75));
    assert(f[0] != BusOp::Write(0x15) && f[1] != BusOp::Write(0x15) && f[2] != BusOp::Write(0x15)
        && f[3] != BusOp::Write(0x15) && f[4] == BusOp::Write(0x15));
    let p = pixel_header(col, row);
    assert(p[0] != BusOp::Write(0x15) && p[1] == BusOp::Write(0x15));
    assert(p[0] != BusOp::Write(0x75) && p[1] != BusOp::Write(0x75) && p[2] != BusOp::Write(0x75)
        && p[3] != BusOp::Write(0x75) && p[4] == BusOp::Write(0x75));
}

} // verus!
