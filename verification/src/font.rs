//! Characters on the screen: cells of 8 by 16 pixels, made of glyphs of 8 by 8.
use vstd::arithmetic::div_mod::*;
use vstd::prelude::*;

verus! {

/// Width of a cell.
pub const CHAR_W: usize = 8;

/// Height of a cell. Each row of a glyph is drawn twice.
pub const CHAR_H: usize = 16;

/// The glyph of the characters that have none.
pub const BLANK: usize = 0x20;

/// The rows of the glyph of an ASCII character, from top to bottom.
pub uninterp spec fn glyph_rows(idx: int) -> Seq<u8>;

/// The glyph of an ASCII character: an entry of `font8x8::legacy::BASIC_LEGACY`, the
/// table of the glyphs of the characters below 128. What the glyphs look like is not
/// stated.
#[verifier::external_body]
fn glyph(idx: usize) -> (r: [u8; 8])
    requires
        idx < 128,
    ensures
        r@ == glyph_rows(idx as int),
{
    font8x8::legacy::BASIC_LEGACY[idx]
}

/// How a cell is drawn.
#[derive(Clone, Copy, PartialEq, Eq, Structural, Debug)]
pub struct Style {
    /// Colour of the glyph.
    pub fg: u32,
    /// Colour of the rest.
    pub bg: u32,
    /// Pixels per dot of the glyph.
    pub scale: usize,
}

/// The pixel is set, in the leftmost column for the highest bit.
pub open spec fn dot(bits: u8, col: int) -> bool {
    (bits >> ((7 - col) as u8)) & 1 != 0
}

/// The colour of a dot.
pub open spec fn dot_colour(bits: u8, col: int, style: Style) -> u32 {
    if dot(bits, col) {
        style.fg
    } else {
        style.bg
    }
}

/// A screen whose `n` pixels from `at` on have one colour.
pub open spec fn run_drawn(fb: Seq<u32>, at: int, n: int, pixel: u32) -> Seq<u32> {
    Seq::new(
        fb.len(),
        |i: int|
            if at <= i < at + n {
                pixel
            } else {
                fb[i]
            },
    )
}

/// A screen with a dot drawn at `at`: `lines` lines of `n` pixels, one below the other.
pub open spec fn dot_drawn(
    fb: Seq<u32>,
    stride: int,
    at: int,
    n: int,
    lines: int,
    pixel: u32,
) -> Seq<u32>
    decreases lines,
{
    if lines <= 0 {
        fb
    } else {
        run_drawn(
            dot_drawn(fb, stride, at, n, lines - 1, pixel),
            at + (lines - 1) * stride,
            n,
            pixel,
        )
    }
}

/// The pixels of a cell at `(x, y)` lie in the buffer of the screen, and its lines have
/// numbers.
pub open spec fn on_screen(fb: Seq<u32>, stride: int, x: int, y: int, scale: int) -> bool {
    scale > 0 ==> {
        &&& (y + 16 * scale - 1) * stride + x + 8 * scale <= fb.len()
        &&& y + 16 * scale - 1 <= usize::MAX
    }
}

/// A cell: where it is on a screen with `stride` pixels per row, its glyph, and how it is
/// drawn.
pub struct Cell {
    pub stride: int,
    pub x: int,
    pub y: int,
    pub rows: Seq<u8>,
    pub style: Style,
}

impl Cell {
    /// Where the dot in row `r` and column `c` of the glyph starts.
    pub open spec fn dot_at(self, r: int, c: int) -> int {
        (self.y + r * 2 * self.style.scale) * self.stride + self.x + c * self.style.scale
    }

    /// A screen with the first `cols` dots of row `r` drawn, from left to right.
    pub open spec fn row_drawn(self, fb: Seq<u32>, r: int, cols: int) -> Seq<u32>
        decreases cols,
    {
        if cols <= 0 {
            fb
        } else {
            dot_drawn(
                self.row_drawn(fb, r, cols - 1),
                self.stride,
                self.dot_at(r, cols - 1),
                self.style.scale as int,
                2 * self.style.scale as int,
                dot_colour(self.rows[r], cols - 1, self.style),
            )
        }
    }

    /// A screen with the first `n` rows drawn, from top to bottom.
    pub open spec fn rows_drawn(self, fb: Seq<u32>, n: int) -> Seq<u32>
        decreases n,
    {
        if n <= 0 {
            fb
        } else {
            self.row_drawn(self.rows_drawn(fb, n - 1), n - 1, 8)
        }
    }

    /// A screen with the cell drawn, dot by dot. Where its rows overlap, because the
    /// screen's are narrower, the later dot stays.
    pub open spec fn drawn(self, fb: Seq<u32>) -> Seq<u32> {
        self.rows_drawn(fb, 8)
    }

    /// How far right of the cell's left edge a pixel lies. A cell that does not fit into
    /// its rows goes on at the start of the next ones.
    pub open spec fn column(self, i: int) -> int {
        (i - self.x) % self.stride
    }

    /// The line that a pixel lies in, where lines start at the cell's left edge.
    pub open spec fn line(self, i: int) -> int {
        (i - self.x) / self.stride
    }

    /// The pixel lies in `cols` columns, from column `c` on, of `lines` lines, from line
    /// `l` of the cell on.
    pub open spec fn in_part(self, i: int, c: int, cols: int, l: int, lines: int) -> bool {
        &&& c <= self.column(i) < c + cols
        &&& self.y + l <= self.line(i) < self.y + l + lines
    }

    /// The pixel lies in the cell.
    pub open spec fn covers(self, i: int) -> bool {
        let s = self.style.scale as int;
        self.in_part(i, 0, 8 * s, 0, 16 * s)
    }

    /// The colour that the glyph gives a pixel.
    pub open spec fn pixel(self, i: int) -> u32 {
        let s = self.style.scale as int;
        dot_colour(
            self.rows[(self.line(i) - self.y) / (2 * s)],
            self.column(i) / s,
            self.style,
        )
    }
}

/// Pixel `i` lies in line `l` of a dot.
pub open spec fn in_run(i: int, stride: int, at: int, n: int, l: int) -> bool {
    at + l * stride <= i < at + l * stride + n
}

/// Pixel `i` lies in a dot.
pub open spec fn in_dot(i: int, stride: int, at: int, n: int, lines: int) -> bool {
    exists|l: int| 0 <= l < lines && #[trigger] in_run(i, stride, at, n, l)
}

impl Cell {
    /// Pixel `i` lies in the dot in row `r` and column `c`.
    pub open spec fn hits_dot(self, i: int, r: int, c: int) -> bool {
        let s = self.style.scale as int;
        in_dot(i, self.stride, self.dot_at(r, c), s, 2 * s)
    }

    /// Pixel `i` lies in one of the first `cols` dots of row `r`.
    pub open spec fn hits_row(self, i: int, r: int, cols: int) -> bool {
        exists|c: int| 0 <= c < cols && #[trigger] self.hits_dot(i, r, c)
    }

    /// Pixel `i` lies in one of the first `n` rows.
    pub open spec fn hits(self, i: int, n: int) -> bool {
        exists|r: int| 0 <= r < n && #[trigger] self.hits_row(i, r, 8)
    }
}

/// What a pixel is after a dot was drawn does not depend on what it was, where it lies
/// in the dot, and is what it was where it does not.
proof fn lemma_dot(
    a: Seq<u32>,
    b: Seq<u32>,
    stride: int,
    at: int,
    n: int,
    lines: int,
    pixel: u32,
    i: int,
)
    requires
        a.len() == b.len(),
        0 <= i < a.len(),
    ensures
        dot_drawn(a, stride, at, n, lines, pixel).len() == a.len(),
        a[i] == b[i] || in_dot(i, stride, at, n, lines) ==> dot_drawn(
            a,
            stride,
            at,
            n,
            lines,
            pixel,
        )[i] == dot_drawn(b, stride, at, n, lines, pixel)[i],
        !in_dot(i, stride, at, n, lines) ==> dot_drawn(a, stride, at, n, lines, pixel)[i] == a[i],
    decreases lines,
{
    if lines > 0 {
        lemma_dot(a, b, stride, at, n, lines - 1, pixel, i);
        lemma_dot(b, a, stride, at, n, lines - 1, pixel, i);
        assert(in_run(i, stride, at, n, lines - 1) || (in_dot(i, stride, at, n, lines) ==> in_dot(
            i,
            stride,
            at,
            n,
            lines - 1,
        )));
        assert(in_dot(i, stride, at, n, lines - 1) ==> in_dot(i, stride, at, n, lines));
        assert(in_run(i, stride, at, n, lines - 1) ==> in_dot(i, stride, at, n, lines));
    }
}

/// The same for the first dots of a row.
proof fn lemma_row(cell: Cell, a: Seq<u32>, b: Seq<u32>, r: int, cols: int, i: int)
    requires
        a.len() == b.len(),
        0 <= i < a.len(),
    ensures
        cell.row_drawn(a, r, cols).len() == a.len(),
        a[i] == b[i] || cell.hits_row(i, r, cols) ==> cell.row_drawn(a, r, cols)[i]
            == cell.row_drawn(b, r, cols)[i],
        !cell.hits_row(i, r, cols) ==> cell.row_drawn(a, r, cols)[i] == a[i],
    decreases cols,
{
    if cols > 0 {
        let c = cols - 1;
        let s = cell.style.scale as int;
        lemma_row(cell, a, b, r, c, i);
        lemma_row(cell, b, a, r, c, i);
        lemma_dot(
            cell.row_drawn(a, r, c),
            cell.row_drawn(b, r, c),
            cell.stride,
            cell.dot_at(r, c),
            s,
            2 * s,
            dot_colour(cell.rows[r], c, cell.style),
            i,
        );
        assert(cell.hits_dot(i, r, c) || (cell.hits_row(i, r, cols) ==> cell.hits_row(i, r, c)));
        assert(cell.hits_row(i, r, c) ==> cell.hits_row(i, r, cols));
        assert(cell.hits_dot(i, r, c) ==> cell.hits_row(i, r, cols));
    }
}

/// The same for the first rows.
proof fn lemma_rows(cell: Cell, a: Seq<u32>, b: Seq<u32>, n: int, i: int)
    requires
        a.len() == b.len(),
        0 <= i < a.len(),
    ensures
        cell.rows_drawn(a, n).len() == a.len(),
        a[i] == b[i] || cell.hits(i, n) ==> cell.rows_drawn(a, n)[i] == cell.rows_drawn(b, n)[i],
        !cell.hits(i, n) ==> cell.rows_drawn(a, n)[i] == a[i],
    decreases n,
{
    if n > 0 {
        lemma_rows(cell, a, b, n - 1, i);
        lemma_rows(cell, b, a, n - 1, i);
        lemma_row(cell, cell.rows_drawn(a, n - 1), cell.rows_drawn(b, n - 1), n - 1, 8, i);
        assert(cell.hits_row(i, n - 1, 8) || (cell.hits(i, n) ==> cell.hits(i, n - 1)));
        assert(cell.hits(i, n - 1) ==> cell.hits(i, n));
        assert(cell.hits_row(i, n - 1, 8) ==> cell.hits(i, n));
    }
}

/// A run of pixels within the columns of a cell whose rows do not overlap.
proof fn lemma_wide_run(cell: Cell, i: int, l: int, c: int, n: int)
    requires
        0 < cell.stride,
        0 <= c,
        c + n <= cell.stride,
    ensures
        ((cell.y + l) * cell.stride + cell.x + c <= i < (cell.y + l) * cell.stride + cell.x + c
            + n) == cell.in_part(i, c, n, l, 1),
{
    let (st, d) = (cell.stride, i - cell.x);
    lemma_fundamental_div_mod(d, st);
    assert(st * cell.line(i) == cell.line(i) * st) by (nonlinear_arith);
    let k = d - (cell.y + l) * st;
    if c <= k < c + n {
        lemma_fundamental_div_mod_converse(d, st, cell.y + l, k);
    }
}

/// A dot within the columns of a cell whose rows do not overlap.
proof fn lemma_wide_dot(cell: Cell, fb: Seq<u32>, l: int, c: int, n: int, lines: int, pixel: u32, i: int)
    requires
        0 < cell.stride,
        0 <= c,
        0 <= n,
        c + n <= cell.stride,
        0 <= lines,
        0 <= i < fb.len(),
    ensures
        ({
            let d = dot_drawn(
                fb,
                cell.stride,
                (cell.y + l) * cell.stride + cell.x + c,
                n,
                lines,
                pixel,
            );
            &&& d.len() == fb.len()
            &&& d[i] == (if cell.in_part(i, c, n, l, lines) {
                pixel
            } else {
                fb[i]
            })
        }),
    decreases lines,
{
    if lines > 0 {
        lemma_wide_dot(cell, fb, l, c, n, lines - 1, pixel, i);
        lemma_wide_run(cell, i, l + lines - 1, c, n);
        let st = cell.stride;
        assert((cell.y + l) * st + (lines - 1) * st == (cell.y + (l + lines - 1)) * st)
            by (nonlinear_arith);
    }
}

/// The dots of a row of a cell whose rows do not overlap.
proof fn lemma_wide_row(cell: Cell, fb: Seq<u32>, r: int, cols: int, i: int)
    requires
        0 < cell.style.scale,
        8 * cell.style.scale <= cell.stride,
        0 <= cols <= 8,
        0 <= i < fb.len(),
    ensures
        ({
            let s = cell.style.scale as int;
            let d = cell.row_drawn(fb, r, cols);
            &&& d.len() == fb.len()
            &&& d[i] == (if cell.in_part(i, 0, cols * s, r * 2 * s, 2 * s) {
                dot_colour(cell.rows[r], cell.column(i) / s, cell.style)
            } else {
                fb[i]
            })
        }),
    decreases cols,
{
    let s = cell.style.scale as int;
    if cols > 0 {
        let c = cols - 1;
        lemma_wide_row(cell, fb, r, c, i);
        assert(0 <= c * s && c * s + s == cols * s && cols * s <= 8 * s) by (nonlinear_arith)
            requires
                0 <= c,
                c == cols - 1,
                cols <= 8,
                0 < s,
        ;
        lemma_wide_dot(
            cell,
            cell.row_drawn(fb, r, c),
            r * 2 * s,
            c * s,
            s,
            2 * s,
            dot_colour(cell.rows[r], c, cell.style),
            i,
        );
        if c * s <= cell.column(i) < c * s + s {
            lemma_fundamental_div_mod_converse(cell.column(i), s, c, cell.column(i) - c * s);
        }
    } else {
        lemma_mod_bound(i - cell.x, cell.stride);
    }
}

/// The rows of a cell whose rows do not overlap.
proof fn lemma_wide_rows(cell: Cell, fb: Seq<u32>, n: int, i: int)
    requires
        0 < cell.style.scale,
        8 * cell.style.scale <= cell.stride,
        0 <= n <= 8,
        0 <= i < fb.len(),
    ensures
        ({
            let s = cell.style.scale as int;
            let d = cell.rows_drawn(fb, n);
            &&& d.len() == fb.len()
            &&& d[i] == (if cell.in_part(i, 0, 8 * s, 0, n * 2 * s) {
                cell.pixel(i)
            } else {
                fb[i]
            })
        }),
    decreases n,
{
    let s = cell.style.scale as int;
    if n > 0 {
        let r = n - 1;
        lemma_wide_rows(cell, fb, r, i);
        lemma_wide_row(cell, cell.rows_drawn(fb, r), r, 8, i);
        assert(0 <= r * 2 * s && r * 2 * s + 2 * s == n * 2 * s) by (nonlinear_arith)
            requires
                0 <= r,
                r == n - 1,
                0 < s,
        ;
        let l = cell.line(i) - cell.y;
        if r * 2 * s <= l < r * 2 * s + 2 * s {
            assert(r * 2 * s == r * (2 * s)) by (nonlinear_arith);
            lemma_fundamental_div_mod_converse(l, 2 * s, r, l - r * 2 * s);
        }
    } else {
        assert(n * 2 * s == 0) by (nonlinear_arith)
            requires
                n == 0,
        ;
    }
}

/// A cell no wider than the rows of the screen: its pixels have the colours of the glyph,
/// and all others are as before.
pub proof fn law_cell_pixels(cell: Cell, fb: Seq<u32>, i: int)
    requires
        8 * cell.style.scale <= cell.stride,
        0 <= i < fb.len(),
    ensures
        cell.drawn(fb).len() == fb.len(),
        cell.drawn(fb)[i] == (if cell.covers(i) {
            cell.pixel(i)
        } else {
            fb[i]
        }),
{
    if cell.style.scale > 0 {
        lemma_wide_rows(cell, fb, 8, i);
    } else {
        lemma_rows(cell, fb, fb, 8, i);
        assert(!cell.hits(i, 8)) by {
            assert forall|r: int| 0 <= r < 8 implies !#[trigger] cell.hits_row(i, r, 8) by {
                assert forall|c: int| 0 <= c < 8 implies !#[trigger] cell.hits_dot(i, r, c) by {}
            }
        }
    }
}

/// A line of a dot of a cell on the screen lies in the buffer.
proof fn lemma_inside(cell: Cell, len: int, r: int, c: int, vr: int, hc: int)
    requires
        0 <= cell.stride,
        0 <= cell.x,
        0 <= cell.y,
        0 <= r < 8,
        0 <= c < 8,
        0 <= vr < 2 * cell.style.scale,
        0 <= hc < cell.style.scale,
        (cell.y + 16 * cell.style.scale - 1) * cell.stride + cell.x + 8 * cell.style.scale <= len,
    ensures
        ({
            let s = cell.style.scale as int;
            let py = cell.y + r * 2 * s + vr;
            let px = cell.x + c * s + hc;
            &&& 0 <= r * 2 * s
            &&& py <= cell.y + 16 * s - 1
            &&& 0 <= c * s
            &&& 0 <= py * cell.stride
            &&& py * cell.stride + px < len
            &&& py * cell.stride + px == cell.dot_at(r, c) + vr * cell.stride + hc
        }),
{
    let s = cell.style.scale as int;
    let py = cell.y + r * 2 * s + vr;
    assert(0 <= r * 2 * s <= 14 * s) by (nonlinear_arith)
        requires
            0 <= r <= 7,
            0 < s,
    ;
    assert(0 <= c * s <= 7 * s) by (nonlinear_arith)
        requires
            0 <= c <= 7,
            0 < s,
    ;
    assert(0 <= py * cell.stride <= (cell.y + 16 * s - 1) * cell.stride) by (nonlinear_arith)
        requires
            0 <= py <= cell.y + 16 * s - 1,
            0 <= cell.stride,
    ;
    assert(py * cell.stride == (cell.y + r * 2 * s) * cell.stride + vr * cell.stride)
        by (nonlinear_arith)
        requires
            py == cell.y + r * 2 * s + vr,
    ;
}

/// Draws a cell from the rows of a glyph, dot by dot.
pub fn render(fb: &mut Vec<u32>, stride: usize, x: usize, y: usize, rows: &[u8; 8], style: Style)
    requires
        on_screen(old(fb)@, stride as int, x as int, y as int, style.scale as int),
    ensures
        final(fb)@ == (Cell {
            stride: stride as int,
            x: x as int,
            y: y as int,
            rows: rows@,
            style,
        }).drawn(old(fb)@),
{
    let ghost start = fb@;
    let ghost cell = Cell { stride: stride as int, x: x as int, y: y as int, rows: rows@, style };
    let scale: usize = style.scale;
    let len: usize = fb.len();
    assert(len == start.len());
    if scale == 0 {
        proof {
            assert forall|i: int| 0 <= i < start.len() implies start[i] == cell.drawn(start)[i] by {
                law_cell_pixels(cell, start, i);
            }
            lemma_len(cell, start);
            assert(fb@ =~= cell.drawn(start));
        }
        return;
    }
    let mut r: usize = 0;
    while r < 8
        invariant
            r <= 8,
            scale > 0,
            scale == cell.style.scale,
            style == cell.style,
            cell.stride == stride,
            cell.x == x,
            cell.y == y,
            cell.rows == rows@,
            start.len() <= usize::MAX,
            fb@.len() == start.len(),
            on_screen(start, cell.stride, cell.x, cell.y, scale as int),
            fb@ == cell.rows_drawn(start, r as int),
        decreases 8 - r,
    {
        let ghost above = fb@;
        let bits: u8 = rows[r];
        let mut col: usize = 0;
        while col < 8
            invariant
                r < 8,
                col <= 8,
                bits == cell.rows[r as int],
                scale > 0,
                scale == cell.style.scale,
                style == cell.style,
                cell.stride == stride,
                cell.x == x,
                cell.y == y,
                start.len() <= usize::MAX,
                fb@.len() == start.len(),
                on_screen(start, cell.stride, cell.x, cell.y, scale as int),
                fb@ == cell.row_drawn(above, r as int, col as int),
            decreases 8 - col,
        {
            let ghost left = fb@;
            let ghost at = cell.dot_at(r as int, col as int);
            let pixel: u32 = if (bits >> ((7 - col) as u8)) & 1 != 0 {
                style.fg
            } else {
                style.bg
            };
            assert(pixel == dot_colour(bits, col as int, style));
            proof {
                lemma_inside(cell, start.len() as int, 0, 0, 2 * scale - 1, 0);
                lemma_inside(cell, start.len() as int, 0, 7, 0, scale - 1);
            }
            let mut vr: usize = 0;
            while vr < 2 * scale
                invariant
                    r < 8,
                    col < 8,
                    vr <= 2 * scale,
                    2 * scale <= usize::MAX,
                    scale > 0,
                    scale == cell.style.scale,
                    cell.stride == stride,
                    cell.x == x,
                    cell.y == y,
                    start.len() <= usize::MAX,
                    fb@.len() == start.len(),
                    left.len() == start.len(),
                    on_screen(start, cell.stride, cell.x, cell.y, scale as int),
                    at == cell.dot_at(r as int, col as int),
                    fb@ == dot_drawn(left, stride as int, at, scale as int, vr as int, pixel),
                decreases 2 * scale - vr,
            {
                let ghost before = fb@;
                let mut hc: usize = 0;
                assert(fb@ =~= run_drawn(before, at + vr * stride, 0, pixel));
                while hc < scale
                    invariant
                        r < 8,
                        col < 8,
                        vr < 2 * scale,
                        2 * scale <= usize::MAX,
                        hc <= scale,
                        scale == cell.style.scale,
                        cell.stride == stride,
                        cell.x == x,
                        cell.y == y,
                        start.len() <= usize::MAX,
                        fb@.len() == start.len(),
                        before.len() == start.len(),
                        on_screen(start, cell.stride, cell.x, cell.y, scale as int),
                        at == cell.dot_at(r as int, col as int),
                        fb@ == run_drawn(before, at + vr * stride, hc as int, pixel),
                    decreases scale - hc,
                {
                    proof {
                        lemma_inside(
                            cell,
                            start.len() as int,
                            r as int,
                            col as int,
                            vr as int,
                            hc as int,
                        );
                        assert(r * 2 * scale == r * (2 * scale)) by (nonlinear_arith);
                    }
                    let px: usize = x + col * scale + hc;
                    let py: usize = y + r * (2 * scale) + vr;
                    fb.set(py * stride + px, pixel);
                    assert(fb@ =~= run_drawn(before, at + vr * stride, hc + 1, pixel));
                    hc = hc + 1;
                }
                vr = vr + 1;
            }
            col = col + 1;
        }
        r = r + 1;
    }
}

/// Drawing keeps the size of the screen.
proof fn lemma_len(cell: Cell, fb: Seq<u32>)
    ensures
        cell.drawn(fb).len() == fb.len(),
{
    lemma_rows_len(cell, fb, 8);
}

/// The same for the first rows.
proof fn lemma_rows_len(cell: Cell, fb: Seq<u32>, n: int)
    ensures
        cell.rows_drawn(fb, n).len() == fb.len(),
    decreases n,
{
    if n > 0 {
        lemma_rows_len(cell, fb, n - 1);
        lemma_row_len(cell, cell.rows_drawn(fb, n - 1), n - 1, 8);
    }
}

/// The same for the first dots of a row.
proof fn lemma_row_len(cell: Cell, fb: Seq<u32>, r: int, cols: int)
    ensures
        cell.row_drawn(fb, r, cols).len() == fb.len(),
    decreases cols,
{
    if cols > 0 {
        lemma_row_len(cell, fb, r, cols - 1);
        let s = cell.style.scale as int;
        lemma_dot_len(
            cell.row_drawn(fb, r, cols - 1),
            cell.stride,
            cell.dot_at(r, cols - 1),
            s,
            2 * s,
            dot_colour(cell.rows[r], cols - 1, cell.style),
        );
    }
}

/// The same for a dot.
proof fn lemma_dot_len(fb: Seq<u32>, stride: int, at: int, n: int, lines: int, pixel: u32)
    ensures
        dot_drawn(fb, stride, at, n, lines, pixel).len() == fb.len(),
    decreases lines,
{
    if lines > 0 {
        lemma_dot_len(fb, stride, at, n, lines - 1, pixel);
    }
}

/// The number of the glyph of a character.
pub open spec fn glyph_index(c: u8) -> int {
    if c < 128 {
        c as int
    } else {
        BLANK as int
    }
}

/// Draws a character in a cell at `(x, y)` of a screen with `stride` pixels per row.
/// What is not ASCII is drawn as a space.
pub fn draw_char(
    fb: &mut Vec<u32>,
    stride: usize,
    x: usize,
    y: usize,
    c: u8,
    fg: u32,
    bg: u32,
    scale: usize,
)
    requires
        on_screen(old(fb)@, stride as int, x as int, y as int, scale as int),
    ensures
        final(fb)@ == (Cell {
            stride: stride as int,
            x: x as int,
            y: y as int,
            rows: glyph_rows(glyph_index(c)),
            style: Style { fg, bg, scale },
        }).drawn(old(fb)@),
{
    let idx: usize = if c < 128 {
        c as usize
    } else {
        BLANK
    };
    let rows: [u8; 8] = glyph(idx);
    render(fb, stride, x, y, &rows, Style { fg, bg, scale });
}

/// A cell that fits into its rows changes nothing outside its columns and its lines.
pub proof fn law_cell_is_clipped(cell: Cell, fb: Seq<u32>, i: int)
    requires
        0 <= i < fb.len(),
        0 <= cell.x,
        0 <= cell.y,
        0 < cell.stride,
        cell.x + 8 * cell.style.scale <= cell.stride,
        !(cell.x <= i % cell.stride < cell.x + 8 * cell.style.scale && cell.y <= i / cell.stride
            < cell.y + 16 * cell.style.scale),
    ensures
        cell.drawn(fb)[i] == fb[i],
{
    law_cell_pixels(cell, fb, i);
    if cell.covers(i) {
        let (c, l) = (cell.column(i), cell.line(i));
        lemma_fundamental_div_mod(i - cell.x, cell.stride);
        assert(cell.stride * l == l * cell.stride) by (nonlinear_arith);
        lemma_fundamental_div_mod_converse(i, cell.stride, l, c + cell.x);
    }
}

/// A cell that is drawn where another was is as if the other had not been there,
/// whatever the width of the screen's rows.
pub proof fn law_redraw(cell: Cell, other: Cell, fb: Seq<u32>)
    requires
        cell.stride == other.stride,
        cell.x == other.x,
        cell.y == other.y,
        cell.style.scale == other.style.scale,
    ensures
        cell.drawn(other.drawn(fb)) == cell.drawn(fb),
{
    let o = other.drawn(fb);
    lemma_len(other, fb);
    lemma_len(cell, fb);
    lemma_len(cell, o);
    assert forall|i: int| 0 <= i < fb.len() implies cell.drawn(o)[i] == cell.drawn(fb)[i] by {
        lemma_rows(cell, o, fb, 8, i);
        lemma_rows(other, fb, fb, 8, i);
        assert(other.hits(i, 8) ==> cell.hits(i, 8)) by {
            if other.hits(i, 8) {
                let r = choose|r: int| 0 <= r < 8 && #[trigger] other.hits_row(i, r, 8);
                let c = choose|c: int| 0 <= c < 8 && #[trigger] other.hits_dot(i, r, c);
                assert(cell.hits_dot(i, r, c));
                assert(cell.hits_row(i, r, 8));
            }
        }
    }
    assert(cell.drawn(o) =~= cell.drawn(fb));
}

/// Dot `(r, c)` of a glyph on the screen: a block of `scale` by twice `scale` pixels, `c`
/// blocks to the right of the cell's corner and `r` below it, in the first colour where bit
/// `7 - c` of row `r` is set and in the second where it is not.
pub proof fn law_dots_are_blocks(cell: Cell, fb: Seq<u32>, r: int, c: u8, down: int, right: int)
    requires
        0 <= r < 8,
        c < 8,
        0 <= down < 2 * cell.style.scale,
        0 <= right < cell.style.scale,
        0 <= cell.x,
        0 <= cell.y,
        cell.x + 8 * cell.style.scale <= cell.stride,
        on_screen(fb, cell.stride, cell.x, cell.y, cell.style.scale as int),
    ensures
        ({
            let s = cell.style.scale as int;
            let i = (cell.y + r * 2 * s + down) * cell.stride + (cell.x + c * s + right);
            &&& 0 <= i < fb.len()
            &&& cell.drawn(fb)[i] == (if cell.rows[r] & (0x80u8 >> c) != 0 {
                cell.style.fg
            } else {
                cell.style.bg
            })
        }),
{
    let s = cell.style.scale as int;
    let bits = cell.rows[r];
    assert(c < 8 ==> ((bits >> ((7 - c) as u8)) & 1 != 0) == (bits & (0x80u8 >> c) != 0))
        by (bit_vector);
    lemma_inside(cell, fb.len() as int, r, c as int, down, right);
    let line = cell.y + r * 2 * s + down;
    let i = line * cell.stride + (cell.x + c * s + right);
    let col = c * s + right;
    assert(0 <= col < 8 * s) by (nonlinear_arith)
        requires
            0 <= c < 8,
            0 <= right < s,
            col == c * s + right,
    ;
    lemma_fundamental_div_mod_converse(i - cell.x, cell.stride, line, col);
    assert(cell.column(i) == col && cell.line(i) == line);
    lemma_fundamental_div_mod_converse(col, s, c as int, right);
    let l = r * 2 * s + down;
    assert(l == r * (2 * s) + down && 0 <= l < 16 * s) by (nonlinear_arith)
        requires
            0 <= r < 8,
            0 <= down < 2 * s,
            l == r * 2 * s + down,
    ;
    lemma_fundamental_div_mod_converse(l, 2 * s, r, down);
    assert(cell.line(i) - cell.y == l);
    law_cell_pixels(cell, fb, i);
}

/// A character of ASCII has its own glyph; every other byte looks like a space.
pub proof fn law_glyph_of_a_byte(c: u8, d: u8)
    ensures
        c < 128 ==> glyph_index(c) == c,
        c >= 128 ==> glyph_index(c) == ' ' as int,
        c < 128 && d < 128 && c != d ==> glyph_index(c) != glyph_index(d),
{
}

} // verus!
