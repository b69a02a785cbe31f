//! A grid of discrete items inside a region the tree could not explain.
//!
//! Edges in, rectangles out. The gradient is [`gradient`]; what of it counts
//! as an edge is a threshold that adapts to the region, a matter of means and
//! deviations that the caller decides; which items the edges make is
//! [`grid`].
use vstd::prelude::*;

use crate::detect::bands;
use crate::detect::rect::Rect;
use crate::num;
use crate::num::Ratio;

verus! {

/// What [`grid`] needs to know that is not the pixels.
#[derive(Debug, Clone, Copy, PartialEq, Eq, Structural)]
pub struct Params {
    /// Smallest gap in a projection that separates two bands, in pixels.
    pub min_gap: usize,
    /// Shortest band worth keeping, in pixels.
    pub min_run: usize,
    /// Fraction of a cell that must carry an edge before the cell is
    /// believed to hold something. Rejects the empty intersections of a
    /// ragged last row.
    pub min_fill: Ratio,
}

/// `n` times `k`, to the nearest whole number; `n` itself where `k` is no
/// more than 1.
pub open spec fn scaled_up(n: int, k: Ratio) -> int {
    if k.part <= k.whole {
        n
    } else {
        num::smaller(num::rounded(n * k.part, k.whole as int), usize::MAX as int)
    }
}

impl Params {
    pub open spec fn wf(self) -> bool {
        self.min_fill.whole > 0
    }

    /// The same parameters at a different display scale.
    ///
    /// Two of them are distances, so a denser frame needs them multiplied or
    /// the gaps it finds are half the size the thresholds expect. `min_fill`
    /// is a ratio and does not move.
    pub fn for_scale(scale: Ratio) -> (p: Self)
        requires
            scale.whole > 0,
        ensures
            p.wf(),
            p.min_gap == scaled_up(12, scale),
            p.min_run == scaled_up(8, scale),
            p.min_fill == (Ratio { part: 1, whole: 50 }),
    {
        let d: Params = Params::default();
        Params { min_gap: scale_up(12, scale), min_run: scale_up(8, scale), min_fill: d.min_fill }
    }
}

fn scale_up(n: u8, k: Ratio) -> (r: usize)
    requires
        k.whole > 0,
    ensures
        r == scaled_up(n as int, k),
{
    if k.part <= k.whole {
        return n as usize;
    }
    proof {
        let (a, b) = (n as int, k.part as int);
        assert(0 <= a * b <= 0xff * 0x7fff_ffff_ffff_ffff) by (nonlinear_arith)
            requires
                0 <= a <= 0xff,
                0 <= b <= 0x7fff_ffff_ffff_ffff,
        ;
    }
    let product: i128 = n as i128 * k.part as i128;
    let whole: i128 = k.whole as i128;
    let r: i128 = (2 * product + whole) / (2 * whole);
    proof {
        let (a, b) = (2 * product + whole, 2 * whole);
        assert(0 <= a / b <= a) by (nonlinear_arith)
            requires
                a >= 0,
                b >= 1,
        ;
    }
    if r > usize::MAX as i128 {
        usize::MAX
    } else {
        r as usize
    }
}

impl Default for Params {
    /// Measured at 1920×1080, scale 1. Every pixel count is a scale
    /// assumption: see [`Params::for_scale`].
    fn default() -> (p: Self)
        ensures
            p == (Params { min_gap: 12, min_run: 8, min_fill: Ratio { part: 1, whole: 50 } }),
            p.wf(),
    {
        Params { min_gap: 12, min_run: 8, min_fill: Ratio { part: 1, whole: 50 } }
    }
}

/// The width of a block; nothing for a negative one.
pub open spec fn block_w(block: Rect) -> int {
    num::larger(block.w as int, 0)
}

/// The height of a block; nothing for a negative one.
pub open spec fn block_h(block: Rect) -> int {
    num::larger(block.h as int, 0)
}

// ---------------------------------------------------------------------------
// The gradient
// ---------------------------------------------------------------------------

/// A block of a picture: where its pixels are in memory.
pub struct Window {
    pub luma: Seq<u8>,
    pub stride: int,
    /// How far the block is from the picture's left edge.
    pub ox: int,
    /// How far the block is from the picture's top edge.
    pub oy: int,
}

/// The window of `block` in a picture whose `0,0` sits at `origin`.
pub open spec fn window(luma: Seq<u8>, stride: int, block: Rect, origin: (i32, i32)) -> Window {
    Window {
        luma,
        stride,
        ox: num::larger(block.x - origin.0, 0),
        oy: num::larger(block.y - origin.1, 0),
    }
}

impl Window {
    /// Where a pixel of the block is.
    pub open spec fn at(self, x: int, y: int) -> int {
        (self.oy + y) * self.stride + self.ox + x
    }

    /// How bright a pixel of the block is.
    pub open spec fn px(self, x: int, y: int) -> int {
        self.luma[self.at(x, y)] as int
    }

    /// How much brighter it gets to the right.
    pub open spec fn gx(self, x: int, y: int) -> int {
        (self.px(x + 1, y - 1) + 2 * self.px(x + 1, y) + self.px(x + 1, y + 1)) - (self.px(
            x - 1,
            y - 1,
        ) + 2 * self.px(x - 1, y) + self.px(x - 1, y + 1))
    }

    /// How much brighter it gets downwards.
    pub open spec fn gy(self, x: int, y: int) -> int {
        (self.px(x - 1, y + 1) + 2 * self.px(x, y + 1) + self.px(x + 1, y + 1)) - (self.px(
            x - 1,
            y - 1,
        ) + 2 * self.px(x, y - 1) + self.px(x + 1, y - 1))
    }

    /// The square of the Sobel magnitude; nothing on the border of a block
    /// `w` by `h`.
    pub open spec fn gradient(self, w: int, h: int, x: int, y: int) -> int {
        if 1 <= x < w - 1 && 1 <= y < h - 1 {
            self.gx(x, y) * self.gx(x, y) + self.gy(x, y) * self.gy(x, y)
        } else {
            0
        }
    }
}

/// The last pixel of a block, and so every pixel of it, is in the picture.
pub open spec fn holds_block(luma: Seq<u8>, stride: int, block: Rect, origin: (i32, i32)) -> bool {
    window(luma, stride, block, origin).at(block_w(block) - 1, block_h(block) - 1) < luma.len()
}

proof fn lemma_pixel_inside(win: Window, w: int, h: int, x: int, y: int)
    requires
        win.at(w - 1, h - 1) < win.luma.len(),
        0 <= x < w,
        0 <= y < h,
        win.ox >= 0,
        win.oy >= 0,
        win.stride >= 0,
    ensures
        0 <= (win.oy + y) * win.stride <= win.at(x, y) < win.luma.len(),
{
    let (oy, stride) = (win.oy, win.stride);
    assert(0 <= (oy + y) * stride <= (oy + h - 1) * stride) by (nonlinear_arith)
        requires
            0 <= oy,
            0 <= y <= h - 1,
            0 <= stride,
    ;
}

/// The squared Sobel magnitude of every pixel of `block`, row by row. Empty
/// rows for a block too small to have an inside.
///
/// `luma` is single-channel, `stride` bytes per row, and `block` must lie
/// inside it; `origin` names where the picture's own `0,0` sits.
pub fn gradient(luma: &[u8], stride: usize, block: Rect, origin: (i32, i32)) -> (rows: Vec<Vec<u32>>)
    requires
        block.w >= 3 && block.h >= 3 ==> holds_block(luma@, stride as int, block, origin),
    ensures
        block.w < 3 || block.h < 3 ==> rows@.len() == 0,
        block.w >= 3 && block.h >= 3 ==> {
            &&& rows@.len() == block.h
            &&& forall|y: int| 0 <= y < block.h ==> (#[trigger] rows@[y])@.len() == block.w
            &&& forall|x: int, y: int|
                0 <= x < block.w && 0 <= y < block.h ==> #[trigger] rows@[y]@[x] == window(
                    luma@,
                    stride as int,
                    block,
                    origin,
                ).gradient(block.w as int, block.h as int, x, y)
        },
{
    let mut rows: Vec<Vec<u32>> = Vec::new();
    if block.w < 3 || block.h < 3 {
        return rows;
    }
    let (w, h): (usize, usize) = (block.w as usize, block.h as usize);
    let dx: i64 = block.x as i64 - origin.0 as i64;
    let dy: i64 = block.y as i64 - origin.1 as i64;
    let ox: u64 = if dx > 0 {
        dx as u64
    } else {
        0
    };
    let oy: u64 = if dy > 0 {
        dy as u64
    } else {
        0
    };
    let ghost win = window(luma@, stride as int, block, origin);
    let mut y: usize = 0;
    while y < h
        invariant
            y <= h == block.h,
            3 <= w == block.w,
            3 <= h,
            win == window(luma@, stride as int, block, origin),
            win.ox == ox,
            win.oy == oy,
            win.at(w - 1, h - 1) < luma@.len(),
            rows@.len() == y,
            forall|j: int| 0 <= j < y ==> (#[trigger] rows@[j])@.len() == w,
            forall|i: int, j: int|
                0 <= i < w && 0 <= j < y ==> #[trigger] rows@[j]@[i] == win.gradient(
                    w as int,
                    h as int,
                    i,
                    j,
                ),
        decreases h - y,
    {
        let mut row: Vec<u32> = Vec::new();
        let mut x: usize = 0;
        while x < w
            invariant
                x <= w,
                y < h,
                3 <= w,
                3 <= h,
                win == window(luma@, stride as int, block, origin),
                win.ox == ox,
                win.oy == oy,
                win.at(w - 1, h - 1) < luma@.len(),
                row@.len() == x,
                forall|i: int|
                    0 <= i < x ==> #[trigger] row@[i] == win.gradient(
                        w as int,
                        h as int,
                        i,
                        y as int,
                    ),
            decreases w - x,
        {
            let m: u32 = if x >= 1 && x < w - 1 && y >= 1 && y < h - 1 {
                let up: Corner = Corner { ox, oy, w, h };
                let a: i32 = pixel(luma, stride, up, x - 1, y - 1, Ghost(win));
                let b: i32 = pixel(luma, stride, up, x, y - 1, Ghost(win));
                let c: i32 = pixel(luma, stride, up, x + 1, y - 1, Ghost(win));
                let d: i32 = pixel(luma, stride, up, x - 1, y, Ghost(win));
                let e: i32 = pixel(luma, stride, up, x + 1, y, Ghost(win));
                let f: i32 = pixel(luma, stride, up, x - 1, y + 1, Ghost(win));
                let g: i32 = pixel(luma, stride, up, x, y + 1, Ghost(win));
                let k: i32 = pixel(luma, stride, up, x + 1, y + 1, Ghost(win));
                let gx: i32 = (c + 2 * e + k) - (a + 2 * d + f);
                let gy: i32 = (f + 2 * g + k) - (a + 2 * b + c);
                proof {
                    lemma_square(gx as int);
                    lemma_square(gy as int);
                }
                (gx * gx + gy * gy) as u32
            } else {
                0
            };
            row.push(m);
            x = x + 1;
        }
        let ghost before = rows@;
        rows.push(row);
        proof {
            assert forall|i: int, j: int| 0 <= i < w && 0 <= j < y + 1 implies #[trigger] rows@[j]@[i]
                == win.gradient(w as int, h as int, i, j) by {
                if j < y {
                    assert(rows@[j] == before[j]);
                }
            }
            assert forall|j: int| 0 <= j < y + 1 implies (#[trigger] rows@[j])@.len() == w by {
                if j < y {
                    assert(rows@[j] == before[j]);
                }
            }
        }
        y = y + 1;
    }
    rows
}

proof fn lemma_square(g: int)
    requires
        -1020 <= g <= 1020,
    ensures
        0 <= g * g <= 1040400,
{
    assert(0 <= g * g <= 1040400) by (nonlinear_arith)
        requires
            -1020 <= g <= 1020,
    ;
}

/// Where a block starts in its picture, and how large it is.
#[derive(Clone, Copy)]
struct Corner {
    ox: u64,
    oy: u64,
    w: usize,
    h: usize,
}

fn pixel(luma: &[u8], stride: usize, at: Corner, x: usize, y: usize, Ghost(win): Ghost<Window>) -> (v:
    i32)
    requires
        win.luma == luma@,
        win.stride == stride,
        win.ox == at.ox,
        win.oy == at.oy,
        win.at(at.w - 1, at.h - 1) < luma.len(),
        x < at.w,
        y < at.h,
    ensures
        v == win.px(x as int, y as int),
        0 <= v <= 255,
{
    proof {
        lemma_pixel_inside(win, at.w as int, at.h as int, x as int, y as int);
        let (row, stride) = (at.oy + y, stride as int);
        assert(stride >= 1 ==> row <= row * stride) by (nonlinear_arith)
            requires
                row >= 0,
        ;
        assert(stride == 0 ==> row * stride == 0) by (nonlinear_arith);
    }
    let row: u128 = at.oy as u128 + y as u128;
    let i: u128 = if stride == 0 {
        at.ox as u128 + x as u128
    } else {
        row * stride as u128 + at.ox as u128 + x as u128
    };
    luma[i as usize] as i32
}

// ---------------------------------------------------------------------------
// Items
// ---------------------------------------------------------------------------

/// Whether the pixel carries an edge.
pub open spec fn lit(edge: Seq<Vec<bool>>, x: int, y: int) -> bool {
    edge[y]@[x]
}

/// How many edges a row has, from `c0` to `c1`.
pub open spec fn row_count(edge: Seq<Vec<bool>>, y: int, c0: int, c1: int) -> int {
    num::count(c0, c1, |x: int| lit(edge, x, y))
}

/// How many edges a column has, from `r0` to `r1`.
pub open spec fn column_count(edge: Seq<Vec<bool>>, x: int, r0: int, r1: int) -> int {
    num::count(r0, r1, |y: int| lit(edge, x, y))
}

/// How many edges there are in a cell: columns `c.0 .. c.1` of the rows
/// `r0 .. r1`.
pub open spec fn cell_count(edge: Seq<Vec<bool>>, r0: int, r1: int, c: (usize, usize)) -> int
    decreases r1 - r0,
{
    if r0 >= r1 {
        0
    } else {
        cell_count(edge, r0, r1 - 1, c) + row_count(edge, r1 - 1, c.0 as int, c.1 as int)
    }
}

/// The edges of each row.
pub open spec fn row_profile(edge: Seq<Vec<bool>>, w: int, h: int) -> Seq<u32> {
    Seq::new(h as nat, |y: int| row_count(edge, y, 0, w) as u32)
}

/// The edges of each column.
pub open spec fn column_profile(edge: Seq<Vec<bool>>, w: int, h: int) -> Seq<u32> {
    Seq::new(w as nat, |x: int| column_count(edge, x, 0, h) as u32)
}

/// First and last column and row of what a cell holds.
pub struct Extent {
    pub x0: int,
    pub y0: int,
    pub x1: int,
    pub y1: int,
}

/// The pixel is an edge of the cell.
pub open spec fn lit_in(
    edge: Seq<Vec<bool>>,
    r: (usize, usize),
    c: (usize, usize),
    x: int,
    y: int,
) -> bool {
    r.0 <= y < r.1 && c.0 <= x < c.1 && lit(edge, x, y)
}

/// `e` is tight around what the cell holds: every edge of the cell is within
/// it, and each of its four sides has one.
pub open spec fn is_tight(
    edge: Seq<Vec<bool>>,
    r: (usize, usize),
    c: (usize, usize),
    e: Extent,
) -> bool {
    &&& forall|x: int, y: int| #[trigger]
        lit_in(edge, r, c, x, y) ==> e.x0 <= x <= e.x1 && e.y0 <= y <= e.y1
    &&& exists|y: int| #[trigger] lit_in(edge, r, c, e.x0, y)
    &&& exists|y: int| #[trigger] lit_in(edge, r, c, e.x1, y)
    &&& exists|x: int| #[trigger] lit_in(edge, r, c, x, e.y0)
    &&& exists|x: int| #[trigger] lit_in(edge, r, c, x, e.y1)
}

/// Whether a cell holds something: an edge, and edges enough.
pub open spec fn is_item(edge: Seq<Vec<bool>>, p: Params, r: (usize, usize), c: (usize, usize)) -> bool {
    let n = cell_count(edge, r.0 as int, r.1 as int, c);
    n > 0 && n * p.min_fill.whole >= p.min_fill.part * ((r.1 - r.0) * (c.1 - c.0))
}

/// The item of a cell: its own content, not the cell. The bands are cut at
/// the widest extent of the whole row and column, so a short name in a wide
/// column would otherwise get a rectangle reaching into the whitespace beside
/// it, and its centre would miss.
pub open spec fn item(
    edge: Seq<Vec<bool>>,
    block: Rect,
    r: (usize, usize),
    c: (usize, usize),
) -> Rect {
    let e = choose|e: Extent| is_tight(edge, r, c, e);
    Rect {
        x: (block.x + e.x0) as i32,
        y: (block.y + e.y0) as i32,
        w: (e.x1 - e.x0 + 1) as i32,
        h: (e.y1 - e.y0 + 1) as i32,
    }
}

/// The items of the first `n` cells of a row.
pub open spec fn row_items(
    edge: Seq<Vec<bool>>,
    block: Rect,
    p: Params,
    r: (usize, usize),
    cols: Seq<(usize, usize)>,
    n: int,
) -> Seq<Rect>
    decreases n,
{
    if n <= 0 {
        Seq::empty()
    } else if is_item(edge, p, r, cols[n - 1]) {
        row_items(edge, block, p, r, cols, n - 1).push(item(edge, block, r, cols[n - 1]))
    } else {
        row_items(edge, block, p, r, cols, n - 1)
    }
}

/// The items of the first `n` rows.
pub open spec fn items(
    edge: Seq<Vec<bool>>,
    block: Rect,
    p: Params,
    rows: Seq<(usize, usize)>,
    cols: Seq<(usize, usize)>,
    n: int,
) -> Seq<Rect>
    decreases n,
{
    if n <= 0 {
        Seq::empty()
    } else {
        items(edge, block, p, rows, cols, n - 1) + row_items(
            edge,
            block,
            p,
            rows[n - 1],
            cols,
            cols.len() as int,
        )
    }
}

/// `out` lists the items of a block, row by row: the projections of its edges
/// cut into bands, the bands of one item merged, and one item at most in each
/// cell where two bands cross. A block too small to have an inside has none.
pub open spec fn is_grid(edge: Seq<Vec<bool>>, block: Rect, p: Params, out: Seq<Rect>) -> bool {
    if block.w < 3 || block.h < 3 {
        out.len() == 0
    } else {
        let (w, h) = (block.w as int, block.h as int);
        exists|rows: Seq<(usize, usize)>, cols: Seq<(usize, usize)>|
            #![trigger bands::merged(rows), bands::merged(cols)]
            bands::are_bands(row_profile(edge, w, h), p.min_gap, p.min_run, rows)
                && bands::are_bands(column_profile(edge, w, h), p.min_gap, p.min_run, cols) && out
                == items(
                edge,
                block,
                p,
                bands::merged(rows),
                bands::merged(cols),
                bands::merged(rows).len() as int,
            )
    }
}

/// One flag for every pixel of the block.
pub open spec fn is_edge_map(edge: Seq<Vec<bool>>, block: Rect) -> bool {
    &&& edge.len() == block_h(block)
    &&& forall|y: int| 0 <= y < edge.len() ==> (#[trigger] edge[y])@.len() == block_w(block)
}

/// The projection of the edges onto the vertical axis.
fn count_rows(edge: &[Vec<bool>], w: usize, h: usize) -> (profile: Vec<u32>)
    requires
        edge@.len() == h,
        forall|y: int| 0 <= y < h ==> (#[trigger] edge@[y])@.len() == w,
        w <= u32::MAX,
    ensures
        profile@ == row_profile(edge@, w as int, h as int),
{
    let mut profile: Vec<u32> = Vec::new();
    let mut y: usize = 0;
    while y < h
        invariant
            y <= h == edge@.len(),
            forall|y: int| 0 <= y < h ==> (#[trigger] edge@[y])@.len() == w,
            w <= u32::MAX,
            profile@.len() == y,
            forall|j: int|
                0 <= j < y ==> #[trigger] profile@[j] == row_count(edge@, j, 0, w as int),
        decreases h - y,
    {
        let ghost f = |x: int| lit(edge@, x, y as int);
        let mut n: u32 = 0;
        let mut x: usize = 0;
        while x < w
            invariant
                x <= w == edge@[y as int]@.len(),
                y < edge@.len(),
                w <= u32::MAX,
                f == (|x: int| lit(edge@, x, y as int)),
                n == num::count(0, x as int, f),
                n <= x,
            decreases w - x,
        {
            if edge[y][x] {
                assert(f(x as int));
                n = n + 1;
            } else {
                assert(!f(x as int));
            }
            x = x + 1;
        }
        profile.push(n);
        y = y + 1;
    }
    assert(profile@ =~= row_profile(edge@, w as int, h as int));
    profile
}

/// The projection of the edges onto the horizontal axis.
fn count_columns(edge: &[Vec<bool>], w: usize, h: usize) -> (profile: Vec<u32>)
    requires
        edge@.len() == h,
        forall|y: int| 0 <= y < h ==> (#[trigger] edge@[y])@.len() == w,
        h <= u32::MAX,
    ensures
        profile@ == column_profile(edge@, w as int, h as int),
{
    let mut profile: Vec<u32> = Vec::new();
    let mut x: usize = 0;
    while x < w
        invariant
            x <= w,
            h == edge@.len(),
            forall|y: int| 0 <= y < h ==> (#[trigger] edge@[y])@.len() == w,
            h <= u32::MAX,
            profile@.len() == x,
            forall|i: int|
                0 <= i < x ==> #[trigger] profile@[i] == column_count(edge@, i, 0, h as int),
        decreases w - x,
    {
        let ghost f = |y: int| lit(edge@, x as int, y);
        let mut n: u32 = 0;
        let mut y: usize = 0;
        while y < h
            invariant
                y <= h == edge@.len(),
                x < w,
                forall|y: int| 0 <= y < h ==> (#[trigger] edge@[y])@.len() == w,
                h <= u32::MAX,
                f == (|y: int| lit(edge@, x as int, y)),
                n == num::count(0, y as int, f),
                n <= y,
            decreases h - y,
        {
            if edge[y][x] {
                assert(f(y as int));
                n = n + 1;
            } else {
                assert(!f(y as int));
            }
            y = y + 1;
        }
        profile.push(n);
        x = x + 1;
    }
    assert(profile@ =~= column_profile(edge@, w as int, h as int));
    profile
}

/// First and last column and row, so far.
#[derive(Clone, Copy)]
struct Bounds {
    x0: usize,
    y0: usize,
    x1: usize,
    y1: usize,
}

/// The pixels of the cell in reading order up to, and without, `x, y`.
spec fn scanned(r: (usize, usize), c: (usize, usize), x: int, y: int, px: int, py: int) -> bool {
    r.0 <= py && c.0 <= px < c.1 && (py < y || (py == y && px < x))
}

/// [`is_tight`], of the pixels scanned so far.
spec fn tight_so_far(
    edge: Seq<Vec<bool>>,
    r: (usize, usize),
    c: (usize, usize),
    x: int,
    y: int,
    b: Bounds,
) -> bool {
    &&& forall|px: int, py: int| #[trigger]
        lit_in(edge, r, c, px, py) && scanned(r, c, x, y, px, py) ==> b.x0 <= px <= b.x1 && b.y0
            <= py <= b.y1
    &&& exists|py: int| #[trigger] lit_in(edge, r, c, b.x0 as int, py)
    &&& exists|py: int| #[trigger] lit_in(edge, r, c, b.x1 as int, py)
    &&& exists|px: int| #[trigger] lit_in(edge, r, c, px, b.y0 as int)
    &&& exists|px: int| #[trigger] lit_in(edge, r, c, px, b.y1 as int)
}

/// How many edges a cell has, and the extent of them.
fn scan_cell(edge: &[Vec<bool>], r: (usize, usize), c: (usize, usize), w: usize) -> (found: (
    u64,
    Option<Bounds>,
))
    requires
        forall|y: int| 0 <= y < edge@.len() ==> (#[trigger] edge@[y])@.len() == w,
        r.0 <= r.1 <= edge@.len(),
        c.0 <= c.1 <= w,
        w <= u32::MAX,
        edge@.len() <= u32::MAX,
    ensures
        found.0 == cell_count(edge@, r.0 as int, r.1 as int, c),
        found.1 is None <==> found.0 == 0,
        found.1 is Some ==> {
            let b = found.1->0;
            &&& is_tight(
                edge@,
                r,
                c,
                (Extent { x0: b.x0 as int, y0: b.y0 as int, x1: b.x1 as int, y1: b.y1 as int }),
            )
            &&& c.0 <= b.x0 <= b.x1 < c.1
            &&& r.0 <= b.y0 <= b.y1 < r.1
        },
{
    let mut count: u64 = 0;
    let mut found: Option<Bounds> = None;
    let mut y: usize = r.0;
    while y < r.1
        invariant
            forall|y: int| 0 <= y < edge@.len() ==> (#[trigger] edge@[y])@.len() == w,
            r.0 <= y <= r.1 <= edge@.len(),
            c.0 <= c.1 <= w,
            w <= u32::MAX,
            edge@.len() <= u32::MAX,
            count == cell_count(edge@, r.0 as int, y as int, c),
            0 <= count <= w * (y - r.0),
            found is None <==> count == 0,
            found is None ==> forall|px: int, py: int|
                !(#[trigger] lit_in(edge@, r, c, px, py) && scanned(
                    r,
                    c,
                    c.0 as int,
                    y as int,
                    px,
                    py,
                )),
            found is Some ==> tight_so_far(edge@, r, c, c.0 as int, y as int, found->0),
        decreases r.1 - y,
    {
        let ghost f = |x: int| lit(edge@, x, y as int);
        let ghost start = count as int;
        proof {
            let (a, n, m) = (w as int, y - r.0, edge@.len() as int);
            assert(a * n + a == a * (n + 1)) by (nonlinear_arith);
            assert(0 <= a * (n + 1) <= 0xffff_ffff * 0xffff_ffff) by (nonlinear_arith)
                requires
                    0 <= a <= 0xffff_ffff,
                    0 <= n + 1 <= 0xffff_ffff,
            ;
        }
        let mut x: usize = c.0;
        while x < c.1
            invariant
                forall|y: int| 0 <= y < edge@.len() ==> (#[trigger] edge@[y])@.len() == w,
                r.0 <= y < r.1 <= edge@.len(),
                c.0 <= x <= c.1 <= w,
                f == (|x: int| lit(edge@, x, y as int)),
                count == start + num::count(c.0 as int, x as int, f),
                0 <= start <= count <= start + (x - c.0),
                start + w <= u64::MAX,
                found is None <==> count == 0,
                found is None ==> forall|px: int, py: int|
                    !(#[trigger] lit_in(edge@, r, c, px, py) && scanned(
                        r,
                        c,
                        x as int,
                        y as int,
                        px,
                        py,
                    )),
                found is Some ==> tight_so_far(edge@, r, c, x as int, y as int, found->0),
            decreases c.1 - x,
        {
            if edge[y][x] {
                assert(f(x as int));
                assert(lit_in(edge@, r, c, x as int, y as int));
                let ghost before = found;
                count = count + 1;
                found = Some(
                    match found {
                        None => Bounds { x0: x, y0: y, x1: x, y1: y },
                        Some(b) => Bounds {
                            x0: if x < b.x0 {
                                x
                            } else {
                                b.x0
                            },
                            y0: if y < b.y0 {
                                y
                            } else {
                                b.y0
                            },
                            x1: if x > b.x1 {
                                x
                            } else {
                                b.x1
                            },
                            y1: if y > b.y1 {
                                y
                            } else {
                                b.y1
                            },
                        },
                    },
                );
                proof {
                    lemma_widened(edge@, r, c, x as int, y as int, before, found->0);
                }
            } else {
                assert(!f(x as int));
                proof {
                    assert forall|px: int, py: int| #[trigger]
                        lit_in(edge@, r, c, px, py) && scanned(
                            r,
                            c,
                            x + 1,
                            y as int,
                            px,
                            py,
                        ) implies scanned(r, c, x as int, y as int, px, py) by {}
                }
            }
            x = x + 1;
        }
        proof {
            num::lemma_count_bounds(c.0 as int, c.1 as int, f);
            assert forall|px: int, py: int| #[trigger]
                lit_in(edge@, r, c, px, py) && scanned(r, c, c.0 as int, y + 1, px, py) implies scanned(
                r,
                c,
                c.1 as int,
                y as int,
                px,
                py,
            ) by {}
        }
        y = y + 1;
    }
    proof {
        assert forall|px: int, py: int| #[trigger] lit_in(edge@, r, c, px, py) implies scanned(
            r,
            c,
            c.0 as int,
            r.1 as int,
            px,
            py,
        ) by {}
        if found is Some {
            lemma_scanned_all(edge@, r, c, found->0);
        }
    }
    (count, found)
}

/// Once the whole cell is scanned the extent is tight.
proof fn lemma_scanned_all(edge: Seq<Vec<bool>>, r: (usize, usize), c: (usize, usize), b: Bounds)
    requires
        tight_so_far(edge, r, c, c.0 as int, r.1 as int, b),
    ensures
        is_tight(
            edge,
            r,
            c,
            (Extent { x0: b.x0 as int, y0: b.y0 as int, x1: b.x1 as int, y1: b.y1 as int }),
        ),
        c.0 <= b.x0 <= b.x1 < c.1,
        r.0 <= b.y0 <= b.y1 < r.1,
{
    let e = Extent { x0: b.x0 as int, y0: b.y0 as int, x1: b.x1 as int, y1: b.y1 as int };
    assert forall|x: int, y: int| #[trigger] lit_in(edge, r, c, x, y) implies e.x0 <= x <= e.x1
        && e.y0 <= y <= e.y1 by {
        assert(scanned(r, c, c.0 as int, r.1 as int, x, y));
    }
    let x0 = choose|py: int| #[trigger] lit_in(edge, r, c, b.x0 as int, py);
    let y0 = choose|px: int| #[trigger] lit_in(edge, r, c, px, b.y0 as int);
    let x1 = choose|py: int| #[trigger] lit_in(edge, r, c, b.x1 as int, py);
    let y1 = choose|px: int| #[trigger] lit_in(edge, r, c, px, b.y1 as int);
    assert(lit_in(edge, r, c, e.x0, x0));
    assert(lit_in(edge, r, c, e.x1, x1));
    assert(lit_in(edge, r, c, y0, e.y0));
    assert(lit_in(edge, r, c, y1, e.y1));
}

/// One more edge widens the extent to hold it.
proof fn lemma_widened(
    edge: Seq<Vec<bool>>,
    r: (usize, usize),
    c: (usize, usize),
    x: int,
    y: int,
    before: Option<Bounds>,
    after: Bounds,
)
    requires
        lit_in(edge, r, c, x, y),
        before is None ==> forall|px: int, py: int|
            !(#[trigger] lit_in(edge, r, c, px, py) && scanned(r, c, x, y, px, py)),
        before is Some ==> tight_so_far(edge, r, c, x, y, before->0),
        before is None ==> after.x0 == x && after.x1 == x && after.y0 == y && after.y1 == y,
        before is Some ==> after.x0 == num::smaller(before->0.x0 as int, x) && after.x1
            == num::larger(before->0.x1 as int, x) && after.y0 == num::smaller(
            before->0.y0 as int,
            y,
        ) && after.y1 == num::larger(before->0.y1 as int, y),
    ensures
        tight_so_far(edge, r, c, x + 1, y, after),
{
    assert forall|px: int, py: int| #[trigger]
        lit_in(edge, r, c, px, py) && scanned(r, c, x + 1, y, px, py) implies after.x0 <= px
        <= after.x1 && after.y0 <= py <= after.y1 by {
        if !(px == x && py == y) {
            assert(scanned(r, c, x, y, px, py));
        }
    }
    if before is Some {
        let b = before->0;
        let x0 = choose|py: int| #[trigger] lit_in(edge, r, c, b.x0 as int, py);
        let x1 = choose|py: int| #[trigger] lit_in(edge, r, c, b.x1 as int, py);
        let y0 = choose|px: int| #[trigger] lit_in(edge, r, c, px, b.y0 as int);
        let y1 = choose|px: int| #[trigger] lit_in(edge, r, c, px, b.y1 as int);
        assert(lit_in(edge, r, c, b.x0 as int, x0));
        assert(lit_in(edge, r, c, b.x1 as int, x1));
        assert(lit_in(edge, r, c, y0, b.y0 as int));
        assert(lit_in(edge, r, c, y1, b.y1 as int));
    }
}

/// There is one tight extent.
proof fn lemma_one_extent(
    edge: Seq<Vec<bool>>,
    r: (usize, usize),
    c: (usize, usize),
    a: Extent,
    b: Extent,
)
    requires
        is_tight(edge, r, c, a),
        is_tight(edge, r, c, b),
    ensures
        a == b,
{
    lemma_no_narrower(edge, r, c, a, b);
    lemma_no_narrower(edge, r, c, b, a);
}

proof fn lemma_no_narrower(
    edge: Seq<Vec<bool>>,
    r: (usize, usize),
    c: (usize, usize),
    a: Extent,
    b: Extent,
)
    requires
        is_tight(edge, r, c, a),
        is_tight(edge, r, c, b),
    ensures
        b.x0 <= a.x0 && a.x1 <= b.x1 && b.y0 <= a.y0 && a.y1 <= b.y1,
{
    let x0 = choose|y: int| #[trigger] lit_in(edge, r, c, a.x0, y);
    let x1 = choose|y: int| #[trigger] lit_in(edge, r, c, a.x1, y);
    let y0 = choose|x: int| #[trigger] lit_in(edge, r, c, x, a.y0);
    let y1 = choose|x: int| #[trigger] lit_in(edge, r, c, x, a.y1);
    assert(lit_in(edge, r, c, a.x0, x0));
    assert(lit_in(edge, r, c, a.x1, x1));
    assert(lit_in(edge, r, c, y0, a.y0));
    assert(lit_in(edge, r, c, y1, a.y1));
}

/// Bands stay inside the profile when they are merged.
proof fn lemma_merged_inside(bs: Seq<(usize, usize)>, n: int)
    requires
        forall|k: int| 0 <= k < bs.len() ==> (#[trigger] bs[k]).0 <= bs[k].1 <= n,
        forall|j: int, k: int|
            0 <= j < k < bs.len() ==> (#[trigger] bs[j]).1 <= (#[trigger] bs[k]).0,
    ensures
        forall|k: int|
            0 <= k < bands::merged(bs).len() ==> (#[trigger] bands::merged(bs)[k]).0
                <= bands::merged(bs)[k].1 <= n,
{
    if bands::cut(bs) is Some {
        lemma_joined_inside(bs, bands::cut(bs)->0, bs.len() as int, n);
    }
}

proof fn lemma_joined_inside(bs: Seq<(usize, usize)>, twice: int, m: int, n: int)
    requires
        0 <= m <= bs.len(),
        forall|k: int| 0 <= k < bs.len() ==> (#[trigger] bs[k]).0 <= bs[k].1 <= n,
        forall|j: int, k: int|
            0 <= j < k < bs.len() ==> (#[trigger] bs[j]).1 <= (#[trigger] bs[k]).0,
    ensures
        m > 0 ==> bands::joined(bs, twice, m).len() > 0 && bands::joined(bs, twice, m).last().1
            == bs[m - 1].1,
        forall|k: int|
            0 <= k < bands::joined(bs, twice, m).len() ==> (#[trigger] bands::joined(
                bs,
                twice,
                m,
            )[k]).0 <= bands::joined(bs, twice, m)[k].1 <= n,
    decreases m,
{
    if m > 0 {
        lemma_joined_inside(bs, twice, m - 1, n);
        let before = bands::joined(bs, twice, m - 1);
        let after = bands::joined(bs, twice, m);
        assert forall|k: int| 0 <= k < after.len() implies (#[trigger] after[k]).0 <= after[k].1
            <= n by {
            if k < before.len() {
                assert(before[k].0 <= before[k].1 <= n);
            }
            if m > 1 {
                assert(bs[m - 2].1 <= bs[m - 1].0);
                assert(bs[m - 1].0 <= bs[m - 1].1);
            }
        }
    }
}

/// Discrete items inside `block`, found from edges alone: `edge` says of
/// every pixel of the block, row by row, whether it carries one.
///
/// Returns one rectangle per item, in the block's own coordinate space, tight
/// around the item's content rather than around the cell it sits in. Empty
/// when the region carries no structure, which is a real answer and not a
/// failure; [`targets_in`] is what turns it into a single target.
pub fn grid(block: Rect, edge: &[Vec<bool>], p: Params) -> (out: Vec<Rect>)
    requires
        p.wf(),
        is_edge_map(edge@, block),
        block.x + block.w - 1 <= i32::MAX,
        block.y + block.h - 1 <= i32::MAX,
    ensures
        is_grid(edge@, block, p, out@),
{
    let mut out: Vec<Rect> = Vec::new();
    if block.w < 3 || block.h < 3 {
        return out;
    }
    let (w, h): (usize, usize) = (block.w as usize, block.h as usize);
    let rows: Vec<u32> = count_rows(edge, w, h);
    let cols: Vec<u32> = count_columns(edge, w, h);
    let row_bands: Vec<(usize, usize)> = bands::bands(rows.as_slice(), p.min_gap, p.min_run);
    let col_bands: Vec<(usize, usize)> = bands::bands(cols.as_slice(), p.min_gap, p.min_run);
    let ghost (rb, cb) = (row_bands@, col_bands@);
    let row_bands: Vec<(usize, usize)> = bands::merge_bands(row_bands.as_slice());
    let col_bands: Vec<(usize, usize)> = bands::merge_bands(col_bands.as_slice());
    proof {
        assert forall|k: int| 0 <= k < rb.len() implies (#[trigger] rb[k]).0 <= rb[k].1 <= h by {
            assert(bands::is_kept(rows@, p.min_gap, p.min_run, rb[k]));
        }
        assert forall|k: int| 0 <= k < cb.len() implies (#[trigger] cb[k]).0 <= cb[k].1 <= w by {
            assert(bands::is_kept(cols@, p.min_gap, p.min_run, cb[k]));
        }
        lemma_merged_inside(rb, h as int);
        lemma_merged_inside(cb, w as int);
    }
    let mut i: usize = 0;
    while i < row_bands.len()
        invariant
            p.wf(),
            is_edge_map(edge@, block),
            3 <= w == block.w,
            3 <= h == block.h,
            block.x + block.w - 1 <= i32::MAX,
            block.y + block.h - 1 <= i32::MAX,
            i <= row_bands@.len(),
            forall|k: int|
                0 <= k < row_bands@.len() ==> (#[trigger] row_bands@[k]).0 <= row_bands@[k].1 <= h,
            forall|k: int|
                0 <= k < col_bands@.len() ==> (#[trigger] col_bands@[k]).0 <= col_bands@[k].1 <= w,
            out@ == items(edge@, block, p, row_bands@, col_bands@, i as int),
        decreases row_bands.len() - i,
    {
        let r: (usize, usize) = row_bands[i];
        let ghost before = out@;
        let mut j: usize = 0;
        assert(before =~= before + row_items(edge@, block, p, r, col_bands@, 0));
        while j < col_bands.len()
            invariant
                p.wf(),
                is_edge_map(edge@, block),
                3 <= w == block.w,
                3 <= h == block.h,
                block.x + block.w - 1 <= i32::MAX,
                block.y + block.h - 1 <= i32::MAX,
                r.0 <= r.1 <= h,
                j <= col_bands@.len(),
                forall|k: int|
                    0 <= k < col_bands@.len() ==> (#[trigger] col_bands@[k]).0 <= col_bands@[k].1
                        <= w,
                out@ == before + row_items(edge@, block, p, r, col_bands@, j as int),
            decreases col_bands.len() - j,
        {
            let c: (usize, usize) = col_bands[j];
            let (count, found) = scan_cell(edge, r, c, w);
            let ghost so_far = out@;
            let kept: bool = enough(count, r, c, p.min_fill);
            if let Some(b) = found {
                if kept {
                    proof {
                        lemma_one_extent(
                            edge@,
                            r,
                            c,
                            Extent {
                                x0: b.x0 as int,
                                y0: b.y0 as int,
                                x1: b.x1 as int,
                                y1: b.y1 as int,
                            },
                            choose|e: Extent| is_tight(edge@, r, c, e),
                        );
                    }
                    out.push(
                        Rect::new(
                            (block.x as i64 + b.x0 as i64) as i32,
                            (block.y as i64 + b.y0 as i64) as i32,
                            (b.x1 - b.x0 + 1) as i32,
                            (b.y1 - b.y0 + 1) as i32,
                        ),
                    );
                    assert(out@ =~= before + row_items(edge@, block, p, r, col_bands@, j + 1));
                }
            }
            j = j + 1;
        }
        i = i + 1;
    }
    proof {
        assert(bands::merged(rb) == row_bands@);
        assert(bands::merged(cb) == col_bands@);
    }
    out
}

/// There is one grid: the same edges give the same items.
pub proof fn the_same_edges_give_the_same_items(
    edge: Seq<Vec<bool>>,
    block: Rect,
    p: Params,
    a: Seq<Rect>,
    b: Seq<Rect>,
)
    requires
        is_grid(edge, block, p, a),
        is_grid(edge, block, p, b),
    ensures
        a == b,
{
    if block.w < 3 || block.h < 3 {
        assert(a =~= b);
    } else {
        let (w, h) = (block.w as int, block.h as int);
        let (rp, cp) = (row_profile(edge, w, h), column_profile(edge, w, h));
        let (r, c) = choose|r: Seq<(usize, usize)>, c: Seq<(usize, usize)>|
            #![trigger bands::merged(r), bands::merged(c)]
            bands::are_bands(rp, p.min_gap, p.min_run, r) && bands::are_bands(
                cp,
                p.min_gap,
                p.min_run,
                c,
            ) && a == items(
                edge,
                block,
                p,
                bands::merged(r),
                bands::merged(c),
                bands::merged(r).len() as int,
            );
        assert forall|r2: Seq<(usize, usize)>, c2: Seq<(usize, usize)>|
            #![trigger bands::merged(r2), bands::merged(c2)]
            bands::are_bands(rp, p.min_gap, p.min_run, r2) && bands::are_bands(
                cp,
                p.min_gap,
                p.min_run,
                c2,
            ) implies r2 == r && c2 == c by {
            bands::a_profile_is_cut_in_one_way(rp, p.min_gap, p.min_run, r2, r);
            bands::a_profile_is_cut_in_one_way(cp, p.min_gap, p.min_run, c2, c);
        }
    }
}

/// Whether `count` edges fill enough of a cell.
fn enough(count: u64, r: (usize, usize), c: (usize, usize), fill: Ratio) -> (ok: bool)
    requires
        fill.whole > 0,
        r.0 <= r.1 <= u32::MAX,
        c.0 <= c.1 <= u32::MAX,
    ensures
        ok == (count * fill.whole >= fill.part * ((r.1 - r.0) * (c.1 - c.0))),
{
    proof {
        let (a, b) = (r.1 - r.0, c.1 - c.0);
        assert(0 <= a * b <= 0xffff_ffff * 0xffff_ffff) by (nonlinear_arith)
            requires
                0 <= a <= 0xffff_ffff,
                0 <= b <= 0xffff_ffff,
        ;
        let (n, d, part, cells) = (count as int, fill.whole as int, fill.part as int, a * b);
        assert(0 <= n * d <= 0xffff_ffff_ffff_ffff * 0x7fff_ffff_ffff_ffff) by (nonlinear_arith)
            requires
                0 <= n <= 0xffff_ffff_ffff_ffff,
                0 <= d <= 0x7fff_ffff_ffff_ffff,
        ;
        assert(-0x8000_0000_0000_0000 * 0xffff_ffff_ffff_ffff <= part * cells
            <= 0x8000_0000_0000_0000 * 0xffff_ffff_ffff_ffff) by (nonlinear_arith)
            requires
                -0x8000_0000_0000_0000 <= part <= 0x8000_0000_0000_0000,
                0 <= cells <= 0xffff_ffff_ffff_ffff,
        ;
    }
    let cells: i128 = (r.1 - r.0) as i128 * (c.1 - c.0) as i128;
    count as i128 * fill.whole as i128 >= fill.part as i128 * cells
}

/// What [`targets_in`] concluded about a region.
#[derive(Debug, Clone, Copy, PartialEq, Eq, Structural)]
pub enum Found {
    /// Discrete items, and how many.
    Grid(usize),
    /// Nothing discrete: the single rectangle returned is the region itself,
    /// or the one thing in it. A terminal, a video, a canvas.
    Single,
}

/// What to offer in a region the accessibility tree could not explain.
///
/// [`grid`], and where that yields no discrete structure still exactly one
/// target: the region itself, because "nothing happens" is the one failure
/// that cannot be told from "broken". A region that yields one item is the
/// same answer arriving by the other road; the *item's* rectangle is the
/// better target, being tight around whatever was actually there.
pub fn targets_in(block: Rect, edge: &[Vec<bool>], p: Params) -> (r: (Vec<Rect>, Found))
    requires
        p.wf(),
        is_edge_map(edge@, block),
        block.x + block.w - 1 <= i32::MAX,
        block.y + block.h - 1 <= i32::MAX,
    ensures
        r.0@.len() > 0,
        r.1 == (if r.0@.len() == 1 {
            Found::Single
        } else {
            Found::Grid(r.0@.len() as usize)
        }),
        is_grid(edge@, block, p, r.0@) || (r.0@ =~= seq![block] && is_grid(
            edge@,
            block,
            p,
            Seq::empty(),
        )),
{
    let items: Vec<Rect> = grid(block, edge, p);
    if items.len() == 0 {
        assert(items@ =~= Seq::empty());
        let mut whole: Vec<Rect> = Vec::new();
        whole.push(block);
        assert(whole@ =~= seq![block]);
        (whole, Found::Single)
    } else if items.len() == 1 {
        (items, Found::Single)
    } else {
        let n: usize = items.len();
        (items, Found::Grid(n))
    }
}

} // verus!
