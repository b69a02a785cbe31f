//! Is a target found by its pixels still the thing the label promised?
use vstd::prelude::*;

use crate::detect::rect;
use crate::detect::rect::Rect;
use crate::num;
use crate::num::Ratio;

verus! {

/// A target's identity: what its rectangle looked like when it was found. Its
/// view is the samples, row by row.
///
/// A 64×64 **nearest-neighbour** luma sample. Nearest rather than averaged,
/// and 64 rather than the 8 an average-hash would use: downsampling destroys
/// the filename text under an icon, and on a file manager the filename is the
/// only thing that distinguishes two plain folders.
#[derive(Debug, Clone, Copy, PartialEq, Eq)]
pub struct Fingerprint {
    cells: [u8; 4096],
}

impl View for Fingerprint {
    type V = Seq<u8>;

    closed spec fn view(&self) -> Seq<u8> {
        self.cells@
    }
}

/// How many samples a fingerprint has along each axis.
pub const SIDE: usize = 64;

/// Where along a side `len` long, that starts at `start`, sample `c` is
/// taken: in the middle of its cell, and no further out than `0 .. end`.
pub open spec fn sample_at(start: int, len: int, c: int, end: int) -> int {
    num::clamped(
        start + (2 * c + 1) * num::larger(len, 1) / 128,
        0,
        num::larger(end - 1, 0),
    )
}

/// How many whole rows a picture has.
pub open spec fn picture_rows(luma: Seq<u8>, stride: int) -> int {
    if stride == 0 {
        0
    } else {
        luma.len() as int / stride
    }
}

/// The sample in column `cx` and row `cy` of a fingerprint; dark where the
/// picture has no such pixel.
pub open spec fn sample(
    luma: Seq<u8>,
    stride: int,
    r: Rect,
    origin: (i32, i32),
    cx: int,
    cy: int,
) -> u8 {
    let sx = sample_at(r.x - origin.0, r.w as int, cx, stride);
    let sy = sample_at(r.y - origin.1, r.h as int, cy, picture_rows(luma, stride));
    let i = sy * stride + sx;
    if i < luma.len() {
        luma[i]
    } else {
        0
    }
}

/// The fingerprint of a rectangle of a picture.
pub open spec fn prints(luma: Seq<u8>, stride: int, r: Rect, origin: (i32, i32)) -> Seq<u8> {
    Seq::new(4096, |i: int| sample(luma, stride, r, origin, i % 64, i / 64))
}

/// How far the first `n` samples of two fingerprints are apart, in all.
pub open spec fn drift(a: Seq<u8>, b: Seq<u8>, n: int) -> int
    decreases n,
{
    if n <= 0 {
        0
    } else {
        drift(a, b, n - 1) + num::magnitude(a[n - 1] - b[n - 1])
    }
}

impl Fingerprint {
    /// Sample `r` out of a luma image. `origin` names where the image's `0,0`
    /// sits, so `r` can be in the caller's coordinates.
    ///
    /// A rectangle partly outside the image samples the edge rather than
    /// failing: a window hanging off the screen is an ordinary thing and a
    /// fingerprint of the visible part is still worth comparing.
    pub fn of(luma: &[u8], stride: usize, r: Rect, origin: (i32, i32)) -> (f: Self)
        ensures
            f@ == prints(luma@, stride as int, r, origin),
    {
        let mut cells: [u8; 4096] = [0u8; 4096];
        let ox: i64 = r.x as i64 - origin.0 as i64;
        let oy: i64 = r.y as i64 - origin.1 as i64;
        let rows: usize = if stride == 0 {
            0
        } else {
            luma.len() / stride
        };
        let mut i: usize = 0;
        while i < 4096
            invariant
                i <= 4096,
                ox == r.x - origin.0,
                oy == r.y - origin.1,
                rows == picture_rows(luma@, stride as int),
                forall|k: int|
                    0 <= k < i ==> #[trigger] cells@[k] == sample(
                        luma@,
                        stride as int,
                        r,
                        origin,
                        k % 64,
                        k / 64,
                    ),
            decreases 4096 - i,
        {
            let sx: usize = sample_point(ox, r.w, i % 64, stride);
            let sy: usize = sample_point(oy, r.h, i / 64, rows);
            proof {
                lemma_sample_inside(
                    luma.len() as int,
                    stride as int,
                    rows as int,
                    sx as int,
                    sy as int,
                );
            }
            let at: usize = if stride == 0 {
                sx
            } else {
                sy * stride + sx
            };
            cells[i] = if at < luma.len() {
                luma[at]
            } else {
                0
            };
            i = i + 1;
        }
        assert(cells@ =~= prints(luma@, stride as int, r, origin));
        Fingerprint { cells }
    }

    /// Mean absolute difference, as the whole difference over the number of
    /// samples. Nothing for identical pixels.
    pub fn distance(&self, other: &Self) -> (d: Ratio)
        ensures
            d.part == drift(self@, other@, 4096),
            d.whole == 4096,
            0 <= d.part <= 255 * 4096,
    {
        let mut total: i64 = 0;
        let mut i: usize = 0;
        while i < 4096
            invariant
                i <= 4096,
                total == drift(self@, other@, i as int),
                0 <= total <= 255 * i,
            decreases 4096 - i,
        {
            let (a, b): (i64, i64) = (self.cells[i] as i64, other.cells[i] as i64);
            total = total + if a >= b {
                a - b
            } else {
                b - a
            };
            i = i + 1;
        }
        Ratio { part: total, whole: 4096 }
    }
}

fn sample_point(start: i64, len: i32, c: usize, end: usize) -> (p: usize)
    requires
        c < 64,
        -0x1_0000_0000 <= start <= 0x1_0000_0000,
    ensures
        p == sample_at(start as int, len as int, c as int, end as int),
        p < end || p == 0,
{
    let long: i128 = if len > 1 {
        len as i128
    } else {
        1
    };
    proof {
        let (a, b) = (2 * c + 1, long as int);
        assert(0 <= a * b <= 127 * 0x7fff_ffff) by (nonlinear_arith)
            requires
                0 <= a <= 127,
                0 <= b <= 0x7fff_ffff,
        ;
    }
    let x: i128 = start as i128 + (2 * c as i128 + 1) * long / 128;
    let last: i128 = if end > 0 {
        end as i128 - 1
    } else {
        0
    };
    if x < 0 {
        0
    } else if x > last {
        last as usize
    } else {
        x as usize
    }
}

/// A sample that is taken inside the rows is inside the picture.
proof fn lemma_sample_inside(len: int, stride: int, rows: int, sx: int, sy: int)
    requires
        len >= 0,
        stride >= 0,
        rows == (if stride == 0 {
            0
        } else {
            len / stride
        }),
        0 <= sx && (sx < stride || sx == 0),
        0 <= sy && (sy < rows || sy == 0),
    ensures
        stride == 0 ==> sy * stride == 0,
        stride > 0 ==> 0 <= sy * stride && sy * stride + sx <= num::larger(len, stride - 1),
{
    if stride > 0 {
        if sy == 0 {
            assert(sy * stride == 0) by (nonlinear_arith)
                requires
                    sy == 0,
            ;
        } else {
            assert((sy + 1) * stride <= len) by (nonlinear_arith)
                requires
                    stride > 0,
                    sy + 1 <= len / stride,
            ;
            assert((sy + 1) * stride == sy * stride + stride) by (nonlinear_arith);
            assert(0 <= sy * stride) by (nonlinear_arith)
                requires
                    sy >= 0,
                    stride > 0,
            ;
        }
    } else {
        assert(sy * stride == 0) by (nonlinear_arith)
            requires
                stride == 0,
        ;
    }
}

/// A fingerprint is no distance from itself, and from another as far as the
/// other is from it.
pub proof fn distance_is_a_distance(a: Seq<u8>, b: Seq<u8>, n: int)
    ensures
        drift(a, a, n) == 0,
        drift(a, b, n) == drift(b, a, n),
        0 <= drift(a, b, n),
    decreases n,
{
    if n > 0 {
        distance_is_a_distance(a, b, n - 1);
    }
}

/// A target found by its pixels, as claimed by whatever drew a badge on it.
#[derive(Debug, Clone, Copy)]
pub struct Claim {
    /// Where the item was when it was found.
    pub rect: Rect,
    /// Where the click will go.
    pub click: (i32, i32),
    /// What it looked like then.
    pub print: Fingerprint,
}

/// Why a click was refused, or that it was not.
#[derive(Debug, Clone, Copy, PartialEq, Eq, Structural)]
pub enum Verdict {
    /// Both checks passed: an item is still there and still looks the same.
    Valid,
    /// Nothing was detected under the click point any more.
    Gone,
    /// Something is there, but it is not where the claim said — the view
    /// scrolled, or the window moved.
    Moved,
    /// The rectangle matches and the pixels do not. An in-place content
    /// change: the same slot, holding something else.
    Changed,
}

impl Verdict {
    pub fn is_ok(self) -> (r: bool)
        ensures
            r == (self is Valid),
    {
        match self {
            Verdict::Valid => true,
            _ => false,
        }
    }

    pub fn why(self) -> (s: &'static str)
        ensures
            s@ == match self {
                Verdict::Valid => "still there, and still looks the same"@,
                Verdict::Gone => "nothing is detected under the click point any more"@,
                Verdict::Moved => "an item is there but not where it was — the view moved"@,
                Verdict::Changed =>
                    "the rectangle is the same and the pixels are not — the slot now holds something else"@,
            },
    {
        match self {
            Verdict::Valid => "still there, and still looks the same",
            Verdict::Gone => "nothing is detected under the click point any more",
            Verdict::Moved => "an item is there but not where it was — the view moved",
            Verdict::Changed =>
                "the rectangle is the same and the pixels are not — the slot now holds something else",
        }
    }
}

/// How much a fresh rectangle must share with the claimed one, as
/// intersection over union, in hundredths. 50 is the conventional detection
/// threshold and it is far tighter than it needs to be for the case that
/// matters: a grid scrolled by one row scores 0.
pub const MIN_IOU: i64 = 50;

/// How far the pixels may drift before the item is believed to have been
/// replaced, as the mean difference of a sample: well below the 2.85 measured
/// between two different items and well above the 0 of a static re-capture.
pub const MAX_DRIFT: i64 = 1;

/// How many pixels wide two stretches overlap.
pub open spec fn shared(a0: int, a1: int, b0: int, b1: int) -> int {
    num::larger(num::smaller(a1, b1) - num::larger(a0, b0), 0)
}

/// How many pixels two rectangles share.
pub open spec fn intersection(a: Rect, b: Rect) -> int {
    shared(a.x as int, a.right(), b.x as int, b.right()) * shared(
        a.y as int,
        a.bottom(),
        b.y as int,
        b.bottom(),
    )
}

/// How many pixels two rectangles have between them.
pub open spec fn union_size(a: Rect, b: Rect) -> int {
    a.size() + b.size() - intersection(a, b)
}

/// Intersection over union: nothing for disjoint rectangles.
pub fn iou(a: Rect, b: Rect) -> (r: Ratio)
    ensures
        intersection(a, b) == 0 ==> r == (Ratio { part: 0, whole: 1 }),
        intersection(a, b) != 0 ==> r.part == intersection(a, b) && r.whole == union_size(a, b),
        0 <= r.part <= r.whole,
        0 < r.whole,
{
    let x0: i64 = a.x.max(b.x) as i64;
    let y0: i64 = a.y.max(b.y) as i64;
    let x1: i64 = num::saturating_add(a.x, a.w).min(num::saturating_add(b.x, b.w)) as i64;
    let y1: i64 = num::saturating_add(a.y, a.h).min(num::saturating_add(b.y, b.h)) as i64;
    if x1 <= x0 || y1 <= y0 {
        assert(intersection(a, b) == 0) by (nonlinear_arith)
            requires
                x1 <= x0 || y1 <= y0,
                x0 == num::larger(a.x as int, b.x as int),
                y0 == num::larger(a.y as int, b.y as int),
                x1 == num::smaller(a.right(), b.right()),
                y1 == num::smaller(a.bottom(), b.bottom()),
        ;
        return Ratio { part: 0, whole: 1 };
    }
    proof {
        lemma_overlap((x1 - x0) as int, (y1 - y0) as int, a, b);
    }
    let inter: i64 = (x1 - x0) * (y1 - y0);
    let union: i64 = (a.area() - inter) + b.area();
    Ratio { part: inter, whole: union }
}

proof fn lemma_overlap(w: int, h: int, a: Rect, b: Rect)
    requires
        0 < w <= a.w,
        0 < w <= b.w,
        0 < h <= a.h,
        0 < h <= b.h,
    ensures
        0 < w * h <= a.size(),
        w * h <= b.size(),
        a.size() <= 0x3fff_ffff_ffff_ffff,
        b.size() <= 0x3fff_ffff_ffff_ffff,
{
    let (aw, ah, bw, bh) = (a.w as int, a.h as int, b.w as int, b.h as int);
    assert(0 < w * h <= aw * ah) by (nonlinear_arith)
        requires
            0 < w <= aw,
            0 < h <= ah,
    ;
    assert(w * h <= bw * bh) by (nonlinear_arith)
        requires
            0 < w <= bw,
            0 < h <= bh,
    ;
    assert(aw * ah <= 0x3fff_ffff_ffff_ffff) by (nonlinear_arith)
        requires
            0 < aw <= 0x7fff_ffff,
            0 < ah <= 0x7fff_ffff,
    ;
    assert(bw * bh <= 0x3fff_ffff_ffff_ffff) by (nonlinear_arith)
        requires
            0 < bw <= 0x7fff_ffff,
            0 < bh <= 0x7fff_ffff,
    ;
}

/// Whether the rectangle holds the point.
pub fn contains(r: Rect, p: (i32, i32)) -> (inside: bool)
    ensures
        inside == r.covers(p.0 as int, p.1 as int),
{
    p.0 >= r.x && p.0 < num::saturating_add(r.x, r.w) && p.1 >= r.y && p.1 < num::saturating_add(
        r.y,
        r.h,
    )
}

/// The rectangle at `i` is the first that holds the point.
pub open spec fn first_under(fresh: Seq<Rect>, p: (i32, i32), i: int) -> bool {
    &&& 0 <= i < fresh.len()
    &&& fresh[i].covers(p.0 as int, p.1 as int)
    &&& forall|j: int| 0 <= j < i ==> !(#[trigger] fresh[j]).covers(p.0 as int, p.1 as int)
}

/// Whether the rectangle found is where the claimed one was.
pub open spec fn agrees(found: Rect, claimed: Rect) -> bool {
    intersection(found, claimed) != 0 && 100 * intersection(found, claimed) >= MIN_IOU
        * union_size(found, claimed)
}

/// What is to be said of a claim, with `found` under its click point.
pub open spec fn judged(claim: Claim, found: Rect, looks: Seq<u8>) -> Verdict {
    if !agrees(found, claim.rect) {
        Verdict::Moved
    } else if drift(looks, claim.print@, 4096) > MAX_DRIFT * 4096 {
        Verdict::Changed
    } else {
        Verdict::Valid
    }
}

/// Is this target still the thing the label promised?
///
/// `fresh` is a re-detection over a freshly captured `luma`. The structural
/// check comes first because it is the one that localises the failure, and
/// the identity one second because it only means anything once the rectangle
/// has been agreed on.
pub fn revalidate(
    claim: &Claim,
    fresh: &[Rect],
    luma: &[u8],
    stride: usize,
    origin: (i32, i32),
) -> (v: Verdict)
    ensures
        v is Gone <==> !rect::covered(fresh@, claim.click.0 as int, claim.click.1 as int),
        forall|i: int| #[trigger]
            first_under(fresh@, claim.click, i) ==> v == judged(
                *claim,
                fresh@[i],
                prints(luma@, stride as int, fresh@[i], origin),
            ),
{
    let mut i: usize = 0;
    while i < fresh.len() && !contains(fresh[i], claim.click)
        invariant
            i <= fresh@.len(),
            forall|j: int|
                0 <= j < i ==> !(#[trigger] fresh@[j]).covers(
                    claim.click.0 as int,
                    claim.click.1 as int,
                ),
        decreases fresh.len() - i,
    {
        i = i + 1;
    }
    if i == fresh.len() {
        return Verdict::Gone;
    }
    let found: Rect = fresh[i];
    assert(first_under(fresh@, claim.click, i as int));
    assert(found.covers(claim.click.0 as int, claim.click.1 as int));
    assert forall|j: int| #[trigger] first_under(fresh@, claim.click, j) implies j == i by {
        if j < i {
            assert(!fresh@[j].covers(claim.click.0 as int, claim.click.1 as int));
        }
    }
    let overlap: Ratio = iou(found, claim.rect);
    if 100 * (overlap.part as i128) < MIN_IOU as i128 * overlap.whole as i128 {
        return Verdict::Moved;
    }
    let d: Ratio = Fingerprint::of(luma, stride, found, origin).distance(&claim.print);
    if d.part > MAX_DRIFT * d.whole {
        return Verdict::Changed;
    }
    Verdict::Valid
}

} // verus!
