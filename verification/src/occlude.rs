//! What is covered, and by what.
//!
//! The accessibility tree has no concept of occlusion: a target in a buried
//! window passes every state check, and a badge drawn on it clicks whatever
//! is on top. Only the compositor's stacking order can tell, and this is the
//! arithmetic that consumes it.
//!
//! **The rule is about the click point, not the rectangle.** A target half
//! behind another window is still clickable if the pixel that would be aimed
//! at is showing. A target whose *click point* is covered is never offered,
//! whatever fraction of it is visible.
use vstd::prelude::*;

use crate::detect::rect;
use crate::detect::rect::Rect;
use crate::num;
use crate::num::Ratio;
use crate::sort;

verus! {

/// Is this point covered by any of `above`?
///
/// `above` may come in any order — covering is a set question. Rectangles are
/// half-open: a point on the right or bottom edge of a window is *not* inside
/// it, which is the convention the compositor's own frame rects follow.
pub fn is_covered(point: (i32, i32), above: &[Rect]) -> (r: bool)
    ensures
        r == rect::covered(above@, point.0 as int, point.1 as int),
{
    let (px, py) = point;
    let mut i: usize = 0;
    while i < above.len()
        invariant
            i <= above@.len(),
            point == (px, py),
            forall|j: int| 0 <= j < i ==> !(#[trigger] above@[j]).covers(px as int, py as int),
        decreases above.len() - i,
    {
        let r: Rect = above[i];
        if px >= r.x && py >= r.y && px < num::saturating_add(r.x, r.w) && py
            < num::saturating_add(r.y, r.h) {
            assert(above@[i as int].covers(px as int, py as int));
            return true;
        }
        i = i + 1;
    }
    false
}

/// How many pixels of row `y` of `rect` show.
pub open spec fn shown_in_row(r: Rect, above: Seq<Rect>, y: int) -> int {
    num::count(r.x as int, r.x + r.w, |px: int| !rect::covered(above, px, y))
}

/// How many pixels show in the first `n` rows of `rect`.
pub open spec fn shown_in_rows(r: Rect, above: Seq<Rect>, n: int) -> int
    decreases n,
{
    if n <= 0 {
        0
    } else {
        shown_in_rows(r, above, n - 1) + shown_in_row(r, above, r.y + n - 1)
    }
}

/// How many pixels of `rect` no rectangle of `above` covers. Rows past the
/// last coordinate there is are not counted.
pub open spec fn shown(r: Rect, above: Seq<Rect>) -> int {
    shown_in_rows(r, above, r.bottom() - r.y)
}

/// How much of `rect` no rectangle in `above` covers: the pixels that show,
/// out of its area. A degenerate rectangle shows nothing.
///
/// Reported rather than enforced: it makes a skipped window legible instead
/// of being a silent absence.
///
/// Computed from the covered spans of each row rather than by rectangle
/// subtraction.
pub fn visible_fraction(r: Rect, above: &[Rect]) -> (f: Ratio)
    ensures
        r.w <= 0 || r.h <= 0 ==> f.part == 0 && f.whole == 1,
        r.w > 0 && r.h > 0 ==> f.part == shown(r, above@) && f.whole == r.size(),
        0 <= f.part <= f.whole,
{
    if r.w <= 0 || r.h <= 0 {
        return Ratio { part: 0, whole: 1 };
    }
    let whole: i64 = r.area();
    let bottom: i32 = num::saturating_add(r.y, r.h);
    let mut part: i64 = 0;
    let mut y: i32 = r.y;
    while y < bottom
        invariant
            0 < r.w,
            0 < r.h,
            r.y <= y <= bottom,
            bottom == r.bottom(),
            part == shown_in_rows(r, above@, y - r.y),
            0 <= part <= r.w * (y - r.y),
            whole == r.size(),
        decreases bottom - y,
    {
        let covered: i64 = covered_in_row(r, above, y);
        proof {
            let f = |px: int| rect::covered(above@, px, y as int);
            let g = |px: int| !rect::covered(above@, px, y as int);
            num::lemma_count_rest(r.x as int, r.x + r.w, f, g);
            num::lemma_count_bounds(r.x as int, r.x + r.w, f);
            let (w, n, h) = (r.w as int, y - r.y, r.h as int);
            assert(w * n + w == w * (n + 1)) by (nonlinear_arith);
            assert(w * (n + 1) <= w * h) by (nonlinear_arith)
                requires
                    w > 0,
                    n + 1 <= h,
            ;
        }
        part = part + (r.w as i64 - covered);
        y = y + 1;
    }
    proof {
        let (w, n, h) = (r.w as int, bottom - r.y, r.h as int);
        assert(w * n <= w * h) by (nonlinear_arith)
            requires
                w > 0,
                n <= h,
        ;
    }
    Ratio { part, whole }
}

/// Some span of `spans` holds `px`.
spec fn spanned(spans: Seq<sort::Key>, px: int) -> bool {
    exists|i: int| 0 <= i < spans.len() && (#[trigger] spans[i]).0 <= px < spans[i].1
}

/// The covered x-spans of row `y`, clipped to the rectangle.
fn spans_in_row(r: Rect, above: &[Rect], y: i32) -> (spans: Vec<sort::Key>)
    requires
        r.w > 0,
    ensures
        forall|px: int|
            r.x <= px < r.x + r.w ==> #[trigger] spanned(spans@, px) == rect::covered(
                above@,
                px,
                y as int,
            ),
        forall|i: int|
            0 <= i < spans@.len() ==> r.x <= (#[trigger] spans@[i]).0 < spans@[i].1 <= r.x + r.w,
{
    let mut spans: Vec<sort::Key> = Vec::new();
    let mut i: usize = 0;
    while i < above.len()
        invariant
            i <= above@.len(),
            r.w > 0,
            forall|px: int|
                r.x <= px < r.x + r.w ==> #[trigger] spanned(spans@, px) == rect::covered(
                    above@.take(i as int),
                    px,
                    y as int,
                ),
            forall|k: int|
                0 <= k < spans@.len() ==> r.x <= (#[trigger] spans@[k]).0 < spans@[k].1 <= r.x
                    + r.w,
        decreases above.len() - i,
    {
        let q: Rect = above[i];
        let ghost before = spans@;
        let a: i32 = q.x.max(r.x);
        let b: i32 = num::saturating_add(q.x, q.w).min(num::saturating_add(r.x, r.w));
        let inside: bool = y >= q.y && y < num::saturating_add(q.y, q.h) && b > a;
        if inside {
            spans.push((a as i128, b as i128, 0, 0));
        }
        proof {
            let (some, more) = (above@.take(i as int), above@.take(i + 1));
            assert forall|px: int| r.x <= px < r.x + r.w implies #[trigger] spanned(spans@, px)
                == rect::covered(more, px, y as int) by {
                assert(spanned(before, px) == rect::covered(some, px, y as int));
                if spanned(before, px) {
                    let k = choose|k: int|
                        0 <= k < before.len() && (#[trigger] before[k]).0 <= px < before[k].1;
                    assert(spans@[k].0 <= px < spans@[k].1);
                    let j = choose|j: int|
                        0 <= j < some.len() && (#[trigger] some[j]).covers(px, y as int);
                    assert(more[j].covers(px, y as int));
                }
                if q.covers(px, y as int) {
                    assert(more[i as int].covers(px, y as int));
                    assert(spans@[spans@.len() - 1].0 <= px < spans@[spans@.len() - 1].1);
                }
                if spanned(spans@, px) && !spanned(before, px) {
                    let k = choose|k: int|
                        0 <= k < spans@.len() && (#[trigger] spans@[k]).0 <= px < spans@[k].1;
                    if k < before.len() {
                        assert(before[k].0 <= px < before[k].1);
                    }
                    assert(q.covers(px, y as int));
                }
                if rect::covered(more, px, y as int) && !rect::covered(some, px, y as int) {
                    let j = choose|j: int|
                        0 <= j < more.len() && (#[trigger] more[j]).covers(px, y as int);
                    if j < i {
                        assert(some[j].covers(px, y as int));
                    }
                }
            }
        }
        i = i + 1;
    }
    proof {
        assert(above@.take(i as int) =~= above@);
    }
    spans
}

/// Sorting spans changes nothing about what they hold.
proof fn lemma_spans_permuted(a: Seq<sort::Key>, b: Seq<sort::Key>, px: int)
    requires
        a.to_multiset() == b.to_multiset(),
    ensures
        spanned(a, px) == spanned(b, px),
{
    if spanned(a, px) {
        let i = choose|i: int| 0 <= i < a.len() && (#[trigger] a[i]).0 <= px < a[i].1;
        let j = sort::lemma_also_in(a, b, i);
        assert(b[j].0 <= px < b[j].1);
    }
    if spanned(b, px) {
        let i = choose|i: int| 0 <= i < b.len() && (#[trigger] b[i]).0 <= px < b[i].1;
        let j = sort::lemma_also_in(b, a, i);
        assert(a[j].0 <= px < a[j].1);
    }
}

/// How many pixels of row `y` are covered: the spans, sorted and merged.
fn covered_in_row(r: Rect, above: &[Rect], y: i32) -> (n: i64)
    requires
        r.w > 0,
    ensures
        n == num::count(r.x as int, r.x + r.w, |px: int| rect::covered(above@, px, y as int)),
        0 <= n <= r.w,
{
    let unsorted: Vec<sort::Key> = spans_in_row(r, above, y);
    let ghost loose = unsorted@;
    let spans: Vec<sort::Key> = sort::sort(unsorted);
    let ghost (lo, hi) = (r.x as int, r.x + r.w);
    let ghost none = |px: int| spanned(spans@.take(0), px);
    proof {
        assert forall|i: int| 0 <= i < spans@.len() implies lo <= (#[trigger] spans@[i]).0
            < spans@[i].1 <= hi by {
            let j = sort::lemma_also_in(spans@, loose, i);
            assert(loose[j].0 < loose[j].1);
        }
        num::lemma_count_bounds(lo, hi, none);
        assert(num::count(lo, hi, none) == 0) by {
            num::lemma_count_rest(lo, hi, none, |px: int| true);
            lemma_count_all(lo, hi);
        }
    }
    let mut covered: i64 = 0;
    let mut edge: i128 = i32::MIN as i128;
    let mut i: usize = 0;
    while i < spans.len()
        invariant
            i <= spans@.len(),
            lo == r.x,
            hi == r.x + r.w,
            r.w > 0,
            0 <= covered <= r.w,
            sort::in_order(spans@),
            forall|k: int|
                0 <= k < spans@.len() ==> lo <= (#[trigger] spans@[k]).0 < spans@[k].1 <= hi,
            covered == num::count(lo, hi, |px: int| spanned(spans@.take(i as int), px)),
            forall|k: int| 0 <= k < i ==> (#[trigger] spans@[k]).1 <= edge,
            i == 0 ==> edge == i32::MIN,
            i > 0 ==> exists|k: int| 0 <= k < i && (#[trigger] spans@[k]).1 == edge,
        decreases spans.len() - i,
    {
        let (start, b, _third, _index) = spans[i];
        let a: i128 = if start > edge {
            start
        } else {
            edge
        };
        let ghost some = spans@.take(i as int);
        let ghost more = spans@.take(i + 1);
        let ghost f = |px: int| spanned(some, px);
        let ghost g = |px: int| spanned(more, px);
        proof {
            assert forall|px: int| #[trigger] spanned(more, px) == (spanned(some, px) || (start
                <= px < b)) by {
                if spanned(some, px) {
                    let k = choose|k: int|
                        0 <= k < some.len() && (#[trigger] some[k]).0 <= px < some[k].1;
                    assert(more[k].0 <= px < more[k].1);
                }
                if start <= px < b {
                    assert(more[i as int].0 <= px < more[i as int].1);
                }
                if spanned(more, px) {
                    let k = choose|k: int|
                        0 <= k < more.len() && (#[trigger] more[k]).0 <= px < more[k].1;
                    if k < i {
                        assert(some[k].0 <= px < some[k].1);
                    }
                }
            }
            // What lies before the edge is covered already: the span that
            // reaches the edge starts no later than this one.
            assert forall|px: int| start <= px < edge implies spanned(some, px) by {
                let k = choose|k: int| 0 <= k < i && (#[trigger] spans@[k]).1 == edge;
                assert(sort::key_le(spans@[k], spans@[i as int]));
                assert(some[k].0 <= px < some[k].1);
            }
            assert forall|px: int| px >= edge implies !spanned(some, px) by {
                if spanned(some, px) {
                    let k = choose|k: int|
                        0 <= k < some.len() && (#[trigger] some[k]).0 <= px < some[k].1;
                    assert(spans@[k].1 <= edge);
                }
            }
        }
        if b > a {
            proof {
                assert forall|px: int| lo <= px < hi implies #[trigger] g(px) == (f(px) || a <= px
                    < b) by {
                    assert(spanned(more, px) == (spanned(some, px) || (start <= px < b)));
                }
                num::lemma_count_interval(lo, hi, f, g, a as int, b as int);
                num::lemma_count_bounds(lo, hi, g);
            }
            covered = covered + (b - a) as i64;
            edge = b;
            assert(spans@[i as int].1 == edge);
        } else {
            proof {
                assert forall|px: int| lo <= px < hi implies #[trigger] f(px) == g(px) by {
                    assert(spanned(more, px) == (spanned(some, px) || (start <= px < b)));
                }
                num::lemma_count_same(lo, hi, f, g);
            }
        }
        i = i + 1;
    }
    proof {
        assert(spans@.take(i as int) =~= spans@);
        let f = |px: int| spanned(spans@, px);
        let g = |px: int| rect::covered(above@, px, y as int);
        assert forall|px: int| lo <= px < hi implies #[trigger] f(px) == g(px) by {
            lemma_spans_permuted(spans@, loose, px);
            assert(spanned(loose, px) == rect::covered(above@, px, y as int));
        }
        num::lemma_count_same(lo, hi, f, g);
    }
    covered
}

proof fn lemma_count_all(lo: int, hi: int)
    requires
        lo <= hi,
    ensures
        num::count(lo, hi, |px: int| true) == hi - lo,
    decreases hi - lo,
{
    if lo < hi {
        lemma_count_all(lo, hi - 1);
    }
}

} // verus!
