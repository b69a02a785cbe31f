//! The largest rectangle that nothing touches.
use vstd::prelude::*;

use crate::detect::rect;
use crate::detect::rect::Rect;
use crate::num;

verus! {

/// `r` lies inside `area`, is not empty, and no rectangle of `occupied`
/// covers a pixel of it.
pub open spec fn is_free(area: Rect, occupied: Seq<Rect>, r: Rect) -> bool {
    &&& r.w > 0 && r.h > 0
    &&& area.x <= r.x && r.x + r.w <= area.x + area.w
    &&& area.y <= r.y && r.y + r.h <= area.y + area.h
    &&& forall|px: int, py: int|
        r.x <= px < r.x + r.w && r.y <= py < r.y + r.h ==> !#[trigger] rect::covered(
            occupied,
            px,
            py,
        )
}

/// `a` comes before `b` when both are on offer, or they are the same: the
/// larger first; of two the same size the one that ends higher up, then the
/// one that ends further left, then the taller.
pub open spec fn preferred(a: Rect, b: Rect) -> bool {
    let (a_end, b_end) = (a.y + a.h, b.y + b.h);
    let (a_side, b_side) = (a.x + a.w, b.x + b.w);
    a.size() > b.size() || (a.size() == b.size() && (a_end < b_end || (a_end == b_end && (a_side
        < b_side || (a_side == b_side && a.h >= b.h)))))
}

// ---------------------------------------------------------------------------
// One row: bars standing on a line
// ---------------------------------------------------------------------------

/// A rectangle in the area's own columns and rows: columns `left .. right`,
/// `height` rows of which `row` is the lowest.
#[derive(Clone, Copy)]
struct Span {
    left: usize,
    right: usize,
    row: usize,
    height: u32,
}

impl Span {
    spec fn size(self) -> int {
        (self.right - self.left) * self.height
    }

    fn area(self) -> (a: u128)
        requires
            self.left <= self.right,
        ensures
            a == self.size(),
    {
        let width: u64 = (self.right - self.left) as u64;
        proof {
            let (w, h) = (width as int, self.height as int);
            assert(0 <= w * h <= 0xffff_ffff_ffff_ffff * 0xffff_ffff) by (nonlinear_arith)
                requires
                    0 <= w <= 0xffff_ffff_ffff_ffff,
                    0 <= h <= 0xffff_ffff,
            ;
        }
        width as u128 * self.height as u128
    }
}

/// [`preferred`], on spans.
spec fn ahead(a: Span, b: Span) -> bool {
    a.size() > b.size() || (a.size() == b.size() && (a.row < b.row || (a.row == b.row && (a.right
        < b.right || (a.right == b.right && a.height >= b.height)))))
}

/// `best` is there and ahead of `b`.
spec fn beats(best: Option<Span>, b: Span) -> bool {
    best is Some && ahead(best->0, b)
}

/// The span stands inside bars of these heights.
spec fn stands(heights: Seq<u32>, b: Span) -> bool {
    &&& b.left < b.right <= heights.len()
    &&& b.height >= 1
    &&& forall|c: int| b.left <= c < b.right ==> #[trigger] heights[c] >= b.height
}

/// The span stands, and the bar to its right is too low to extend it.
spec fn closed(heights: Seq<u32>, b: Span) -> bool {
    stands(heights, b) && (b.right == heights.len() || heights[b.right as int] < b.height)
}

/// Where the bars of stack entry `k` end: where the next entry's begin, or
/// at `end` for the last one.
spec fn entry_end(stack: Seq<(usize, u32)>, end: int, k: int) -> int {
    if k + 1 < stack.len() {
        stack[k + 1].0 as int
    } else {
        end
    }
}

/// The stack describes the bars `0 .. end`, read at column `x`: entry `k`
/// says that from its left edge on every bar up to `x` is at least its
/// height, and that its own last bar is exactly that high.
spec fn describes(stack: Seq<(usize, u32)>, heights: Seq<u32>, end: int, x: int) -> bool {
    &&& 0 <= end <= x <= heights.len()
    &&& stack.len() == 0 <==> end == 0
    &&& stack.len() > 0 ==> stack[0].0 == 0
    &&& forall|k: int|
        0 <= k < stack.len() ==> (#[trigger] stack[k]).0 < entry_end(stack, end, k) <= end
    &&& forall|j: int, k: int|
        0 <= j < k < stack.len() ==> (#[trigger] stack[j]).1 < (#[trigger] stack[k]).1 && stack[j].0
            < stack[k].0
    &&& forall|k: int, c: int|
        0 <= k < stack.len() && stack[k].0 <= c < x ==> #[trigger] heights[c] >= (
        #[trigger] stack[k]).1
    &&& forall|k: int|
        0 <= k < stack.len() ==> heights[entry_end(stack, end, k) - 1] == (#[trigger] stack[k]).1
}

/// The best of `best` and every span standing on row `y`, given the heights
/// of the bars that end there.
fn scan_row(heights: &Vec<u32>, y: usize, best: Option<Span>) -> (next: Option<Span>)
    requires
        heights@.len() < usize::MAX,
        best is Some ==> best->0.row < y && best->0.left <= best->0.right && best->0.height >= 1,
    ensures
        next == best || (next is Some && next->0.row == y && stands(heights@, next->0)),
        best is Some ==> beats(next, best->0),
        forall|q: Span| #[trigger] closed(heights@, q) && q.row == y ==> beats(next, q),
{
    let w: usize = heights.len();
    let mut top: Option<Span> = best;
    // (left edge of the run this bar could extend back to, bar height)
    let mut stack: Vec<(usize, u32)> = Vec::new();
    let mut x: usize = 0;
    // One past the end, with a zero sentinel, so the last run is closed by
    // the same code that closes every other one.
    while x <= w
        invariant
            0 <= x <= w + 1,
            w == heights@.len(),
            w < usize::MAX,
            best is Some ==> best->0.row < y && best->0.left <= best->0.right && best->0.height
                >= 1,
            top is Some ==> top->0.left <= top->0.right,
            x <= w ==> describes(stack@, heights@, x as int, x as int),
            top == best || (top is Some && top->0.row == y && top->0.right < x && stands(
                heights@,
                top->0,
            )),
            best is Some ==> beats(top, best->0),
            forall|q: Span| #[trigger]
                closed(heights@, q) && q.row == y && q.right < x ==> beats(top, q),
        decreases w + 1 - x,
    {
        let cur: u32 = if x < w {
            heights[x]
        } else {
            0
        };
        let mut start: usize = x;
        while stack.len() > 0
            invariant
                0 <= start <= x <= w,
                w == heights@.len(),
                cur == if x < w {
                    heights@[x as int]
                } else {
                    0
                },
                best is Some ==> best->0.row < y && best->0.left <= best->0.right && best->0.height
                    >= 1,
                describes(stack@, heights@, start as int, x as int),
                forall|c: int| start <= c < x ==> #[trigger] heights@[c] >= cur,
                top is Some ==> top->0.left <= top->0.right,
                top == best || (top is Some && top->0.row == y && top->0.right <= x && stands(
                    heights@,
                    top->0,
                )),
                top is Some && top->0.row == y && top->0.right == x && stack@.len() > 0
                    ==> stack@.last().1 < top->0.height,
                best is Some ==> beats(top, best->0),
                forall|q: Span| #[trigger]
                    closed(heights@, q) && q.row == y && (q.right < x || (q.right == x && q.left
                        >= start)) ==> beats(top, q),
            ensures
                stack@.len() > 0 ==> stack@.last().1 < cur,
            decreases stack.len(),
        {
            let (s, ht) = stack[stack.len() - 1];
            if ht < cur {
                break;
            }
            let ghost before = stack@;
            let ghost top_before = top;
            stack.pop();
            let candidate: Span = Span { left: s, right: x, row: y, height: ht };
            let bar: u128 = match top {
                Some(b) => b.area(),
                None => 0,
            };
            if candidate.area() > bar {
                proof {
                    lemma_positive(candidate);
                }
                top = Some(candidate);
            }
            proof {
                lemma_popped(before, heights@, start as int, x as int);
                assert(stack@ =~= before.drop_last());
                assert forall|q: Span| #[trigger]
                    closed(heights@, q) && q.row == y && (q.right < x || (q.right == x && q.left
                        >= s)) implies beats(top, q) by {
                    if q.right == x && q.left < start {
                        assert(heights@[start - 1] == ht);
                        assert(heights@[start - 1] >= q.height);
                        lemma_larger(candidate, q);
                        lemma_positive(q);
                    } else {
                        assert(beats(top_before, q));
                    }
                }
            }
            start = s;
        }
        proof {
            assert forall|q: Span| #[trigger]
                closed(heights@, q) && q.row == y && q.right <= x implies beats(top, q) by {
                if q.right == x && q.left < start {
                    // A standing span that reaches below the stack would be
                    // no taller than the entry it starts in.
                    let k = lemma_entry_of(stack@, heights@, start as int, x as int, q.left as int);
                    assert(heights@[entry_end(stack@, start as int, k) - 1] == stack@[k].1);
                    assert(heights@[entry_end(stack@, start as int, k) - 1] >= q.height);
                    assert(stack@[k].1 <= stack@.last().1);
                    assert(false);
                }
            }
        }
        let ghost below = stack@;
        stack.push((start, cur));
        proof {
            if x < w {
                lemma_pushed(below, heights@, start as int, x as int, cur);
            }
        }
        x = x + 1;
    }
    top
}

proof fn lemma_positive(b: Span)
    ensures
        b.size() > 0 && b.left <= b.right ==> b.left < b.right && b.height >= 1,
        b.left < b.right && b.height >= 1 ==> b.size() > 0,
{
    let (w, h) = (b.right - b.left, b.height as int);
    assert(w >= 0 && h >= 0 && w * h > 0 ==> w > 0 && h > 0) by (nonlinear_arith);
    assert(w > 0 && h > 0 ==> w * h > 0) by (nonlinear_arith);
}

proof fn lemma_larger(a: Span, b: Span)
    requires
        a.left <= b.left < b.right == a.right,
        a.height >= b.height,
    ensures
        a.size() >= b.size(),
{
    let (aw, ah) = (a.right - a.left, a.height as int);
    let (bw, bh) = (b.right - b.left, b.height as int);
    assert(aw * ah >= bw * bh) by (nonlinear_arith)
        requires
            aw >= bw >= 0,
            ah >= bh >= 0,
    ;
}

/// The stack without its last entry describes the bars before that entry's.
proof fn lemma_popped(stack: Seq<(usize, u32)>, heights: Seq<u32>, end: int, x: int)
    requires
        stack.len() > 0,
        describes(stack, heights, end, x),
    ensures
        describes(stack.drop_last(), heights, stack.last().0 as int, x),
{
    let rest = stack.drop_last();
    let next_end = stack.last().0 as int;
    assert forall|k: int| 0 <= k < rest.len() implies entry_end(rest, next_end, k) == entry_end(
        stack,
        end,
        k,
    ) && (#[trigger] rest[k]) == stack[k] by {}
    assert forall|k: int| 0 <= k < rest.len() implies (#[trigger] rest[k]).0 < entry_end(
        rest,
        next_end,
        k,
    ) <= next_end by {
        assert(stack[k].0 < entry_end(stack, end, k));
        if k + 1 < rest.len() {
            assert(stack[k + 1].0 < stack[stack.len() - 1].0);
        }
    }
    assert forall|k: int| 0 <= k < rest.len() implies heights[entry_end(rest, next_end, k) - 1] == (
    #[trigger] rest[k]).1 by {
        assert(heights[entry_end(stack, end, k) - 1] == stack[k].1);
    }
    if rest.len() > 0 {
        assert(rest[0] == stack[0]);
        assert(stack[0].0 < stack[stack.len() - 1].0);
    } else {
        assert(stack.last() == stack[0]);
    }
}

/// Pushing the bar at `x`, extended back over every bar that is not lower,
/// describes the bars through `x`.
proof fn lemma_pushed(stack: Seq<(usize, u32)>, heights: Seq<u32>, start: int, x: int, cur: u32)
    requires
        describes(stack, heights, start, x),
        x < heights.len() <= usize::MAX,
        heights[x] == cur,
        stack.len() > 0 ==> stack.last().1 < cur,
        forall|c: int| start <= c < x ==> #[trigger] heights[c] >= cur,
    ensures
        describes(stack.push((start as usize, cur)), heights, x + 1, x + 1),
{
    let next = stack.push((start as usize, cur));
    let n = stack.len() as int;
    assert forall|k: int| 0 <= k < n implies entry_end(next, x + 1, k) == entry_end(
        stack,
        start,
        k,
    ) && (#[trigger] next[k]) == stack[k] by {}
    assert forall|k: int| 0 <= k < next.len() implies (#[trigger] next[k]).0 < entry_end(
        next,
        x + 1,
        k,
    ) <= x + 1 by {
        if k < n {
            assert(stack[k].0 < entry_end(stack, start, k));
        }
    }
    assert forall|j: int, k: int| 0 <= j < k < next.len() implies (#[trigger] next[j]).1 < (
    #[trigger] next[k]).1 && next[j].0 < next[k].0 by {
        if k == n {
            assert(stack[j].1 <= stack[n - 1].1);
            assert(stack[j].0 < entry_end(stack, start, j) <= start);
        }
    }
    assert forall|k: int, c: int| 0 <= k < next.len() && next[k].0 <= c < x + 1 implies (
    #[trigger] heights[c]) >= (#[trigger] next[k]).1 by {
        if k < n {
            assert(next[k] == stack[k]);
            assert(stack[k].1 <= stack[n - 1].1);
        }
    }
    assert forall|k: int| 0 <= k < next.len() implies heights[entry_end(next, x + 1, k) - 1] == (
    #[trigger] next[k]).1 by {
        if k < n {
            assert(heights[entry_end(stack, start, k) - 1] == stack[k].1);
        }
    }
}

/// The stack entry whose bars column `c` is among.
proof fn lemma_entry_of(stack: Seq<(usize, u32)>, heights: Seq<u32>, end: int, x: int, c: int) -> (k:
    int)
    requires
        describes(stack, heights, end, x),
        0 <= c < end,
    ensures
        0 <= k < stack.len(),
        stack[k].0 <= c < entry_end(stack, end, k),
    decreases stack.len(),
{
    let last = stack.len() - 1;
    if stack[last].0 <= c {
        last
    } else {
        lemma_popped(stack, heights, end, x);
        let rest = stack.drop_last();
        let k = lemma_entry_of(rest, heights, stack.last().0 as int, x, c);
        assert(rest[k] == stack[k]);
        k
    }
}

// ---------------------------------------------------------------------------
// The whole area
// ---------------------------------------------------------------------------

/// How many uncovered pixels stand on top of each other in column `c` of the
/// area, ending with the one in row `y`.
spec fn bar(area: Rect, occupied: Seq<Rect>, c: int, y: int) -> int
    decreases y + 1,
{
    if y < 0 || rect::covered(occupied, area.x + c, area.y + y) {
        0
    } else {
        1 + bar(area, occupied, c, y - 1)
    }
}

/// The bars of row `y`.
spec fn bars(area: Rect, occupied: Seq<Rect>, y: int) -> Seq<u32> {
    Seq::new(area.w as nat, |c: int| bar(area, occupied, c, y) as u32)
}

proof fn lemma_bar_bounds(area: Rect, occupied: Seq<Rect>, c: int, y: int)
    requires
        y >= -1,
    ensures
        0 <= bar(area, occupied, c, y) <= y + 1,
    decreases y + 1,
{
    if y >= 0 {
        lemma_bar_bounds(area, occupied, c, y - 1);
    }
}

/// A bar reaches at least `n` pixels up exactly when those pixels are free.
proof fn lemma_bar_reaches(area: Rect, occupied: Seq<Rect>, c: int, y: int, n: int)
    requires
        0 <= n <= y + 1,
    ensures
        bar(area, occupied, c, y) >= n <==> forall|r: int|
            y + 1 - n <= r <= y ==> !#[trigger] rect::covered(occupied, area.x + c, area.y + r),
    decreases n,
{
    lemma_bar_bounds(area, occupied, c, y);
    if n > 0 {
        lemma_bar_bounds(area, occupied, c, y - 1);
        lemma_bar_reaches(area, occupied, c, y - 1, n - 1);
        if bar(area, occupied, c, y) >= n {
            assert forall|r: int| y + 1 - n <= r <= y implies !#[trigger] rect::covered(
                occupied,
                area.x + c,
                area.y + r,
            ) by {
                if r < y {
                    assert((y - 1) + 1 - (n - 1) <= r);
                }
            }
        } else {
            if !rect::covered(occupied, area.x + c, area.y + y) {
                assert(bar(area, occupied, c, y - 1) < n - 1);
                let r = choose|r: int|
                    (y - 1) + 1 - (n - 1) <= r <= y - 1 && #[trigger] rect::covered(
                        occupied,
                        area.x + c,
                        area.y + r,
                    );
                assert(rect::covered(occupied, area.x + c, area.y + r));
            } else {
                assert(rect::covered(occupied, area.x + c, area.y + y));
            }
        }
    }
}

/// The span's rectangle, in the area's outer coordinates.
spec fn outer(area: Rect, b: Span) -> Rect {
    Rect {
        x: (area.x + b.left) as i32,
        y: (area.y + b.row + 1 - b.height) as i32,
        w: (b.right - b.left) as i32,
        h: b.height as i32,
    }
}

/// The span that a rectangle inside the area comes from.
spec fn inner(area: Rect, r: Rect) -> Span {
    Span {
        left: (r.x - area.x) as usize,
        right: (r.x + r.w - area.x) as usize,
        row: (r.y + r.h - 1 - area.y) as usize,
        height: r.h as u32,
    }
}

/// A free rectangle comes from a span that stands on its last row.
proof fn lemma_inner_stands(area: Rect, occupied: Seq<Rect>, r: Rect)
    requires
        is_free(area, occupied, r),
    ensures
        inner(area, r).row < area.h,
        inner(area, r).height == r.h,
        inner(area, r).row == r.y + r.h - 1 - area.y,
        inner(area, r).left == r.x - area.x,
        inner(area, r).right == r.x + r.w - area.x,
        stands(bars(area, occupied, inner(area, r).row as int), inner(area, r)),
{
    let b = inner(area, r);
    let heights = bars(area, occupied, b.row as int);
    assert forall|c: int| b.left <= c < b.right implies #[trigger] heights[c] >= b.height by {
        lemma_bar_bounds(area, occupied, c, b.row as int);
        lemma_bar_reaches(area, occupied, c, b.row as int, b.height as int);
        assert forall|y: int| b.row + 1 - b.height <= y <= b.row implies !#[trigger] rect::covered(
            occupied,
            area.x + c,
            area.y + y,
        ) by {}
    }
}

/// A span that stands on a row is a free rectangle.
proof fn lemma_outer_is_free(area: Rect, occupied: Seq<Rect>, b: Span)
    requires
        area.w > 0,
        area.h > 0,
        b.row < area.h,
        area.x + area.w - 1 <= i32::MAX,
        area.y + area.h - 1 <= i32::MAX,
        stands(bars(area, occupied, b.row as int), b),
    ensures
        b.right <= area.w,
        b.height <= b.row + 1,
        outer(area, b).x == area.x + b.left,
        outer(area, b).y == area.y + b.row + 1 - b.height,
        outer(area, b).w == b.right - b.left,
        outer(area, b).h == b.height,
        is_free(area, occupied, outer(area, b)),
{
    let heights = bars(area, occupied, b.row as int);
    assert(heights[b.left as int] >= b.height);
    lemma_bar_bounds(area, occupied, b.left as int, b.row as int);
    let r = outer(area, b);
    assert forall|px: int, py: int|
        r.x <= px < r.x + r.w && r.y <= py < r.y + r.h implies !#[trigger] rect::covered(
        occupied,
        px,
        py,
    ) by {
        let c = px - area.x;
        let y = py - area.y;
        assert(heights[c] >= b.height);
        lemma_bar_bounds(area, occupied, c, b.row as int);
        lemma_bar_reaches(area, occupied, c, b.row as int, b.height as int);
        assert(!rect::covered(occupied, area.x + c, area.y + y));
    }
}

/// A standing span, extended to the right as far as it goes.
proof fn lemma_extend(heights: Seq<u32>, b: Span) -> (e: Span)
    requires
        heights.len() <= usize::MAX,
        stands(heights, b),
    ensures
        closed(heights, e),
        e.row == b.row,
        ahead(e, b),
    decreases heights.len() - b.right,
{
    if b.right == heights.len() || heights[b.right as int] < b.height {
        b
    } else {
        let wider = Span { right: (b.right + 1) as usize, ..b };
        assert(wider.right == b.right + 1);
        let e = lemma_extend(heights, wider);
        let (w, h) = (b.right - b.left, b.height as int);
        assert((w + 1) * h == w * h + h) by (nonlinear_arith);
        e
    }
}

/// Which pixels of row `y` of the area are covered.
fn row_taken(area: Rect, occupied: &[Rect], y: i64) -> (taken: Vec<bool>)
    requires
        0 <= y < area.h,
        area.w > 0,
    ensures
        taken@.len() == area.w,
        forall|c: int|
            0 <= c < area.w ==> #[trigger] taken@[c] == rect::covered(
                occupied@,
                area.x + c,
                area.y + y,
            ),
{
    let w: usize = area.w as usize;
    let mut taken: Vec<bool> = vec![false; w];
    let py: i64 = area.y as i64 + y;
    let mut i: usize = 0;
    while i < occupied.len()
        invariant
            i <= occupied@.len(),
            py == area.y + y,
            0 <= y < area.h,
            0 < area.w == w == taken@.len(),
            forall|c: int|
                0 <= c < area.w ==> #[trigger] taken@[c] == rect::covered(
                    occupied@.take(i as int),
                    area.x + c,
                    area.y + y,
                ),
        decreases occupied.len() - i,
    {
        let r: Rect = occupied[i];
        let ghost before = taken@;
        // Clipped into the area's own columns, and saturating rather than
        // wrapping: a rectangle that arrives as nonsense must not be able to
        // index.
        let x0: i64 = num::clamp_wide(r.x as i64 - area.x as i64, 0, area.w as i64);
        let x1: i64 = num::clamp_wide(
            num::saturating_add(r.x, r.w) as i64 - area.x as i64,
            0,
            area.w as i64,
        );
        let inside: bool = py >= r.y as i64 && py < num::saturating_add(r.y, r.h) as i64;
        if inside {
            let mut c: usize = x0 as usize;
            let end: usize = x1 as usize;
            while c < end
                invariant
                    x0 <= c,
                    c <= end || c == x0,
                    end <= w == taken@.len() == before.len(),
                    forall|k: int|
                        0 <= k < w ==> #[trigger] taken@[k] == (before[k] || x0 <= k < c),
                decreases end - c,
            {
                taken[c] = true;
                c = c + 1;
            }
        }
        proof {
            let (some, more) = (occupied@.take(i as int), occupied@.take(i + 1));
            assert forall|c: int| 0 <= c < area.w implies #[trigger] taken@[c] == rect::covered(
                more,
                area.x + c,
                area.y + y,
            ) by {
                let (px, py) = (area.x + c, area.y + y);
                assert(before[c] == rect::covered(some, px, py));
                if r.covers(px, py) {
                    assert(more[i as int].covers(px, py));
                }
                if rect::covered(some, px, py) {
                    let k = choose|k: int|
                        0 <= k < some.len() && (#[trigger] some[k]).covers(px, py);
                    assert(more[k].covers(px, py));
                }
                if rect::covered(more, px, py) {
                    let k = choose|k: int|
                        0 <= k < more.len() && (#[trigger] more[k]).covers(px, py);
                    if k < i {
                        assert(some[k].covers(px, py));
                    }
                }
            }
        }
        i = i + 1;
    }
    proof {
        assert(occupied@.take(i as int) =~= occupied@);
    }
    taken
}

/// The largest axis-aligned rectangle inside `area` that none of `occupied`
/// touches. Of several of the same size, the first in the order of
/// [`preferred`].
///
/// `None` when `occupied` covers everything, or when `area` is degenerate.
///
/// One row histogram of free height, and a monotonic stack per row: linear in
/// the pixels of `area`.
pub fn opaque_block(area: Rect, occupied: &[Rect]) -> (best: Option<Rect>)
    requires
        area.x + area.w - 1 <= i32::MAX,
        area.y + area.h - 1 <= i32::MAX,
    ensures
        match best {
            Some(b) => {
                &&& is_free(area, occupied@, b)
                &&& forall|r: Rect| #[trigger] is_free(area, occupied@, r) ==> preferred(b, r)
            },
            None => forall|r: Rect| !#[trigger] is_free(area, occupied@, r),
        },
{
    if area.w <= 0 || area.h <= 0 {
        return None;
    }
    let w: usize = area.w as usize;
    let mut best: Option<Span> = None;
    let mut heights: Vec<u32> = vec![0u32; w];
    let mut y: i64 = 0;
    proof {
        assert(heights@ =~= bars(area, occupied@, -1));
    }
    while y < area.h as i64
        invariant
            0 <= y <= area.h,
            0 < area.w == w,
            0 < area.h,
            area.x + area.w - 1 <= i32::MAX,
            area.y + area.h - 1 <= i32::MAX,
            heights@ == bars(area, occupied@, y - 1),
            best is Some ==> {
                &&& best->0.row < y
                &&& stands(bars(area, occupied@, best->0.row as int), best->0)
            },
            forall|q: Span| #[trigger]
                closed(bars(area, occupied@, q.row as int), q) && q.row < y ==> beats(best, q),
        decreases area.h - y,
    {
        let taken: Vec<bool> = row_taken(area, occupied, y);
        let mut c: usize = 0;
        while c < w
            invariant
                c <= w == area.w == heights@.len() == taken@.len(),
                0 <= y < area.h,
                forall|k: int|
                    0 <= k < area.w ==> #[trigger] taken@[k] == rect::covered(
                        occupied@,
                        area.x + k,
                        area.y + y,
                    ),
                forall|k: int|
                    0 <= k < c ==> #[trigger] heights@[k] == bars(area, occupied@, y as int)[k],
                forall|k: int|
                    c <= k < w ==> #[trigger] heights@[k] == bars(area, occupied@, y - 1)[k],
            decreases w - c,
        {
            proof {
                lemma_bar_bounds(area, occupied@, c as int, y - 1);
            }
            heights[c] = if taken[c] {
                0
            } else {
                heights[c] + 1
            };
            c = c + 1;
        }
        assert(heights@ =~= bars(area, occupied@, y as int));
        let ghost before = best;
        best = scan_row(&heights, y as usize, best);
        proof {
            assert forall|q: Span| #[trigger]
                closed(bars(area, occupied@, q.row as int), q) && q.row < y + 1 implies beats(
                best,
                q,
            ) by {
                if q.row < y {
                    assert(beats(before, q));
                }
            }
        }
        y = y + 1;
    }
    let found: Span = match best {
        Some(b) => b,
        None => {
            proof {
                assert forall|r: Rect| !#[trigger] is_free(area, occupied@, r) by {
                    if is_free(area, occupied@, r) {
                        lemma_inner_stands(area, occupied@, r);
                        let q = inner(area, r);
                        let e = lemma_extend(bars(area, occupied@, q.row as int), q);
                        assert(beats(best, e));
                    }
                }
            }
            return None;
        },
    };
    proof {
        lemma_outer_is_free(area, occupied@, found);
        assert forall|r: Rect| #[trigger] is_free(area, occupied@, r) implies preferred(
            outer(area, found),
            r,
        ) by {
            lemma_inner_stands(area, occupied@, r);
            let q = inner(area, r);
            let e = lemma_extend(bars(area, occupied@, q.row as int), q);
            assert(beats(best, e));
            assert(ahead(found, q));
            assert(q.size() == r.size());
            assert(found.size() == outer(area, found).size());
        }
    }
    Some(
        Rect::new(
            (area.x as i64 + found.left as i64) as i32,
            (area.y as i64 + found.row as i64 + 1 - found.height as i64) as i32,
            (found.right - found.left) as i32,
            found.height as i32,
        ),
    )
}

} // verus!
