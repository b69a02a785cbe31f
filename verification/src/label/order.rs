//! Where a target stands among the others.
use vstd::prelude::*;

use crate::num;
use crate::sort;

verus! {

/// A target's centre — the only thing labelling needs to know about it.
///
/// Not a rectangle: ordering depends on where a thing *is*, not how big it
/// is.
#[derive(Debug, Clone, Copy, PartialEq, Eq, Structural)]
pub struct Point {
    pub x: i32,
    pub y: i32,
}

impl Point {
    pub fn new(x: i32, y: i32) -> (p: Self)
        ensures
            p == (Point { x, y }),
    {
        Point { x, y }
    }
}

/// How far below the first target of a row another may sit and still be in
/// that row, in pixels.
///
/// A toolbar's buttons are rarely pixel-aligned. Rows are grown from their
/// first member rather than computed by dividing y, so no fixed line on the
/// screen parts two targets that are a pixel apart.
pub const ROW_BAND: i32 = 16;

/// Some target sits at height `y`.
pub open spec fn occupied(points: Seq<Point>, y: int) -> bool {
    exists|i: int| 0 <= i < points.len() && (#[trigger] points[i]).y == y
}

/// Where the last row that starts at or above height `y` starts: a row starts
/// at a target that the row before does not reach.
pub open spec fn row_start(points: Seq<Point>, y: int) -> Option<int>
    decreases y - i32::MIN + 1,
{
    if y < i32::MIN {
        None
    } else {
        let above = row_start(points, y - 1);
        if above is Some && y - above->0 <= ROW_BAND {
            above
        } else if occupied(points, y) {
            Some(y)
        } else {
            above
        }
    }
}

/// The row target `i` is in, by where it starts.
pub open spec fn row_of(points: Seq<Point>, i: int) -> int {
    row_start(points, points[i].y as int)->0
}

/// Rows top to bottom, and within a row, left to right; then top to bottom,
/// and by index where two targets sit at the same point. A total order, so
/// that the result never depends on what a sort happened to do.
pub open spec fn reads_before(points: Seq<Point>, i: int, j: int) -> bool {
    let (a, b) = (points[i], points[j]);
    let (r, s) = (row_of(points, i), row_of(points, j));
    r < s || (r == s && (a.x < b.x || (a.x == b.x && (a.y < b.y || (a.y == b.y && i < j)))))
}

/// How many targets come before `i` in reading order.
pub open spec fn reading_rank(points: Seq<Point>, i: int) -> int {
    num::count(0, points.len() as int, |j: int| reads_before(points, j, i))
}

/// `order` lists every index below `n` once.
pub open spec fn is_permutation(order: Seq<usize>, n: nat) -> bool {
    &&& order.len() == n
    &&& order.no_duplicates()
    &&& forall|k: int| 0 <= k < order.len() ==> #[trigger] order[k] < n
}

/// `order` is the reading order of `points`.
pub open spec fn in_reading_order(points: Seq<Point>, order: Seq<usize>) -> bool {
    &&& is_permutation(order, points.len())
    &&& forall|a: int, b: int|
        0 <= a < b < order.len() ==> reads_before(
            points,
            #[trigger] order[a] as int,
            #[trigger] order[b] as int,
        )
}

/// Between two heights with no target in between, no row starts.
proof fn lemma_no_row_between(points: Seq<Point>, y: int, t: int)
    requires
        i32::MIN <= y <= t,
        forall|s: int| y < s <= t ==> !#[trigger] occupied(points, s),
    ensures
        row_start(points, t) == row_start(points, y),
    decreases t - y,
{
    if y < t {
        lemma_no_row_between(points, y, t - 1);
        assert(!occupied(points, t));
    }
}

/// Above every target, no row starts.
proof fn lemma_no_row_above(points: Seq<Point>, t: int)
    requires
        forall|s: int| s <= t ==> !#[trigger] occupied(points, s),
    ensures
        row_start(points, t) is None,
    decreases t - i32::MIN + 1,
{
    if t >= i32::MIN {
        lemma_no_row_above(points, t - 1);
        assert(!occupied(points, t));
    }
}

/// A row starts at or above its targets, no further than it reaches.
proof fn lemma_row_reaches(points: Seq<Point>, y: int)
    requires
        i32::MIN <= y,
        occupied(points, y),
    ensures
        row_start(points, y) is Some,
        row_start(points, y)->0 <= y <= row_start(points, y)->0 + ROW_BAND,
{
    lemma_row_starts_above(points, y - 1);
}

proof fn lemma_row_starts_above(points: Seq<Point>, y: int)
    ensures
        row_start(points, y) is Some ==> row_start(points, y)->0 <= y,
    decreases y - i32::MIN + 1,
{
    if y >= i32::MIN {
        lemma_row_starts_above(points, y - 1);
    }
}

/// Further down, rows start further down.
proof fn lemma_rows_go_down(points: Seq<Point>, y: int, t: int)
    requires
        y <= t,
        row_start(points, y) is Some,
    ensures
        row_start(points, t) is Some,
        row_start(points, y)->0 <= row_start(points, t)->0,
    decreases t - y,
{
    if y < t {
        lemma_rows_go_down(points, y, t - 1);
        lemma_row_starts_above(points, t - 1);
    }
}

/// What is further down than a row reaches is read later, wherever it is from
/// left to right.
pub proof fn what_is_higher_is_read_first(points: Seq<Point>, i: int, j: int)
    requires
        0 <= i < points.len(),
        0 <= j < points.len(),
        points[j].y - points[i].y > ROW_BAND,
    ensures
        reads_before(points, i, j),
{
    let (y, t) = (points[i].y as int, points[j].y as int);
    assert(occupied(points, y) && occupied(points, t));
    lemma_row_reaches(points, y);
    lemma_row_reaches(points, t);
    lemma_rows_go_down(points, y, t);
}

/// At one height, what is further left is read first.
pub proof fn a_row_is_read_from_the_left(points: Seq<Point>, i: int, j: int)
    requires
        points[i].y == points[j].y,
        points[i].x < points[j].x,
    ensures
        reads_before(points, i, j),
{
}

/// Reading order: rows top to bottom, and within a row, left to right.
///
/// Returns indices into `points`, so the caller keeps its own target type.
pub fn reading_order(points: &[Point]) -> (order: Vec<usize>)
    ensures
        in_reading_order(points@, order@),
{
    let n: usize = points.len();
    let mut by_y: Vec<sort::Key> = Vec::new();
    let mut i: usize = 0;
    while i < n
        invariant
            i <= n == points@.len(),
            by_y@.len() == i,
            forall|k: int|
                0 <= k < i ==> #[trigger] by_y@[k] == (
                    points@[k].y as i128,
                    points@[k].x as i128,
                    0i128,
                    k as usize,
                ),
        decreases n - i,
    {
        by_y.push((points[i].y as i128, points[i].x as i128, 0, i));
        i = i + 1;
    }
    let ghost loose = by_y@;
    let by_y: Vec<sort::Key> = sort::sort(by_y);
    let ghost tight = by_y@;
    proof {
        lemma_indexed_distinct(loose);
        sort::lemma_still_distinct(loose, tight);
        assert forall|k: int| 0 <= k < n implies (#[trigger] tight[k]).3 < n && tight[k].0
            == points@[tight[k].3 as int].y by {
            let j = sort::lemma_also_in(tight, loose, k);
        }
    }
    // Each target with the row it is in.
    let mut rows: Vec<sort::Key> = Vec::new();
    let mut row_y: i128 = 0;
    let mut k: usize = 0;
    while k < n
        invariant
            k <= n == points@.len() == tight.len(),
            by_y@ == tight,
            sort::in_order(tight),
            loose.len() == n,
            loose.to_multiset() == tight.to_multiset(),
            forall|m: int|
                0 <= m < n ==> #[trigger] loose[m] == (
                    points@[m].y as i128,
                    points@[m].x as i128,
                    0i128,
                    m as usize,
                ),
            forall|m: int|
                0 <= m < n ==> (#[trigger] tight[m]).3 < n && tight[m].0
                    == points@[tight[m].3 as int].y,
            rows@.len() == k,
            forall|m: int|
                0 <= m < k ==> #[trigger] rows@[m] == (
                    row_of(points@, tight[m].3 as int) as i128,
                    points@[tight[m].3 as int].x as i128,
                    points@[tight[m].3 as int].y as i128,
                    tight[m].3,
                ) && num::fits(row_of(points@, tight[m].3 as int)),
            k > 0 ==> row_start(points@, tight[k - 1].0 as int) == Some(row_y as int),
            k > 0 ==> i32::MIN <= row_y <= tight[k - 1].0,
        decreases n - k,
    {
        let i: usize = by_y[k].3;
        let p: Point = points[i];
        proof {
            lemma_row_grows(points@, loose, tight, k as int);
        }
        // Grown from the row's first member, never from a fixed grid.
        if k == 0 || p.y as i128 - row_y > ROW_BAND as i128 {
            row_y = p.y as i128;
        }
        assert(tight[k as int].3 == i && tight[k as int].0 == p.y);
        assert(row_of(points@, i as int) == row_y);
        rows.push((row_y, p.x as i128, p.y as i128, i));
        k = k + 1;
    }
    let ghost scattered = rows@;
    proof {
        assert forall|a: int, b: int| 0 <= a < b < n implies scattered[a] != scattered[b] by {
            assert(tight[a].3 != tight[b].3) by {
                let (ja, jb) = (
                    sort::lemma_also_in(tight, loose, a),
                    sort::lemma_also_in(tight, loose, b),
                );
                assert(tight[a] != tight[b]);
            }
        }
    }
    let rows: Vec<sort::Key> = sort::sort(rows);
    proof {
        sort::lemma_still_distinct(scattered, rows@);
    }
    let mut order: Vec<usize> = Vec::new();
    let mut m: usize = 0;
    while m < n
        invariant
            m <= n == rows@.len(),
            order@.len() == m,
            forall|k: int| 0 <= k < m ==> #[trigger] order@[k] == rows@[k].3,
        decreases n - m,
    {
        order.push(rows[m].3);
        m = m + 1;
    }
    proof {
        assert forall|k: int| 0 <= k < n implies (#[trigger] rows@[k]).3 < n && rows@[k].0
            == row_of(points@, rows@[k].3 as int) && rows@[k].1 == points@[rows@[k].3 as int].x
            && rows@[k].2 == points@[rows@[k].3 as int].y by {
            let j = sort::lemma_also_in(rows@, scattered, k);
            assert(scattered[j].3 == tight[j].3);
        }
        assert forall|a: int, b: int| 0 <= a < n && 0 <= b < n && a != b implies order@[a]
            != order@[b] by {
            assert(rows@[a] != rows@[b]);
        }
        assert forall|a: int, b: int| 0 <= a < b < n implies reads_before(
            points@,
            #[trigger] order@[a] as int,
            #[trigger] order@[b] as int,
        ) by {
            assert(sort::key_le(rows@[a], rows@[b]));
            assert(order@[a] != order@[b]);
        }
    }
    order
}

/// Keys that carry their own index are all different.
proof fn lemma_indexed_distinct(keys: Seq<sort::Key>)
    requires
        forall|k: int| 0 <= k < keys.len() ==> (#[trigger] keys[k]).3 == k,
    ensures
        keys.no_duplicates(),
{
    assert forall|a: int, b: int| 0 <= a < keys.len() && 0 <= b < keys.len() && a != b implies keys[a]
        != keys[b] by {
        assert(keys[a].3 == a && keys[b].3 == b);
    }
}

/// The row of the next target down: the row so far when it reaches that far,
/// a row of its own otherwise.
proof fn lemma_row_grows(points: Seq<Point>, loose: Seq<sort::Key>, tight: Seq<sort::Key>, k: int)
    requires
        0 <= k < tight.len(),
        tight.len() == points.len() == loose.len(),
        sort::in_order(tight),
        loose.to_multiset() == tight.to_multiset(),
        forall|m: int|
            0 <= m < points.len() ==> #[trigger] loose[m] == (
                points[m].y as i128,
                points[m].x as i128,
                0i128,
                m as usize,
            ),
        forall|m: int|
            0 <= m < tight.len() ==> (#[trigger] tight[m]).3 < points.len() && tight[m].0
                == points[tight[m].3 as int].y,
    ensures
        k == 0 ==> row_start(points, tight[k].0 as int) == Some(tight[k].0 as int),
        k > 0 ==> {
            let above = row_start(points, tight[k - 1].0 as int);
            row_start(points, tight[k].0 as int) == (if above is Some && tight[k].0 - above->0
                <= ROW_BAND {
                above
            } else if tight[k].0 == tight[k - 1].0 {
                above
            } else {
                Some(tight[k].0 as int)
            })
        },
{
    let y = tight[k].0 as int;
    assert(points[tight[k].3 as int].y == y);
    assert(occupied(points, y));
    assert forall|s: int| occupied(points, s) implies exists|m: int|
        0 <= m < tight.len() && #[trigger] tight[m].0 == s by {
        let i = choose|i: int| 0 <= i < points.len() && (#[trigger] points[i]).y == s;
        assert(loose[i].0 == s);
        let m = sort::lemma_also_in(loose, tight, i);
        assert(tight[m].0 == s);
    }
    if k == 0 {
        assert forall|s: int| s <= y - 1 implies !#[trigger] occupied(points, s) by {
            if occupied(points, s) {
                let m = choose|m: int| 0 <= m < tight.len() && #[trigger] tight[m].0 == s;
                if m > 0 {
                    assert(sort::key_le(tight[0], tight[m]));
                }
            }
        }
        lemma_no_row_above(points, y - 1);
    } else {
        let before = tight[k - 1].0 as int;
        assert(sort::key_le(tight[k - 1], tight[k]));
        assert(points[tight[k - 1].3 as int].y == before);
        if before < y {
            assert forall|s: int| before < s <= y - 1 implies !#[trigger] occupied(points, s) by {
                if occupied(points, s) {
                    let m = choose|m: int| 0 <= m < tight.len() && #[trigger] tight[m].0 == s;
                    if m > k {
                        assert(sort::key_le(tight[k], tight[m]));
                    } else if m < k - 1 {
                        assert(sort::key_le(tight[m], tight[k - 1]));
                    }
                }
            }
            lemma_no_row_between(points, before, y - 1);
        }
    }
}

// ---------------------------------------------------------------------------
// Columns
// ---------------------------------------------------------------------------

/// Which of `n` columns across `x0 .. x0 + width` the coordinate `x` is in.
/// Clamped at both ends, so a target hanging off the edge of the span lands
/// in the nearest column.
pub open spec fn column(x: int, x0: int, width: int, n: int) -> int {
    if width <= 0 || n == 0 {
        0
    } else {
        num::clamped(x - x0, 0, width - 1) * n / width
    }
}

/// Which column the coordinate `x` is in.
pub fn column_of(x: i32, x0: i32, width: i32, n: usize) -> (c: usize)
    ensures
        c == column(x as int, x0 as int, width as int, n as int),
        n > 0 ==> c < n,
{
    if width <= 0 || n == 0 {
        return 0;
    }
    let rel: i64 = num::clamp_wide(x as i64 - x0 as i64, 0, width as i64 - 1);
    proof {
        lemma_in_a_column(rel as int, width as int, n as int);
    }
    (rel as u128 * n as u128 / width as u128) as usize
}

proof fn lemma_in_a_column(rel: int, width: int, n: int)
    requires
        0 <= rel < width <= 0x7fff_ffff,
        0 < n <= 0xffff_ffff_ffff_ffff,
    ensures
        0 <= rel * n <= 0x7fff_ffff * 0xffff_ffff_ffff_ffff,
        0 <= rel * n / width < n,
{
    assert(0 <= rel * n <= 0x7fff_ffff * 0xffff_ffff_ffff_ffff) by (nonlinear_arith)
        requires
            0 <= rel <= 0x7fff_ffff,
            0 < n <= 0xffff_ffff_ffff_ffff,
    ;
    assert(0 <= rel * n / width < n) by (nonlinear_arith)
        requires
            0 <= rel < width,
            0 < n,
    ;
}

/// A span cut into columns.
pub struct Columns {
    pub x0: int,
    pub width: int,
    pub n: int,
}

impl Columns {
    /// The column target `i` is in: its own position decides, nothing else.
    pub open spec fn of(self, points: Seq<Point>, i: int) -> int {
        column(points[i].x as int, self.x0, self.width, self.n)
    }

    /// Left to right by column; down the column, then left to right, then by
    /// index.
    pub open spec fn before(self, points: Seq<Point>, i: int, j: int) -> bool {
        let (a, b) = (points[i], points[j]);
        let (c, d) = (self.of(points, i), self.of(points, j));
        c < d || (c == d && (a.y < b.y || (a.y == b.y && (a.x < b.x || (a.x == b.x && i < j)))))
    }

    /// How many targets come before `i` in its own column.
    pub open spec fn rank(self, points: Seq<Point>, i: int) -> int {
        num::count(
            0,
            points.len() as int,
            |j: int| self.of(points, j) == self.of(points, i) && self.before(points, j, i),
        )
    }

    /// `order` goes column by column.
    pub open spec fn orders(self, points: Seq<Point>, order: Seq<usize>) -> bool {
        &&& is_permutation(order, points.len())
        &&& forall|a: int, b: int|
            0 <= a < b < order.len() ==> self.before(
                points,
                #[trigger] order[a] as int,
                #[trigger] order[b] as int,
            )
    }
}

/// The targets, column by column.
pub(crate) fn column_order(points: &[Point], x0: i32, width: i32, n: usize) -> (order: Vec<usize>)
    requires
        n > 0,
    ensures
        (Columns { x0: x0 as int, width: width as int, n: n as int }).orders(points@, order@),
{
    let ghost cols = Columns { x0: x0 as int, width: width as int, n: n as int };
    let len: usize = points.len();
    let mut keys: Vec<sort::Key> = Vec::new();
    let mut i: usize = 0;
    while i < len
        invariant
            i <= len == points@.len(),
            n > 0,
            cols == (Columns { x0: x0 as int, width: width as int, n: n as int }),
            keys@.len() == i,
            forall|k: int|
                0 <= k < i ==> (#[trigger] keys@[k]).0 == cols.of(points@, k) && keys@[k].1
                    == points@[k].y && keys@[k].2 == points@[k].x && keys@[k].3 == k,
        decreases len - i,
    {
        let p: Point = points[i];
        let c: usize = column_of(p.x, x0, width, n);
        keys.push((c as i128, p.y as i128, p.x as i128, i));
        i = i + 1;
    }
    let ghost loose = keys@;
    let keys: Vec<sort::Key> = sort::sort(keys);
    let mut order: Vec<usize> = Vec::new();
    let mut m: usize = 0;
    while m < len
        invariant
            m <= len == keys@.len(),
            order@.len() == m,
            forall|k: int| 0 <= k < m ==> #[trigger] order@[k] == keys@[k].3,
        decreases len - m,
    {
        order.push(keys[m].3);
        m = m + 1;
    }
    proof {
        lemma_indexed_distinct(loose);
        sort::lemma_still_distinct(loose, keys@);
        assert forall|k: int| 0 <= k < len implies (#[trigger] keys@[k]).3 < len && keys@[k].0
            == cols.of(points@, keys@[k].3 as int) && keys@[k].1 == points@[keys@[k].3 as int].y
            && keys@[k].2 == points@[keys@[k].3 as int].x by {
            let j = sort::lemma_also_in(keys@, loose, k);
        }
        assert forall|a: int, b: int| 0 <= a < len && 0 <= b < len && a != b implies order@[a]
            != order@[b] by {
            assert(keys@[a] != keys@[b]);
        }
        assert forall|a: int, b: int| 0 <= a < b < len implies cols.before(
            points@,
            #[trigger] order@[a] as int,
            #[trigger] order@[b] as int,
        ) by {
            assert(sort::key_le(keys@[a], keys@[b]));
            assert(order@[a] != order@[b]);
        }
    }
    order
}

// ---------------------------------------------------------------------------
// Slots and ranks
// ---------------------------------------------------------------------------

/// A list of `n` different indices below `n` lists them all.
pub proof fn lemma_lists_all(order: Seq<usize>, n: nat, j: int) -> (slot: int)
    requires
        is_permutation(order, n),
        0 <= j < n,
    ensures
        0 <= slot < order.len(),
        order[slot] == j,
{
    let ints = order.map_values(|u: usize| u as int);
    assert(ints.no_duplicates());
    ints.unique_seq_to_set();
    vstd::set_lib::lemma_int_range(0, n as int);
    let range = vstd::set_lib::set_int_range(0, n as int);
    assert forall|x: int| #[trigger] ints.to_set().contains(x) implies range.contains(x) by {
        let k = ints.index_of(x);
        assert(ints[k] == order[k]);
    }
    assert(ints.to_set().subset_of(range));
    vstd::set_lib::lemma_subset_equality(ints.to_set(), range);
    assert(ints.to_set().contains(j));
    let slot = ints.index_of(j);
    assert(ints[slot] == order[slot]);
    slot
}

/// What holds of the targets in slots `lo .. hi` and of no others holds of
/// `hi - lo` targets.
pub proof fn lemma_count_slots(
    order: Seq<usize>,
    n: nat,
    lo: int,
    hi: int,
    f: spec_fn(int) -> bool,
)
    requires
        is_permutation(order, n),
        0 <= lo <= hi <= n,
        forall|m: int| 0 <= m < n ==> (f(#[trigger] order[m] as int) <==> lo <= m < hi),
    ensures
        num::count(0, n as int, f) == hi - lo,
    decreases hi - lo,
{
    if lo == hi {
        let none = |j: int| false;
        assert forall|j: int| 0 <= j < n implies #[trigger] none(j) == f(j) by {
            let m = lemma_lists_all(order, n, j);
            assert(f(order[m] as int) <==> lo <= m < hi);
        }
        num::lemma_count_same(0, n as int, none, f);
        lemma_count_none(n as int);
    } else {
        let x = order[hi - 1] as int;
        let g = |j: int| f(j) && j != x;
        assert forall|m: int| 0 <= m < n implies (g(#[trigger] order[m] as int) <==> lo <= m < hi
            - 1) by {
            assert(f(order[m] as int) <==> lo <= m < hi);
        }
        lemma_count_slots(order, n, lo, hi - 1, g);
        assert(f(x));
        assert forall|j: int| 0 <= j < n implies #[trigger] f(j) == (g(j) || x <= j < x + 1) by {}
        num::lemma_count_interval(0, n as int, g, f, x, x + 1);
    }
}

proof fn lemma_count_none(n: int)
    requires
        n >= 0,
    ensures
        num::count(0, n, |j: int| false) == 0,
    decreases n,
{
    if n > 0 {
        lemma_count_none(n - 1);
    }
}

/// The slot a target is in is its rank in reading order.
pub proof fn reading_slot_is_rank(points: Seq<Point>, order: Seq<usize>, k: int)
    requires
        in_reading_order(points, order),
        0 <= k < order.len(),
    ensures
        reading_rank(points, order[k] as int) == k,
{
    let f = |j: int| reads_before(points, j, order[k] as int);
    assert forall|m: int| 0 <= m < points.len() implies (f(#[trigger] order[m] as int) <==> 0 <= m
        < k) by {
        if m > k {
            assert(reads_before(points, order[k] as int, order[m] as int));
        } else if m < k {
            assert(reads_before(points, order[m] as int, order[k] as int));
        }
    }
    lemma_count_slots(order, points.len(), 0, k, f);
}

/// In the column order, the slot of a target less the slot its column starts
/// at is its rank in its column.
pub proof fn column_slot_is_rank(
    cols: Columns,
    points: Seq<Point>,
    order: Seq<usize>,
    start: int,
    k: int,
)
    requires
        cols.orders(points, order),
        0 <= start <= k < order.len(),
        forall|m: int|
            start <= m <= k ==> cols.of(points, #[trigger] order[m] as int) == cols.of(
                points,
                order[k] as int,
            ),
        start > 0 ==> cols.of(points, order[start - 1] as int) != cols.of(points, order[k] as int),
    ensures
        cols.rank(points, order[k] as int) == k - start,
{
    let t = order[k] as int;
    let f = |j: int| cols.of(points, j) == cols.of(points, t) && cols.before(points, j, t);
    assert forall|m: int| 0 <= m < points.len() implies (f(#[trigger] order[m] as int) <==> start
        <= m < k) by {
        if m > k {
            assert(cols.before(points, t, order[m] as int));
        } else if m < k {
            assert(cols.before(points, order[m] as int, t));
            if m < start {
                assert(cols.before(points, order[start - 1] as int, t));
                if m < start - 1 {
                    assert(cols.before(points, order[m] as int, order[start - 1] as int));
                }
            }
        }
    }
    lemma_count_slots(order, points.len(), start, k, f);
}

/// A target's column is one of the columns.
pub proof fn lemma_column_range(points: Seq<Point>, cols: Columns, i: int)
    requires
        0 < cols.n <= usize::MAX,
        cols.width <= i32::MAX,
    ensures
        0 <= cols.of(points, i) < cols.n,
{
    if cols.width > 0 {
        let rel = num::clamped(points[i].x - cols.x0, 0, cols.width - 1);
        lemma_in_a_column(rel, cols.width, cols.n);
    }
}

/// Of two targets in one column the later has the higher rank.
pub proof fn lemma_rank_grows(points: Seq<Point>, cols: Columns, i: int, j: int)
    requires
        0 <= i < points.len(),
        0 <= j < points.len(),
        cols.of(points, i) == cols.of(points, j),
        cols.before(points, i, j),
    ensures
        cols.rank(points, i) < cols.rank(points, j),
{
    let n = points.len() as int;
    let f = |k: int| cols.of(points, k) == cols.of(points, i) && cols.before(points, k, i);
    let g = |k: int| cols.of(points, k) == cols.of(points, j) && cols.before(points, k, j);
    let h = |k: int| f(k) || i <= k < i + 1;
    num::lemma_count_interval(0, n, f, h, i, i + 1);
    num::lemma_count_subset(0, n, h, g);
}

} // verus!
