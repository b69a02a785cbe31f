//! What a label says of its target, in pixels and keys.
use vstd::arithmetic::power;
use vstd::prelude::*;

use crate::label::alphabet;
use crate::label::alphabet::AlphabetError;
use crate::label::labels;
use crate::label::labels::{LabelSet, Progress, TypingState};
use crate::label::order;
use crate::label::order::{Columns, Point};
use crate::num;

verus! {

/// Columns are equally wide: of `n` columns over `width` pixels, column `c`
/// holds what lies from `c` to `c + 1` of the `n` parts of the span. What
/// hangs off an end of the span is in the column at that end.
pub proof fn columns_are_equally_wide(x: int, x0: int, width: int, n: int)
    requires
        width > 0,
        n > 0,
    ensures
        ({
            let c = order::column(x, x0, width, n);
            &&& x0 <= x < x0 + width ==> c * width <= (x - x0) * n < (c + 1) * width
            &&& x < x0 ==> c == 0
            &&& x >= x0 + width ==> c * width <= (width - 1) * n < (c + 1) * width
            &&& x >= x0 + width && n <= width ==> c == n - 1
            &&& 0 <= c < n
        }),
{
    let rel = num::clamped(x - x0, 0, width - 1);
    let c = rel * n / width;
    assert(c * width <= rel * n < (c + 1) * width && 0 <= c < n) by (nonlinear_arith)
        requires
            width > 0,
            n > 0,
            0 <= rel < width,
            c == rel * n / width,
    ;
    if x < x0 {
        assert(0 * n / width == 0) by (nonlinear_arith)
            requires
                width > 0,
        ;
    }
    if x >= x0 + width && n <= width {
        assert(c == n - 1) by (nonlinear_arith)
            requires
                c * width <= (width - 1) * n < (c + 1) * width,
                0 < n <= width,
        ;
    }
}

/// Columns go from left to right.
pub proof fn columns_go_from_left_to_right(x: int, y: int, x0: int, width: int, n: int)
    requires
        x <= y,
        n >= 0,
    ensures
        order::column(x, x0, width, n) <= order::column(y, x0, width, n),
{
    if width > 0 && n > 0 {
        let a = num::clamped(x - x0, 0, width - 1);
        let b = num::clamped(y - x0, 0, width - 1);
        assert(a * n / width <= b * n / width) by (nonlinear_arith)
            requires
                a <= b,
                n > 0,
                width > 0,
        ;
    }
}

/// The first key of a label is the character of the column its target is in:
/// of as many equally wide columns as the alphabet has characters, from left
/// to right.
pub proof fn the_first_key_names_the_column(
    chars: Seq<char>,
    ranks: Seq<char>,
    points: Seq<Point>,
    x0: int,
    width: int,
    tail: nat,
    i: int,
    c: int,
)
    requires
        0 <= i < points.len(),
        0 <= c < chars.len(),
        width > 0,
        x0 <= points[i].x < x0 + width,
        c * width <= (points[i].x - x0) * chars.len() < (c + 1) * width,
    ensures
        ({
            let cols = Columns { x0, width, n: chars.len() as int };
            labels::columned(chars, ranks, points, cols, tail, i)[0] == chars[c]
        }),
{
    let n = chars.len() as int;
    let x = points[i].x as int;
    let d = order::column(x, x0, width, n);
    columns_are_equally_wide(x, x0, width, n);
    let v = (x - x0) * n;
    assert(c == d) by (nonlinear_arith)
        requires
            c * width <= v < (c + 1) * width,
            d * width <= v < (d + 1) * width,
            width > 0,
    ;
}

/// A target's rank in its column is how many targets of the column stand
/// above it, or as high and further left, or on the same point and earlier in
/// the list.
pub proof fn a_rank_counts_what_stands_above(points: Seq<Point>, cols: Columns, i: int)
    requires
        0 <= i < points.len(),
    ensures
        ({
            let above = Set::new(
                |j: int|
                    {
                        &&& 0 <= j < points.len()
                        &&& order::column(points[j].x as int, cols.x0, cols.width, cols.n)
                            == order::column(points[i].x as int, cols.x0, cols.width, cols.n)
                        &&& {
                            ||| points[j].y < points[i].y
                            ||| points[j].y == points[i].y && points[j].x < points[i].x
                            ||| points[j].y == points[i].y && points[j].x == points[i].x && j < i
                        }
                    },
            );
            above.finite() && cols.rank(points, i) == above.len()
        }),
{
    let n = points.len() as int;
    let f = |j: int| cols.of(points, j) == cols.of(points, i) && cols.before(points, j, i);
    num::lemma_count_is_size(0, n, f);
    let above = Set::new(
        |j: int|
            {
                &&& 0 <= j < points.len()
                &&& order::column(points[j].x as int, cols.x0, cols.width, cols.n)
                    == order::column(points[i].x as int, cols.x0, cols.width, cols.n)
                &&& {
                    ||| points[j].y < points[i].y
                    ||| points[j].y == points[i].y && points[j].x < points[i].x
                    ||| points[j].y == points[i].y && points[j].x == points[i].x && j < i
                }
            },
    );
    assert(above =~= Set::new(|p: int| 0 <= p < n && f(p)));
}

/// The keys after the first spell the target's rank in its column.
pub proof fn the_keys_after_it_spell_the_rank(
    chars: Seq<char>,
    ranks: Seq<char>,
    points: Seq<Point>,
    cols: Columns,
    tail: nat,
    i: int,
)
    ensures
        labels::columned(chars, ranks, points, cols, tail, i).skip(1) == alphabet::odometer(
            ranks,
            cols.rank(points, i),
            tail,
        ),
        labels::columned(chars, ranks, points, cols, tail, i).len() == 1 + tail,
{
    alphabet::lemma_odometer_len(ranks, cols.rank(points, i), tail);
    assert(labels::columned(chars, ranks, points, cols, tail, i).skip(1) =~= alphabet::odometer(
        ranks,
        cols.rank(points, i),
        tail,
    ));
}

/// The busiest column is the one whose last target has the highest rank of
/// all, and its count is one more than that rank.
pub proof fn the_busiest_column_has_the_highest_rank(points: Seq<Point>, cols: Columns, b: int)
    requires
        labels::is_busiest(cols, points, b),
    ensures
        points.len() == 0 ==> b == 0,
        points.len() > 0 ==> b > 0 && exists|i: int|
            0 <= i < points.len() && #[trigger] cols.rank(points, i) == b - 1,
        forall|i: int| 0 <= i < points.len() ==> #[trigger] cols.rank(points, i) <= b - 1,
{
    if points.len() > 0 {
        a_rank_counts_what_stands_above(points, cols, 0);
        assert(cols.rank(points, 0) < b);
    }
}

/// A label and its target are found by each other, slot by slot; what is no
/// label has no target, and what is no target has no label.
pub proof fn a_slot_holds_a_label_and_its_target(l: LabelSet, k: int, label: Seq<char>, t: usize)
    requires
        l.wf(),
        0 <= k < l.labels.len(),
    ensures
        l.label_of(l.order[k]) == Some(l.labels[k]),
        l.target_of(l.labels[k]) == Some(l.order[k]),
        (forall|m: int| 0 <= m < l.labels.len() ==> #[trigger] l.labels[m] != label)
            ==> l.target_of(label) is None,
        (forall|m: int| 0 <= m < l.order.len() ==> #[trigger] l.order[m] != t) ==> l.label_of(
            t,
        ) is None,
{
    assert(l.order.contains(l.order[k]));
    assert(l.labels.contains(l.labels[k]));
    assert(l.order.index_of(l.order[k]) == k);
    assert(l.labels.index_of(l.labels[k]) == k);
}

/// Labels without columns are handed out in reading order: a target's label
/// counts the targets that are read before it.
pub proof fn a_label_counts_what_is_read_before(
    chars: Seq<char>,
    points: Seq<Point>,
    len: nat,
    i: int,
)
    requires
        0 <= i < points.len(),
    ensures
        ({
            let before = Set::new(
                |j: int| 0 <= j < points.len() && order::reads_before(points, j, i),
            );
            &&& before.finite()
            &&& labels::assigned(chars, points, len, i) == alphabet::odometer(
                chars,
                before.len() as int,
                len,
            )
        }),
{
    let n = points.len() as int;
    let f = |j: int| order::reads_before(points, j, i);
    num::lemma_count_is_size(0, n, f);
    assert(Set::new(|j: int| 0 <= j < points.len() && order::reads_before(points, j, i)) =~= Set::new(
        |p: int| 0 <= p < n && f(p),
    ));
}

/// A row starts at one of its targets and reaches sixteen pixels down from
/// there, and the next row starts below that.
pub proof fn a_row_reaches_from_its_first_target(points: Seq<Point>, i: int, j: int)
    requires
        0 <= i < points.len(),
        0 <= j < points.len(),
    ensures
        exists|k: int| 0 <= k < points.len() && (#[trigger] points[k]).y == order::row_of(points, i),
        order::row_of(points, i) <= points[i].y <= order::row_of(points, i) + 16,
        order::row_of(points, i) < order::row_of(points, j) ==> order::row_of(points, j)
            > order::row_of(points, i) + 16,
        points[i].y == points[j].y ==> order::row_of(points, i) == order::row_of(points, j),
{
    lemma_rows(points, points[i].y as int);
    lemma_rows(points, points[j].y as int);
    assert(order::occupied(points, points[i].y as int));
    assert(order::occupied(points, points[j].y as int));
    if points[i].y <= points[j].y {
        lemma_rows_part(points, points[i].y as int, points[j].y as int);
    } else {
        lemma_rows_part(points, points[j].y as int, points[i].y as int);
    }
}

proof fn lemma_rows(points: Seq<Point>, y: int)
    ensures
        order::row_start(points, y) matches Some(s) ==> s <= y && order::occupied(points, s),
        y >= i32::MIN && order::occupied(points, y) ==> order::row_start(points, y) is Some && y
            <= order::row_start(points, y)->0 + 16,
    decreases y - i32::MIN + 1,
{
    if y >= i32::MIN {
        lemma_rows(points, y - 1);
    }
}

proof fn lemma_rows_part(points: Seq<Point>, y: int, t: int)
    requires
        y <= t,
        order::row_start(points, y) is Some,
    ensures
        order::row_start(points, t) is Some,
        order::row_start(points, t) == order::row_start(points, y) || order::row_start(points, t)->0
            > order::row_start(points, y)->0 + 16,
    decreases t - y,
{
    if y < t {
        lemma_rows_part(points, y, t - 1);
        lemma_rows(points, y);
        lemma_rows(points, t - 1);
    }
}

/// Rows are read from the top down and a row from the left to the right; what
/// is level in a row and in line is read from the top down, and what is on one
/// point in the order of the list. Of two targets one is read first.
pub proof fn reading_goes_down_and_to_the_right(points: Seq<Point>, i: int, j: int)
    ensures
        ({
            let (a, b) = (points[i], points[j]);
            let (r, s) = (order::row_of(points, i), order::row_of(points, j));
            &&& r < s ==> order::reads_before(points, i, j)
            &&& r == s && a.x < b.x ==> order::reads_before(points, i, j)
            &&& r == s && a.x == b.x && a.y < b.y ==> order::reads_before(points, i, j)
            &&& a == b && i < j ==> order::reads_before(points, i, j)
            &&& order::reads_before(points, i, j) ==> !order::reads_before(points, j, i)
            &&& i != j ==> order::reads_before(points, i, j) || order::reads_before(points, j, i)
        }),
{
}

/// In a reading order every target stands once; nothing stands before what is
/// more than sixteen pixels above it, and of two at one height the left one
/// stands first.
pub proof fn a_reading_order_never_goes_back(
    points: Seq<Point>,
    order: Seq<usize>,
    a: int,
    b: int,
)
    requires
        order::in_reading_order(points, order),
        0 <= a < b < order.len(),
    ensures
        order.len() == points.len(),
        order[a] != order[b],
        order[a] < points.len() && order[b] < points.len(),
        points[order[a] as int].y <= points[order[b] as int].y + 16,
        points[order[a] as int].y == points[order[b] as int].y ==> points[order[a] as int].x
            <= points[order[b] as int].x,
        points[order[a] as int] == points[order[b] as int] ==> order[a] < order[b],
{
    let (i, j) = (order[a] as int, order[b] as int);
    assert(order::reads_before(points, i, j));
    a_row_reaches_from_its_first_target(points, i, j);
    a_row_reaches_from_its_first_target(points, j, i);
    reading_goes_down_and_to_the_right(points, i, j);
    reading_goes_down_and_to_the_right(points, j, i);
}

/// The topmost row is read from the left: of targets no more than sixteen
/// pixels below the topmost one, the left one is read first.
pub proof fn the_top_row_is_read_from_the_left(points: Seq<Point>, top: int, i: int, j: int)
    requires
        0 <= top < points.len(),
        0 <= i < points.len(),
        0 <= j < points.len(),
        forall|k: int| 0 <= k < points.len() ==> (#[trigger] points[k]).y >= points[top].y,
        points[i].y <= points[top].y + 16,
        points[j].y <= points[top].y + 16,
        points[i].x < points[j].x,
    ensures
        order::reads_before(points, i, j),
{
    a_row_reaches_from_its_first_target(points, i, top);
    a_row_reaches_from_its_first_target(points, top, i);
    a_row_reaches_from_its_first_target(points, j, top);
    a_row_reaches_from_its_first_target(points, top, j);
    a_row_reaches_from_its_first_target(points, i, j);
    a_row_reaches_from_its_first_target(points, j, i);
}

/// Labels count up in the order of the alphabet: of two numbers that fit, the
/// smaller one's label has the earlier character where the two first differ.
pub proof fn labels_count_up(chars: Seq<char>, i: int, j: int, len: nat) -> (at: int)
    requires
        chars.len() >= 2,
        0 <= i < j < power::pow(chars.len() as int, len),
    ensures
        ({
            let (a, b) = (alphabet::odometer(chars, i, len), alphabet::odometer(chars, j, len));
            &&& a.len() == len && b.len() == len
            &&& 0 <= at < len
            &&& a.take(at) == b.take(at)
            &&& exists|p: int, q: int|
                0 <= p < q < chars.len() && #[trigger] chars[p] == a[at] && #[trigger] chars[q]
                    == b[at]
        }),
    decreases len,
{
    let n = chars.len() as int;
    let (a, b) = (alphabet::odometer(chars, i, len), alphabet::odometer(chars, j, len));
    alphabet::lemma_odometer_len(chars, i, len);
    alphabet::lemma_odometer_len(chars, j, len);
    if len == 0 {
        power::lemma_pow0(n);
        0
    } else {
        let less = (len - 1) as nat;
        let (u, v) = (i / n, j / n);
        lemma_digits(i, n);
        lemma_digits(j, n);
        alphabet::lemma_odometer_len(chars, u, less);
        alphabet::lemma_odometer_len(chars, v, less);
        if u == v {
            assert(a.take(less as int) =~= b.take(less as int));
            assert(i % n < j % n) by (nonlinear_arith)
                requires
                    i < j,
                    i == n * (i / n) + i % n,
                    j == n * (j / n) + j % n,
                    i / n == j / n,
            ;
            assert(chars[i % n] == a[less as int] && chars[j % n] == b[less as int]);
            less as int
        } else {
            assert(u < v) by (nonlinear_arith)
                requires
                    i < j,
                    n > 0,
                    u == i / n,
                    v == j / n,
                    u != v,
            ;
            reveal(power::pow);
            let p = power::pow(n, less);
            assert(power::pow(n, len) == n * p);
            assert(v < p) by (nonlinear_arith)
                requires
                    j < n * p,
                    v == j / n,
                    n > 0,
            ;
            assert(0 <= u) by (nonlinear_arith)
                requires
                    0 <= i,
                    u == i / n,
                    n > 0,
            ;
            let at = labels_count_up(chars, u, v, less);
            let (c, d) = (alphabet::odometer(chars, u, less), alphabet::odometer(chars, v, less));
            assert(a.take(at) =~= c.take(at));
            assert(b.take(at) =~= d.take(at));
            assert(a[at] == c[at] && b[at] == d[at]);
            at
        }
    }
}

proof fn lemma_digits(i: int, n: int)
    requires
        n > 0,
    ensures
        i == n * (i / n) + i % n,
        0 <= i % n < n,
{
    assert(i == n * (i / n) + i % n && 0 <= i % n < n) by (nonlinear_arith)
        requires
            n > 0,
    ;
}

/// The first label is the alphabet's first character throughout.
pub proof fn the_first_label_is_the_first_character(chars: Seq<char>, len: nat, k: int)
    requires
        chars.len() >= 2,
        0 <= k < len,
    ensures
        alphabet::odometer(chars, 0, len)[k] == chars[0],
    decreases len,
{
    let n = chars.len() as int;
    assert(0int / n == 0 && 0int % n == 0) by (nonlinear_arith)
        requires
            n >= 2,
    ;
    alphabet::lemma_odometer_len(chars, 0, (len - 1) as nat);
    if k < len - 1 {
        the_first_label_is_the_first_character(chars, (len - 1) as nat, k);
    }
}

/// A label is as long as it must be and no longer: all the labels fit, and
/// with one character less, where that is allowed, they would not.
pub proof fn labels_are_as_short_as_they_can_be(base: nat, n: int, least: nat, len: nat)
    requires
        base >= 2,
    ensures
        alphabet::is_label_len(base, n, least, len) <==> {
            &&& len >= least
            &&& n <= power::pow(base as int, len)
            &&& len == least || power::pow(base as int, (len - 1) as nat) < n
        },
{
    if len > least && power::pow(base as int, (len - 1) as nat) < n {
        assert forall|k: nat| least <= k < len implies #[trigger] power::pow(base as int, k)
            < n by {
            power::lemma_pow_increases(base, k, (len - 1) as nat);
        }
    }
}

/// An alphabet has two characters or more, all different.
pub proof fn an_alphabet_never_repeats(chars: Seq<char>)
    ensures
        alphabet::is_alphabet(chars) <==> chars.len() >= 2 && forall|i: int, j: int|
            0 <= i < j < chars.len() ==> #[trigger] chars[i] != #[trigger] chars[j],
{
}

/// As many labels match as begin with what was typed.
pub proof fn what_matches_begins_with_what_was_typed(l: LabelSet, prefix: Seq<char>)
    ensures
        ({
            let slots = Set::new(
                |k: int|
                    0 <= k < l.labels.len() && l.labels[k].len() >= prefix.len()
                        && l.labels[k].take(prefix.len() as int) == prefix,
            );
            slots.finite() && l.matching(prefix) == slots.len()
        }),
{
    let n = l.labels.len() as int;
    let f = |k: int| prefix.is_prefix_of(l.labels[k]);
    num::lemma_count_is_size(0, n, f);
    let slots = Set::new(
        |k: int|
            0 <= k < l.labels.len() && l.labels[k].len() >= prefix.len() && l.labels[k].take(
                prefix.len() as int,
            ) == prefix,
    );
    assert forall|k: int| 0 <= k < n implies (#[trigger] f(k) <==> l.labels[k].len()
        >= prefix.len() && l.labels[k].take(prefix.len() as int) == prefix) by {
        assert(l.labels[k].take(prefix.len() as int) =~= l.labels[k].subrange(
            0,
            prefix.len() as int,
        ));
    }
    assert(slots =~= Set::new(|p: int| 0 <= p < n && f(p)));
}

/// A key misses exactly where no label goes on with it. One that goes on is
/// added to what was typed; the last one of a label hits the target of that
/// label, and any other leaves the labels that begin with what was typed.
pub proof fn a_key_goes_on_with_a_label_or_misses(s: TypingState, c: char, k: int)
    requires
        s.wf(),
        0 <= k < s.labels.labels.len(),
    ensures
        ({
            let label = s.labels.labels[k];
            let n = s.typed.len() as int;
            let goes_on = n < label.len() && label.take(n) == s.typed && label[n] == c;
            &&& goes_on ==> !(s.progress(c) is Miss) && s.pressed(c).typed == s.typed.push(c)
            &&& goes_on && n + 1 == label.len() ==> s.progress(c) == (Progress::Hit {
                target: s.labels.order[k],
            })
            &&& goes_on && n + 1 < label.len() ==> s.progress(c) == (Progress::Pending {
                matches: s.labels.matching(s.typed.push(c)) as usize,
            })
        }),
        (forall|m: int|
            0 <= m < s.labels.labels.len() ==> s.labels.labels[m].len() <= s.typed.len()
                || s.labels.labels[m].take(s.typed.len() as int) != s.typed
                || #[trigger] s.labels.labels[m][s.typed.len() as int] != c) ==> s.progress(c) is Miss,
{
    let l = s.labels;
    let label = l.labels[k];
    let n = s.typed.len() as int;
    let next = s.typed.push(c);
    let total = l.labels.len() as int;
    let f = |j: int| next.is_prefix_of(l.labels[j]);
    if n < label.len() && label.take(n) == s.typed && label[n] == c {
        assert(label.subrange(0, n + 1) =~= next) by {
            assert forall|j: int| 0 <= j < n implies label[j] == s.typed[j] by {
                assert(label.take(n)[j] == label[j]);
            }
        }
        assert(f(k));
        lemma_some_counted(total, f, k);
        assert(l.is_spelt(label));
        if n + 1 == label.len() {
            assert(next =~= label);
            assert(l.labels.contains(label));
            assert(l.labels.index_of(label) == k);
        }
    }
    if forall|m: int|
        0 <= m < l.labels.len() ==> l.labels[m].len() <= s.typed.len() || l.labels[m].take(n)
            != s.typed || #[trigger] l.labels[m][n] != c {
        assert forall|m: int| 0 <= m < total implies !#[trigger] f(m) by {
            if f(m) {
                let other = l.labels[m];
                assert(other.subrange(0, n + 1) == next);
                assert(other.subrange(0, n + 1)[n] == other[n]);
                assert(other.take(n) =~= s.typed) by {
                    assert forall|j: int| 0 <= j < n implies other[j] == s.typed[j] by {
                        assert(other.subrange(0, n + 1)[j] == next[j]);
                    }
                }
            }
        }
        lemma_none_counted(total, f);
    }
}

proof fn lemma_some_counted(n: int, f: spec_fn(int) -> bool, k: int)
    requires
        0 <= k < n,
        f(k),
    ensures
        num::count(0, n, f) > 0,
    decreases n,
{
    num::lemma_count_bounds(0, n - 1, f);
    if k < n - 1 {
        lemma_some_counted(n - 1, f, k);
    }
}

proof fn lemma_none_counted(n: int, f: spec_fn(int) -> bool)
    requires
        forall|m: int| 0 <= m < n ==> !#[trigger] f(m),
    ensures
        num::count(0, n, f) == 0,
    decreases n,
{
    if n > 0 {
        lemma_none_counted(n - 1, f);
    }
}

/// Backspace takes the last key back, and counts again what matches.
pub proof fn backspace_shortens_by_one(s: TypingState)
    ensures
        s.undone().labels == s.labels,
        s.typed.len() == 0 ==> s.undone().typed == s.typed,
        s.typed.len() > 0 ==> s.undone().typed == s.typed.take(s.typed.len() - 1),
        s.undone().matches == s.labels.matching(s.undone().typed),
{
    if s.typed.len() > 0 {
        assert(s.typed.drop_last() =~= s.typed.take(s.typed.len() - 1));
    }
}

/// Every label that begins with what was typed is still reachable, with its
/// own target.
pub proof fn what_begins_with_what_was_typed_is_reachable(
    l: LabelSet,
    prefix: Seq<char>,
    n: int,
    k: int,
)
    requires
        0 <= k < n <= l.labels.len(),
        l.labels[k].len() >= prefix.len(),
        l.labels[k].take(prefix.len() as int) == prefix,
    ensures
        l.reachable(prefix, n).contains((l.labels[k], l.order[k])),
    decreases n,
{
    let list = l.reachable(prefix, n);
    let front = l.reachable(prefix, n - 1);
    if k < n - 1 {
        what_begins_with_what_was_typed_is_reachable(l, prefix, n - 1, k);
        let at = front.index_of((l.labels[k], l.order[k]));
        assert(list[at] == (l.labels[k], l.order[k]));
    } else {
        assert(l.labels[k].take(prefix.len() as int) =~= l.labels[k].subrange(
            0,
            prefix.len() as int,
        ));
        assert(list.last() == (l.labels[k], l.order[k]));
    }
}

/// What is still reachable begins with what was typed, and stands in the order
/// of the labels.
pub proof fn what_is_reachable_begins_with_what_was_typed(
    l: LabelSet,
    prefix: Seq<char>,
    n: int,
    a: int,
    b: int,
) -> (slots: (int, int))
    requires
        0 <= n <= l.labels.len(),
        0 <= a < b < l.reachable(prefix, n).len() || 0 <= a == b < l.reachable(prefix, n).len(),
    ensures
        0 <= slots.0 <= slots.1 < n,
        a < b ==> slots.0 < slots.1,
        l.reachable(prefix, n)[a] == (l.labels[slots.0], l.order[slots.0]),
        l.reachable(prefix, n)[b] == (l.labels[slots.1], l.order[slots.1]),
        l.labels[slots.0].len() >= prefix.len(),
        l.labels[slots.0].take(prefix.len() as int) == prefix,
    decreases n,
{
    let front = l.reachable(prefix, n - 1);
    if b < front.len() {
        what_is_reachable_begins_with_what_was_typed(l, prefix, n - 1, a, b)
    } else {
        assert(l.labels[n - 1].take(prefix.len() as int) =~= l.labels[n - 1].subrange(
            0,
            prefix.len() as int,
        ));
        if a < b {
            let low = what_is_reachable_begins_with_what_was_typed(l, prefix, n - 1, a, a).0;
            (low, n - 1)
        } else {
            (n - 1, n - 1)
        }
    }
}

/// The first repeat is the first character that stood before; up to it no two
/// are the same.
pub proof fn the_first_repeat_stood_before(chars: Seq<char>, i: int, j: int)
    ensures
        0 <= j < i < chars.len() && chars[j] == chars[i] && (forall|a: int, b: int|
            0 <= a < b < i ==> #[trigger] chars[a] != #[trigger] chars[b])
            ==> alphabet::first_repeat(chars, i),
        alphabet::first_repeat(chars, i) ==> 0 <= i < chars.len() && exists|k: int|
            0 <= k < i && #[trigger] chars[k] == chars[i],
        alphabet::first_repeat(chars, i) && alphabet::first_repeat(chars, j) ==> i == j,
{
    let before = chars.take(i);
    if 0 <= j < i < chars.len() && chars[j] == chars[i] {
        assert(before[j] == chars[i]);
    }
    if alphabet::first_repeat(chars, i) {
        let k = before.index_of(chars[i]);
        assert(chars[k] == chars[i]);
        if alphabet::first_repeat(chars, j) {
            let l = chars.take(j).index_of(chars[j]);
            if i < j {
                assert(chars.take(j)[k] == chars.take(j)[i]);
            } else if j < i {
                assert(before[l] == before[j]);
            }
        }
    }
}

/// What is wrong with an alphabet is told with the character it has twice.
pub proof fn a_fault_of_an_alphabet_is_told(c: char)
    ensures
        AlphabetError::TooShort.message() == "an alphabet needs at least 2 characters"@,
        AlphabetError::Duplicate(c).message() == "alphabet contains '"@ + seq![c] + "' twice"@,
{
}

/// A list of labels is spelt label by label, each with its target.
pub proof fn labels_are_spelt_with_their_targets(list: Seq<(&str, usize)>, i: int)
    ensures
        labels::spelt(list).len() == list.len(),
        0 <= i < list.len() ==> labels::spelt(list)[i].0 == list[i].0@ && labels::spelt(list)[i].1
            == list[i].1,
{
}

} // verus!
