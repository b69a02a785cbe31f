//! What holds of labels as a whole.
use vstd::prelude::*;

use crate::label::labels;
use crate::label::labels::{LabelSet, Progress, TypingState};
use crate::label::order;
use crate::label::order::{Columns, Point};
use crate::num;

verus! {

/// `q` holds the targets of `p`, target `i` of `p` at `to[i]`.
pub open spec fn rearranged(p: Seq<Point>, q: Seq<Point>, to: Seq<usize>) -> bool {
    &&& p.len() == q.len()
    &&& order::is_permutation(to, p.len())
    &&& forall|i: int| 0 <= i < p.len() ==> q[#[trigger] to[i] as int] == p[i]
}

/// The targets that share the point of target `i` stay on their side of it:
/// nothing but their order tells them apart.
pub open spec fn ties_keep(p: Seq<Point>, to: Seq<usize>, i: int) -> bool {
    forall|j: int|
        0 <= j < p.len() && #[trigger] p[j] == p[i] ==> (j < i <==> to[j] < to[i])
}

/// The same tree gives the same labels, in whatever order it arrives: a
/// target's label depends on where it is among the others and not on its
/// place in the list, unless another target is on the very same point.
pub proof fn same_targets_same_labels(
    chars: Seq<char>,
    p: Seq<Point>,
    q: Seq<Point>,
    to: Seq<usize>,
    len: nat,
    i: int,
)
    requires
        rearranged(p, q, to),
        0 <= i < p.len(),
        ties_keep(p, to, i),
    ensures
        labels::assigned(chars, p, len, i) == labels::assigned(chars, q, len, to[i] as int),
{
    let n = p.len() as int;
    let f = |j: int| order::reads_before(p, j, i);
    let g = |j: int| order::reads_before(q, j, to[i] as int);
    assert forall|j: int| 0 <= j < n implies #[trigger] f(j) == g(to[j] as int) by {
        lemma_same_rows(p, q, to, p[i].y as int);
        lemma_same_rows(p, q, to, p[j].y as int);
        assert(q[to[j] as int] == p[j] && q[to[i] as int] == p[i]);
        if p[i].x == p[j].x && p[i].y == p[j].y {
            assert(p[j] == p[i]);
        }
    }
    lemma_count_rearranged(p.len(), to, f, g);
}

/// The same holds of labels by column.
pub proof fn same_targets_same_column_labels(
    chars: Seq<char>,
    ranks: Seq<char>,
    cols: Columns,
    p: Seq<Point>,
    q: Seq<Point>,
    to: Seq<usize>,
    tail: nat,
    i: int,
)
    requires
        rearranged(p, q, to),
        0 <= i < p.len(),
        ties_keep(p, to, i),
    ensures
        labels::columned(chars, ranks, p, cols, tail, i) == labels::columned(
            chars,
            ranks,
            q,
            cols,
            tail,
            to[i] as int,
        ),
{
    let n = p.len() as int;
    let k = to[i] as int;
    let f = |j: int| cols.of(p, j) == cols.of(p, i) && cols.before(p, j, i);
    let g = |j: int| cols.of(q, j) == cols.of(q, k) && cols.before(q, j, k);
    assert forall|j: int| 0 <= j < n implies #[trigger] f(j) == g(to[j] as int) by {
        assert(q[to[j] as int] == p[j] && q[to[i] as int] == p[i]);
        if p[i].x == p[j].x && p[i].y == p[j].y {
            assert(p[j] == p[i]);
        }
    }
    lemma_count_rearranged(p.len(), to, f, g);
    assert(q[to[i] as int] == p[i]);
}

/// Rows depend on the heights there are and on nothing else.
proof fn lemma_same_rows(p: Seq<Point>, q: Seq<Point>, to: Seq<usize>, y: int)
    requires
        rearranged(p, q, to),
    ensures
        order::row_start(p, y) == order::row_start(q, y),
    decreases y - i32::MIN + 1,
{
    if y >= i32::MIN {
        lemma_same_rows(p, q, to, y - 1);
        if order::occupied(p, y) {
            let i = choose|i: int| 0 <= i < p.len() && (#[trigger] p[i]).y == y;
            assert(q[to[i] as int].y == y);
        }
        if order::occupied(q, y) {
            let j = choose|j: int| 0 <= j < q.len() && (#[trigger] q[j]).y == y;
            let i = order::lemma_lists_all(to, p.len(), j);
            assert(q[to[i] as int] == p[i]);
            assert(p[i].y == y);
        }
    }
}

/// Rearranging changes no count.
proof fn lemma_count_rearranged(
    n: nat,
    to: Seq<usize>,
    f: spec_fn(int) -> bool,
    g: spec_fn(int) -> bool,
)
    requires
        order::is_permutation(to, n),
        forall|j: int| 0 <= j < n ==> #[trigger] f(j) == g(to[j] as int),
    ensures
        num::count(0, n as int, f) == num::count(0, n as int, g),
{
    num::lemma_count_is_size(0, n as int, f);
    num::lemma_count_is_size(0, n as int, g);
    let a = Set::new(|p: int| 0 <= p < n && f(p));
    let b = Set::new(|p: int| 0 <= p < n && g(p));
    let m = |j: int| to[j] as int;
    assert(a.map(m) =~= b) by {
        assert forall|x: int| #[trigger] b.contains(x) implies a.map(m).contains(x) by {
            let j = order::lemma_lists_all(to, n, x);
            assert(f(j) == g(to[j] as int));
            assert(a.contains(j) && m(j) == x);
        }
        assert forall|x: int| #[trigger] a.map(m).contains(x) implies b.contains(x) by {
            let j = choose|j: int| a.contains(j) && m(j) == x;
            assert(f(j) == g(to[j] as int));
        }
    }
    assert(vstd::relations::injective_on(m, a));
    vstd::set_lib::lemma_map_size(a, b, m);
}

/// A target's first key depends only on its own position.
pub proof fn first_key_is_where_the_target_is(
    chars: Seq<char>,
    ranks: Seq<char>,
    cols: Columns,
    p: Seq<Point>,
    q: Seq<Point>,
    t: nat,
    u: nat,
    i: int,
    j: int,
)
    requires
        p[i] == q[j],
    ensures
        labels::columned(chars, ranks, p, cols, t, i)[0] == labels::columned(
            chars,
            ranks,
            q,
            cols,
            u,
            j,
        )[0],
{
}

/// A new target elsewhere does not move a label: unless it lands above in
/// the same column, or makes every label longer, target `i` keeps its label.
pub proof fn a_new_target_elsewhere_does_not_move_a_label(
    chars: Seq<char>,
    ranks: Seq<char>,
    cols: Columns,
    p: Seq<Point>,
    extra: Point,
    tail: nat,
    i: int,
)
    requires
        0 <= i < p.len(),
        cols.of(p.push(extra), p.len() as int) != cols.of(p, i) || !cols.before(
            p.push(extra),
            p.len() as int,
            i,
        ),
    ensures
        labels::columned(chars, ranks, p.push(extra), cols, tail, i) == labels::columned(
            chars,
            ranks,
            p,
            cols,
            tail,
            i,
        ),
{
    let q = p.push(extra);
    let n = p.len() as int;
    let f = |j: int| cols.of(p, j) == cols.of(p, i) && cols.before(p, j, i);
    let g = |j: int| cols.of(q, j) == cols.of(q, i) && cols.before(q, j, i);
    assert forall|j: int| 0 <= j < n implies #[trigger] f(j) == g(j) by {
        assert(q[j] == p[j] && q[i] == p[i]);
    }
    num::lemma_count_same(0, n, f, g);
    assert(!g(n));
    assert(num::count(0, n + 1, g) == num::count(0, n, g));
}

/// No label is a prefix of another.
pub proof fn no_label_is_a_prefix_of_another(l: LabelSet, a: int, b: int)
    requires
        l.wf(),
        0 <= a < l.labels.len(),
        0 <= b < l.labels.len(),
        a != b,
    ensures
        !l.labels[a].is_prefix_of(l.labels[b]),
{
    if l.labels[a].is_prefix_of(l.labels[b]) {
        assert(l.labels[b].subrange(0, l.len as int) =~= l.labels[b]);
        assert(l.labels[a] == l.labels[b]);
    }
}

/// Labels and targets look each other up.
pub proof fn labels_and_targets_are_inverse(l: LabelSet, label: Seq<char>, target: usize)
    requires
        l.wf(),
    ensures
        l.label_of(target) == Some(label) <==> l.target_of(label) == Some(target),
{
    if l.label_of(target) == Some(label) {
        let k = l.order.index_of(target);
        assert(l.labels[k] == label);
        assert(l.labels.contains(label));
        assert(l.labels.index_of(label) == k);
    }
    if l.target_of(label) == Some(target) {
        let k = l.labels.index_of(label);
        assert(l.order[k] == target);
        assert(l.order.contains(target));
        assert(l.order.index_of(target) == k);
    }
}

/// What was typed so far of a label, when its first `n` characters were.
pub open spec fn typed_out(l: LabelSet, label: Seq<char>, n: int) -> TypingState {
    TypingState { labels: l, typed: label.take(n), matches: l.matching(label.take(n)) }
}

/// Typing a label hits its target, and nothing before its last character
/// does.
pub proof fn typing_a_label_hits_its_target(l: LabelSet, k: int, n: int)
    requires
        l.wf(),
        0 <= k < l.labels.len(),
        0 <= n < l.len,
    ensures
        ({
            let label = l.labels[k];
            let s = typed_out(l, label, n);
            &&& s.pressed(label[n]) == typed_out(l, label, n + 1)
            &&& n + 1 < l.len ==> s.progress(label[n]) is Pending
            &&& n + 1 == l.len ==> s.progress(label[n]) == Progress::Hit { target: l.order[k] }
        }),
{
    let label = l.labels[k];
    let next = label.take(n).push(label[n]);
    assert(next =~= label.take(n + 1));
    assert(l.is_spelt(label));
    assert(next.is_prefix_of(label)) by {
        assert(next =~= label.subrange(0, n + 1));
    }
    lemma_counts_one(l.labels.len() as int, |j: int| next.is_prefix_of(l.labels[j]), k);
    if n + 1 == l.len {
        assert(next =~= label);
        assert(l.labels.contains(label));
        assert(l.labels.index_of(label) == k);
    }
}

proof fn lemma_counts_one(n: int, f: spec_fn(int) -> bool, k: int)
    requires
        0 <= k < n,
        f(k),
    ensures
        num::count(0, n, f) > 0,
    decreases n,
{
    num::lemma_count_bounds(0, n - 1, f);
    if k < n - 1 {
        lemma_counts_one(n - 1, f, k);
    }
}

/// A hit is always a complete label, and its own target: never a wrong click.
pub proof fn a_hit_is_a_complete_label(s: TypingState, c: char, target: usize)
    requires
        s.wf(),
        s.progress(c) == (Progress::Hit { target }),
    ensures
        s.labels.label_of(target) == Some(s.typed.push(c)),
{
    labels::lemma_whole_label(s.labels, s.typed.push(c));
    labels_and_targets_are_inverse(s.labels, s.typed.push(c), target);
}

/// A miss changes nothing, so that the next key is not matched against a
/// prefix that never existed.
pub proof fn a_miss_changes_nothing(s: TypingState, c: char)
    requires
        s.progress(c) is Miss,
    ensures
        s.pressed(c) == s,
{
}

/// A key that was taken is undone by backspace.
pub proof fn backspace_undoes_a_key(s: TypingState, c: char)
    requires
        s.wf(),
        s.takes(c),
    ensures
        s.pressed(c).undone() == s,
        s.pressed(c).wf(),
        s.undone().wf(),
{
    assert(s.typed.push(c).drop_last() =~= s.typed);
}

} // verus!
