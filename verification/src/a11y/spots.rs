//! Keeping one target of each spot.
//!
//! Two targets whose centres nearly coincide click the same thing, and one of
//! them is enough. A target stays exactly when nothing that stays is on its
//! spot and preferred to it: no two that stay are on one spot, every one that
//! goes has one that stays on its spot, and which of them arrived first makes
//! no difference.
use std::cmp::Ordering;

use vstd::prelude::*;

use crate::a11y::filter;
use crate::a11y::resolve;
use crate::a11y::resolve::RejectedView;
use crate::a11y::role::Role;
use crate::a11y::target::{Target, TargetView, WindowRect};
use crate::label::order;
use crate::num;

verus! {

/// A target as [`filter::prefer`] sees it.
pub open spec fn seen_as(t: TargetView) -> (WindowRect, Role, Seq<char>) {
    (t.bounds, t.role, t.path)
}

/// The first target is preferred to the second.
pub open spec fn preferred(ts: Seq<TargetView>, i: int, j: int) -> bool {
    filter::preferable(seen_as(ts[i]), seen_as(ts[j]))
}

/// The first target goes before the second: it is preferred, or it is as good
/// and came first.
pub open spec fn beats(ts: Seq<TargetView>, i: int, j: int) -> bool {
    preferred(ts, i, j) || (!preferred(ts, j, i) && i < j)
}

/// The two targets click the same thing.
pub open spec fn same(ts: Seq<TargetView>, i: int, j: int) -> bool {
    filter::same_place(ts[i].bounds, ts[j].bounds)
}

/// The first target is on the spot of the second, and goes before it.
pub open spec fn ahead(ts: Seq<TargetView>, i: int, j: int) -> bool {
    same(ts, i, j) && beats(ts, i, j)
}

/// How many targets go before this one.
pub open spec fn standing(ts: Seq<TargetView>, i: int) -> nat {
    num::count(0, ts.len() as int, |k: int| beats(ts, k, i)) as nat
}

/// The target stays: none that stays is ahead of it.
pub open spec fn stays(ts: Seq<TargetView>, i: int) -> bool
    decreases standing(ts, i),
{
    proof {
        assert forall|j: int| 0 <= j < ts.len() && #[trigger] ahead(ts, j, i) implies standing(
            ts,
            j,
        ) < standing(ts, i) by {
            lemma_fewer(ts, j, i);
        }
    }
    forall|j: int| 0 <= j < ts.len() && #[trigger] ahead(ts, j, i) ==> !stays(ts, j)
}

/// Going before is an order: one way, between any two, and it carries over.
proof fn lemma_beats(ts: Seq<TargetView>, i: int, j: int, k: int)
    ensures
        !(beats(ts, i, j) && beats(ts, j, i)),
        i != j ==> beats(ts, i, j) || beats(ts, j, i),
        beats(ts, i, j) && beats(ts, j, k) ==> beats(ts, i, k),
{
    let (a, b, c) = (seen_as(ts[i]), seen_as(ts[j]), seen_as(ts[k]));
    filter::preference_is_one_way(a, b);
    filter::preference_is_one_way(b, c);
    filter::preference_is_one_way(a, c);
    filter::preference_decides(a, b);
    filter::preference_decides(b, c);
    if filter::preferable(a, b) && filter::preferable(b, c) {
        filter::preference_is_transitive(a, b, c);
    }
}

/// What goes before another has fewer that go before it.
pub proof fn lemma_fewer(ts: Seq<TargetView>, j: int, i: int)
    requires
        0 <= j < ts.len(),
        beats(ts, j, i),
    ensures
        standing(ts, j) < standing(ts, i),
{
    let n = ts.len() as int;
    let f = |k: int| beats(ts, k, j);
    let g = |k: int| beats(ts, k, i);
    let h = |k: int| f(k) || j <= k < j + 1;
    lemma_beats(ts, j, j, j);
    num::lemma_count_bounds(0, n, f);
    num::lemma_count_interval(0, n, f, h, j, j + 1);
    assert forall|k: int| 0 <= k < n && #[trigger] h(k) implies g(k) by {
        lemma_beats(ts, k, j, i);
    }
    num::lemma_count_subset(0, n, h, g);
}

// ---------------------------------------------------------------------------
// The order they are listed in
// ---------------------------------------------------------------------------

/// The first target, from `k` on, on the spot of this one.
pub open spec fn first_on_spot(ts: Seq<TargetView>, i: int, k: int) -> int
    decreases ts.len() - k,
{
    if k >= ts.len() || same(ts, k, i) {
        k
    } else {
        first_on_spot(ts, i, k + 1)
    }
}

/// The first target, from `k` on, that is ahead of this one.
pub open spec fn first_ahead(ts: Seq<TargetView>, i: int, k: int) -> int
    decreases ts.len() - k,
{
    if k >= ts.len() || ahead(ts, k, i) {
        k
    } else {
        first_ahead(ts, i, k + 1)
    }
}

/// When each target that stays is listed: in the place of the first that was
/// on its spot.
pub open spec fn kept_turns(ts: Seq<TargetView>) -> Seq<Option<int>> {
    Seq::new(
        ts.len(),
        |i: int|
            if stays(ts, i) {
                Some(first_on_spot(ts, i, 0))
            } else {
                None
            },
    )
}

/// When each target that goes is listed: once both it and one ahead of it
/// have come.
pub open spec fn dropped_turns(ts: Seq<TargetView>) -> Seq<Option<int>> {
    Seq::new(
        ts.len(),
        |i: int|
            if stays(ts, i) {
                None
            } else {
                Some(num::larger(i, first_ahead(ts, i, 0)))
            },
    )
}

/// Of the first `m`, those whose turn it is.
pub open spec fn at_turn(turns: Seq<Option<int>>, turn: int, m: int) -> Seq<int>
    decreases m,
{
    if m <= 0 {
        Seq::empty()
    } else if turns[m - 1] == Some(turn) {
        at_turn(turns, turn, m - 1).push(m - 1)
    } else {
        at_turn(turns, turn, m - 1)
    }
}

/// Those whose turn is one of the first `n`, turn by turn.
pub open spec fn in_turn(turns: Seq<Option<int>>, n: int) -> Seq<int>
    decreases n,
{
    if n <= 0 {
        Seq::empty()
    } else {
        in_turn(turns, n - 1) + at_turn(turns, n - 1, turns.len() as int)
    }
}

/// Which targets stay, as they are listed.
pub open spec fn kept_ones(ts: Seq<TargetView>) -> Seq<int> {
    in_turn(kept_turns(ts), ts.len() as int)
}

/// Which targets go, as they are listed.
pub open spec fn dropped_ones(ts: Seq<TargetView>) -> Seq<int> {
    in_turn(dropped_turns(ts), ts.len() as int)
}

/// The targets that stay.
pub open spec fn kept(ts: Seq<TargetView>) -> Seq<TargetView> {
    kept_ones(ts).map_values(|i: int| ts[i])
}

/// A target dropped for another on its spot.
pub open spec fn duplicate(t: TargetView) -> RejectedView {
    RejectedView { role: t.role, name: t.name, path: t.path, why: filter::Reject::Duplicate }
}

/// The targets that go.
pub open spec fn dropped(ts: Seq<TargetView>) -> Seq<RejectedView> {
    dropped_ones(ts).map_values(|i: int| duplicate(ts[i]))
}

proof fn lemma_at_turn(turns: Seq<Option<int>>, turn: int, m: int)
    requires
        0 <= m <= turns.len(),
    ensures
        ({
            let s = at_turn(turns, turn, m);
            &&& s.no_duplicates()
            &&& forall|k: int|
                0 <= k < s.len() ==> 0 <= #[trigger] s[k] < m && turns[s[k]] == Some(turn)
            &&& forall|i: int| 0 <= i < m && #[trigger] turns[i] == Some(turn) ==> s.contains(i)
        }),
    decreases m,
{
    if m > 0 {
        lemma_at_turn(turns, turn, m - 1);
        let before = at_turn(turns, turn, m - 1);
        let s = at_turn(turns, turn, m);
        assert forall|i: int| 0 <= i < m && #[trigger] turns[i] == Some(turn) implies s.contains(
            i,
        ) by {
            if i == m - 1 {
                assert(s[before.len() as int] == i);
            } else {
                let k = choose|k: int| 0 <= k < before.len() && before[k] == i;
                assert(s[k] == i);
            }
        }
    }
}

proof fn lemma_in_turn(turns: Seq<Option<int>>, n: int)
    requires
        0 <= n,
    ensures
        ({
            let s = in_turn(turns, n);
            &&& s.no_duplicates()
            &&& forall|k: int|
                0 <= k < s.len() ==> 0 <= #[trigger] s[k] < turns.len() && turns[s[k]] is Some
                    && 0 <= turns[s[k]]->0 < n
            &&& forall|i: int|
                0 <= i < turns.len() && (#[trigger] turns[i]) is Some && 0 <= turns[i]->0 < n
                    ==> s.contains(i)
        }),
    decreases n,
{
    if n > 0 {
        lemma_in_turn(turns, n - 1);
        lemma_at_turn(turns, n - 1, turns.len() as int);
        let before = in_turn(turns, n - 1);
        let now = at_turn(turns, n - 1, turns.len() as int);
        let s = in_turn(turns, n);
        assert forall|i: int|
            0 <= i < turns.len() && (#[trigger] turns[i]) is Some && 0 <= turns[i]->0
                < n implies s.contains(i) by {
            if turns[i]->0 == n - 1 {
                let k = choose|k: int| 0 <= k < now.len() && now[k] == i;
                assert(s[before.len() + k] == i);
            } else {
                let k = choose|k: int| 0 <= k < before.len() && before[k] == i;
                assert(s[k] == i);
            }
        }
    }
}

proof fn lemma_first_on_spot(ts: Seq<TargetView>, i: int, k: int)
    requires
        0 <= k <= i < ts.len(),
    ensures
        k <= first_on_spot(ts, i, k) <= i,
    decreases i - k,
{
    if k < i && !same(ts, k, i) {
        lemma_first_on_spot(ts, i, k + 1);
    }
}

proof fn lemma_first_ahead(ts: Seq<TargetView>, i: int, j: int, k: int)
    requires
        0 <= k <= j < ts.len(),
        ahead(ts, j, i),
    ensures
        k <= first_ahead(ts, i, k) <= j,
    decreases j - k,
{
    if k < j && !ahead(ts, k, i) {
        lemma_first_ahead(ts, i, j, k + 1);
    }
}

/// Every target is listed once: as one that stays, or as one that goes.
pub proof fn each_target_stays_or_goes(ts: Seq<TargetView>, i: int)
    requires
        0 <= i < ts.len(),
    ensures
        kept_ones(ts).no_duplicates(),
        dropped_ones(ts).no_duplicates(),
        kept_ones(ts).contains(i) <==> stays(ts, i),
        dropped_ones(ts).contains(i) <==> !stays(ts, i),
{
    let n = ts.len() as int;
    let (a, b) = (kept_turns(ts), dropped_turns(ts));
    lemma_in_turn(a, n);
    lemma_in_turn(b, n);
    lemma_first_on_spot(ts, i, 0);
    if stays(ts, i) {
        assert(a[i] is Some);
        assert(b[i] is None);
    } else {
        let j = choose|j: int| 0 <= j < ts.len() && #[trigger] ahead(ts, j, i) && stays(ts, j);
        lemma_first_ahead(ts, i, j, 0);
        assert(a[i] is None);
        assert(b[i] is Some);
    }
}

/// All that is listed is a target, and stays or goes as it is listed.
pub proof fn lemma_listed(ts: Seq<TargetView>)
    ensures
        kept_ones(ts).no_duplicates(),
        dropped_ones(ts).no_duplicates(),
        forall|k: int|
            0 <= k < kept_ones(ts).len() ==> 0 <= #[trigger] kept_ones(ts)[k] < ts.len() && stays(
                ts,
                kept_ones(ts)[k],
            ),
        forall|k: int|
            0 <= k < dropped_ones(ts).len() ==> 0 <= #[trigger] dropped_ones(ts)[k] < ts.len()
                && !stays(ts, dropped_ones(ts)[k]),
{
    let n = ts.len() as int;
    lemma_in_turn(kept_turns(ts), n);
    lemma_in_turn(dropped_turns(ts), n);
    assert forall|k: int| 0 <= k < kept_ones(ts).len() implies 0 <= #[trigger] kept_ones(ts)[k]
        < ts.len() && stays(ts, kept_ones(ts)[k]) by {
        let i = kept_ones(ts)[k];
        assert(kept_turns(ts)[i] is Some);
    }
    assert forall|k: int| 0 <= k < dropped_ones(ts).len() implies 0 <= #[trigger] dropped_ones(
        ts,
    )[k] < ts.len() && !stays(ts, dropped_ones(ts)[k]) by {
        let i = dropped_ones(ts)[k];
        assert(dropped_turns(ts)[i] is Some);
    }
}

/// As many stay and go as there are.
pub proof fn none_is_lost(ts: Seq<TargetView>)
    ensures
        kept(ts).len() + dropped(ts).len() == ts.len(),
{
    let (a, b) = (kept_ones(ts), dropped_ones(ts));
    lemma_listed(ts);
    a.unique_seq_to_set();
    b.unique_seq_to_set();
    let all = vstd::set_lib::set_int_range(0, ts.len() as int);
    vstd::set_lib::lemma_int_range(0, ts.len() as int);
    assert(a.to_set().disjoint(b.to_set())) by {
        assert forall|i: int| !(a.to_set().contains(i) && b.to_set().contains(i)) by {
            if a.contains(i) {
                each_target_stays_or_goes(ts, i);
            }
        }
    }
    assert(a.to_set() + b.to_set() =~= all) by {
        assert forall|i: int| all.contains(i) implies (a.to_set() + b.to_set()).contains(i) by {
            each_target_stays_or_goes(ts, i);
        }
    }
    vstd::set_lib::lemma_set_disjoint_lens(a.to_set(), b.to_set());
}

/// No two targets that stay are on one spot.
pub proof fn one_hint_per_spot(ts: Seq<TargetView>, i: int, j: int)
    requires
        0 <= i < j < kept(ts).len(),
    ensures
        !filter::same_place(kept(ts)[i].bounds, kept(ts)[j].bounds),
{
    lemma_listed(ts);
    let (a, b) = (kept_ones(ts)[i], kept_ones(ts)[j]);
    assert(a != b);
    lemma_beats(ts, a, b, b);
    if same(ts, a, b) {
        assert(ahead(ts, a, b) || ahead(ts, b, a));
    }
}

/// A target that goes has one that stays on its spot, and that one is
/// preferred to it or came first: dropping duplicates hides no place that
/// could be clicked.
pub proof fn every_spot_keeps_a_hint(ts: Seq<TargetView>, j: int) -> (i: int)
    requires
        0 <= j < ts.len(),
    ensures
        0 <= i < kept(ts).len(),
        filter::same_place(kept(ts)[i].bounds, ts[j].bounds),
        kept_ones(ts)[i] == j || beats(ts, kept_ones(ts)[i], j),
{
    let k = if stays(ts, j) {
        j
    } else {
        choose|k: int| 0 <= k < ts.len() && #[trigger] ahead(ts, k, j) && stays(ts, k)
    };
    each_target_stays_or_goes(ts, k);
    choose|i: int| 0 <= i < kept_ones(ts).len() && kept_ones(ts)[i] == k
}

/// Which target arrived first makes no difference, except between two that
/// nothing else tells apart: in another order, the same targets stay.
pub proof fn the_order_of_arrival_does_not_matter(
    p: Seq<TargetView>,
    q: Seq<TargetView>,
    to: Seq<usize>,
    i: int,
)
    requires
        p.len() == q.len(),
        order::is_permutation(to, p.len()),
        forall|k: int| 0 <= k < p.len() ==> q[#[trigger] to[k] as int] == p[k],
        forall|j: int, k: int|
            0 <= j < p.len() && 0 <= k < p.len() && !preferred(p, j, k) && !preferred(p, k, j) ==> (
            j < k <==> #[trigger] to[j] < #[trigger] to[k]),
        0 <= i < p.len(),
    ensures
        stays(p, i) == stays(q, to[i] as int),
    decreases standing(p, i),
{
    let at = to[i] as int;
    assert forall|j: int| 0 <= j < p.len() implies ahead(p, j, i) == ahead(
        q,
        #[trigger] to[j] as int,
        at,
    ) by {
        assert(q[to[j] as int] == p[j] && q[to[i] as int] == p[i]);
        assert(!preferred(p, j, i) && !preferred(p, i, j) ==> (j < i <==> to[j] < to[i]));
    }
    assert forall|j: int| 0 <= j < p.len() && #[trigger] ahead(p, j, i) implies stays(p, j)
        == stays(q, to[j] as int) by {
        lemma_fewer(p, j, i);
        the_order_of_arrival_does_not_matter(p, q, to, j);
    }
    if stays(p, i) {
        assert forall|m: int| 0 <= m < q.len() && #[trigger] ahead(q, m, at) implies !stays(
            q,
            m,
        ) by {
            let j = order::lemma_lists_all(to, p.len(), m);
            assert(ahead(p, j, i) == ahead(q, to[j] as int, at));
        }
    }
    if stays(q, at) {
        assert forall|j: int| 0 <= j < p.len() && #[trigger] ahead(p, j, i) implies !stays(
            p,
            j,
        ) by {
            assert(ahead(q, to[j] as int, at));
        }
    }
}

// ---------------------------------------------------------------------------
// Finding them
// ---------------------------------------------------------------------------

/// Whether the first target is preferred to the second.
fn wins(t: &Target, over: &Target) -> (r: bool)
    ensures
        r == filter::preferable(seen_as(t@), seen_as(over@)),
{
    proof {
        filter::preference_is_one_way(seen_as(t@), seen_as(over@));
        filter::equals_are_not_preferred(seen_as(t@), seen_as(over@));
    }
    match filter::prefer(
        (t.bounds, t.role, t.path.as_str()),
        (over.bounds, over.role, over.path.as_str()),
    ) {
        Ordering::Less => true,
        _ => false,
    }
}

/// Whether the first target goes before the second.
fn goes_before(targets: &Vec<Target>, i: usize, j: usize) -> (r: bool)
    requires
        i < targets@.len(),
        j < targets@.len(),
    ensures
        r == beats(resolve::targets_of(targets@), i as int, j as int),
{
    let ghost ts = resolve::targets_of(targets@);
    assert(ts[i as int] == targets@[i as int]@ && ts[j as int] == targets@[j as int]@);
    wins(&targets[i], &targets[j]) || (i < j && !wins(&targets[j], &targets[i]))
}

/// Whether two targets click the same thing.
fn on_one_spot(targets: &Vec<Target>, i: usize, j: usize) -> (r: bool)
    requires
        i < targets@.len(),
        j < targets@.len(),
    ensures
        r == same(resolve::targets_of(targets@), i as int, j as int),
{
    let ghost ts = resolve::targets_of(targets@);
    assert(ts[i as int] == targets@[i as int]@ && ts[j as int] == targets@[j as int]@);
    filter::same_spot(targets[i].bounds, targets[j].bounds)
}

/// The best first.
pub open spec fn best_first(ts: Seq<TargetView>, list: Seq<usize>) -> bool {
    forall|a: int, b: int|
        0 <= a < b < list.len() ==> beats(ts, #[trigger] list[a] as int, #[trigger] list[b] as int)
}

fn rank(targets: &Vec<Target>) -> (list: Vec<usize>)
    ensures
        order::is_permutation(list@, targets@.len()),
        best_first(resolve::targets_of(targets@), list@),
{
    let ghost ts = resolve::targets_of(targets@);
    let mut list: Vec<usize> = Vec::new();
    let mut i: usize = 0;
    while i < targets.len()
        invariant
            i <= targets@.len(),
            ts == resolve::targets_of(targets@),
            order::is_permutation(list@, i as nat),
            best_first(ts, list@),
        decreases targets.len() - i,
    {
        let ghost before = list@;
        let mut at: usize = 0;
        while at < list.len() && goes_before(targets, list[at], i)
            invariant
                at <= list@.len(),
                list@ == before,
                i < targets@.len(),
                ts == resolve::targets_of(targets@),
                order::is_permutation(before, i as nat),
                forall|a: int| 0 <= a < at ==> beats(ts, #[trigger] before[a] as int, i as int),
            decreases list.len() - at,
        {
            at = at + 1;
        }
        list.insert(at, i);
        proof {
            assert forall|a: int| at <= a < before.len() implies beats(
                ts,
                i as int,
                #[trigger] before[a] as int,
            ) by {
                lemma_beats(ts, before[at as int] as int, i as int, i as int);
                lemma_beats(ts, i as int, before[at as int] as int, before[a] as int);
            }
            let now = list@;
            assert forall|a: int, b: int| 0 <= a < b < now.len() implies beats(
                ts,
                #[trigger] now[a] as int,
                #[trigger] now[b] as int,
            ) by {
                let x = if a < at {
                    a
                } else {
                    a - 1
                };
                let y = if b < at {
                    b
                } else {
                    b - 1
                };
                assert(a != at ==> now[a] == before[x]);
                assert(b != at ==> now[b] == before[y]);
            }
            assert forall|a: int, b: int| 0 <= a < now.len() && 0 <= b < now.len() && a
                != b implies now[a] != now[b] by {
                lemma_beats(ts, now[a] as int, now[b] as int, now[a] as int);
                lemma_beats(ts, now[a] as int, now[a] as int, now[a] as int);
                if a < b {
                    assert(beats(ts, now[a] as int, now[b] as int));
                } else {
                    assert(beats(ts, now[b] as int, now[a] as int));
                }
            }
            assert forall|k: int| 0 <= k < now.len() implies #[trigger] now[k] < i + 1 by {
                if k < at {
                    assert(now[k] == before[k]);
                } else if k > at {
                    assert(now[k] == before[k - 1]);
                }
            }
        }
        i = i + 1;
    }
    list
}

/// Of each target, whether it stays.
pub(crate) fn settle(targets: &Vec<Target>) -> (stay: Vec<bool>)
    ensures
        stay@.len() == targets@.len(),
        forall|i: int|
            0 <= i < stay@.len() ==> #[trigger] stay@[i] == stays(
                resolve::targets_of(targets@),
                i,
            ),
{
    let ghost ts = resolve::targets_of(targets@);
    let n: usize = targets.len();
    let list: Vec<usize> = rank(targets);
    let mut stay: Vec<bool> = Vec::new();
    stay.resize(n, false);
    let mut a: usize = 0;
    while a < n
        invariant
            a <= n == targets@.len() == stay@.len(),
            ts == resolve::targets_of(targets@),
            order::is_permutation(list@, n as nat),
            best_first(ts, list@),
            forall|b: int|
                0 <= b < a ==> stay@[#[trigger] list@[b] as int] == stays(ts, list@[b] as int),
        decreases n - a,
    {
        let x: usize = list[a];
        let mut clear: bool = true;
        let mut b: usize = 0;
        while b < a
            invariant
                b <= a < n == targets@.len() == stay@.len(),
                ts == resolve::targets_of(targets@),
                order::is_permutation(list@, n as nat),
                x == list@[a as int],
                clear <==> forall|c: int|
                    0 <= c < b ==> !(stay@[#[trigger] list@[c] as int] && same(
                        ts,
                        list@[c] as int,
                        x as int,
                    )),
            decreases a - b,
        {
            if stay[list[b]] && on_one_spot(targets, list[b], x) {
                clear = false;
                assert(stay@[list@[b as int] as int]);
            }
            b = b + 1;
        }
        proof {
            if clear {
                assert forall|j: int|
                    0 <= j < ts.len() && #[trigger] ahead(ts, j, x as int) implies !stays(
                    ts,
                    j,
                ) by {
                    let c = order::lemma_lists_all(list@, n as nat, j);
                    lemma_beats(ts, j, x as int, j);
                    if c < a {
                        assert(stay@[list@[c] as int] == stays(ts, list@[c] as int));
                    } else if c > a {
                        assert(beats(ts, list@[a as int] as int, list@[c] as int));
                    } else {
                        lemma_beats(ts, j, j, j);
                    }
                }
            } else {
                let c = choose|c: int|
                    0 <= c < a && stay@[#[trigger] list@[c] as int] && same(
                        ts,
                        list@[c] as int,
                        x as int,
                    );
                assert(beats(ts, list@[c] as int, list@[a as int] as int));
                assert(ahead(ts, list@[c] as int, x as int));
                assert(stays(ts, list@[c] as int));
            }
        }
        stay.set(x, clear);
        a = a + 1;
    }
    proof {
        assert forall|i: int| 0 <= i < n implies #[trigger] stay@[i] == stays(ts, i) by {
            let c = order::lemma_lists_all(list@, n as nat, i);
            assert(stay@[list@[c] as int] == stays(ts, list@[c] as int));
        }
    }
    stay
}

/// The turns of a list as numbers.
pub open spec fn turns_of(turns: Seq<Option<usize>>) -> Seq<Option<int>> {
    turns.map_values(
        |t: Option<usize>|
            match t {
                Some(t) => Some(t as int),
                None => None,
            },
    )
}

/// When each target that stays is listed.
pub(crate) fn turns_to_stay(targets: &Vec<Target>, stay: &Vec<bool>) -> (turns: Vec<Option<usize>>)
    requires
        stay@.len() == targets@.len(),
        forall|i: int|
            0 <= i < stay@.len() ==> #[trigger] stay@[i] == stays(
                resolve::targets_of(targets@),
                i,
            ),
    ensures
        turns_of(turns@) == kept_turns(resolve::targets_of(targets@)),
{
    let ghost ts = resolve::targets_of(targets@);
    let mut turns: Vec<Option<usize>> = Vec::new();
    let mut i: usize = 0;
    while i < targets.len()
        invariant
            i <= targets@.len() == stay@.len(),
            ts == resolve::targets_of(targets@),
            forall|k: int| 0 <= k < stay@.len() ==> #[trigger] stay@[k] == stays(ts, k),
            turns@.len() == i,
            forall|k: int|
                0 <= k < i ==> #[trigger] turns_of(turns@)[k] == kept_turns(ts)[k],
        decreases targets.len() - i,
    {
        let ghost before = turns@;
        let turn: Option<usize> = if stay[i] {
            let mut k: usize = 0;
            while k < targets.len() && !on_one_spot(targets, k, i)
                invariant
                    k <= targets@.len(),
                    i < targets@.len(),
                    ts == resolve::targets_of(targets@),
                    first_on_spot(ts, i as int, 0) == first_on_spot(ts, i as int, k as int),
                decreases targets.len() - k,
            {
                k = k + 1;
            }
            Some(k)
        } else {
            None
        };
        turns.push(turn);
        proof {
            assert forall|k: int| 0 <= k < i + 1 implies #[trigger] turns_of(turns@)[k]
                == kept_turns(ts)[k] by {
                if k < i {
                    assert(turns_of(before)[k] == kept_turns(ts)[k]);
                    assert(turns@[k] == before[k]);
                }
            }
        }
        i = i + 1;
    }
    assert(turns_of(turns@) =~= kept_turns(ts));
    turns
}

/// When each target that goes is listed.
pub(crate) fn turns_to_go(targets: &Vec<Target>, stay: &Vec<bool>) -> (turns: Vec<Option<usize>>)
    requires
        stay@.len() == targets@.len(),
        forall|i: int|
            0 <= i < stay@.len() ==> #[trigger] stay@[i] == stays(
                resolve::targets_of(targets@),
                i,
            ),
    ensures
        turns_of(turns@) == dropped_turns(resolve::targets_of(targets@)),
{
    let ghost ts = resolve::targets_of(targets@);
    let mut turns: Vec<Option<usize>> = Vec::new();
    let mut i: usize = 0;
    while i < targets.len()
        invariant
            i <= targets@.len() == stay@.len(),
            ts == resolve::targets_of(targets@),
            forall|k: int| 0 <= k < stay@.len() ==> #[trigger] stay@[k] == stays(ts, k),
            turns@.len() == i,
            forall|k: int|
                0 <= k < i ==> #[trigger] turns_of(turns@)[k] == dropped_turns(ts)[k],
        decreases targets.len() - i,
    {
        let ghost before = turns@;
        let turn: Option<usize> = if stay[i] {
            None
        } else {
            let mut k: usize = 0;
            while k < targets.len() && !(on_one_spot(targets, k, i) && goes_before(targets, k, i))
                invariant
                    k <= targets@.len(),
                    i < targets@.len(),
                    ts == resolve::targets_of(targets@),
                    first_ahead(ts, i as int, 0) == first_ahead(ts, i as int, k as int),
                decreases targets.len() - k,
            {
                k = k + 1;
            }
            Some(
                if i > k {
                    i
                } else {
                    k
                },
            )
        };
        turns.push(turn);
        proof {
            assert forall|k: int| 0 <= k < i + 1 implies #[trigger] turns_of(turns@)[k]
                == dropped_turns(ts)[k] by {
                if k < i {
                    assert(turns_of(before)[k] == dropped_turns(ts)[k]);
                    assert(turns@[k] == before[k]);
                }
            }
        }
        i = i + 1;
    }
    assert(turns_of(turns@) =~= dropped_turns(ts));
    turns
}

/// Indices as numbers.
pub open spec fn indices(list: Seq<usize>) -> Seq<int> {
    list.map_values(|i: usize| i as int)
}

/// Everything that has a turn, turn by turn.
pub(crate) fn take_turns(turns: &Vec<Option<usize>>) -> (list: Vec<usize>)
    ensures
        indices(list@) == in_turn(turns_of(turns@), turns@.len() as int),
        forall|k: int| 0 <= k < list@.len() ==> (#[trigger] list@[k]) < turns@.len(),
{
    let ghost all = turns_of(turns@);
    let mut list: Vec<usize> = Vec::new();
    let mut n: usize = 0;
    assert(indices(list@) =~= Seq::empty());
    while n < turns.len()
        invariant
            n <= turns@.len(),
            all == turns_of(turns@),
            indices(list@) == in_turn(all, n as int),
            forall|k: int| 0 <= k < list@.len() ==> (#[trigger] list@[k]) < turns@.len(),
        decreases turns.len() - n,
    {
        let ghost before = indices(list@);
        let mut m: usize = 0;
        assert(before + at_turn(all, n as int, 0) =~= before);
        while m < turns.len()
            invariant
                m <= turns@.len(),
                n < turns@.len(),
                all == turns_of(turns@),
                indices(list@) == before + at_turn(all, n as int, m as int),
                forall|k: int| 0 <= k < list@.len() ==> (#[trigger] list@[k]) < turns@.len(),
            decreases turns.len() - m,
        {
            let ghost so_far = list@;
            let due: bool = match turns[m] {
                Some(t) => t == n,
                None => false,
            };
            assert(all[m as int] == Some(n as int) <==> due);
            if due {
                list.push(m);
                assert(indices(list@) =~= indices(so_far).push(m as int));
                assert(indices(list@) =~= before + at_turn(all, n as int, m + 1));
            }
            m = m + 1;
        }
        n = n + 1;
    }
    list
}

} // verus!
