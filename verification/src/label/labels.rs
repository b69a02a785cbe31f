//! Label sets, and typing them.
use vstd::arithmetic::power;
use vstd::prelude::*;
use vstd::string::*;

use crate::label::alphabet;
use crate::label::alphabet::{Alphabet, MIN_LEN};
use crate::label::order;
use crate::label::order::{Columns, Point};
use crate::num;
use crate::text;

verus! {

/// What a label set says: which label points at which target.
pub struct LabelSet {
    /// What the first key names.
    pub alphabet: Seq<char>,
    /// What the keys after it count with.
    pub ranks: Seq<char>,
    /// Characters in every label.
    pub len: nat,
    /// The labels, slot by slot.
    pub labels: Seq<Seq<char>>,
    /// The target of each slot, in reading order.
    pub order: Seq<usize>,
}

impl LabelSet {
    /// All labels are different and equally long, and no target has two.
    pub open spec fn wf(self) -> bool {
        &&& alphabet::is_alphabet(self.alphabet)
        &&& alphabet::is_alphabet(self.ranks)
        &&& self.len >= MIN_LEN
        &&& self.labels.len() == self.order.len()
        &&& self.labels.no_duplicates()
        &&& self.order.no_duplicates()
        &&& forall|k: int| 0 <= k < self.labels.len() ==> (#[trigger] self.labels[k]).len()
            == self.len
        &&& forall|k: int|
            0 <= k < self.labels.len() ==> #[trigger] self.is_spelt(self.labels[k])
    }

    /// Every character is one that can be typed.
    pub open spec fn is_spelt(self, label: Seq<char>) -> bool {
        forall|j: int|
            0 <= j < label.len() ==> self.alphabet.contains(#[trigger] label[j])
                || self.ranks.contains(label[j])
    }

    /// The label of a target, if it has one.
    pub open spec fn label_of(self, target: usize) -> Option<Seq<char>> {
        if self.order.contains(target) {
            Some(self.labels[self.order.index_of(target)])
        } else {
            None
        }
    }

    /// The target of a complete label.
    pub open spec fn target_of(self, label: Seq<char>) -> Option<usize> {
        if self.labels.contains(label) {
            Some(self.order[self.labels.index_of(label)])
        } else {
            None
        }
    }

    /// How many labels begin with `prefix`.
    pub open spec fn matching(self, prefix: Seq<char>) -> int {
        num::count(
            0,
            self.labels.len() as int,
            |k: int| prefix.is_prefix_of(self.labels[k]),
        )
    }

    /// The labels that begin with `prefix` among the first `n` slots, with
    /// their targets.
    pub open spec fn reachable(self, prefix: Seq<char>, n: int) -> Seq<(Seq<char>, usize)>
        decreases n,
    {
        if n <= 0 {
            Seq::empty()
        } else if prefix.is_prefix_of(self.labels[n - 1]) {
            self.reachable(prefix, n - 1).push((self.labels[n - 1], self.order[n - 1]))
        } else {
            self.reachable(prefix, n - 1)
        }
    }
}

/// The views of a list of labels with targets.
pub open spec fn spelt(list: Seq<(&str, usize)>) -> Seq<(Seq<char>, usize)> {
    list.map_values(|p: (&str, usize)| (p.0@, p.1))
}

/// The label that target `i` gets from its place in reading order.
pub open spec fn assigned(chars: Seq<char>, points: Seq<Point>, len: nat, i: int) -> Seq<char> {
    alphabet::odometer(chars, order::reading_rank(points, i), len)
}

/// The label that target `i` gets from its column and its rank in it.
pub open spec fn columned(
    chars: Seq<char>,
    ranks: Seq<char>,
    points: Seq<Point>,
    cols: Columns,
    tail: nat,
    i: int,
) -> Seq<char> {
    seq![chars[cols.of(points, i)]] + alphabet::odometer(ranks, cols.rank(points, i), tail)
}

/// The busiest column holds `b` targets.
pub open spec fn is_busiest(cols: Columns, points: Seq<Point>, b: int) -> bool {
    &&& b >= 0
    &&& forall|i: int| 0 <= i < points.len() ==> #[trigger] cols.rank(points, i) < b
    &&& b > 0 ==> exists|i: int| 0 <= i < points.len() && #[trigger] cols.rank(points, i) == b - 1
}

/// One label set.
#[derive(Debug)]
pub struct Labels {
    alphabet: Alphabet,
    ranks: Alphabet,
    len: usize,
    /// `labels[slot]` is the label of the target `order[slot]`.
    labels: Vec<String>,
    /// The target of each slot, in reading order.
    order: Vec<usize>,
}

/// The views of a list of strings.
pub open spec fn views(labels: Seq<String>) -> Seq<Seq<char>> {
    labels.map_values(|s: String| s@)
}

impl View for Labels {
    type V = LabelSet;

    closed spec fn view(&self) -> LabelSet {
        LabelSet {
            alphabet: self.alphabet@,
            ranks: self.ranks@,
            len: self.len as nat,
            labels: views(self.labels@),
            order: self.order@,
        }
    }
}

impl Clone for Labels {
    fn clone(&self) -> (l: Self)
        ensures
            l@ == self@,
    {
        proof {
            use_type_invariant(self);
        }
        let labels: Vec<String> = self.labels.clone();
        let order: Vec<usize> = self.order.clone();
        assert(views(labels@) =~= views(self.labels@));
        assert(order@ =~= self.order@);
        Labels {
            alphabet: self.alphabet.clone(),
            ranks: self.ranks.clone(),
            len: self.len,
            labels,
            order,
        }
    }
}

impl Labels {
    /// Holds of every label set there is.
    #[verifier::type_invariant]
    pub open spec fn wf(self) -> bool {
        self@.wf()
    }

    /// Assign labels to targets by their centres, in reading order.
    pub fn assign(alphabet: Alphabet, points: &[Point]) -> (l: Self)
        ensures
            l@.wf(),
            l@.alphabet == alphabet@,
            l@.ranks == alphabet@,
            alphabet::is_label_len(
                alphabet@.len(),
                points@.len() as int,
                MIN_LEN as nat,
                l@.len,
            ),
            alphabet::is_label_len(alphabet@.len(), points@.len() as int, 2, l@.len),
            order::in_reading_order(points@, l@.order),
            forall|k: int|
                0 <= k < points@.len() ==> #[trigger] l@.labels[k] == alphabet::odometer(
                    alphabet@,
                    k,
                    l@.len,
                ),
            forall|i: usize|
                i < points@.len() ==> #[trigger] l@.label_of(i) == Some(
                    assigned(alphabet@, points@, l@.len, i as int),
                ),
    {
        let order: Vec<usize> = order::reading_order(points);
        let n: usize = order.len();
        let len: usize = alphabet.label_len(n);
        let ghost chars = alphabet@;
        let mut labels: Vec<String> = Vec::new();
        let mut k: usize = 0;
        while k < n
            invariant
                k <= n,
                chars == alphabet@,
                labels@.len() == k,
                forall|j: int|
                    0 <= j < k ==> (#[trigger] labels@[j])@ == alphabet::odometer(
                        chars,
                        j,
                        len as nat,
                    ),
            decreases n - k,
        {
            labels.push(alphabet.nth(k, len));
            k = k + 1;
        }
        let ranks: Alphabet = alphabet.clone();
        proof {
            use_type_invariant(&alphabet);
            assert forall|a: int, b: int| 0 <= a < n && 0 <= b < n && a != b implies views(
                labels@,
            )[a] != views(labels@)[b] by {
                if views(labels@)[a] == views(labels@)[b] {
                    alphabet::lemma_odometer_distinct(chars, a, b, len as nat);
                }
            }
            assert forall|j: int| 0 <= j < n implies (#[trigger] views(labels@)[j]).len()
                == len by {
                alphabet::lemma_odometer_len(chars, j, len as nat);
            }
            let set = LabelSet {
                alphabet: chars,
                ranks: chars,
                len: len as nat,
                labels: views(labels@),
                order: order@,
            };
            assert forall|k: int| 0 <= k < n implies #[trigger] set.is_spelt(set.labels[k]) by {
                alphabet::lemma_odometer_spelt(chars, k, len as nat);
            }
        }
        let l: Labels = Labels { alphabet, ranks, len, labels, order };
        proof {
            assert forall|i: usize| i < points@.len() implies #[trigger] l@.label_of(i) == Some(
                assigned(chars, points@, l@.len, i as int),
            ) by {
                let slot = order::lemma_lists_all(l@.order, points@.len(), i as int);
                assert(l@.order.contains(i));
                let at = l@.order.index_of(i);
                assert(at == slot);
                order::reading_slot_is_rank(points@, l@.order, slot);
            }
        }
        l
    }

    /// Assign labels by **screen column**.
    ///
    /// The span `x0 .. x0 + width` is cut into one column per alphabet
    /// character, so the first key names *where the target is*, and the keys
    /// after it count down that column from the top.
    ///
    /// One length for the whole set, counted from the busiest column. Columns
    /// are allowed to be empty: the label follows the eye rather than the
    /// population.
    pub fn in_columns(
        alphabet: Alphabet,
        ranks: Alphabet,
        points: &[Point],
        x0: i32,
        width: i32,
    ) -> (l: Self)
        ensures
            ({
                let cols = Columns {
                    x0: x0 as int,
                    width: width as int,
                    n: alphabet@.len() as int,
                };
                &&& l@.wf()
                &&& l@.alphabet == alphabet@
                &&& l@.ranks == ranks@
                &&& exists|b: int| #[trigger]
                    is_busiest(cols, points@, b) && alphabet::is_label_len(
                        ranks@.len(),
                        b,
                        1,
                        (l@.len - 1) as nat,
                    )
                &&& order::in_reading_order(points@, l@.order)
                &&& forall|i: usize|
                    i < points@.len() ==> #[trigger] l@.label_of(i) == Some(
                        columned(
                            alphabet@,
                            ranks@,
                            points@,
                            cols,
                            (l@.len - 1) as nat,
                            i as int,
                        ),
                    )
            }),
    {
        let columns: usize = alphabet.len();
        let ghost cols = Columns { x0: x0 as int, width: width as int, n: columns as int };
        let down: Vec<usize> = order::column_order(points, x0, width, columns);
        let n: usize = down.len();
        // The rank in its column of each target, column by column.
        let mut counts: Vec<usize> = Vec::new();
        let mut busiest: usize = 0;
        let mut start: usize = 0;
        let mut k: usize = 0;
        while k < n
            invariant
                k <= n == down@.len() == points@.len(),
                columns >= 2,
                cols == (Columns { x0: x0 as int, width: width as int, n: columns as int }),
                cols.orders(points@, down@),
                start <= k,
                counts@.len() == k,
                busiest <= k,
                k == 0 ==> start == 0,
                k > 0 ==> start < k && forall|m: int|
                    start <= m < k ==> cols.of(points@, #[trigger] down@[m] as int) == cols.of(
                        points@,
                        down@[k - 1] as int,
                    ),
                k > 0 && start > 0 ==> cols.of(points@, down@[start - 1] as int) != cols.of(
                    points@,
                    down@[k - 1] as int,
                ),
                forall|m: int|
                    0 <= m < k ==> #[trigger] counts@[m] == cols.rank(points@, down@[m] as int),
                forall|m: int| 0 <= m < k ==> (#[trigger] counts@[m]) < busiest,
                busiest > 0 ==> exists|m: int| 0 <= m < k && #[trigger] counts@[m] == busiest - 1,
            decreases n - k,
        {
            let here: usize = column_at(points, &down, k, x0, width, columns);
            if k > 0 {
                let last: usize = column_at(points, &down, k - 1, x0, width, columns);
                if here != last {
                    start = k;
                }
            }
            proof {
                order::column_slot_is_rank(cols, points@, down@, start as int, k as int);
            }
            let rank: usize = k - start;
            let ghost before = counts@;
            counts.push(rank);
            assert(forall|m: int| 0 <= m < k ==> #[trigger] counts@[m] == before[m]);
            if rank >= busiest {
                busiest = rank + 1;
                assert(counts@[k as int] == busiest - 1);
            } else {
                assert(exists|m: int| 0 <= m < k && #[trigger] counts@[m] == busiest - 1) by {
                    let m = choose|m: int| 0 <= m < k && #[trigger] before[m] == busiest - 1;
                    assert(counts@[m] == busiest - 1);
                }
            }
            k = k + 1;
        }
        proof {
            assert forall|i: int| 0 <= i < points@.len() implies #[trigger] cols.rank(points@, i)
                < busiest by {
                let slot = order::lemma_lists_all(down@, points@.len(), i);
                assert(counts@[slot] == cols.rank(points@, down@[slot] as int));
            }
            if busiest > 0 {
                let m = choose|m: int| 0 <= m < n && #[trigger] counts@[m] == busiest - 1;
                assert(cols.rank(points@, down@[m] as int) == busiest - 1);
            }
            assert(is_busiest(cols, points@, busiest as int));
        }
        let tail: usize = ranks.len_for(busiest, 1);
        let ghost chars = alphabet@;
        let ghost counters = ranks@;
        // The same, target by target.
        let mut depth: Vec<usize> = Vec::new();
        depth.resize(n, 0);
        let mut m: usize = 0;
        while m < n
            invariant
                m <= n == down@.len() == points@.len() == counts@.len() == depth@.len(),
                cols.orders(points@, down@),
                forall|a: int|
                    0 <= a < n ==> #[trigger] counts@[a] == cols.rank(points@, down@[a] as int),
                forall|a: int|
                    0 <= a < m ==> depth@[#[trigger] down@[a] as int] == cols.rank(
                        points@,
                        down@[a] as int,
                    ),
            decreases n - m,
        {
            assert(counts@[m as int] == cols.rank(points@, down@[m as int] as int));
            depth.set(down[m], counts[m]);
            m = m + 1;
        }
        proof {
            assert forall|i: int| 0 <= i < n implies #[trigger] depth@[i] == cols.rank(
                points@,
                i,
            ) by {
                let slot = order::lemma_lists_all(down@, points@.len(), i);
                assert(depth@[down@[slot] as int] == cols.rank(points@, down@[slot] as int));
            }
        }
        let order: Vec<usize> = order::reading_order(points);
        let mut labels: Vec<String> = Vec::new();
        let mut j: usize = 0;
        while j < n
            invariant
                j <= n == order@.len() == points@.len() == depth@.len(),
                cols == (Columns { x0: x0 as int, width: width as int, n: columns as int }),
                columns == alphabet@.len(),
                columns >= 2,
                order::in_reading_order(points@, order@),
                chars == alphabet@,
                counters == ranks@,
                forall|i: int| 0 <= i < n ==> #[trigger] depth@[i] == cols.rank(points@, i),
                labels@.len() == j,
                forall|m: int|
                    0 <= m < j ==> (#[trigger] labels@[m])@ == columned(
                        chars,
                        counters,
                        points@,
                        cols,
                        tail as nat,
                        order@[m] as int,
                    ),
            decreases n - j,
        {
            let here: usize = column_at(points, &order, j, x0, width, columns);
            let mut label: String = String::new();
            label.push(alphabet.chars()[here]);
            let rest: String = ranks.nth(depth[order[j]], tail);
            label.append(rest.as_str());
            assert(label@ =~= columned(
                chars,
                counters,
                points@,
                cols,
                tail as nat,
                order@[j as int] as int,
            ));
            labels.push(label);
            j = j + 1;
        }
        let ghost spelling = views(labels@);
        proof {
            use_type_invariant(&alphabet);
            use_type_invariant(&ranks);
            assert forall|m: int| 0 <= m < n implies (#[trigger] spelling[m]).len() == 1 + tail by {
                alphabet::lemma_odometer_len(
                    counters,
                    cols.rank(points@, order@[m] as int),
                    tail as nat,
                );
            }
            assert forall|a: int, b: int| 0 <= a < n && 0 <= b < n && a != b implies spelling[a]
                != spelling[b] by {
                let (i, j) = (order@[a] as int, order@[b] as int);
                assert(order@[a] != order@[b]);
                lemma_columned_distinct(chars, counters, points@, cols, tail as nat, i, j);
            }
        }
        proof {
            let set = LabelSet {
                alphabet: chars,
                ranks: counters,
                len: (1 + tail) as nat,
                labels: spelling,
                order: order@,
            };
            assert forall|k: int| 0 <= k < n implies #[trigger] set.is_spelt(set.labels[k]) by {
                let rest = cols.rank(points@, order@[k] as int);
                alphabet::lemma_odometer_spelt(counters, rest, tail as nat);
                alphabet::lemma_odometer_len(counters, rest, tail as nat);
                order::lemma_column_range(points@, cols, order@[k] as int);
                let label = set.labels[k];
                assert forall|j: int| 0 <= j < label.len() implies set.alphabet.contains(
                    #[trigger] label[j],
                ) || set.ranks.contains(label[j]) by {
                    if j > 0 {
                        assert(label[j] == alphabet::odometer(counters, rest, tail as nat)[j - 1]);
                    }
                }
            }
        }
        let l: Labels = Labels { alphabet, ranks, len: 1 + tail, labels, order };
        proof {
            assert forall|i: usize| i < points@.len() implies #[trigger] l@.label_of(i) == Some(
                columned(chars, counters, points@, cols, (l@.len - 1) as nat, i as int),
            ) by {
                let slot = order::lemma_lists_all(l@.order, points@.len(), i as int);
                assert(l@.order.contains(i));
                assert(l@.order.index_of(i) == slot);
            }
        }
        l
    }
}

/// The column of the target in slot `k`.
fn column_at(
    points: &[Point],
    slots: &Vec<usize>,
    k: usize,
    x0: i32,
    width: i32,
    n: usize,
) -> (c: usize)
    requires
        n > 0,
        k < slots@.len(),
        slots@[k as int] < points@.len(),
    ensures
        c == (Columns { x0: x0 as int, width: width as int, n: n as int }).of(
            points@,
            slots@[k as int] as int,
        ),
        c < n,
{
    order::column_of(points[slots[k]].x, x0, width, n)
}

/// Two targets never get the same label: the first key tells columns apart,
/// the rest tell ranks apart.
proof fn lemma_columned_distinct(
    chars: Seq<char>,
    ranks: Seq<char>,
    points: Seq<Point>,
    cols: Columns,
    tail: nat,
    i: int,
    j: int,
)
    requires
        alphabet::is_alphabet(chars),
        alphabet::is_alphabet(ranks),
        chars.len() <= usize::MAX,
        cols.n == chars.len(),
        cols.width <= i32::MAX,
        0 <= i < points.len(),
        0 <= j < points.len(),
        i != j,
        cols.rank(points, i) < power::pow(ranks.len() as int, tail),
        cols.rank(points, j) < power::pow(ranks.len() as int, tail),
    ensures
        columned(chars, ranks, points, cols, tail, i) != columned(
            chars,
            ranks,
            points,
            cols,
            tail,
            j,
        ),
{
    let (first, second) = (
        columned(chars, ranks, points, cols, tail, i),
        columned(chars, ranks, points, cols, tail, j),
    );
    if first == second {
        let (c, d) = (cols.of(points, i), cols.of(points, j));
        let (r, s) = (cols.rank(points, i), cols.rank(points, j));
        assert(first[0] == chars[c] && second[0] == chars[d]);
        order::lemma_column_range(points, cols, i);
        order::lemma_column_range(points, cols, j);
        assert(c == d);
        assert(first.skip(1) =~= alphabet::odometer(ranks, r, tail));
        assert(second.skip(1) =~= alphabet::odometer(ranks, s, tail));
        num::lemma_count_bounds(
            0,
            points.len() as int,
            |k: int| cols.of(points, k) == cols.of(points, i) && cols.before(points, k, i),
        );
        num::lemma_count_bounds(
            0,
            points.len() as int,
            |k: int| cols.of(points, k) == cols.of(points, j) && cols.before(points, k, j),
        );
        alphabet::lemma_odometer_distinct(ranks, r, s, tail);
        // The same column and the same rank: but the later of the two has
        // one more before it.
        if cols.before(points, i, j) {
            order::lemma_rank_grows(points, cols, i, j);
        } else {
            order::lemma_rank_grows(points, cols, j, i);
        }
    }
}

impl Labels {
    /// Every label with the target index it points at, in reading order.
    pub fn iter(&self) -> (list: Vec<(&str, usize)>)
        ensures
            spelt(list@).len() == self@.labels.len(),
            forall|k: int|
                0 <= k < self@.labels.len() ==> #[trigger] spelt(list@)[k] == (
                    self@.labels[k],
                    self@.order[k],
                ),
    {
        proof {
            use_type_invariant(self);
        }
        let mut list: Vec<(&str, usize)> = Vec::new();
        let mut k: usize = 0;
        while k < self.labels.len()
            invariant
                k <= self.labels@.len() == self.order@.len(),
                list@.len() == k,
                forall|j: int|
                    0 <= j < k ==> (#[trigger] list@[j]).0@ == self.labels@[j]@ && list@[j].1
                        == self.order@[j],
            decreases self.labels.len() - k,
        {
            list.push((self.labels[k].as_str(), self.order[k]));
            k = k + 1;
        }
        list
    }

    pub fn len(&self) -> (n: usize)
        ensures
            n == self@.labels.len(),
    {
        self.labels.len()
    }

    pub fn is_empty(&self) -> (r: bool)
        ensures
            r == (self@.labels.len() == 0),
    {
        self.labels.len() == 0
    }

    /// Characters in every label of this set.
    pub fn label_len(&self) -> (n: usize)
        ensures
            n == self@.len,
            self@.wf(),
    {
        proof {
            use_type_invariant(self);
        }
        self.len
    }

    /// What the first key names: one character per column.
    pub fn alphabet(&self) -> (a: &Alphabet)
        ensures
            a@ == self@.alphabet,
    {
        &self.alphabet
    }

    /// What the keys after the first count with, inside a column.
    pub fn ranks(&self) -> (a: &Alphabet)
        ensures
            a@ == self@.ranks,
    {
        &self.ranks
    }

    /// The label for a target index, if it has one.
    pub fn label_of(&self, target: usize) -> (label: Option<&str>)
        ensures
            label is Some == self@.label_of(target) is Some,
            label is Some ==> label->0@ == self@.label_of(target)->0,
    {
        proof {
            use_type_invariant(self);
        }
        let mut k: usize = 0;
        while k < self.order.len()
            invariant
                k <= self.order@.len() == self.labels@.len(),
                self@.wf(),
                forall|j: int| 0 <= j < k ==> #[trigger] self.order@[j] != target,
            decreases self.order.len() - k,
        {
            if self.order[k] == target {
                assert(self@.order.contains(target));
                assert(self@.order.index_of(target) == k);
                return Some(self.labels[k].as_str());
            }
            k = k + 1;
        }
        None
    }

    /// The target a complete label points at.
    pub fn target_of(&self, label: &str) -> (target: Option<usize>)
        ensures
            target == self@.target_of(label@),
    {
        proof {
            use_type_invariant(self);
        }
        let mut k: usize = 0;
        while k < self.labels.len()
            invariant
                k <= self.labels@.len() == self.order@.len(),
                self@.wf(),
                forall|j: int| 0 <= j < k ==> #[trigger] self@.labels[j] != label@,
            decreases self.labels.len() - k,
        {
            if self.labels[k].as_str().eq(label) {
                assert(self@.labels[k as int] == label@);
                assert(self@.labels.contains(label@));
                assert(self@.labels.index_of(label@) == k);
                return Some(self.order[k]);
            }
            assert(self@.labels[k as int] != label@);
            k = k + 1;
        }
        None
    }

    /// Start typing.
    pub fn typing(&self) -> (t: Typing<'_>)
        ensures
            t@ == (TypingState {
                labels: self@,
                typed: Seq::empty(),
                matches: self@.labels.len() as int,
            }),
            t@.wf(),
    {
        let t: Typing = Typing { labels: self, typed: String::new(), matches: self.len() };
        proof {
            use_type_invariant(self);
            lemma_all_begin_with_nothing(self@);
        }
        t
    }
}

// ---------------------------------------------------------------------------
// Typing
// ---------------------------------------------------------------------------

/// What a keystroke did.
#[derive(Debug, Clone, Copy, PartialEq, Eq, Structural)]
pub enum Progress {
    /// A prefix of `n` labels. Keep the overlay up and dim the rest.
    Pending { matches: usize },
    /// A complete label. `target` indexes the caller's target list.
    Hit { target: usize },
    /// Not in the alphabet, or no label starts this way. **Never a click.**
    Miss,
}

/// A typing session over one label set.
///
/// Holds a borrow of the labels rather than a copy: a hint session cannot
/// outlive the snapshot it was drawn from.
#[derive(Debug)]
pub struct Typing<'a> {
    labels: &'a Labels,
    typed: String,
    matches: usize,
}

/// What was typed over which labels, and how many still match.
pub struct TypingState {
    pub labels: LabelSet,
    pub typed: Seq<char>,
    pub matches: int,
}

impl TypingState {
    /// The count of matches is that of what was typed.
    pub open spec fn wf(self) -> bool {
        &&& self.labels.wf()
        &&& self.matches == self.labels.matching(self.typed)
        &&& self.labels.labels.len() <= usize::MAX
    }

    /// A key that could be part of a label: the first key comes from the
    /// columns, every key after it from the ranks, and a character in neither
    /// is a typo rather than a wrong guess.
    pub open spec fn knows(self, c: char) -> bool {
        self.labels.alphabet.contains(c) || self.labels.ranks.contains(c)
    }

    /// Whether a key leads anywhere.
    pub open spec fn takes(self, c: char) -> bool {
        self.knows(c) && self.labels.matching(self.typed.push(c)) > 0
    }

    /// After a key. One that leads nowhere is not consumed.
    pub open spec fn pressed(self, c: char) -> TypingState {
        if self.takes(c) {
            TypingState {
                typed: self.typed.push(c),
                matches: self.labels.matching(self.typed.push(c)),
                ..self
            }
        } else {
            self
        }
    }

    /// What a key does: it misses, completes a label, or narrows them down.
    pub open spec fn progress(self, c: char) -> Progress {
        let next = self.typed.push(c);
        if !self.takes(c) {
            Progress::Miss
        } else if next.len() == self.labels.len {
            Progress::Hit { target: self.labels.target_of(next)->0 }
        } else {
            Progress::Pending { matches: self.labels.matching(next) as usize }
        }
    }

    /// After undoing the last key; nothing typed stays nothing typed.
    pub open spec fn undone(self) -> TypingState {
        let typed = if self.typed.len() == 0 {
            self.typed
        } else {
            self.typed.drop_last()
        };
        TypingState { typed, matches: self.labels.matching(typed), ..self }
    }
}

impl<'a> View for Typing<'a> {
    type V = TypingState;

    closed spec fn view(&self) -> TypingState {
        TypingState { labels: self.labels@, typed: self.typed@, matches: self.matches as int }
    }
}

impl<'a> Typing<'a> {
    /// What has been typed so far.
    pub fn typed(&self) -> (s: &str)
        ensures
            s@ == self@.typed,
    {
        self.typed.as_str()
    }

    pub fn matches(&self) -> (n: usize)
        ensures
            n == self@.matches,
    {
        self.matches
    }

    /// Labels still reachable, with their target indices — what the overlay
    /// keeps drawing after each keystroke.
    pub fn candidates(&self) -> (list: Vec<(&str, usize)>)
        ensures
            spelt(list@) == self@.labels.reachable(
                self@.typed,
                self@.labels.labels.len() as int,
            ),
    {
        proof {
            use_type_invariant(self.labels);
        }
        let mut list: Vec<(&str, usize)> = Vec::new();
        let mut k: usize = 0;
        assert(spelt(list@) =~= self@.labels.reachable(self@.typed, 0));
        while k < self.labels.labels.len()
            invariant
                k <= self.labels.labels@.len() == self.labels.order@.len(),
                spelt(list@) == self@.labels.reachable(self@.typed, k as int),
            decreases self.labels.labels.len() - k,
        {
            let ghost before = list@;
            let label: &str = self.labels.labels[k].as_str();
            assert(self@.labels.labels[k as int] == label@);
            if text::starts_with(label, self.typed.as_str()) {
                list.push((label, self.labels.order[k]));
                assert(spelt(list@) =~= spelt(before).push((label@, self@.labels.order[k as int])));
            }
            k = k + 1;
        }
        list
    }

    /// How many labels begin with `prefix`.
    fn count(&self, prefix: &str) -> (n: usize)
        ensures
            n == self@.labels.matching(prefix@),
    {
        let ghost f = |k: int| prefix@.is_prefix_of(self@.labels.labels[k]);
        let mut n: usize = 0;
        let mut k: usize = 0;
        while k < self.labels.labels.len()
            invariant
                k <= self.labels.labels@.len(),
                n <= k,
                f == (|k: int| prefix@.is_prefix_of(self@.labels.labels[k])),
                n == num::count(0, k as int, f),
            decreases self.labels.labels.len() - k,
        {
            let label: &str = self.labels.labels[k].as_str();
            assert(self@.labels.labels[k as int] == label@);
            if text::starts_with(label, prefix) {
                assert(f(k as int));
                n = n + 1;
            } else {
                assert(!f(k as int));
            }
            k = k + 1;
        }
        n
    }

    /// Feed one key.
    pub fn press(&mut self, c: char) -> (p: Progress)
        ensures
            final(self)@ == old(self)@.pressed(c),
            p == old(self)@.progress(c),
            p is Hit ==> old(self)@.labels.target_of(final(self)@.typed) == Some(p->target),
    {
        if self.labels.alphabet.index_of(c).is_none() && self.labels.ranks.index_of(c).is_none() {
            return Progress::Miss;
        }
        let mut candidate: String = self.typed.clone();
        candidate.push(c);
        let matches: usize = self.count(candidate.as_str());
        if matches == 0 {
            return Progress::Miss;
        }
        let complete: bool = candidate.as_str().unicode_len() == self.labels.len;
        let labels: &'a Labels = self.labels;
        proof {
            use_type_invariant(labels);
            assert(labels@ == self@.labels);
            if complete {
                lemma_whole_label(labels@, candidate@);
            }
        }
        self.typed = candidate;
        self.matches = matches;
        if complete {
            match labels.target_of(self.typed.as_str()) {
                Some(target) => Progress::Hit { target },
                None => Progress::Miss,
            }
        } else {
            Progress::Pending { matches }
        }
    }

    /// Undo the last keystroke.
    pub fn backspace(&mut self) -> (p: Progress)
        ensures
            final(self)@ == old(self)@.undone(),
            p == (Progress::Pending { matches: final(self)@.matches as usize }),
    {
        let n: usize = self.typed.as_str().unicode_len();
        let ghost before = self.typed@;
        if n > 0 {
            let shorter: String = self.typed.as_str().substring_char(0, n - 1).to_owned();
            assert(shorter@ =~= before.drop_last());
            self.typed = shorter;
        }
        let matches: usize = self.count(self.typed.as_str());
        self.matches = matches;
        Progress::Pending { matches }
    }

    pub fn reset(&mut self)
        ensures
            final(self)@ == (TypingState {
                typed: Seq::empty(),
                matches: old(self)@.labels.labels.len() as int,
                ..old(self)@
            }),
    {
        self.typed = String::new();
        self.matches = self.labels.len();
    }
}

/// Every label begins with nothing.
proof fn lemma_all_begin_with_nothing(l: LabelSet)
    ensures
        l.matching(Seq::empty()) == l.labels.len(),
{
    let f = |k: int| Seq::<char>::empty().is_prefix_of(l.labels[k]);
    let n = l.labels.len() as int;
    assert forall|k: int| 0 <= k < n implies #[trigger] f(k) by {
        assert(Seq::<char>::empty() =~= l.labels[k].subrange(0, 0));
    }
    lemma_count_true(n, f);
}

proof fn lemma_count_true(n: int, f: spec_fn(int) -> bool)
    requires
        n >= 0,
        forall|k: int| 0 <= k < n ==> #[trigger] f(k),
    ensures
        num::count(0, n, f) == n,
    decreases n,
{
    if n > 0 {
        lemma_count_true(n - 1, f);
        assert(f(n - 1));
    }
}

/// Something counted is somewhere.
proof fn lemma_counted_somewhere(n: int, f: spec_fn(int) -> bool) -> (k: int)
    requires
        num::count(0, n, f) > 0,
    ensures
        0 <= k < n,
        f(k),
    decreases n,
{
    if f(n - 1) {
        n - 1
    } else {
        lemma_counted_somewhere(n - 1, f)
    }
}

/// A prefix as long as the labels are is a label.
pub proof fn lemma_whole_label(l: LabelSet, s: Seq<char>)
    requires
        l.wf(),
        s.len() == l.len,
        l.matching(s) > 0,
    ensures
        l.labels.contains(s),
{
    let k = lemma_counted_somewhere(
        l.labels.len() as int,
        |k: int| s.is_prefix_of(l.labels[k]),
    );
    assert(l.labels[k] =~= s) by {
        assert(s =~= l.labels[k].subrange(0, s.len() as int));
    }
    assert(l.labels[k] == s);
}

} // verus!
