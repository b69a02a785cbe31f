//! What is found in pixels, stated over the pixels.
use vstd::prelude::*;
use vstd::relations;

use crate::detect::bands;
use crate::detect::block;
use crate::detect::fingerprint;
use crate::detect::fingerprint::{Claim, Verdict};
use crate::detect::grid;
use crate::detect::grid::{Extent, Params, Window};
use crate::detect::rect;
use crate::detect::rect::Rect;
use crate::num;
use crate::num::Ratio;
use crate::screen;
use crate::sort;

verus! {

// ---------------------------------------------------------------------------
// The largest free block
// ---------------------------------------------------------------------------

/// A block is free when it lies inside the area and each of the rectangles is
/// empty or altogether to one side of it.
pub proof fn a_free_block_touches_nothing(area: Rect, occupied: Seq<Rect>, r: Rect)
    requires
        area.x + area.w <= 0x7fff_ffff,
        area.y + area.h <= 0x7fff_ffff,
    ensures
        block::is_free(area, occupied, r) <==> {
            &&& r.w > 0 && r.h > 0
            &&& area.x <= r.x && r.x + r.w <= area.x + area.w
            &&& area.y <= r.y && r.y + r.h <= area.y + area.h
            &&& forall|i: int|
                0 <= i < occupied.len() ==> {
                    let q = #[trigger] occupied[i];
                    ||| q.w <= 0 || q.h <= 0
                    ||| q.x + q.w <= r.x || r.x + r.w <= q.x
                    ||| q.y + q.h <= r.y || r.y + r.h <= q.y
                }
        },
{
    let inside = r.w > 0 && r.h > 0 && area.x <= r.x && r.x + r.w <= area.x + area.w && area.y
        <= r.y && r.y + r.h <= area.y + area.h;
    if block::is_free(area, occupied, r) {
        assert forall|i: int| 0 <= i < occupied.len() implies {
            let q = #[trigger] occupied[i];
            ||| q.w <= 0 || q.h <= 0
            ||| q.x + q.w <= r.x || r.x + r.w <= q.x
            ||| q.y + q.h <= r.y || r.y + r.h <= q.y
        } by {
            let q = occupied[i];
            let px = if q.x > r.x {
                q.x as int
            } else {
                r.x as int
            };
            let py = if q.y > r.y {
                q.y as int
            } else {
                r.y as int
            };
            if px < r.x + r.w && py < r.y + r.h {
                assert(!rect::covered(occupied, px, py));
                assert(!occupied[i].covers(px, py));
                screen::a_rectangle_covers_its_pixels(q, px, py);
            }
        }
    }
    if inside && forall|i: int|
        0 <= i < occupied.len() ==> {
            let q = #[trigger] occupied[i];
            ||| q.w <= 0 || q.h <= 0
            ||| q.x + q.w <= r.x || r.x + r.w <= q.x
            ||| q.y + q.h <= r.y || r.y + r.h <= q.y
        } {
        assert forall|px: int, py: int|
            r.x <= px < r.x + r.w && r.y <= py < r.y + r.h implies !#[trigger] rect::covered(
            occupied,
            px,
            py,
        ) by {
            if rect::covered(occupied, px, py) {
                let i = choose|i: int|
                    0 <= i < occupied.len() && (#[trigger] occupied[i]).covers(px, py);
                screen::a_rectangle_covers_its_pixels(occupied[i], px, py);
            }
        }
    }
}

/// The larger of two blocks is taken; of two as large the one that ends higher
/// up, then the one that ends further left, then the taller.
pub proof fn the_larger_block_is_taken(a: Rect, b: Rect)
    ensures
        block::preferred(a, b) ==> a.w * a.h >= b.w * b.h,
        a.w * a.h > b.w * b.h ==> block::preferred(a, b) && !block::preferred(b, a),
        a.w * a.h == b.w * b.h && a.y + a.h < b.y + b.h ==> block::preferred(a, b)
            && !block::preferred(b, a),
        a.w * a.h == b.w * b.h && a.y + a.h == b.y + b.h && a.x + a.w < b.x + b.w
            ==> block::preferred(a, b) && !block::preferred(b, a),
        a.w * a.h == b.w * b.h && a.y + a.h == b.y + b.h && a.x + a.w == b.x + b.w && a.h > b.h
            ==> block::preferred(a, b) && !block::preferred(b, a),
        block::preferred(a, b) || block::preferred(b, a),
{
}

// ---------------------------------------------------------------------------
// Bands
// ---------------------------------------------------------------------------

/// A band that is kept is `min_run` long, starts at something, behind nothing
/// or behind `min_gap` blanks, ends at something before `min_gap` blanks or
/// with the profile, and of any `min_gap` places in it one is lit.
pub proof fn a_band_is_cut_at_gaps(
    profile: Seq<u32>,
    min_gap: usize,
    min_run: usize,
    b: (usize, usize),
    k: int,
)
    requires
        bands::is_kept(profile, min_gap, min_run, b),
    ensures
        ({
            let g = if min_gap == 0 {
                1
            } else {
                min_gap as int
            };
            let (i, j) = (b.0 as int, b.1 as int);
            &&& i < j <= profile.len()
            &&& j - i >= min_run
            &&& profile[i] > 0
            &&& {
                ||| forall|t: int| 0 <= t < i ==> #[trigger] profile[t] == 0
                ||| i >= g && forall|t: int| i - g <= t < i ==> #[trigger] profile[t] == 0
            }
            &&& {
                ||| j == profile.len()
                ||| profile[j - 1] > 0 && j + g <= profile.len() && forall|t: int|
                    j <= t < j + g ==> #[trigger] profile[t] == 0
            }
            &&& i <= k && k + g <= j ==> exists|u: int|
                k <= u < k + g && #[trigger] profile[u] > 0
        }),
{
    let g = bands::gap_width(min_gap);
    let (i, j) = (b.0 as int, b.1 as int);
    if i <= k && k + g <= j {
        assert(!bands::gap_at(profile, g, k));
        assert(!bands::blank(profile, k, k + g));
        let u = choose|u: int| k <= u < k + g && #[trigger] profile[u] != 0;
        assert(profile[u] > 0);
    }
}

/// And every stretch like that is kept.
pub proof fn a_stretch_between_gaps_is_a_band(
    profile: Seq<u32>,
    min_gap: usize,
    min_run: usize,
    b: (usize, usize),
    lit: spec_fn(int) -> int,
)
    requires
        ({
            let g = if min_gap == 0 {
                1
            } else {
                min_gap as int
            };
            let (i, j) = (b.0 as int, b.1 as int);
            &&& i < j <= profile.len()
            &&& j - i >= min_run
            &&& profile[i] > 0
            &&& {
                ||| forall|t: int| 0 <= t < i ==> #[trigger] profile[t] == 0
                ||| i >= g && forall|t: int| i - g <= t < i ==> #[trigger] profile[t] == 0
            }
            &&& {
                ||| j == profile.len()
                ||| profile[j - 1] > 0 && j + g <= profile.len() && forall|t: int|
                    j <= t < j + g ==> #[trigger] profile[t] == 0
            }
            &&& forall|t: int|
                i <= t && t + g <= j ==> t <= #[trigger] lit(t) < t + g && profile[lit(t)] > 0
        }),
    ensures
        bands::is_kept(profile, min_gap, min_run, b),
{
    let g = bands::gap_width(min_gap);
    let (i, j) = (b.0 as int, b.1 as int);
    assert forall|t: int| i <= t && t + g <= j implies !#[trigger] bands::gap_at(
        profile,
        g,
        t,
    ) by {
        let u = lit(t);
        assert(profile[u] > 0);
    }
    assert(bands::blank(profile, 0, i) || bands::gap_at(profile, g, i - g));
    assert(j == profile.len() || bands::gap_at(profile, g, j));
}

/// Every lit place lies in a band, unless its run is too short: no band is
/// left out, and no two overlap.
pub proof fn no_band_is_left_out(
    profile: Seq<u32>,
    min_gap: usize,
    min_run: usize,
    out: Seq<(usize, usize)>,
    b: (usize, usize),
    j: int,
    k: int,
)
    requires
        bands::are_bands(profile, min_gap, min_run, out),
    ensures
        bands::is_kept(profile, min_gap, min_run, b) <==> out.contains(b),
        0 <= j < k < out.len() ==> out[j].0 < out[j].1 <= out[k].0 < out[k].1,
{
    if out.contains(b) {
        let at = out.index_of(b);
        assert(bands::is_kept(profile, min_gap, min_run, out[at]));
    }
    if 0 <= j < k < out.len() {
        assert(bands::is_kept(profile, min_gap, min_run, out[j]));
        assert(bands::is_kept(profile, min_gap, min_run, out[k]));
    }
}

proof fn lemma_sorted(loose: Seq<sort::Key>)
    ensures
        ({
            let s = loose.sort_by(|a: sort::Key, b: sort::Key| sort::key_le(a, b));
            &&& s.len() == loose.len()
            &&& sort::in_order(s)
            &&& s.to_multiset() == loose.to_multiset()
        }),
{
    let leq = |a: sort::Key, b: sort::Key| sort::key_le(a, b);
    assert(relations::total_ordering(leq)) by {
        assert(relations::reflexive(leq));
        assert(relations::antisymmetric(leq));
        assert(relations::transitive(leq));
        assert(relations::strongly_connected(leq));
    }
    loose.lemma_sort_by_ensures(leq);
    let s = loose.sort_by(leq);
    s.to_multiset_ensures();
    loose.to_multiset_ensures();
    assert forall|i: int, j: int| 0 <= i < j < s.len() implies sort::key_le(
        #[trigger] s[i],
        #[trigger] s[j],
    ) by {
        assert(leq(s[i], s[j]));
    }
}

/// The keys that the distances are sorted by.
spec fn keyed(bs: Seq<(usize, usize)>) -> Seq<sort::Key> {
    Seq::new(
        (bs.len() - 1) as nat,
        |k: int| (bands::distance(bs, k) as i128, 0i128, 0i128, 0usize),
    )
}

proof fn lemma_distances(bs: Seq<(usize, usize)>)
    requires
        bs.len() >= 1,
    ensures
        bands::distances(bs).len() == bs.len() - 1,
        sort::in_order(bands::distances(bs)),
        bands::distances(bs).to_multiset() == keyed(bs).to_multiset(),
{
    lemma_sorted(keyed(bs));
}

/// Bands that are all as far apart as each other are not merged: there is one
/// kind of distance, and it parts items.
pub proof fn evenly_spaced_bands_stay_apart(bs: Seq<(usize, usize)>, d: int)
    requires
        1 <= d,
        forall|k: int| 0 <= k < bs.len() - 1 ==> (#[trigger] bs[k + 1]).0 - bs[k].1 == d,
    ensures
        bands::merged(bs) == bs,
{
    if bs.len() >= 3 {
        let s = bands::distances(bs);
        lemma_distances(bs);
        assert forall|k: int| 0 <= k < s.len() implies (#[trigger] s[k]).0 == d by {
            let j = sort::lemma_also_in(s, keyed(bs), k);
            assert(bs[j + 1].0 - bs[j].1 == d);
        }
        assert(bands::is_jump(s, 0)) by {
            assert forall|j: int| 0 <= j < s.len() - 1 implies s[j + 1].0 * bands::jump_from(s, 0)
                <= s[0int + 1].0 * #[trigger] bands::jump_from(s, j) by {
                assert(s[j].0 == d && s[j + 1].0 == d && s[0].0 == d && s[1].0 == d);
            }
        }
        let k = choose|k: int| bands::is_jump(s, k);
        assert(s[k].0 == d && s[k + 1].0 == d);
    }
}

/// Where the distances are of two kinds, and the large one is 1.4 times the
/// small one or more, half the sum of the two is what parts items: bands that
/// are the small distance apart are one item, and bands that are the large one
/// apart are two.
pub proof fn two_kinds_of_distance_make_items(
    bs: Seq<(usize, usize)>,
    near: int,
    far: int,
    a: int,
    b: int,
)
    requires
        1 <= near,
        5 * far >= 7 * near,
        forall|k: int|
            0 <= k < bs.len() - 1 ==> (#[trigger] bs[k + 1]).0 - bs[k].1 == near || bs[k + 1].0
                - bs[k].1 == far,
        0 <= a < bs.len() - 1,
        0 <= b < bs.len() - 1,
        bs[a + 1].0 - bs[a].1 == near,
        bs[b + 1].0 - bs[b].1 == far,
    ensures
        bands::cut(bs) == Some(near + far),
        bands::merged(bs) == bands::joined(bs, near + far, bs.len() as int),
{
    let s = bands::distances(bs);
    let loose = keyed(bs);
    lemma_distances(bs);
    assert forall|k: int| 0 <= k < s.len() implies (#[trigger] s[k]).0 == near || s[k].0 == far by {
        let j = sort::lemma_also_in(s, loose, k);
        assert(bs[j + 1].0 - bs[j].1 == near || bs[j + 1].0 - bs[j].1 == far);
    }
    assert(loose[a].0 == near && loose[b].0 == far);
    let p = sort::lemma_also_in(loose, s, a);
    let q = sort::lemma_also_in(loose, s, b);
    if q < p {
        assert(sort::key_le(s[q], s[p]));
    }
    let k = lemma_step(s, near, far, p, q);
    lemma_only_jump(s, near, far, k);
    let c = choose|c: int| bands::is_jump(s, c);
    assert(c == k);
}

/// Between a near and a far distance there is a step from one to the other.
proof fn lemma_step(s: Seq<sort::Key>, near: int, far: int, p: int, q: int) -> (k: int)
    requires
        near < far,
        0 <= p < q < s.len(),
        s[p].0 == near,
        s[q].0 == far,
        forall|k: int| 0 <= k < s.len() ==> (#[trigger] s[k]).0 == near || s[k].0 == far,
    ensures
        p <= k < q,
        s[k].0 == near,
        s[k + 1].0 == far,
    decreases q - p,
{
    if s[p + 1].0 == far {
        p
    } else {
        assert(s[p + 1].0 == near);
        lemma_step(s, near, far, p + 1, q)
    }
}

proof fn lemma_only_jump(s: Seq<sort::Key>, near: int, far: int, k: int)
    requires
        1 <= near < far,
        0 <= k < s.len() - 1,
        s[k].0 == near,
        s[k + 1].0 == far,
        sort::in_order(s),
        forall|k: int| 0 <= k < s.len() ==> (#[trigger] s[k]).0 == near || s[k].0 == far,
    ensures
        bands::is_jump(s, k),
        forall|c: int| bands::is_jump(s, c) ==> c == k,
{
    assert forall|j: int| 0 <= j < s.len() - 1 && j != k implies s[j + 1].0 == #[trigger] s[j].0 by {
        assert(sort::key_le(s[j], s[j + 1]));
        if j < k {
            if j + 1 < k {
                assert(sort::key_le(s[j + 1], s[k]));
            }
        } else {
            if k + 1 < j {
                assert(sort::key_le(s[k + 1], s[j]));
            }
        }
    }
    assert forall|j: int| 0 <= j < s.len() - 1 implies s[j + 1].0 * bands::jump_from(s, k) <= s[k
        + 1].0 * #[trigger] bands::jump_from(s, j) by {
        if j != k {
            let c = s[j].0 as int;
            assert(s[j + 1].0 == s[j].0);
            assert(c * near <= far * c) by (nonlinear_arith)
                requires
                    c >= 1,
                    near < far,
            ;
        }
    }
    assert forall|j: int| 0 <= j < k implies s[j + 1].0 * bands::jump_from(s, k) < s[k + 1].0
        * #[trigger] bands::jump_from(s, j) by {
        let c = s[j].0 as int;
        assert(s[j + 1].0 == s[j].0);
        assert(c * near < far * c) by (nonlinear_arith)
            requires
                c >= 1,
                near < far,
        ;
    }
    assert forall|c: int| bands::is_jump(s, c) implies c == k by {
        if c != k {
            let d = s[c].0 as int;
            assert(s[c + 1].0 == s[c].0);
            assert(s[k + 1].0 * bands::jump_from(s, c) <= s[c + 1].0 * bands::jump_from(s, k));
            assert(far * d > d * near) by (nonlinear_arith)
                requires
                    d >= 1,
                    near < far,
            ;
        }
    }
}

/// Of the distances from the shortest up, the first that is the largest
/// multiple of the one before it parts the two kinds, where it is 1.4 times
/// that one or more: half the sum of the two is what parts items. A distance
/// of nothing counts as one here.
pub proof fn the_cut_lies_at_the_widest_jump(bs: Seq<(usize, usize)>, s: Seq<int>, k: int)
    requires
        bs.len() >= 3,
        Seq::new(
            (bs.len() - 1) as nat,
            |i: int|
                if bs[i + 1].0 > bs[i].1 {
                    bs[i + 1].0 - bs[i].1
                } else {
                    0int
                },
        ).to_multiset() == s.to_multiset(),
        forall|i: int, j: int| 0 <= i < j < s.len() ==> #[trigger] s[i] <= #[trigger] s[j],
        0 <= k < s.len() - 1,
        forall|j: int|
            0 <= j < s.len() - 1 ==> s[j + 1] * (if s[k] > 1 {
                s[k]
            } else {
                1
            }) <= s[k + 1] * (if #[trigger] s[j] > 1 {
                s[j]
            } else {
                1
            }),
        forall|j: int|
            0 <= j < k ==> s[j + 1] * (if s[k] > 1 {
                s[k]
            } else {
                1
            }) < s[k + 1] * (if #[trigger] s[j] > 1 {
                s[j]
            } else {
                1
            }),
    ensures
        s[k] >= 1 ==> (5 * s[k + 1] >= 7 * s[k] <==> bands::cut(bs) is Some),
        s[k] == 0 ==> (s[k + 1] >= 2 <==> bands::cut(bs) is Some),
        bands::cut(bs) is Some ==> bands::cut(bs)->0 == s[k] + s[k + 1],
        bands::cut(bs) is None ==> bands::merged(bs) == bs,
        bands::cut(bs) is Some ==> bands::merged(bs) == bands::joined(
            bs,
            s[k] + s[k + 1],
            bs.len() as int,
        ),
{
    let raw = Seq::new(
        (bs.len() - 1) as nat,
        |i: int|
            if bs[i + 1].0 > bs[i].1 {
                bs[i + 1].0 - bs[i].1
            } else {
                0int
            },
    );
    let f = |d: int| (d as i128, 0i128, 0i128, 0usize);
    assert(keyed(bs) =~= raw.map_values(f));
    raw.to_multiset_ensures();
    s.to_multiset_ensures();
    assert(s.len() == raw.len());
    assert forall|i: int| 0 <= i < s.len() implies 0 <= #[trigger] s[i] <= usize::MAX by {
        assert(s.contains(s[i]));
        assert(raw.to_multiset().count(s[i]) > 0);
        let j = raw.index_of(s[i]);
        assert(raw[j] == s[i]);
    }
    let t = s.map_values(f);
    lemma_mapped_alike(raw, s, f);
    assert forall|i: int, j: int| 0 <= i < j < t.len() implies sort::key_le(
        #[trigger] t[i],
        #[trigger] t[j],
    ) by {
        assert(s[i] <= s[j]);
    }
    sort::lemma_sorts(keyed(bs), t);
    assert(bands::distances(bs) == t);
    assert forall|j: int| 0 <= j < t.len() implies (#[trigger] t[j]).0 == s[j] by {}
    assert forall|j: int| 0 <= j < t.len() implies #[trigger] bands::jump_from(t, j) == (if s[j] > 1 {
        s[j]
    } else {
        1
    }) by {
        assert(t[j].0 == s[j]);
    }
    assert(bands::is_jump(t, k)) by {
        assert forall|j: int| 0 <= j < t.len() - 1 implies t[j + 1].0 * bands::jump_from(t, k) <= t[k
            + 1].0 * #[trigger] bands::jump_from(t, j) by {
            assert(t[j + 1].0 == s[j + 1] && t[k + 1].0 == s[k + 1] && s[j] <= s[j + 1]);
        }
        assert forall|j: int| 0 <= j < k implies t[j + 1].0 * bands::jump_from(t, k) < t[k + 1].0
            * #[trigger] bands::jump_from(t, j) by {
            assert(t[j + 1].0 == s[j + 1] && t[k + 1].0 == s[k + 1] && s[j] <= s[j + 1]);
        }
    }
    let c = choose|c: int| bands::is_jump(t, c);
    assert(c == k) by {
        if c < k {
            assert(t[c + 1].0 * bands::jump_from(t, k) < t[k + 1].0 * bands::jump_from(t, c));
            assert(t[k + 1].0 * bands::jump_from(t, c) <= t[c + 1].0 * bands::jump_from(t, k));
        } else if k < c {
            assert(t[k + 1].0 * bands::jump_from(t, c) < t[c + 1].0 * bands::jump_from(t, k));
            assert(t[c + 1].0 * bands::jump_from(t, k) <= t[k + 1].0 * bands::jump_from(t, c));
        }
    }
    assert(t[k].0 == s[k] && t[k + 1].0 == s[k + 1]);
}

/// Two lists of the same items are, mapped, two lists of the same items.
proof fn lemma_mapped_alike(a: Seq<int>, b: Seq<int>, f: spec_fn(int) -> sort::Key)
    requires
        a.to_multiset() == b.to_multiset(),
    ensures
        a.map_values(f).to_multiset() == b.map_values(f).to_multiset(),
    decreases a.len(),
{
    a.to_multiset_ensures();
    b.to_multiset_ensures();
    if a.len() > 0 {
        let x = a.last();
        assert(a.contains(x));
        assert(b.to_multiset().count(x) > 0);
        let i = b.index_of(x);
        let (rest, left) = (a.remove(a.len() - 1), b.remove(i));
        assert(rest.to_multiset() =~= a.to_multiset().remove(x));
        assert(left.to_multiset() =~= b.to_multiset().remove(x));
        lemma_mapped_alike(rest, left, f);
        let (fa, fb) = (a.map_values(f), b.map_values(f));
        fa.to_multiset_ensures();
        fb.to_multiset_ensures();
        assert(fa.remove(a.len() - 1) =~= rest.map_values(f));
        assert(fb.remove(i) =~= left.map_values(f));
        assert(fa[a.len() - 1] == f(x) && fb[i] == f(x));
        assert(fa.remove(a.len() - 1).to_multiset() =~= fa.to_multiset().remove(f(x)));
        assert(fb.remove(i).to_multiset() =~= fb.to_multiset().remove(f(x)));
        assert(fa.contains(f(x)));
        assert(fb.contains(f(x)));
        assert(fa.to_multiset() =~= fa.to_multiset().remove(f(x)).insert(f(x)));
        assert(fb.to_multiset() =~= fb.to_multiset().remove(f(x)).insert(f(x)));
    } else {
        assert(a =~= b);
    }
}

/// Merging keeps the first start and the last end; the last two bands end up
/// in one exactly when they are nearer than the cut, and what is merged
/// reaches from the start of the one to the end of the other.
pub proof fn near_bands_are_merged(bs: Seq<(usize, usize)>, twice: int, n: int)
    requires
        1 <= n <= bs.len(),
    ensures
        ({
            let m = bands::joined(bs, twice, n);
            let before = bands::joined(bs, twice, n - 1);
            let near = n > 1 && bs[n - 1].0 - bs[n - 2].1 > 0 && 2 * (bs[n - 1].0 - bs[n - 2].1)
                < twice;
            let apart = n > 1 && bs[n - 1].0 - bs[n - 2].1 > 0 && 2 * (bs[n - 1].0 - bs[n - 2].1)
                >= twice;
            &&& m.len() > 0
            &&& m[0].0 == bs[0].0
            &&& m.last().1 == bs[n - 1].1
            &&& near ==> m.len() == before.len() && m.last().0 == before.last().0 && m.drop_last()
                =~= before.drop_last()
            &&& apart ==> m =~= before.push(bs[n - 1])
            &&& n == 1 ==> m =~= seq![bs[0]]
        }),
    decreases n,
{
    if n > 1 {
        near_bands_are_merged(bs, twice, n - 1);
        let m = bands::joined(bs, twice, n);
        let before = bands::joined(bs, twice, n - 1);
        if 2 * bands::distance(bs, n - 2) < twice {
            assert(m == before.drop_last().push((before.last().0, bs[n - 1].1)));
            assert(m.drop_last() =~= before.drop_last());
            if before.len() > 1 {
                assert(m[0] == before[0]);
            }
        } else {
            assert(m == before.push(bs[n - 1]));
            assert(m[0] == before[0]);
        }
    } else {
        assert(bands::joined(bs, twice, 0) =~= Seq::empty());
    }
}

// ---------------------------------------------------------------------------
// Edges
// ---------------------------------------------------------------------------

/// The pixels of a block are those of the picture from the block's corner on,
/// row by row.
pub proof fn a_block_is_read_from_its_corner(
    luma: Seq<u8>,
    stride: int,
    b: Rect,
    origin: (i32, i32),
    x: int,
    y: int,
)
    requires
        b.x >= origin.0,
        b.y >= origin.1,
    ensures
        grid::window(luma, stride, b, origin).px(x, y) == luma[(b.y - origin.1 + y) * stride + (b.x
            - origin.0 + x)],
{
}

/// Where it gets neither lighter nor darker there is no edge, and none on the
/// border of a block. Where one side is lighter than the other by the same
/// throughout, the edge is four times that difference, squared, whichever way
/// it runs and whichever side is the lighter.
pub proof fn an_edge_is_a_difference_in_brightness(
    win: Window,
    w: int,
    h: int,
    x: int,
    y: int,
    p: int,
    q: int,
)
    ensures
        x <= 0 || y <= 0 || x >= w - 1 || y >= h - 1 ==> win.gradient(w, h, x, y) == 0,
        1 <= x < w - 1 && 1 <= y < h - 1 ==> {
            &&& (win.px(x - 1, y - 1) == p && win.px(x - 1, y) == p && win.px(x - 1, y + 1) == p
                && win.px(x + 1, y - 1) == q && win.px(x + 1, y) == q && win.px(x + 1, y + 1) == q
                && win.px(x, y - 1) == win.px(x, y + 1)) ==> win.gradient(w, h, x, y) == (4 * (q
                - p)) * (4 * (q - p))
            &&& (win.px(x - 1, y - 1) == p && win.px(x, y - 1) == p && win.px(x + 1, y - 1) == p
                && win.px(x - 1, y + 1) == q && win.px(x, y + 1) == q && win.px(x + 1, y + 1) == q
                && win.px(x - 1, y) == win.px(x + 1, y)) ==> win.gradient(w, h, x, y) == (4 * (q
                - p)) * (4 * (q - p))
        },
{
    let (a, b) = (win.gx(x, y), win.gy(x, y));
    if 1 <= x < w - 1 && 1 <= y < h - 1 {
        if win.px(x - 1, y - 1) == p && win.px(x - 1, y) == p && win.px(x - 1, y + 1) == p && win.px(
            x + 1,
            y - 1,
        ) == q && win.px(x + 1, y) == q && win.px(x + 1, y + 1) == q && win.px(x, y - 1) == win.px(
            x,
            y + 1,
        ) {
            assert(a == 4 * (q - p) && b == 0);
            assert(a * a + b * b == (4 * (q - p)) * (4 * (q - p)));
        }
        if win.px(x - 1, y - 1) == p && win.px(x, y - 1) == p && win.px(x + 1, y - 1) == p && win.px(
            x - 1,
            y + 1,
        ) == q && win.px(x, y + 1) == q && win.px(x + 1, y + 1) == q && win.px(x - 1, y) == win.px(
            x + 1,
            y,
        ) {
            assert(b == 4 * (q - p) && a == 0);
            assert(a * a + b * b == (4 * (q - p)) * (4 * (q - p)));
        }
    }
}

/// An edge is the Sobel sums of its neighbours: each pixel beside counts twice
/// and each at a corner once, right against left and below against above.
pub proof fn an_edge_is_the_sum_of_its_neighbours(win: Window, w: int, h: int, x: int, y: int)
    requires
        1 <= x < w - 1,
        1 <= y < h - 1,
    ensures
        ({
            let (nw, n, ne) = (win.px(x - 1, y - 1), win.px(x, y - 1), win.px(x + 1, y - 1));
            let (ww, ee) = (win.px(x - 1, y), win.px(x + 1, y));
            let (sw, s, se) = (win.px(x - 1, y + 1), win.px(x, y + 1), win.px(x + 1, y + 1));
            let gx = ne - nw + 2 * (ee - ww) + se - sw;
            let gy = sw - nw + 2 * (s - n) + se - ne;
            win.gradient(w, h, x, y) == gx * gx + gy * gy
        }),
{
}

// ---------------------------------------------------------------------------
// Items
// ---------------------------------------------------------------------------

/// A row of the profile counts the edges of that row of the block, and a
/// column those of that column.
pub proof fn a_profile_counts_edges(edge: Seq<Vec<bool>>, w: int, h: int, x: int, y: int)
    requires
        0 <= x < w <= 0x7fff_ffff,
        0 <= y < h <= 0x7fff_ffff,
    ensures
        grid::row_profile(edge, w, h).len() == h,
        grid::column_profile(edge, w, h).len() == w,
        ({
            let row = Set::new(|i: int| 0 <= i < w && edge[y]@[i]);
            row.finite() && grid::row_profile(edge, w, h)[y] == row.len()
        }),
        ({
            let column = Set::new(|j: int| 0 <= j < h && edge[j]@[x]);
            column.finite() && grid::column_profile(edge, w, h)[x] == column.len()
        }),
{
    let f = |i: int| grid::lit(edge, i, y);
    let g = |j: int| grid::lit(edge, x, j);
    num::lemma_count_is_size(0, w, f);
    num::lemma_count_is_size(0, h, g);
    num::lemma_count_bounds(0, w, f);
    num::lemma_count_bounds(0, h, g);
    assert(Set::new(|i: int| 0 <= i < w && edge[y]@[i]) =~= Set::new(
        |p: int| 0 <= p < w && f(p),
    ));
    assert(Set::new(|j: int| 0 <= j < h && edge[j]@[x]) =~= Set::new(
        |p: int| 0 <= p < h && g(p),
    ));
}

/// The edges of a cell.
spec fn in_cell(edge: Seq<Vec<bool>>, r0: int, r1: int, c: (usize, usize)) -> Set<(int, int)> {
    Set::new(|p: (int, int)| c.0 <= p.0 < c.1 && r0 <= p.1 < r1 && edge[p.1]@[p.0])
}

proof fn lemma_in_cell(edge: Seq<Vec<bool>>, r0: int, r1: int, c: (usize, usize))
    requires
        r0 <= r1,
        c.0 <= c.1,
    ensures
        in_cell(edge, r0, r1, c).finite(),
        in_cell(edge, r0, r1, c).len() == grid::cell_count(edge, r0, r1, c),
    decreases r1 - r0,
{
    if r0 == r1 {
        assert(in_cell(edge, r0, r1, c) =~= Set::empty());
    } else {
        lemma_in_cell(edge, r0, r1 - 1, c);
        let y = r1 - 1;
        let f = |x: int| grid::lit(edge, x, y);
        num::lemma_count_is_size(c.0 as int, c.1 as int, f);
        let row = Set::new(|p: int| c.0 as int <= p < c.1 as int && f(p));
        let at = |p: int| (p, y);
        let target = in_cell(edge, y, r1, c);
        assert(row.map(at) =~= target) by {
            assert forall|p: (int, int)| target.contains(p) implies row.map(at).contains(p) by {
                assert(f(p.0));
                assert(row.contains(p.0) && at(p.0) == p);
            }
            assert forall|p: (int, int)| row.map(at).contains(p) implies target.contains(p) by {
                let q = choose|q: int| row.contains(q) && at(q) == p;
                assert(f(q));
            }
        }
        assert(vstd::relations::injective_on(at, row));
        vstd::set_lib::lemma_map_size(row, target, at);
        assert(in_cell(edge, r0, r1, c) =~= in_cell(edge, r0, r1 - 1, c) + target);
        assert(in_cell(edge, r0, r1 - 1, c).disjoint(target));
        vstd::set_lib::lemma_set_disjoint_lens(in_cell(edge, r0, r1 - 1, c), target);
    }
}

/// A cell holds an item when it has an edge, and edges enough for its size.
pub proof fn an_item_has_edges_enough(
    edge: Seq<Vec<bool>>,
    p: Params,
    r: (usize, usize),
    c: (usize, usize),
)
    requires
        r.0 <= r.1,
        c.0 <= c.1,
    ensures
        ({
            let edges = Set::new(
                |q: (int, int)| c.0 <= q.0 < c.1 && r.0 <= q.1 < r.1 && edge[q.1]@[q.0],
            );
            &&& edges.finite()
            &&& grid::is_item(edge, p, r, c) <==> edges.len() > 0 && edges.len() * p.min_fill.whole
                >= p.min_fill.part * ((r.1 - r.0) * (c.1 - c.0))
        }),
{
    lemma_in_cell(edge, r.0 as int, r.1 as int, c);
    assert(Set::new(|q: (int, int)| c.0 <= q.0 < c.1 && r.0 <= q.1 < r.1 && edge[q.1]@[q.0])
        =~= in_cell(edge, r.0 as int, r.1 as int, c));
}

/// The item of a cell is tight around the cell's edges: it starts at the
/// first column and row that has one and ends with the last.
pub proof fn an_item_is_tight_around_its_edges(
    edge: Seq<Vec<bool>>,
    b: Rect,
    r: (usize, usize),
    c: (usize, usize),
    x0: int,
    y0: int,
    x1: int,
    y1: int,
    left: int,
    right: int,
    top: int,
    bottom: int,
)
    requires
        forall|x: int, y: int|
            r.0 <= y < r.1 && c.0 <= x < c.1 && #[trigger] edge[y]@[x] ==> x0 <= x <= x1 && y0 <= y
                <= y1,
        c.0 <= x0 <= x1 < c.1,
        r.0 <= y0 <= y1 < r.1,
        r.0 <= left < r.1 && edge[left]@[x0],
        r.0 <= right < r.1 && edge[right]@[x1],
        c.0 <= top < c.1 && edge[y0]@[top],
        c.0 <= bottom < c.1 && edge[y1]@[bottom],
        b.x + x1 <= 0x7fff_ffff,
        b.y + y1 <= 0x7fff_ffff,
        x1 - x0 < 0x7fff_ffff,
        y1 - y0 < 0x7fff_ffff,
    ensures
        ({
            let item = grid::item(edge, b, r, c);
            &&& item.x == b.x + x0
            &&& item.y == b.y + y0
            &&& item.x + item.w == b.x + x1 + 1
            &&& item.y + item.h == b.y + y1 + 1
        }),
{
    let e = Extent { x0, y0, x1, y1 };
    assert forall|x: int, y: int| #[trigger] grid::lit_in(edge, r, c, x, y) implies x0 <= x <= x1
        && y0 <= y <= y1 by {
        assert(edge[y]@[x]);
    }
    assert(grid::lit_in(edge, r, c, e.x0, left));
    assert(grid::lit_in(edge, r, c, e.x1, right));
    assert(grid::lit_in(edge, r, c, top, e.y0));
    assert(grid::lit_in(edge, r, c, bottom, e.y1));
    assert(grid::is_tight(edge, r, c, e));
    let d = choose|d: Extent| grid::is_tight(edge, r, c, d);
    let ya = choose|y: int| #[trigger] grid::lit_in(edge, r, c, d.x0, y);
    let yb = choose|y: int| #[trigger] grid::lit_in(edge, r, c, d.x1, y);
    let xa = choose|x: int| #[trigger] grid::lit_in(edge, r, c, x, d.y0);
    let xb = choose|x: int| #[trigger] grid::lit_in(edge, r, c, x, d.y1);
    assert(d == e);
}

/// The items of a row of cells are those of its cells that hold one, from left
/// to right.
pub proof fn a_row_lists_its_items_from_the_left(
    edge: Seq<Vec<bool>>,
    b: Rect,
    p: Params,
    r: (usize, usize),
    cols: Seq<(usize, usize)>,
    n: int,
    i: int,
)
    requires
        0 <= i < n <= cols.len(),
    ensures
        grid::row_items(edge, b, p, r, cols, 0).len() == 0,
        ({
            let (here, next) = (
                grid::row_items(edge, b, p, r, cols, i),
                grid::row_items(edge, b, p, r, cols, i + 1),
            );
            &&& grid::is_item(edge, p, r, cols[i]) ==> next =~= here.push(
                grid::item(edge, b, r, cols[i]),
            )
            &&& !grid::is_item(edge, p, r, cols[i]) ==> next =~= here
            &&& next.is_prefix_of(grid::row_items(edge, b, p, r, cols, n))
        }),
    decreases n - i,
{
    let next = grid::row_items(edge, b, p, r, cols, i + 1);
    if i + 1 < n {
        a_row_lists_its_items_from_the_left(edge, b, p, r, cols, n, i + 1);
        let after = grid::row_items(edge, b, p, r, cols, i + 2);
        let all = grid::row_items(edge, b, p, r, cols, n);
        assert(next =~= after.subrange(0, next.len() as int));
        assert(after =~= all.subrange(0, after.len() as int));
        assert(next =~= all.subrange(0, next.len() as int));
    } else {
        assert(next =~= next.subrange(0, next.len() as int));
    }
}

/// A block lists the items of its rows from the top down, and one too small to
/// have an inside lists none.
pub proof fn a_block_lists_its_rows_from_the_top(
    edge: Seq<Vec<bool>>,
    b: Rect,
    p: Params,
    rows: Seq<(usize, usize)>,
    cols: Seq<(usize, usize)>,
    n: int,
    out: Seq<Rect>,
)
    requires
        0 <= n < rows.len(),
    ensures
        grid::items(edge, b, p, rows, cols, 0).len() == 0,
        grid::items(edge, b, p, rows, cols, n + 1) =~= grid::items(edge, b, p, rows, cols, n)
            + grid::row_items(edge, b, p, rows[n], cols, cols.len() as int),
        grid::is_grid(edge, b, p, out) && (b.w < 3 || b.h < 3) ==> out.len() == 0,
{
}

/// A grid is the items of the cells where the merged bands of the rows cross
/// those of the columns.
pub proof fn a_grid_is_where_bands_cross(
    edge: Seq<Vec<bool>>,
    b: Rect,
    p: Params,
    rows: Seq<(usize, usize)>,
    cols: Seq<(usize, usize)>,
    out: Seq<Rect>,
)
    requires
        b.w >= 3,
        b.h >= 3,
        grid::is_grid(edge, b, p, out),
        bands::are_bands(grid::row_profile(edge, b.w as int, b.h as int), p.min_gap, p.min_run, rows),
        bands::are_bands(
            grid::column_profile(edge, b.w as int, b.h as int),
            p.min_gap,
            p.min_run,
            cols,
        ),
    ensures
        out == grid::items(
            edge,
            b,
            p,
            bands::merged(rows),
            bands::merged(cols),
            bands::merged(rows).len() as int,
        ),
{
    let (w, h) = (b.w as int, b.h as int);
    let (rp, cp) = (grid::row_profile(edge, w, h), grid::column_profile(edge, w, h));
    let (r, c) = choose|r: Seq<(usize, usize)>, c: Seq<(usize, usize)>|
        #![trigger bands::merged(r), bands::merged(c)]
        bands::are_bands(rp, p.min_gap, p.min_run, r) && bands::are_bands(
            cp,
            p.min_gap,
            p.min_run,
            c,
        ) && out == grid::items(
            edge,
            b,
            p,
            bands::merged(r),
            bands::merged(c),
            bands::merged(r).len() as int,
        );
    bands::a_profile_is_cut_in_one_way(rp, p.min_gap, p.min_run, r, rows);
    bands::a_profile_is_cut_in_one_way(cp, p.min_gap, p.min_run, c, cols);
}

/// At a denser scale a distance grows with it, to the nearest pixel; at the
/// usual scale or a coarser one it stays.
pub proof fn a_distance_grows_with_the_scale(n: int, k: Ratio)
    requires
        0 <= n <= 0xff,
        k.whole > 0,
    ensures
        k.part <= k.whole ==> grid::scaled_up(n, k) == n,
        k.part > k.whole && grid::scaled_up(n, k) < usize::MAX ==> (2 * grid::scaled_up(n, k) - 1)
            * k.whole <= 2 * (n * k.part) < (2 * grid::scaled_up(n, k) + 1) * k.whole,
{
    if k.part > k.whole {
        let (part, whole) = (k.part as int, k.whole as int);
        let m = n * part;
        assert(m >= 0) by (nonlinear_arith)
            requires
                m == n * part,
                n >= 0,
                part >= 0,
        ;
        let r = num::rounded(m, whole);
        assert((2 * r - 1) * whole <= 2 * m < (2 * r + 1) * whole) by (nonlinear_arith)
            requires
                m >= 0,
                whole > 0,
                r == (2 * m + whole) / (2 * whole),
        ;
    }
}

// ---------------------------------------------------------------------------
// Fingerprints
// ---------------------------------------------------------------------------

/// A fingerprint has 64 rows of 64 samples, and each is the pixel in the
/// middle of its part of the rectangle.
pub proof fn a_sample_is_the_middle_of_its_part(
    luma: Seq<u8>,
    stride: int,
    r: Rect,
    origin: (i32, i32),
    cx: int,
    cy: int,
)
    requires
        0 <= cx < 64,
        0 <= cy < 64,
        r.w >= 1,
        r.h >= 1,
        origin.0 <= r.x,
        origin.1 <= r.y,
        stride > 0,
        r.x - origin.0 + r.w <= stride,
        (r.y - origin.1 + r.h) * stride <= luma.len(),
    ensures
        fingerprint::prints(luma, stride, r, origin).len() == 4096,
        fingerprint::prints(luma, stride, r, origin)[64 * cy + cx] == luma[(r.y - origin.1 + ((2
            * cy + 1) * r.h) / 128) * stride + (r.x - origin.0 + ((2 * cx + 1) * r.w) / 128)],
{
    let (w, h) = (r.w as int, r.h as int);
    let (dx, dy) = (((2 * cx + 1) * w) / 128, ((2 * cy + 1) * h) / 128);
    assert(0 <= dx < w) by (nonlinear_arith)
        requires
            0 <= cx < 64,
            w >= 1,
            dx == ((2 * cx + 1) * w) / 128,
    ;
    assert(0 <= dy < h) by (nonlinear_arith)
        requires
            0 <= cy < 64,
            h >= 1,
            dy == ((2 * cy + 1) * h) / 128,
    ;
    let rows = luma.len() as int / stride;
    let bottom = r.y - origin.1 + h;
    assert(bottom <= rows) by (nonlinear_arith)
        requires
            bottom * stride <= luma.len(),
            stride > 0,
            rows == luma.len() as int / stride,
    ;
    let (sx, sy) = (r.x - origin.0 + dx, r.y - origin.1 + dy);
    assert(sy * stride + sx < luma.len()) by (nonlinear_arith)
        requires
            0 <= sy < bottom,
            0 <= sx < stride,
            bottom * stride <= luma.len(),
    ;
    let i = 64 * cy + cx;
    assert(i % 64 == cx && i / 64 == cy);
}

/// What hangs off the picture is sampled at its edge, and what has no pixel is
/// dark.
pub proof fn a_sample_off_the_picture_is_its_edge(
    luma: Seq<u8>,
    stride: int,
    r: Rect,
    origin: (i32, i32),
    c: int,
)
    requires
        0 <= c < 64,
        stride > 0,
    ensures
        r.w >= 1 && r.x - origin.0 + r.w <= 0 ==> fingerprint::sample_at(
            r.x - origin.0,
            r.w as int,
            c,
            stride,
        ) == 0,
        r.x - origin.0 >= stride ==> fingerprint::sample_at(r.x - origin.0, r.w as int, c, stride)
            == stride - 1,
        luma.len() == 0 ==> fingerprint::sample(luma, stride, r, origin, c, c) == 0,
{
    let len = num::larger(r.w as int, 1);
    let d = (2 * c + 1) * len / 128;
    assert(0 <= d < len) by (nonlinear_arith)
        requires
            0 <= c < 64,
            len >= 1,
            d == (2 * c + 1) * len / 128,
    ;
    let rows = fingerprint::picture_rows(luma, stride);
    if luma.len() == 0 {
        assert(0int / stride == 0) by (nonlinear_arith)
            requires
                stride > 0,
        ;
        let sx = fingerprint::sample_at(r.x - origin.0, r.w as int, c, stride);
        let sy = fingerprint::sample_at(r.y - origin.1, r.h as int, c, rows);
        assert(sy == 0);
        assert(sy * stride == 0);
    }
}

/// Each sample adds to the distance of two fingerprints as much as the two
/// differ in it.
pub proof fn each_sample_adds_its_difference(a: Seq<u8>, b: Seq<u8>, n: int)
    requires
        0 <= n,
    ensures
        fingerprint::drift(a, b, 0) == 0,
        a[n] >= b[n] ==> fingerprint::drift(a, b, n + 1) == fingerprint::drift(a, b, n) + (a[n]
            - b[n]),
        b[n] >= a[n] ==> fingerprint::drift(a, b, n + 1) == fingerprint::drift(a, b, n) + (b[n]
            - a[n]),
{
}

// ---------------------------------------------------------------------------
// Seen again
// ---------------------------------------------------------------------------

/// Two rectangles share what is as wide as the one that starts last is left of
/// the one that ends first, and as high; and nothing where they do not meet.
pub proof fn two_rectangles_share_what_both_cover(a: Rect, b: Rect)
    requires
        a.x + a.w <= 0x7fff_ffff && a.y + a.h <= 0x7fff_ffff,
        b.x + b.w <= 0x7fff_ffff && b.y + b.h <= 0x7fff_ffff,
        a.w >= 0 && a.h >= 0 && b.w >= 0 && b.h >= 0,
    ensures
        fingerprint::intersection(a, b) == fingerprint::intersection(b, a),
        a.x + a.w <= b.x || a.y + a.h <= b.y ==> fingerprint::intersection(a, b) == 0,
        b.x <= a.x && a.x + a.w <= b.x + b.w && b.y <= a.y && a.y + a.h <= b.y + b.h
            ==> fingerprint::intersection(a, b) == a.w * a.h,
        a.x <= b.x <= a.x + a.w <= b.x + b.w && a.y <= b.y <= a.y + a.h <= b.y + b.h
            ==> fingerprint::intersection(a, b) == (a.x + a.w - b.x) * (a.y + a.h - b.y),
        a.x <= b.x <= a.x + a.w <= b.x + b.w && b.y <= a.y <= b.y + b.h <= a.y + a.h
            ==> fingerprint::intersection(a, b) == (a.x + a.w - b.x) * (b.y + b.h - a.y),
        a.x <= b.x && b.x + b.w <= a.x + a.w && a.y <= b.y <= a.y + a.h <= b.y + b.h
            ==> fingerprint::intersection(a, b) == b.w * (a.y + a.h - b.y),
        a.x <= b.x <= a.x + a.w <= b.x + b.w && a.y <= b.y && b.y + b.h <= a.y + a.h
            ==> fingerprint::intersection(a, b) == (a.x + a.w - b.x) * b.h,
        a.x <= b.x && b.x + b.w <= a.x + a.w && b.y <= a.y && a.y + a.h <= b.y + b.h
            ==> fingerprint::intersection(a, b) == b.w * a.h,
        fingerprint::union_size(a, b) == a.w * a.h + b.w * b.h - fingerprint::intersection(a, b),
{
    let w = fingerprint::shared(a.x as int, a.right(), b.x as int, b.right());
    let h = fingerprint::shared(a.y as int, a.bottom(), b.y as int, b.bottom());
    if w == 0 || h == 0 {
        assert(w * h == 0) by (nonlinear_arith)
            requires
                w == 0 || h == 0,
        ;
    }
}

/// A rectangle is where it was when the two share something and half of what
/// they have between them.
pub proof fn a_rectangle_is_where_it_was(found: Rect, claimed: Rect)
    ensures
        fingerprint::agrees(found, claimed) <==> fingerprint::intersection(found, claimed) != 0 && 2
            * fingerprint::intersection(found, claimed) >= found.w * found.h + claimed.w * claimed.h
            - fingerprint::intersection(found, claimed),
{
}

/// A target that is not where it was has moved; one that is, but whose samples
/// differ by more than one on the mean, has changed; any other is still there.
pub proof fn a_target_is_known_by_place_and_looks(claim: Claim, found: Rect, looks: Seq<u8>)
    ensures
        ({
            let drift = fingerprint::drift(looks, claim.print@, 4096);
            let v = fingerprint::judged(claim, found, looks);
            &&& v is Moved <==> !fingerprint::agrees(found, claim.rect)
            &&& v is Changed <==> fingerprint::agrees(found, claim.rect) && drift > 4096
            &&& v is Valid <==> fingerprint::agrees(found, claim.rect) && drift <= 4096
        }),
{
}

/// The rectangle that counts is the first that holds the click.
pub proof fn the_first_under_the_click_counts(fresh: Seq<Rect>, p: (i32, i32), i: int)
    ensures
        fingerprint::first_under(fresh, p, i) <==> {
            &&& 0 <= i < fresh.len()
            &&& fresh[i].covers(p.0 as int, p.1 as int)
            &&& forall|j: int|
                0 <= j < i ==> !(#[trigger] fresh[j]).covers(p.0 as int, p.1 as int)
        },
{
}

} // verus!
