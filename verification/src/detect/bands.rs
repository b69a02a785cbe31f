//! Runs of "there is something here" in a one-dimensional projection.
use vstd::prelude::*;

use crate::num;
use crate::sort;

verus! {

/// Nothing from `i` up to `j`.
pub open spec fn blank(profile: Seq<u32>, i: int, j: int) -> bool {
    forall|t: int| i <= t < j ==> #[trigger] profile[t] == 0
}

/// A gap `g` wide starts at `t`.
pub open spec fn gap_at(profile: Seq<u32>, g: int, t: int) -> bool {
    0 <= t && t + g <= profile.len() && blank(profile, t, t + g)
}

/// `i .. j` is a run: it starts at something, at the first thing there is or
/// behind a gap; it ends before a gap or with the profile; and there is no
/// gap inside it. A gap is at least `g` wide.
pub open spec fn is_run(profile: Seq<u32>, g: int, i: int, j: int) -> bool {
    &&& 0 <= i < j <= profile.len()
    &&& profile[i] > 0
    &&& blank(profile, 0, i) || gap_at(profile, g, i - g)
    &&& j == profile.len() || (profile[j - 1] > 0 && gap_at(profile, g, j))
    &&& forall|t: int| i <= t && t + g <= j ==> !#[trigger] gap_at(profile, g, t)
}

/// The width of a gap: at least one pixel.
pub open spec fn gap_width(min_gap: usize) -> int {
    num::larger(min_gap as int, 1)
}

/// A run long enough to be kept.
pub open spec fn is_kept(
    profile: Seq<u32>,
    min_gap: usize,
    min_run: usize,
    band: (usize, usize),
) -> bool {
    is_run(profile, gap_width(min_gap), band.0 as int, band.1 as int) && band.1 - band.0 >= min_run
}

/// `out` lists the runs worth keeping, from left to right, and no others.
pub open spec fn are_bands(
    profile: Seq<u32>,
    min_gap: usize,
    min_run: usize,
    out: Seq<(usize, usize)>,
) -> bool {
    &&& forall|k: int|
        0 <= k < out.len() ==> is_kept(profile, min_gap, min_run, #[trigger] out[k])
    &&& forall|j: int, k: int|
        0 <= j < k < out.len() ==> (#[trigger] out[j]).1 <= (#[trigger] out[k]).0
    &&& forall|b: (usize, usize)| #[trigger]
        is_kept(profile, min_gap, min_run, b) ==> out.contains(b)
}

/// A run starts where a run starts: two that start inside the same stretch
/// are one.
proof fn lemma_one_run(profile: Seq<u32>, g: int, i: int, j: int, a: int, b: int)
    requires
        g >= 1,
        is_run(profile, g, i, j),
        is_run(profile, g, a, b),
        i <= a < j,
    ensures
        a == i,
        b == j,
{
    if a > i {
        assert(profile[i] > 0);
        if blank(profile, 0, a) {
            assert(profile[i] == 0);
        } else {
            assert(gap_at(profile, g, a - g));
            if a - g <= i {
                assert(profile[i] == 0);
            } else {
                assert(!gap_at(profile, g, a - g));
            }
        }
    }
    if b < j {
        assert(gap_at(profile, g, b));
        if b + g > j {
            assert(profile[j - 1] == 0);
        }
    }
    if b > j {
        assert(gap_at(profile, g, j));
        if j + g > b {
            assert(profile[b - 1] == 0);
        }
    }
}

/// Runs of "there is something here" in a one-dimensional projection.
///
/// A run ends only at a gap of at least `min_gap`, so the space *inside* a
/// glyph does not split a word and the space inside an icon does not split
/// the icon. Runs shorter than `min_run` are dropped as noise.
pub fn bands(profile: &[u32], min_gap: usize, min_run: usize) -> (out: Vec<(usize, usize)>)
    ensures
        are_bands(profile@, min_gap, min_run, out@),
{
    let n: usize = profile.len();
    let ghost g = gap_width(min_gap);
    let mut out: Vec<(usize, usize)> = Vec::new();
    let mut i: usize = 0;
    // Where the last run ended.
    let ghost mut end: int = 0;
    let ghost mut any: bool = false;
    while i < n
        invariant
            i <= n == profile@.len(),
            g == gap_width(min_gap),
            0 <= end <= i,
            blank(profile@, end, i as int),
            !any ==> end == 0,
            any ==> end == n || gap_at(profile@, g, end),
            forall|k: int|
                0 <= k < out@.len() ==> is_kept(profile@, min_gap, min_run, #[trigger] out@[k])
                    && out@[k].1 <= end,
            forall|j: int, k: int|
                0 <= j < k < out@.len() ==> (#[trigger] out@[j]).1 <= (#[trigger] out@[k]).0,
            forall|b: (usize, usize)| #[trigger]
                is_kept(profile@, min_gap, min_run, b) && b.0 < end ==> out@.contains(b),
        decreases n - i,
    {
        if profile[i] == 0 {
            i = i + 1;
            continue ;
        }
        assert(blank(profile@, 0, i as int) || gap_at(profile@, g, i - g)) by {
            if any {
                if end + g > i {
                    assert(profile@[i as int] == 0);
                }
            }
        }
        let j: usize = run_end(profile, min_gap, i);
        let ghost before = out@;
        if j - i >= min_run {
            out.push((i, j));
        }
        proof {
            assert(is_run(profile@, g, i as int, j as int));
            assert forall|b: (usize, usize)| #[trigger]
                is_kept(profile@, min_gap, min_run, b) && b.0 < j implies out@.contains(b) by {
                if b.0 < end {
                    assert(before.contains(b));
                    let k = before.index_of(b);
                    assert(out@[k] == b);
                } else if b.0 < i {
                    assert(profile@[b.0 as int] == 0);
                } else {
                    lemma_one_run(
                        profile@,
                        g,
                        i as int,
                        j as int,
                        b.0 as int,
                        b.1 as int,
                    );
                    assert(out@[out@.len() - 1] == b);
                }
            }
            end = j as int;
            any = true;
        }
        i = j;
    }
    proof {
        assert forall|b: (usize, usize)| #[trigger]
            is_kept(profile@, min_gap, min_run, b) implies out@.contains(b) by {
            if b.0 >= end {
                assert(profile@[b.0 as int] == 0);
            }
        }
    }
    out
}

/// There is one list of bands: a profile is cut in one way.
pub proof fn a_profile_is_cut_in_one_way(
    profile: Seq<u32>,
    min_gap: usize,
    min_run: usize,
    a: Seq<(usize, usize)>,
    b: Seq<(usize, usize)>,
)
    requires
        are_bands(profile, min_gap, min_run, a),
        are_bands(profile, min_gap, min_run, b),
    ensures
        a == b,
{
    lemma_same_bands(profile, min_gap, min_run, a, b, a.len() as int);
    lemma_same_bands(profile, min_gap, min_run, b, a, b.len() as int);
    assert(a =~= b);
}

/// Two lists of bands agree on their first `n`.
proof fn lemma_same_bands(
    profile: Seq<u32>,
    min_gap: usize,
    min_run: usize,
    a: Seq<(usize, usize)>,
    b: Seq<(usize, usize)>,
    n: int,
)
    requires
        are_bands(profile, min_gap, min_run, a),
        are_bands(profile, min_gap, min_run, b),
        0 <= n <= a.len(),
    ensures
        n <= b.len(),
        forall|i: int| 0 <= i < n ==> a[i] == b[i],
    decreases n,
{
    if n > 0 {
        let k = n - 1;
        lemma_same_bands(profile, min_gap, min_run, a, b, k);
        assert(is_kept(profile, min_gap, min_run, a[k]));
        let m = choose|m: int| 0 <= m < b.len() && b[m] == a[k];
        if m < k {
            assert(a[m] == b[m]);
        }
        assert(is_kept(profile, min_gap, min_run, b[k]));
        let l = choose|l: int| 0 <= l < a.len() && a[l] == b[k];
        if l < k {
            assert(b[l] == a[l]);
        }
    }
}

/// Where the run that starts at `i` ends.
fn run_end(profile: &[u32], min_gap: usize, i: usize) -> (j: usize)
    requires
        i < profile@.len(),
        profile@[i as int] > 0,
    ensures
        i < j <= profile@.len(),
        j == profile@.len() || (profile@[j - 1] > 0 && gap_at(
            profile@,
            gap_width(min_gap),
            j as int,
        )),
        forall|t: int|
            i <= t && t + gap_width(min_gap) <= j ==> !#[trigger] gap_at(
                profile@,
                gap_width(min_gap),
                t,
            ),
{
    let n: usize = profile.len();
    let ghost g = gap_width(min_gap);
    let mut j: usize = i;
    // Up to here the profile ends with something, or is the run's start.
    while j < n
        invariant
            i <= j <= n == profile@.len(),
            g == gap_width(min_gap),
            i < n,
            profile@[i as int] > 0,
            j == i || j == n || profile@[j - 1] > 0 || profile@[j as int] > 0,
            forall|t: int| i <= t && t + g <= j ==> !#[trigger] gap_at(profile@, g, t),
        ensures
            i < j <= n,
            j == n || (profile@[j - 1] > 0 && gap_at(profile@, g, j as int)),
            forall|t: int| i <= t && t + g <= j ==> !#[trigger] gap_at(profile@, g, t),
        decreases n - j,
    {
        if profile[j] > 0 {
            proof {
                assert forall|t: int| i <= t && t + g <= j + 1 implies !#[trigger] gap_at(
                    profile@,
                    g,
                    t,
                ) by {
                    if gap_at(profile@, g, t) && t + g == j + 1 {
                        assert(profile@[j as int] == 0);
                    }
                }
            }
            j = j + 1;
            continue ;
        }
        let mut k: usize = j;
        while k < n && profile[k] == 0
            invariant
                j <= k <= n == profile@.len(),
                blank(profile@, j as int, k as int),
            decreases n - k,
        {
            k = k + 1;
        }
        assert(k > j);
        if k - j >= min_gap {
            assert(gap_at(profile@, g, j as int));
            break ;
        }
        proof {
            assert(profile@[j - 1] > 0);
            assert forall|t: int| i <= t && t + g <= k implies !#[trigger] gap_at(
                profile@,
                g,
                t,
            ) by {
                if gap_at(profile@, g, t) && t + g > j {
                    assert(t < j);
                    assert(profile@[j - 1] == 0);
                }
            }
        }
        j = k;
    }
    j
}

// ---------------------------------------------------------------------------
// Merging
// ---------------------------------------------------------------------------

/// How far band `k` is from the one after it; nothing if they touch.
pub open spec fn distance(bs: Seq<(usize, usize)>, k: int) -> int {
    num::larger(bs[k + 1].0 - bs[k].1, 0)
}

/// The distances between neighbours, smallest first.
pub open spec fn distances(bs: Seq<(usize, usize)>) -> Seq<sort::Key> {
    Seq::new(
        (bs.len() - 1) as nat,
        |k: int| (distance(bs, k) as i128, 0i128, 0i128, 0usize),
    ).sort_by(|a: sort::Key, b: sort::Key| sort::key_le(a, b))
}

/// What a jump at `k` is measured against: the smaller distance, at least a
/// pixel.
pub open spec fn jump_from(s: Seq<sort::Key>, k: int) -> int {
    num::larger(s[k].0 as int, 1)
}

/// The largest relative jump in a sorted list is from `k` to the next; of
/// several that are as large, the first.
pub open spec fn is_jump(s: Seq<sort::Key>, k: int) -> bool {
    &&& 0 <= k < s.len() - 1
    &&& forall|j: int|
        0 <= j < s.len() - 1 ==> s[j + 1].0 * jump_from(s, k) <= s[k + 1].0 * #[trigger] jump_from(
            s,
            j,
        )
    &&& forall|j: int|
        0 <= j < k ==> s[j + 1].0 * jump_from(s, k) < s[k + 1].0 * #[trigger] jump_from(s, j)
}

/// Twice the distance under which neighbours are merged, when the distances
/// are two populations: when the largest relative jump between them is 1.4 or
/// more.
pub open spec fn cut(bs: Seq<(usize, usize)>) -> Option<int> {
    let s = distances(bs);
    let k = choose|k: int| is_jump(s, k);
    if bs.len() < 3 || 5 * s[k + 1].0 < 7 * jump_from(s, k) {
        None
    } else {
        Some(s[k].0 + s[k + 1].0)
    }
}

/// The first `n` bands, neighbours closer than half of `twice` made one.
pub open spec fn joined(bs: Seq<(usize, usize)>, twice: int, n: int) -> Seq<(usize, usize)>
    decreases n,
{
    if n <= 0 {
        Seq::empty()
    } else {
        let before = joined(bs, twice, n - 1);
        if n > 1 && 2 * distance(bs, n - 2) < twice {
            before.drop_last().push((before.last().0, bs[n - 1].1))
        } else {
            before.push(bs[n - 1])
        }
    }
}

/// The bands with neighbours of one item merged.
pub open spec fn merged(bs: Seq<(usize, usize)>) -> Seq<(usize, usize)> {
    match cut(bs) {
        Some(twice) => joined(bs, twice, bs.len() as int),
        None => bs,
    }
}

/// Merge bands separated by a gap belonging to the *small* population.
///
/// An icon and the filename under it are two bands with a small gap between
/// them; two rows of files are separated by a large one. The split between
/// the two is a property of the theme, the icon size and the font — so it is
/// **found, not written down**: sort the gaps, take the largest relative
/// jump, and cut there.
///
/// A small jump means one population and nothing to merge, which is the
/// ordinary case for a region that is not a grid at all.
pub fn merge_bands(bs: &[(usize, usize)]) -> (out: Vec<(usize, usize)>)
    ensures
        out@ == merged(bs@),
{
    let n: usize = bs.len();
    if n < 3 {
        return copied(bs);
    }
    let mut loose: Vec<sort::Key> = Vec::new();
    let mut i: usize = 0;
    while i < n - 1
        invariant
            3 <= n == bs@.len(),
            i <= n - 1,
            loose@.len() == i,
            forall|k: int|
                0 <= k < i ==> #[trigger] loose@[k] == (
                    distance(bs@, k) as i128,
                    0i128,
                    0i128,
                    0usize,
                ),
        decreases n - i,
    {
        let d: usize = bs[i + 1].0.saturating_sub(bs[i].1);
        loose.push((d as i128, 0, 0, 0));
        i = i + 1;
    }
    let ghost unsorted = loose@;
    let s: Vec<sort::Key> = sort::sort(loose);
    proof {
        assert(unsorted =~= Seq::new(
            (bs@.len() - 1) as nat,
            |k: int| (distance(bs@, k) as i128, 0i128, 0i128, 0usize),
        ));
        sort::lemma_sorts(unsorted, s@);
        assert(s@ == distances(bs@));
        assert forall|k: int| 0 <= k < s@.len() implies 0 <= (#[trigger] s@[k]).0
            <= usize::MAX by {
            let j = sort::lemma_also_in(s@, unsorted, k);
            assert(unsorted[j].0 >= 0);
        }
    }
    let best: usize = largest_jump(&s);
    proof {
        lemma_one_jump(s@, best as int, choose|k: int| is_jump(s@, k));
    }
    let big: i128 = s[best + 1].0;
    let small: i128 = s[best].0;
    let base: i128 = if small < 1 {
        1
    } else {
        small
    };
    if 5 * big < 7 * base {
        return copied(bs);
    }
    let twice: i128 = small + big;
    let mut out: Vec<(usize, usize)> = Vec::new();
    let mut m: usize = 0;
    while m < n
        invariant
            m <= n == bs@.len(),
            out@ == joined(bs@, twice as int, m as int),
            m > 0 ==> out@.len() > 0,
        decreases n - m,
    {
        let (a, b) = bs[m];
        let near: bool = if m > 0 {
            2 * (a.saturating_sub(bs[m - 1].1) as i128) < twice
        } else {
            false
        };
        let ghost before = out@;
        if near {
            let at: usize = out.len() - 1;
            let start: usize = out[at].0;
            out.pop();
            out.push((start, b));
            assert(out@ =~= before.drop_last().push((before.last().0, b)));
        } else {
            out.push((a, b));
        }
        m = m + 1;
    }
    out
}

fn copied(bs: &[(usize, usize)]) -> (out: Vec<(usize, usize)>)
    ensures
        out@ == bs@,
{
    let mut out: Vec<(usize, usize)> = Vec::new();
    let mut i: usize = 0;
    while i < bs.len()
        invariant
            i <= bs@.len(),
            out@ == bs@.take(i as int),
        decreases bs.len() - i,
    {
        out.push(bs[i]);
        i = i + 1;
        assert(out@ =~= bs@.take(i as int));
    }
    assert(bs@.take(i as int) =~= bs@);
    out
}

/// Where the largest relative jump is.
fn largest_jump(s: &Vec<sort::Key>) -> (best: usize)
    requires
        s@.len() >= 2,
        forall|k: int| 0 <= k < s@.len() ==> 0 <= (#[trigger] s@[k]).0 <= usize::MAX,
    ensures
        is_jump(s@, best as int),
{
    let n: usize = s.len();
    let mut best: usize = 0;
    let mut k: usize = 1;
    while k < n - 1
        invariant
            1 <= k <= n - 1,
            n == s@.len(),
            best < k,
            forall|k: int| 0 <= k < s@.len() ==> 0 <= (#[trigger] s@[k]).0 <= usize::MAX,
            forall|j: int|
                0 <= j < k ==> s@[j + 1].0 * jump_from(s@, best as int) <= s@[best + 1].0
                    * #[trigger] jump_from(s@, j),
            forall|j: int|
                0 <= j < best ==> s@[j + 1].0 * jump_from(s@, best as int) < s@[best + 1].0
                    * #[trigger] jump_from(s@, j),
        decreases n - k,
    {
        let (up, down) = (s[k + 1].0, at_least_one(s[k].0));
        let (best_up, best_down) = (s[best + 1].0, at_least_one(s[best].0));
        proof {
            lemma_product_fits(up as int, best_down as int);
            lemma_product_fits(best_up as int, down as int);
        }
        if up as u128 * best_down as u128 > best_up as u128 * down as u128 {
            proof {
                assert forall|j: int| 0 <= j < k implies s@[j + 1].0 * jump_from(s@, k as int)
                    < s@[k + 1].0 * #[trigger] jump_from(s@, j) by {
                    assert(s@[j + 1].0 * jump_from(s@, best as int) <= s@[best + 1].0
                        * jump_from(s@, j));
                    lemma_ratio_chain(
                        s@[j + 1].0 as int,
                        jump_from(s@, j),
                        best_up as int,
                        best_down as int,
                        up as int,
                        down as int,
                    );
                }
                assert(s@[k + 1].0 * jump_from(s@, k as int) <= s@[k + 1].0 * jump_from(
                    s@,
                    k as int,
                ));
            }
            best = k;
        }
        k = k + 1;
    }
    best
}

fn at_least_one(x: i128) -> (r: i128)
    ensures
        r == num::larger(x as int, 1),
{
    if x < 1 {
        1
    } else {
        x
    }
}

proof fn lemma_product_fits(a: int, b: int)
    requires
        0 <= a <= 0xffff_ffff_ffff_ffff,
        0 <= b <= 0xffff_ffff_ffff_ffff,
    ensures
        0 <= a * b <= u128::MAX,
{
    assert(0 <= a * b <= 0xffff_ffff_ffff_ffff * 0xffff_ffff_ffff_ffff) by (nonlinear_arith)
        requires
            0 <= a <= 0xffff_ffff_ffff_ffff,
            0 <= b <= 0xffff_ffff_ffff_ffff,
    ;
}

/// `a/b <= c/d < e/f` gives `a/b < e/f`.
proof fn lemma_ratio_chain(a: int, b: int, c: int, d: int, e: int, f: int)
    requires
        a >= 0,
        b > 0,
        c >= 0,
        d > 0,
        e >= 0,
        f > 0,
        a * d <= c * b,
        e * d > c * f,
    ensures
        a * f < e * b,
{
    assert((a * f) * d <= (c * b) * f) by (nonlinear_arith)
        requires
            a * d <= c * b,
            f > 0,
    ;
    assert((c * b) * f < (e * b) * d) by (nonlinear_arith)
        requires
            e * d > c * f,
            b > 0,
    ;
    assert(a * f < e * b) by (nonlinear_arith)
        requires
            (a * f) * d < (e * b) * d,
            d > 0,
    ;
}

/// There is one largest jump that is the first.
proof fn lemma_one_jump(s: Seq<sort::Key>, a: int, b: int)
    requires
        is_jump(s, a),
        is_jump(s, b),
    ensures
        a == b,
{
    if a < b {
        assert(s[a + 1].0 * jump_from(s, b) < s[b + 1].0 * jump_from(s, a));
        assert(s[b + 1].0 * jump_from(s, a) <= s[a + 1].0 * jump_from(s, b));
    } else if b < a {
        assert(s[b + 1].0 * jump_from(s, a) < s[a + 1].0 * jump_from(s, b));
        assert(s[a + 1].0 * jump_from(s, b) <= s[b + 1].0 * jump_from(s, a));
    }
}

} // verus!
