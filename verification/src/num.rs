//! Integer arithmetic shared by the geometry: saturation, clamping, halving.
use vstd::prelude::*;

verus! {

/// `a + b`, held to the range of an `i32`.
pub open spec fn sat_add(a: int, b: int) -> int {
    if a + b > i32::MAX {
        i32::MAX as int
    } else if a + b < i32::MIN {
        i32::MIN as int
    } else {
        a + b
    }
}

/// `x`, moved to the nearest end of `lo ..= hi` when it lies outside.
pub open spec fn clamped(x: int, lo: int, hi: int) -> int {
    if x < lo {
        lo
    } else if x > hi {
        hi
    } else {
        x
    }
}

/// Half of `x`, rounded towards zero.
pub open spec fn half(x: int) -> int {
    if x >= 0 {
        x / 2
    } else {
        -((-x) / 2)
    }
}

/// The larger of two integers.
pub open spec fn larger(a: int, b: int) -> int {
    if a >= b {
        a
    } else {
        b
    }
}

/// The smaller of two integers.
pub open spec fn smaller(a: int, b: int) -> int {
    if a <= b {
        a
    } else {
        b
    }
}

/// The distance of `x` from zero.
pub open spec fn magnitude(x: int) -> int {
    if x >= 0 {
        x
    } else {
        -x
    }
}

/// Whether an `i32` can hold `x`.
pub open spec fn fits(x: int) -> bool {
    i32::MIN <= x <= i32::MAX
}

/// `a + b` without overflow.
pub fn saturating_add(a: i32, b: i32) -> (sum: i32)
    ensures
        sum == sat_add(a as int, b as int),
{
    let wide: i64 = a as i64 + b as i64;
    if wide > i32::MAX as i64 {
        i32::MAX
    } else if wide < i32::MIN as i64 {
        i32::MIN
    } else {
        wide as i32
    }
}

/// `a * b`, held to the range of a `usize`.
pub fn saturating_mul(a: usize, b: usize) -> (product: usize)
    ensures
        product as int == (if a * b <= usize::MAX {
            a * b
        } else {
            usize::MAX as int
        }),
{
    match a.checked_mul(b) {
        Some(product) => product,
        None => usize::MAX,
    }
}

/// `x` held between `lo` and `hi`.
pub fn clamp_wide(x: i64, lo: i64, hi: i64) -> (r: i64)
    requires
        lo <= hi,
    ensures
        r == clamped(x as int, lo as int, hi as int),
{
    if x < lo {
        lo
    } else if x > hi {
        hi
    } else {
        x
    }
}

/// How many integers of `lo .. hi` are in `f`.
pub open spec fn count(lo: int, hi: int, f: spec_fn(int) -> bool) -> int
    decreases hi - lo,
{
    if lo >= hi {
        0
    } else {
        count(lo, hi - 1, f) + if f(hi - 1) {
            1int
        } else {
            0int
        }
    }
}

/// A count lies between none and all.
pub proof fn lemma_count_bounds(lo: int, hi: int, f: spec_fn(int) -> bool)
    requires
        lo <= hi,
    ensures
        0 <= count(lo, hi, f) <= hi - lo,
    decreases hi - lo,
{
    if lo < hi {
        lemma_count_bounds(lo, hi - 1, f);
    }
}

/// Counting goes by what is in the range and by nothing else.
pub proof fn lemma_count_same(lo: int, hi: int, f: spec_fn(int) -> bool, g: spec_fn(int) -> bool)
    requires
        forall|p: int| lo <= p < hi ==> #[trigger] f(p) == g(p),
    ensures
        count(lo, hi, f) == count(lo, hi, g),
    decreases hi - lo,
{
    if lo < hi {
        lemma_count_same(lo, hi - 1, f, g);
    }
}

/// Adding an interval that was not counted before adds its length.
pub proof fn lemma_count_interval(
    lo: int,
    hi: int,
    f: spec_fn(int) -> bool,
    g: spec_fn(int) -> bool,
    a: int,
    b: int,
)
    requires
        lo <= a <= b <= hi,
        forall|p: int| lo <= p < hi ==> #[trigger] g(p) == (f(p) || a <= p < b),
        forall|p: int| a <= p < b ==> !#[trigger] f(p),
    ensures
        count(lo, hi, g) == count(lo, hi, f) + (b - a),
    decreases hi - lo,
{
    if lo < hi {
        assert(g(hi - 1) == (f(hi - 1) || a <= hi - 1 < b));
        if b == hi && a < b {
            assert(!f(hi - 1));
            lemma_count_interval(lo, hi - 1, f, g, a, b - 1);
        } else if b == hi {
            lemma_count_same(lo, hi, f, g);
        } else {
            lemma_count_interval(lo, hi - 1, f, g, a, b);
        }
    }
}

/// Of two predicates, the weaker one counts at least as many.
pub proof fn lemma_count_subset(lo: int, hi: int, f: spec_fn(int) -> bool, g: spec_fn(int) -> bool)
    requires
        forall|p: int| lo <= p < hi && #[trigger] f(p) ==> g(p),
    ensures
        count(lo, hi, f) <= count(lo, hi, g),
    decreases hi - lo,
{
    if lo < hi {
        lemma_count_subset(lo, hi - 1, f, g);
        assert(f(hi - 1) ==> g(hi - 1));
    }
}

/// What is not counted is the rest of the range.
pub proof fn lemma_count_rest(lo: int, hi: int, f: spec_fn(int) -> bool, g: spec_fn(int) -> bool)
    requires
        lo <= hi,
        forall|p: int| lo <= p < hi ==> #[trigger] g(p) == !f(p),
    ensures
        count(lo, hi, g) == (hi - lo) - count(lo, hi, f),
    decreases hi - lo,
{
    if lo < hi {
        assert(g(hi - 1) == !f(hi - 1));
        lemma_count_rest(lo, hi - 1, f, g);
    }
}

/// Counting is the size of the set of what is counted.
pub proof fn lemma_count_is_size(lo: int, hi: int, f: spec_fn(int) -> bool)
    requires
        lo <= hi,
    ensures
        Set::new(|p: int| lo <= p < hi && f(p)).finite(),
        count(lo, hi, f) == Set::new(|p: int| lo <= p < hi && f(p)).len(),
    decreases hi - lo,
{
    let all = Set::new(|p: int| lo <= p < hi && f(p));
    if lo == hi {
        assert(all =~= Set::empty());
    } else {
        lemma_count_is_size(lo, hi - 1, f);
        let fewer = Set::new(|p: int| lo <= p < hi - 1 && f(p));
        if f(hi - 1) {
            assert(all =~= fewer.insert(hi - 1));
        } else {
            assert(all =~= fewer);
        }
    }
}

/// `part` out of `whole`.
#[derive(Debug, Clone, Copy, PartialEq, Eq, Structural)]
pub struct Ratio {
    pub part: i64,
    pub whole: i64,
}

/// `n / d` to the nearest integer, a half away from zero.
pub open spec fn rounded(n: int, d: int) -> int {
    if n >= 0 {
        (2 * n + d) / (2 * d)
    } else {
        -((2 * -n + d) / (2 * d))
    }
}

/// The nearest integer to `n * k.part / k.whole`, a half away from zero, held
/// to the range of an `i32`.
pub fn scale(n: i32, k: Ratio) -> (r: i32)
    requires
        k.whole > 0,
    ensures
        r == clamped(rounded(n * k.part, k.whole as int), i32::MIN as int, i32::MAX as int),
{
    proof {
        let (a, b) = (n as int, k.part as int);
        assert(-0x4000_0000_0000_0000_0000_0000 <= a * b <= 0x4000_0000_0000_0000_0000_0000)
            by (nonlinear_arith)
            requires
                -0x8000_0000 <= a <= 0x7fff_ffff,
                -0x8000_0000_0000_0000 <= b <= 0x7fff_ffff_ffff_ffff,
        ;
    }
    let product: i128 = n as i128 * k.part as i128;
    let whole: i128 = k.whole as i128;
    let r: i128 = if product >= 0 {
        (2 * product + whole) / (2 * whole)
    } else {
        -((2 * -product + whole) / (2 * whole))
    };
    if r > i32::MAX as i128 {
        i32::MAX
    } else if r < i32::MIN as i128 {
        i32::MIN
    } else {
        r as i32
    }
}

} // verus!
