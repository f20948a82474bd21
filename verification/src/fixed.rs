//! Fixed-point arithmetic shared by the geometry and the request builders.
use vstd::prelude::*;

verus! {

/// The raw value that stands for the number one: scalars carry 16 fractional bits.
pub const ONE: i32 = 65536;

/// The quotient of `n` by a positive `d`, rounded toward zero.
pub open spec fn trunc_div(n: int, d: int) -> int
    recommends
        d > 0,
{
    if n >= 0 {
        n / d
    } else {
        -((-n) / d)
    }
}

/// Rounding toward zero commutes with negation.
pub proof fn lemma_trunc_div_odd(n: int, d: int)
    requires
        d > 0,
    ensures
        trunc_div(-n, d) == -trunc_div(n, d),
{
    if n > 0 {
        assert(-(-n) == n);
    } else if n < 0 {
    } else {
        assert(0int / d == 0) by (nonlinear_arith)
            requires
                d > 0,
        ;
    }
}

/// A product is bounded by the product of the bounds of its factors.
pub proof fn lemma_mul_bound(a: int, b: int, ma: int, mb: int)
    requires
        -ma <= a <= ma,
        -mb <= b <= mb,
    ensures
        -(ma * mb) <= a * b <= ma * mb,
{
    assert(-(ma * mb) <= a * b <= ma * mb) by (nonlinear_arith)
        requires
            -ma <= a <= ma,
            -mb <= b <= mb,
    ;
}

/// The square of `x`.
pub open spec fn square(x: int) -> int {
    x * x
}

/// The magnitude of `x`.
pub open spec fn magnitude(x: int) -> int {
    if x >= 0 {
        x
    } else {
        -x
    }
}

/// `r` is the largest natural number whose square does not exceed `n`.
pub open spec fn is_integer_sqrt(n: nat, r: nat) -> bool {
    r * r <= n < (r + 1) * (r + 1)
}

/// The square root of `n`, rounded down.
pub open spec fn integer_sqrt(n: nat) -> nat {
    choose|r: nat| is_integer_sqrt(n, r)
}

/// Squaring is strictly monotonic on the natural numbers.
pub proof fn lemma_square_strictly_monotonic(a: nat, b: nat)
    requires
        a < b,
    ensures
        a * a < b * b,
{
    assert(a * a < b * b) by (nonlinear_arith)
        requires
            a < b,
    ;
}

/// At most one number is the rounded-down square root of `n`, and
/// `integer_sqrt` names it.
pub proof fn lemma_integer_sqrt_unique(n: nat, r: nat)
    requires
        is_integer_sqrt(n, r),
    ensures
        integer_sqrt(n) == r,
{
    let s = integer_sqrt(n);
    assert(is_integer_sqrt(n, s));
    if s < r {
        lemma_square_strictly_monotonic(s + 1, r + 1);
        if s + 1 < r {
            lemma_square_strictly_monotonic(s + 1, r);
        }
    } else if r < s {
        if r + 1 < s {
            lemma_square_strictly_monotonic(r + 1, s);
        }
    }
}

/// Every natural number has a rounded-down square root.
pub proof fn lemma_integer_sqrt_exists(n: nat)
    ensures
        is_integer_sqrt(n, integer_sqrt(n)),
    decreases n,
{
    if n == 0 {
        assert(is_integer_sqrt(0, 0)) by (nonlinear_arith);
    } else {
        lemma_integer_sqrt_exists((n - 1) as nat);
        let r = integer_sqrt((n - 1) as nat);
        if (r + 1) * (r + 1) <= n {
            assert((r + 2) * (r + 2) > (r + 1) * (r + 1)) by (nonlinear_arith);
            assert(is_integer_sqrt(n, r + 1));
        } else {
            assert(is_integer_sqrt(n, r));
        }
    }
}

/// Computes the square root of `n`, rounded down, by bisection.
pub fn isqrt(n: u128) -> (r: u64)
    ensures
        r == integer_sqrt(n as nat),
        is_integer_sqrt(n as nat, r as nat),
{
    let mut lo: u128 = 0;
    let mut hi: u128 = 0x1_0000_0000_0000_0000u128;
    assert(hi * hi > n) by (nonlinear_arith)
        requires
            hi == 0x1_0000_0000_0000_0000u128,
            n <= u128::MAX,
    ;
    while hi - lo > 1
        invariant
            lo < hi <= 0x1_0000_0000_0000_0000u128,
            lo * lo <= n < hi * hi,
        decreases hi - lo,
    {
        let mid: u128 = lo + (hi - lo) / 2;
        assert(mid * mid <= u128::MAX) by (nonlinear_arith)
            requires
                mid < 0x1_0000_0000_0000_0000u128,
        ;
        if mid * mid <= n {
            lo = mid;
        } else {
            hi = mid;
        }
    }
    proof {
        lemma_integer_sqrt_unique(n as nat, lo as nat);
    }
    lo as u64
}

} // verus!
