//! Exact integer arithmetic helpers for the builder: small powers of two
//! (cell extents at each subdivision depth) and the floor square root (the
//! quantization used for cylinder distances and direction normalization).

use vstd::prelude::*;

verus! {

use vstd::arithmetic::power2::{lemma2_to64, lemma_pow2_strictly_increases, lemma_pow2_unfold, pow2};

/// 2^e for the small exponents the builder works with: per-depth cell
/// extents and the top-level scene extent.
pub fn pow2_i32(e: u32) -> (r: i32)
    requires
        e <= 16,
    ensures
        r == pow2(e as nat),
{
    let mut i: u32 = 0;
    let mut p: i32 = 1;
    proof {
        lemma2_to64();
    }
    while i < e
        invariant
            i <= e <= 16,
            p == pow2(i as nat),
        decreases e - i,
    {
        proof {
            if (i as nat) < 16 {
                lemma_pow2_strictly_increases(i as nat, 16);
            }
            lemma2_to64();
            lemma_pow2_unfold((i + 1) as nat);
        }
        p = p * 2;
        i = i + 1;
    }
    p
}

/// Floor of the square root, defined by counting up through the squares.
pub open spec fn spec_isqrt(n: nat) -> nat
    decreases n,
{
    if n == 0 {
        0
    } else {
        let r = spec_isqrt((n - 1) as nat);
        if (r + 1) * (r + 1) <= n {
            r + 1
        } else {
            r
        }
    }
}

/// The floor square root brackets its argument between consecutive squares.
pub proof fn lemma_isqrt_bounds(n: nat)
    ensures
        spec_isqrt(n) * spec_isqrt(n) <= n,
        n < (spec_isqrt(n) as int + 1) * (spec_isqrt(n) as int + 1),
    decreases n,
{
    if n == 0 {
        assert(spec_isqrt(n) == 0);
    } else {
        lemma_isqrt_bounds((n - 1) as nat);
        let r = spec_isqrt((n - 1) as nat);
        assert(r * r <= n - 1);
        assert(n - 1 < (r + 1) * (r + 1));
        if (r + 1) * (r + 1) <= n {
            assert(spec_isqrt(n) == r + 1);
            assert(spec_isqrt(n) * spec_isqrt(n) <= n);
            assert(n < (r as int + 2) * (r as int + 2)) by (nonlinear_arith)
                requires n <= (r + 1) * (r + 1), 0 <= r,
            ;
            assert(n < (spec_isqrt(n) as int + 1) * (spec_isqrt(n) as int + 1));
        } else {
            assert(spec_isqrt(n) == r);
            assert(spec_isqrt(n) * spec_isqrt(n) <= n);
            assert(n < (spec_isqrt(n) as int + 1) * (spec_isqrt(n) as int + 1));
        }
    }
}

/// Any value bracketed between consecutive squares is the floor square root.
pub proof fn lemma_isqrt_unique(n: nat, r: nat)
    requires
        r * r <= n,
        n < (r as int + 1) * (r as int + 1),
    ensures
        r == spec_isqrt(n),
{
    lemma_isqrt_bounds(n);
    let s = spec_isqrt(n);
    if r < s {
        assert(s * s <= n);
        assert((r + 1) * (r + 1) <= s * s) by (nonlinear_arith)
            requires r + 1 <= s,
        ;
    } else if s < r {
        assert(r * r <= n);
        assert((s + 1) * (s + 1) <= r * r) by (nonlinear_arith)
            requires s + 1 <= r,
        ;
    }
}

/// The floor square root never grows faster than its argument's order:
/// if n <= b * b then isqrt(n) <= b.
pub proof fn lemma_isqrt_le(n: nat, b: nat)
    requires
        n <= b * b,
    ensures
        spec_isqrt(n) <= b,
{
    lemma_isqrt_bounds(n);
    let s = spec_isqrt(n);
    if b < s {
        assert((b + 1) * (b + 1) <= s * s) by (nonlinear_arith)
            requires b + 1 <= s,
        ;
        assert(b * b < (b + 1) * (b + 1)) by (nonlinear_arith);
    }
}

/// Floor of the square root, by binary search on the answer.
pub fn isqrt_u64(n: u64) -> (r: u64)
    requires
        n <= 0x3FFF_FFFF_FFFF_FFFFu64,
    ensures
        r == spec_isqrt(n as nat),
{
    let mut lo: u64 = 0;
    let mut hi: u64 = 0x8000_0000;
    assert((hi as int) * (hi as int) == 0x4000_0000_0000_0000) by (nonlinear_arith)
        requires hi == 0x8000_0000u64,
    ;
    while lo + 1 < hi
        invariant
            lo < hi <= 0x8000_0000,
            (lo as int) * (lo as int) <= n as int,
            (n as int) < (hi as int) * (hi as int),
        decreases hi - lo,
    {
        let mid = lo + (hi - lo) / 2;
        assert(lo < mid < hi);
        assert((mid as int) * (mid as int) <= 0x4000_0000_0000_0000) by (nonlinear_arith)
            requires 0 <= mid <= 0x8000_0000u64,
        ;
        if mid * mid <= n {
            lo = mid;
        } else {
            hi = mid;
        }
    }
    proof {
        lemma_isqrt_unique(n as nat, lo as nat);
    }
    lo
}

} // verus!
