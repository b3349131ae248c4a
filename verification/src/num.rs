//! Integer helpers shared by the geometry code: truncating division of a
//! signed value by a positive one, Euclidean remainder, and an integer
//! square root.

use vstd::prelude::*;

verus! {

/// Truncating (round-toward-zero) division, the rounding used throughout the
/// fixed-point computations.  Defined for positive divisors.
pub open spec fn tdiv(n: int, d: int) -> int {
    if n >= 0 {
        n / d
    } else {
        -((-n) / d)
    }
}

/// Exec counterpart of `tdiv` on `i128`.
pub fn div_t(n: i128, d: i128) -> (r: i128)
    requires
        d > 0,
        n > i128::MIN,
    ensures
        r == tdiv(n as int, d as int),
{
    if n >= 0 {
        let q: u128 = (n as u128) / (d as u128);
        q as i128
    } else {
        let q: u128 = ((-n) as u128) / (d as u128);
        proof {
            vstd::arithmetic::div_mod::lemma_div_nonincreasing((-n) as int, d as int);
            vstd::arithmetic::div_mod::lemma_div_pos_is_pos((-n) as int, d as int);
        }
        -(q as i128)
    }
}

/// Exec Euclidean remainder on `i128`: the result is always in `[0, m)`,
/// matching `%` on `int` for a positive modulus.
pub fn mod_e(n: i128, m: i128) -> (r: i128)
    requires
        m > 0,
        n > i128::MIN,
    ensures
        r == n as int % m as int,
        0 <= r < m,
{
    if n >= 0 {
        let q: u128 = (n as u128) % (m as u128);
        proof {
            vstd::arithmetic::div_mod::lemma_mod_division_less_than_divisor(n as int, m as int);
        }
        q as i128
    } else {
        let k: u128 = ((-n) as u128) % (m as u128);
        proof {
            vstd::arithmetic::div_mod::lemma_mod_division_less_than_divisor(
                (-n) as int,
                m as int,
            );
        }
        let r: i128 = if k == 0 {
            0
        } else {
            m - (k as i128)
        };
        proof {
            let ni = n as int;
            let mi = m as int;
            let ki = k as int;
            let qi = (-ni) / mi;
            vstd::arithmetic::div_mod::lemma_fundamental_div_mod(-ni, mi);
            if ki == 0 {
                assert(ni == mi * (-qi) + 0) by (nonlinear_arith)
                    requires -ni == mi * qi + ki, ki == 0,
                {}
                vstd::arithmetic::div_mod::lemma_fundamental_div_mod_converse_mod(
                    ni, mi, -qi, 0,
                );
            } else {
                assert(ni == mi * (-qi - 1) + (mi - ki)) by (nonlinear_arith)
                    requires -ni == mi * qi + ki,
                {}
                vstd::arithmetic::div_mod::lemma_fundamental_div_mod_converse_mod(
                    ni, mi, -qi - 1, mi - ki,
                );
            }
        }
        r
    }
}

/// `|a * b| <= aa * bb` whenever `|a| <= aa` and `|b| <= bb`.
pub proof fn lemma_abs_mul(a: int, b: int, aa: int, bb: int)
    requires
        -aa <= a <= aa,
        -bb <= b <= bb,
    ensures
        -(aa * bb) <= a * b <= aa * bb,
{
    assert(-(aa * bb) <= a * b <= aa * bb) by (nonlinear_arith)
        requires -aa <= a <= aa, -bb <= b <= bb,
    {}
}

/// Truncating division shrinks: `|n| <= b * d` gives `|tdiv(n, d)| <= b`.
pub proof fn lemma_tdiv_bound(n: int, d: int, b: int)
    requires
        d >= 1,
        b >= 0,
        -(b * d) <= n <= b * d,
    ensures
        -b <= tdiv(n, d) <= b,
{
    if n >= 0 {
        vstd::arithmetic::div_mod::lemma_div_is_ordered(n, b * d, d);
        vstd::arithmetic::div_mod::lemma_div_multiples_vanish(b, d);
        vstd::arithmetic::div_mod::lemma_div_pos_is_pos(n, d);
    } else {
        vstd::arithmetic::div_mod::lemma_div_is_ordered(-n, b * d, d);
        vstd::arithmetic::div_mod::lemma_div_multiples_vanish(b, d);
        vstd::arithmetic::div_mod::lemma_div_pos_is_pos(-n, d);
    }
}

/// Specification-level floor of the square root.
pub open spec fn sqrt_floor(n: nat) -> nat
    decreases n,
{
    if n == 0 {
        0
    } else {
        let r = sqrt_floor((n - 1) as nat);
        if (r + 1) * (r + 1) <= n {
            r + 1
        } else {
            r
        }
    }
}

#[verifier::rlimit(50)]
pub proof fn lemma_sqrt_floor_bounds(n: nat)
    ensures
        sqrt_floor(n) * sqrt_floor(n) <= n < (sqrt_floor(n) + 1) * (sqrt_floor(n) + 1),
    decreases n,
{
    if n == 0 {
        assert(sqrt_floor(0) == 0);
        assert(sqrt_floor(n) * sqrt_floor(n) <= n) by (nonlinear_arith)
            requires n == 0, sqrt_floor(n) == 0,
        {}
        assert(n < (sqrt_floor(n) + 1) * (sqrt_floor(n) + 1)) by (nonlinear_arith)
            requires n == 0, sqrt_floor(n) == 0,
        {}
    } else {
        lemma_sqrt_floor_bounds((n - 1) as nat);
        let r = sqrt_floor((n - 1) as nat);
        assert(r * r <= n - 1);
        assert(n - 1 < (r + 1) * (r + 1));
        if (r + 1) * (r + 1) <= n {
            assert(sqrt_floor(n) == r + 1);
            assert(n < (r + 2) * (r + 2)) by (nonlinear_arith)
                requires n <= (r + 1) * (r + 1), r >= 0,
            {}
            assert((r + 2) * (r + 2) == ((r + 1) + 1) * ((r + 1) + 1)) by (nonlinear_arith);
            assert(sqrt_floor(n) * sqrt_floor(n) <= n);
            assert(n < (sqrt_floor(n) + 1) * (sqrt_floor(n) + 1));
        } else {
            assert(sqrt_floor(n) == r);
            assert(sqrt_floor(n) * sqrt_floor(n) <= n);
            assert(n < (sqrt_floor(n) + 1) * (sqrt_floor(n) + 1));
        }
    }
}

/// A value whose square is at most `n` lies within the floor-sqrt bracket.
pub proof fn lemma_sq_le_bound(c: int, n: int, m: int)
    requires
        c * c <= n,
        n < (m + 1) * (m + 1),
        m >= 0,
    ensures
        -m <= c <= m,
{
    if c >= m + 1 {
        assert((m + 1) * (m + 1) <= c * c) by (nonlinear_arith)
            requires 0 <= m + 1 <= c,
        {}
    }
    if c <= -(m + 1) {
        assert((m + 1) * (m + 1) <= c * c) by (nonlinear_arith)
            requires c <= -(m + 1) <= 0,
        {}
    }
}

/// Any value in the floor-sqrt bracket is the floor sqrt.
pub proof fn lemma_sqrt_floor_unique(n: nat, r: nat)
    requires
        r * r <= n < (r + 1) * (r + 1),
    ensures
        r == sqrt_floor(n),
{
    let s = sqrt_floor(n);
    lemma_sqrt_floor_bounds(n);
    if r < s {
        assert((r + 1) * (r + 1) <= s * s) by (nonlinear_arith)
            requires r + 1 <= s, r >= 0,
        {}
    } else if s < r {
        assert((s + 1) * (s + 1) <= r * r) by (nonlinear_arith)
            requires s + 1 <= r, s >= 0,
        {}
    }
}

/// Floor of the square root: `r * r <= n < (r + 1) * (r + 1)`.
pub fn isqrt(n: u128) -> (r: u128)
    requires
        n <= u128::MAX / 4,
    ensures
        r * r <= n < (r + 1) * (r + 1),
        r == sqrt_floor(n as nat),
        r <= 0x8000_0000_0000_0000,
{
    let mut lo: u128 = 0;
    let mut hi: u128 = 0x8000_0000_0000_0000;
    while lo + 1 < hi
        invariant
            lo < hi,
            hi <= 0x8000_0000_0000_0000,
            lo * lo <= n,
            n < hi * hi,
        decreases hi - lo,
    {
        let mid = lo + (hi - lo) / 2;
        proof {
            assert(mid * mid < hi * hi) by (nonlinear_arith)
                requires 0 <= mid < hi,
            {}
            assert(hi * hi <= 0x8000_0000_0000_0000u128 * 0x8000_0000_0000_0000u128)
                by (nonlinear_arith)
                requires 0 <= hi <= 0x8000_0000_0000_0000u128,
            {}
        }
        if mid * mid <= n {
            lo = mid;
        } else {
            hi = mid;
        }
    }
    proof {
        lemma_sqrt_floor_unique(n as nat, lo as nat);
    }
    lo
}

} // verus!
