//! Exact fixed-point arithmetic helpers. All fractional quantities are
//! integers scaled by `SCALE`; every rounding step is a floor division, so
//! each operation is a pure function with an exactly stated result.

use vstd::prelude::*;
use vstd::arithmetic::div_mod::{
    lemma_div_is_ordered, lemma_div_multiples_vanish, lemma_div_pos_is_pos,
    lemma_fundamental_div_mod, lemma_fundamental_div_mod_converse, lemma_mod_bound,
};
use vstd::arithmetic::mul::{
    lemma_mul_inequality, lemma_mul_is_associative, lemma_mul_is_commutative,
    lemma_mul_nonnegative, lemma_mul_strict_inequality,
};

verus! {

/// Floor division on mathematical integers (the ghost `/` is Euclidean, which
/// for a positive divisor is the floor).
pub open spec fn fdiv(a: int, b: int) -> int {
    a / b
}

/// Floor quotient is bounded by any multiple that bounds the dividend:
/// 0 <= a <= k * b with b > 0 gives 0 <= a / b <= k.
pub proof fn lemma_div_bound(a: int, b: int, k: int)
    requires
        b > 0,
        0 <= a,
        a <= k * b,
    ensures
        0 <= a / b <= k,
{
    lemma_div_pos_is_pos(a, b);
    lemma_div_is_ordered(a, k * b, b);
    assert((k * b) / b == k) by {
        lemma_div_multiples_vanish(k, b);
        lemma_mul_is_commutative(k, b);
    }
}

/// Floor quotient bound from a strict bound on the dividend:
/// a < (k+1) * b with b > 0 gives a / b <= k.
pub proof fn lemma_div_strict_bound(a: int, b: int, k: int)
    requires
        b > 0,
        0 <= a,
        a < (k + 1) * b,
    ensures
        0 <= a / b <= k,
{
    lemma_div_pos_is_pos(a, b);
    let q = a / b;
    lemma_fundamental_div_mod(a, b);
    lemma_mod_bound(a, b);
    if q > k {
        lemma_mul_inequality(k + 1, q, b);
        assert((k + 1) * b <= q * b);
        assert(q * b == b * q) by {
            lemma_mul_is_commutative(q, b);
        }
    }
}

/// Cross-multiplied comparison of floor quotients: a*d <= c*b with positive
/// divisors gives a/b <= c/d.
pub proof fn lemma_div_le_div(a: int, b: int, c: int, d: int)
    requires
        b > 0,
        d > 0,
        0 <= a,
        0 <= c,
        a * d <= c * b,
    ensures
        a / b <= c / d,
{
    let q = a / b;
    lemma_fundamental_div_mod(a, b);
    lemma_mod_bound(a, b);
    lemma_div_pos_is_pos(a, b);
    assert(q * b <= a) by {
        lemma_mul_is_commutative(q, b);
    }
    // q * b * d <= a * d <= c * b, hence q * d <= c, hence q <= c / d.
    assert((q * b) * d <= a * d) by {
        lemma_mul_inequality(q * b, a, d);
    }
    assert((q * b) * d == (q * d) * b) by {
        lemma_mul_is_associative(q, b, d);
        lemma_mul_is_commutative(b, d);
        lemma_mul_is_associative(q, d, b);
    }
    assert(q * d <= c) by {
        if q * d > c {
            lemma_mul_strict_inequality(c, q * d, b);
        }
    }
    assert(q <= c / d) by {
        assert((q * d) / d == q) by {
            lemma_div_multiples_vanish(q, d);
            lemma_mul_is_commutative(q, d);
        }
        lemma_div_is_ordered(q * d, c, d);
    }
}

/// Multiplying a pair of non-negative factors by pointwise larger ones never
/// shrinks the product.
pub proof fn lemma_mul_mono(a: int, b: int, c: int, d: int)
    requires
        0 <= a <= c,
        0 <= b <= d,
    ensures
        a * b <= c * d,
        0 <= a * b,
{
    lemma_mul_inequality(a, c, b);  // a * b <= c * b
    lemma_mul_inequality(b, d, c);  // b * c <= d * c
    lemma_mul_is_commutative(b, c);
    lemma_mul_is_commutative(d, c);
    lemma_mul_nonnegative(a, b);
}

/// Floor division of a signed value by a positive divisor. Rust's `/`
/// truncates toward zero, so the negative case is corrected to match the
/// mathematical floor (the ghost Euclidean quotient).
pub fn div_floor(a: i128, b: i128) -> (r: i128)
    requires
        1 <= b <= 0x7fff_ffff_ffff_ffff,
        -0x7fff_ffff_ffff_ffff_ffff_ffff_ffff_ffff <= a,
        a <= 0x7fff_ffff_ffff_ffff_ffff_ffff_ffff_ffff,
    ensures
        r == fdiv(a as int, b as int),
{
    if a >= 0 {
        let q = (a as u128) / (b as u128);
        proof {
            lemma_div_pos_is_pos(a as int, b as int);
            vstd::arithmetic::div_mod::lemma_div_nonincreasing(a as int, b as int);
        }
        q as i128
    } else {
        let m = (-a) as u128;
        let q = (m + (b as u128) - 1) / (b as u128);
        proof {
            lemma_neg_div(m as int, b as int);
            // q is at most m, so its negation stays in range.
            assert(m as int + b - 1 <= m as int * b) by {
                assert((m as int - 1) * (b - 1) >= 0) by (nonlinear_arith)
                    requires
                        m as int >= 1,
                        b >= 1,
                ;
                assert((m as int - 1) * (b - 1) == m as int * b - m as int - b + 1)
                    by (nonlinear_arith);
            }
            lemma_div_bound(m as int + b - 1, b as int, m as int);
        }
        -(q as i128)
    }
}

/// The floor quotient never grows in magnitude for a divisor of at least
/// one.
pub proof fn lemma_fdiv_abs_le(a: int, b: int)
    requires
        b >= 1,
    ensures
        a >= 0 ==> 0 <= a / b <= a,
        a < 0 ==> a <= a / b <= 0,
{
    if a >= 0 {
        lemma_div_pos_is_pos(a, b);
        vstd::arithmetic::div_mod::lemma_div_nonincreasing(a, b);
    } else {
        let m = -a;
        lemma_neg_div(m, b);
        assert(m + b - 1 <= m * b) by {
            assert((m - 1) * (b - 1) >= 0) by (nonlinear_arith)
                requires m >= 1, b >= 1;
            assert((m - 1) * (b - 1) == m * b - m - b + 1) by (nonlinear_arith);
        }
        lemma_div_bound(m + b - 1, b, m);
    }
}

/// The floor of -m / b expressed through the ceiling of m / b.
proof fn lemma_neg_div(m: int, b: int)
    requires
        b > 0,
        m > 0,
    ensures
        (-m) / b == -((m + b - 1) / b),
{
    let k = m / b;
    let s = m % b;
    lemma_fundamental_div_mod(m, b);
    lemma_mod_bound(m, b);
    if s == 0 {
        // Exact division: -m = (-k) * b with remainder zero.
        assert(-m == (-k) * b + 0) by {
            assert((-k) * b == -(b * k)) by (nonlinear_arith);
        }
        lemma_fundamental_div_mod_converse(-m, b, -k, 0);
        assert((m + b - 1) / b == k) by {
            assert(m + b - 1 == k * b + (b - 1)) by {
                assert(k * b == b * k) by (nonlinear_arith);
            }
            lemma_fundamental_div_mod_converse(m + b - 1, b, k, b - 1);
        }
    } else {
        // -m = (-k - 1) * b + (b - s), with 0 <= b - s < b.
        assert(-m == (-k - 1) * b + (b - s)) by {
            assert((-k - 1) * b == -(b * k) - b) by (nonlinear_arith);
        }
        lemma_fundamental_div_mod_converse(-m, b, -k - 1, b - s);
        assert((m + b - 1) / b == k + 1) by {
            assert(m + b - 1 == (k + 1) * b + (s - 1)) by {
                assert((k + 1) * b == b * k + b) by (nonlinear_arith);
            }
            lemma_fundamental_div_mod_converse(m + b - 1, b, k + 1, s - 1);
        }
    }
}

} // verus!
