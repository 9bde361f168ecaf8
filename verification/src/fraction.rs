//! Fraction arithmetic over pairs `(numerator, denominator)` of `i32`,
//! reduced through the highest common factor computed by Euclid's
//! algorithm with truncated (Rust-style) remainders.

use vstd::prelude::*;

verus! {

/// Rust's truncating remainder: the remainder of dividing toward zero,
/// carrying the sign of the dividend.
pub open spec fn trunc_rem(x: int, d: int) -> int
    recommends
        d != 0,
{
    if x == 0 {
        0
    } else if x > 0 && d > 0 {
        x % d
    } else if x < 0 && d < 0 {
        -((-x) % (-d))
    } else if x < 0 {
        -((-x) % d)
    } else {
        x % (-d)
    }
}

/// Rust's truncating quotient: division rounded toward zero.
pub open spec fn trunc_div(x: int, d: int) -> int
    recommends
        d != 0,
{
    if x == 0 {
        0
    } else if x > 0 && d > 0 {
        x / d
    } else if x < 0 && d < 0 {
        (-x) / (-d)
    } else if x < 0 {
        -((-x) / d)
    } else {
        -(x / (-d))
    }
}

/// The highest common factor as Euclid's algorithm with truncating
/// remainders computes it; the sign follows the argument that survives.
pub open spec fn spec_hcf(a: int, b: int) -> int
    decreases (if b >= 0 {
        b
    } else {
        -b
    }),
    when -0x8000_0000 <= b <= 0x8000_0000
{
    if a == 0 {
        b
    } else if b == 0 {
        a
    } else {
        spec_hcf(b, trunc_rem(a, b))
    }
}

/// The arguments on which the highest common factor is computable in
/// `i32`: the one overflowing remainder of that type is ruled out.
pub open spec fn hcf_ok(a: int, b: int) -> bool {
    !((a == i32::MIN && b == -1) || (a == -1 && b == i32::MIN))
}

/// The pairs a fraction can be built from: not both parts zero, and no
/// step of the reduction overflows `i32`.
pub open spec fn simplify_ok(n: int, d: int) -> bool {
    &&& hcf_ok(n, d)
    &&& !(n == 0 && d == 0)
    &&& !(spec_hcf(n, d) == -1 && (n == i32::MIN || d == i32::MIN))
}

/// The reduced form of `n / d`: both parts divided by their highest
/// common factor.
pub open spec fn spec_simplify(n: int, d: int) -> (int, int) {
    (trunc_div(n, spec_hcf(n, d)), trunc_div(d, spec_hcf(n, d)))
}

/// The highest common factor of a pair that is not both zero is not
/// zero.
pub proof fn lemma_hcf_nonzero(a: int, b: int)
    requires
        -0x8000_0000 <= a <= 0x8000_0000,
        -0x8000_0000 <= b <= 0x8000_0000,
        !(a == 0 && b == 0),
    ensures
        spec_hcf(a, b) != 0,
    decreases (if b >= 0 {
        b
    } else {
        -b
    }),
{
    if a != 0 && b != 0 {
        lemma_trunc_rem_bound(a, b);
        lemma_hcf_nonzero(b, trunc_rem(a, b));
    }
}

/// The truncating remainder is smaller in magnitude than the divisor.
proof fn lemma_trunc_rem_bound(x: int, d: int)
    requires
        d != 0,
    ensures
        (if trunc_rem(x, d) >= 0 {
            trunc_rem(x, d)
        } else {
            -trunc_rem(x, d)
        }) < (if d >= 0 {
            d
        } else {
            -d
        }),
{
    if x != 0 {
        if x > 0 && d > 0 {
            vstd::arithmetic::div_mod::lemma_mod_bound(x, d);
        } else if x < 0 && d < 0 {
            vstd::arithmetic::div_mod::lemma_mod_bound(-x, -d);
        } else if x < 0 {
            vstd::arithmetic::div_mod::lemma_mod_bound(-x, d);
        } else {
            vstd::arithmetic::div_mod::lemma_mod_bound(x, -d);
        }
    }
}

/// Calculate the highest common factor of two numbers.
pub fn hcf(a: i32, b: i32) -> (result: i32)
    requires
        hcf_ok(a as int, b as int),
    ensures
        result == spec_hcf(a as int, b as int),
    decreases (if b >= 0 {
        b as int
    } else {
        -(b as int)
    }),
{
    if a == 0 {
        return b;
    }
    if b == 0 {
        return a;
    }
    let r = match a.checked_rem(b) {
        Some(r) => r,
        None => {
            proof {
                assert(false);
            }
            0
        },
    };
    proof {
        assert(r == trunc_rem(a as int, b as int));
        lemma_trunc_rem_bound(a as int, b as int);
        if b == i32::MIN {
            if a > 0 {
                vstd::arithmetic::div_mod::lemma_small_mod(a as nat, 0x8000_0000nat);
            } else if a == i32::MIN {
                vstd::arithmetic::div_mod::lemma_mod_self_0(0x8000_0000int);
            } else {
                vstd::arithmetic::div_mod::lemma_small_mod((-(a as int)) as nat, 0x8000_0000nat);
            }
        }
    }
    crate::fraction::hcf(b, r)
}

/// Builds the reduced fraction `n / d`, both parts divided by their
/// highest common factor.
pub fn simplify(n: i32, d: i32) -> (result: (i32, i32))
    requires
        simplify_ok(n as int, d as int),
    ensures
        result.0 == spec_simplify(n as int, d as int).0,
        result.1 == spec_simplify(n as int, d as int).1,
{
    let mcm = hcf(n, d);
    proof {
        lemma_hcf_nonzero(n as int, d as int);
        lemma_trunc_div_fits(n as int, mcm as int);
        lemma_trunc_div_fits(d as int, mcm as int);
    }
    let q_n = match n.checked_div(mcm) {
        Some(q) => q,
        None => {
            proof {
                assert(false);
            }
            0
        },
    };
    let q_d = match d.checked_div(mcm) {
        Some(q) => q,
        None => {
            proof {
                assert(false);
            }
            0
        },
    };
    (q_n, q_d)
}

/// The truncating quotient of two values of `i32` fits in `i32`, except
/// for the one overflowing pair, which is ruled out.
proof fn lemma_trunc_div_fits(x: int, g: int)
    requires
        i32::MIN <= x <= i32::MAX,
        i32::MIN <= g <= i32::MAX,
        g != 0,
        !(x == i32::MIN && g == -1),
    ensures
        i32::MIN <= trunc_div(x, g) <= i32::MAX,
{
    lemma_trunc_div_bound(x, g);
    if x == i32::MIN {
        let q = if g > 0 {
            g
        } else {
            -g
        };
        if q == 1 {
            vstd::arithmetic::div_mod::lemma_div_basics(0x8000_0000int);
        } else {
            vstd::arithmetic::div_mod::lemma_div_decreases(0x8000_0000int, q);
        }
    }
}

/// The truncating quotient is no larger in magnitude than the dividend.
proof fn lemma_trunc_div_bound(x: int, d: int)
    requires
        d != 0,
    ensures
        (if trunc_div(x, d) >= 0 {
            trunc_div(x, d)
        } else {
            -trunc_div(x, d)
        }) <= (if x >= 0 {
            x
        } else {
            -x
        }),
{
    if x != 0 {
        let p = if x > 0 {
            x
        } else {
            -x
        };
        let q = if d > 0 {
            d
        } else {
            -d
        };
        vstd::arithmetic::div_mod::lemma_div_pos_is_pos(p, q);
        vstd::arithmetic::div_mod::lemma_div_nonincreasing(p, q);
    }
}

/// Add 2 fractions.
pub fn add(f1: (i32, i32), f2: (i32, i32)) -> (result: (i32, i32))
    requires
        i32::MIN <= f1.0 * f2.1 <= i32::MAX,
        i32::MIN <= f2.0 * f1.1 <= i32::MAX,
        i32::MIN <= f1.0 * f2.1 + f2.0 * f1.1 <= i32::MAX,
        i32::MIN <= f1.1 * f2.1 <= i32::MAX,
        simplify_ok(f1.0 * f2.1 + f2.0 * f1.1, f1.1 * f2.1),
    ensures
        result.0 == spec_simplify(f1.0 * f2.1 + f2.0 * f1.1, f1.1 * f2.1).0,
        result.1 == spec_simplify(f1.0 * f2.1 + f2.0 * f1.1, f1.1 * f2.1).1,
{
    let n = f1.0 * f2.1 + f2.0 * f1.1;
    let d = f1.1 * f2.1;
    simplify(n, d)
}

/// Subtract 2 fractions.
pub fn sub(f1: (i32, i32), f2: (i32, i32)) -> (result: (i32, i32))
    requires
        i32::MIN <= f1.0 * f2.1 <= i32::MAX,
        i32::MIN <= f2.0 * f1.1 <= i32::MAX,
        i32::MIN <= f1.0 * f2.1 - f2.0 * f1.1 <= i32::MAX,
        i32::MIN <= f1.1 * f2.1 <= i32::MAX,
        simplify_ok(f1.0 * f2.1 - f2.0 * f1.1, f1.1 * f2.1),
    ensures
        result.0 == spec_simplify(f1.0 * f2.1 - f2.0 * f1.1, f1.1 * f2.1).0,
        result.1 == spec_simplify(f1.0 * f2.1 - f2.0 * f1.1, f1.1 * f2.1).1,
{
    let n = f1.0 * f2.1 - f2.0 * f1.1;
    let d = f1.1 * f2.1;
    simplify(n, d)
}

/// Multiply 2 fractions.
pub fn mul(f1: (i32, i32), f2: (i32, i32)) -> (result: (i32, i32))
    requires
        i32::MIN <= f1.0 * f2.0 <= i32::MAX,
        i32::MIN <= f1.1 * f2.1 <= i32::MAX,
        simplify_ok(f1.0 * f2.0, f1.1 * f2.1),
    ensures
        result.0 == spec_simplify(f1.0 * f2.0, f1.1 * f2.1).0,
        result.1 == spec_simplify(f1.0 * f2.0, f1.1 * f2.1).1,
{
    simplify(f1.0 * f2.0, f1.1 * f2.1)
}

/// Divide 2 fractions.
pub fn divide(f1: (i32, i32), f2: (i32, i32)) -> (result: (i32, i32))
    requires
        i32::MIN <= f1.0 * f2.1 <= i32::MAX,
        i32::MIN <= f1.1 * f2.0 <= i32::MAX,
        simplify_ok(f1.0 * f2.1, f1.1 * f2.0),
    ensures
        result.0 == spec_simplify(f1.0 * f2.1, f1.1 * f2.0).0,
        result.1 == spec_simplify(f1.0 * f2.1, f1.1 * f2.0).1,
{
    simplify(f1.0 * f2.1, f1.1 * f2.0)
}

} // verus!
