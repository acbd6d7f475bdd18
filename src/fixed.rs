//! Fixed-point arithmetic: reals are held as integers scaled by `FIX`.
use vstd::prelude::*;

verus! {

/// One, in fixed point.
pub const FIX: i64 = 65536;

/// `FIX * FIX`: the largest magnitude a reciprocal can take.
pub const BIG: i64 = 4294967296;

/// Quotient of `a` by `b` rounded toward zero, as Rust's `/` on integers.
pub open spec fn tdiv(a: int, b: int) -> int {
    let q = abs(a) / abs(b);
    if (a >= 0) == (b >= 0) {
        q
    } else {
        -q
    }
}

pub open spec fn abs(a: int) -> int {
    if a < 0 {
        -a
    } else {
        a
    }
}

/// Quotient of `a` by `b` rounded half away from zero.
pub open spec fn rdiv(a: int, b: int) -> int {
    let q = (2 * abs(a) + abs(b)) / (2 * abs(b));
    if (a >= 0) == (b >= 0) {
        q
    } else {
        -q
    }
}

proof fn lemma_quot_le(a: int, b: int)
    requires
        a >= 0,
        b >= 1,
    ensures
        a / b <= a,
        a / b >= 0,
{
    assert(a / b <= a) by (nonlinear_arith)
        requires
            a >= 0,
            b >= 1,
    ;
    assert(a / b >= 0) by (nonlinear_arith)
        requires
            a >= 0,
            b >= 1,
    ;
}

/// `a / b` rounded toward zero.
pub fn div_trunc(a: i128, b: i128) -> (r: i128)
    requires
        b != 0,
        -0x1_0000_0000_0000_0000_0000_0000i128 <= a <= 0x1_0000_0000_0000_0000_0000_0000i128,
        -0x1_0000_0000_0000_0000_0000_0000i128 <= b <= 0x1_0000_0000_0000_0000_0000_0000i128,
    ensures
        r == tdiv(a as int, b as int),
        abs(r as int) <= abs(a as int),
        abs(r as int) * abs(b as int) <= abs(a as int),
{
    let ua: i128 = if a < 0 {
        -a
    } else {
        a
    };
    let ub: i128 = if b < 0 {
        -b
    } else {
        b
    };
    proof {
        lemma_quot_le(ua as int, ub as int);
        assert((ua / ub) * ub <= ua) by (nonlinear_arith)
            requires
                ua >= 0,
                ub >= 1,
        {
            vstd::arithmetic::div_mod::lemma_fundamental_div_mod(ua as int, ub as int);
        }
    }
    let q = ua / ub;
    if (a >= 0) == (b >= 0) {
        q
    } else {
        -q
    }
}

/// `a / b` rounded half away from zero, as `f32::round` on the quotient.
pub fn div_round(a: i128, b: i128) -> (r: i128)
    requires
        b != 0,
        -0x1_0000_0000_0000_0000_0000_0000i128 <= a <= 0x1_0000_0000_0000_0000_0000_0000i128,
        -0x1_0000_0000_0000_0000_0000_0000i128 <= b <= 0x1_0000_0000_0000_0000_0000_0000i128,
    ensures
        r == rdiv(a as int, b as int),
        abs(r as int) <= abs(a as int),
{
    let ua: i128 = if a < 0 {
        -a
    } else {
        a
    };
    let ub: i128 = if b < 0 {
        -b
    } else {
        b
    };
    assert((2 * ua + ub) / (2 * ub) <= ua) by (nonlinear_arith)
        requires
            ua >= 0,
            ub >= 1,
    ;
    assert((2 * ua + ub) / (2 * ub) >= 0) by (nonlinear_arith)
        requires
            ua >= 0,
            ub >= 1,
    ;
    let q = (2 * ua + ub) / (2 * ub);
    if (a >= 0) == (b >= 0) {
        q
    } else {
        -q
    }
}

/// `a / b` rounded down, for a positive `b`.
pub fn div_floor(a: i128, b: i128) -> (r: i128)
    requires
        b > 0,
        -0x1_0000_0000_0000_0000_0000_0000i128 <= a <= 0x1_0000_0000_0000_0000_0000_0000i128,
        b <= 0x1_0000_0000_0000_0000_0000_0000i128,
    ensures
        r == (a as int) / (b as int),
        abs(r as int) <= abs(a as int),
{
    if a >= 0 {
        proof {
            lemma_quot_le(a as int, b as int);
        }
        a / b
    } else {
        let na: i128 = -a - 1;
        proof {
            lemma_quot_le(na as int, b as int);
        }
        let q = na / b;
        proof {
            let r = (na as int) % (b as int);
            vstd::arithmetic::div_mod::lemma_fundamental_div_mod(na as int, b as int);
            assert(na as int == (b as int) * (q as int) + r);
            assert(0 <= r < b);
            assert(a as int == (-q - 1) * b + (b - 1 - r)) by (nonlinear_arith)
                requires
                    na == b * q + r,
                    na == -a - 1,
            ;
            vstd::arithmetic::div_mod::lemma_fundamental_div_mod_converse(
                a as int,
                b as int,
                -q - 1,
                b - 1 - r,
            );
        }
        -q - 1
    }
}

} // verus!
