//! Integer division as machine integers perform it: the quotient is
//! truncated toward zero.
use vstd::prelude::*;
use vstd::arithmetic::div_mod::{lemma_fundamental_div_mod, lemma_fundamental_div_mod_converse};

verus! {

/// Quotient of `a / b` rounded toward zero (the spec `/` is Euclidean, which
/// agrees with truncation whenever the dividend is not negative).
pub open spec fn trunc_div(a: int, b: int) -> int {
    if a >= 0 {
        a / b
    } else {
        -((-a) / b)
    }
}

/// Remainder of `a / b` with the sign of `a`.
pub open spec fn trunc_rem(a: int, b: int) -> int {
    if a >= 0 {
        a % b
    } else {
        -((-a) % b)
    }
}

/// Euclidean division by a negated divisor negates the quotient.
proof fn lemma_div_neg_divisor(a: int, b: int)
    requires
        b != 0,
    ensures
        a / b == -(a / (-b)),
{
    lemma_fundamental_div_mod(a, -b);
    let q = a / (-b);
    let r = a % (-b);
    assert(0 <= r < if b < 0 { -b } else { b }) by (nonlinear_arith)
        requires
            b != 0,
            r == a % (-b),
    ;
    assert(a == b * (-q) + r) by (nonlinear_arith)
        requires
            a == (-b) * q + r,
    ;
    if b > 0 {
        assert(a == (-q) * b + r) by (nonlinear_arith)
            requires
                a == b * (-q) + r,
        ;
        lemma_fundamental_div_mod_converse(a, b, -q, r);
    } else {
        assert(a / b == -q) by (nonlinear_arith)
            requires
                a == b * (-q) + r,
                0 <= r < -b,
                b < 0,
        ;
    }
}

/// Dividing by the most negative machine integer.
proof fn lemma_div_min_divisor(a: int)
    requires
        i64::MIN <= a <= i64::MAX,
    ensures
        trunc_div(a, i64::MIN as int) == if a == i64::MIN {
            1int
        } else {
            0int
        },
{
    let m = i64::MIN as int;
    lemma_div_neg_divisor(a, m);
    lemma_div_neg_divisor(-a, m);
    if a >= 0 {
        lemma_fundamental_div_mod_converse(a, -m, 0, a);
    } else if a == m {
        lemma_fundamental_div_mod_converse(-a, -m, 1, 0);
    } else {
        lemma_fundamental_div_mod_converse(-a, -m, 0, -a);
    }
}

/// Quotient of a positive divisor.
fn div_pos(a: i64, b: i64) -> (r: i64)
    requires
        b > 0,
    ensures
        r == trunc_div(a as int, b as int),
{
    a / b
}

/// Remainder of a positive divisor; it is zero exactly when `b` divides `a`.
pub fn rem_pos(a: i64, b: i64) -> (r: i64)
    requires
        b > 0,
    ensures
        r == trunc_rem(a as int, b as int),
        (r == 0) == (a as int % b as int == 0),
{
    proof {
        lemma_rem_zero(a as int, b as int);
    }
    a % b
}

/// A dividend and its negation are multiples of `b` together.
pub proof fn lemma_rem_zero(a: int, b: int)
    requires
        b > 0,
    ensures
        (a % b == 0) == ((-a) % b == 0),
{
    lemma_fundamental_div_mod(a, b);
    lemma_fundamental_div_mod(-a, b);
    if a % b == 0 {
        assert(-a == (-(a / b)) * b + 0) by (nonlinear_arith)
            requires
                a == b * (a / b) + 0,
        ;
        lemma_fundamental_div_mod_converse(-a, b, -(a / b), 0);
    }
    if (-a) % b == 0 {
        assert(a == (-((-a) / b)) * b + 0) by (nonlinear_arith)
            requires
                -a == b * ((-a) / b) + 0,
        ;
        lemma_fundamental_div_mod_converse(a, b, -((-a) / b), 0);
    }
}

/// Signed division of machine integers.
pub fn div_i64(a: i64, b: i64) -> (r: i64)
    requires
        b != 0,
        !(a == i64::MIN && b == -1),
    ensures
        r == trunc_div(a as int, b as int),
{
    if b > 0 {
        div_pos(a, b)
    } else if b == i64::MIN {
        proof {
            lemma_div_min_divisor(a as int);
        }
        if a == i64::MIN {
            1
        } else {
            0
        }
    } else {
        proof {
            lemma_div_neg_divisor(a as int, b as int);
            lemma_div_neg_divisor(-(a as int), b as int);
        }
        let q = div_pos(a, -b);
        proof {
            assert(q as int == trunc_div(a as int, -(b as int)));
            assert(-b >= 1);
            assert(q >= -(i64::MAX as int)) by (nonlinear_arith)
                requires
                    q == trunc_div(a as int, -(b as int)),
                    -b >= 2 || a != i64::MIN,
                    -b >= 1,
                    a >= i64::MIN,
            ;
        }
        -q
    }
}

} // verus!
