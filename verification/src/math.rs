//! Whole-number arithmetic that several modules share.
use vstd::prelude::*;

verus! {

/// Quotient rounded towards zero.
pub open spec fn trunc_div(n: int, d: int) -> int {
    if n >= 0 {
        n / d
    } else {
        -((-n) / d)
    }
}

/// Quotient rounded towards zero.
pub fn div_to_zero(n: i64, d: i64) -> (r: i64)
    requires
        d > 0,
        n > i64::MIN,
    ensures
        r == trunc_div(n as int, d as int),
{
    if n >= 0 {
        proof {
            lemma_quotient_small(n as int, d as int);
        }
        n / d
    } else {
        let m: i64 = -n;
        proof {
            lemma_quotient_small(m as int, d as int);
        }
        -(m / d)
    }
}

/// Quotient of wide numbers, rounded towards zero.
pub fn div_wide_to_zero(n: i128, d: i128) -> (r: i128)
    requires
        d > 0,
        n > i128::MIN,
    ensures
        r == trunc_div(n as int, d as int),
{
    if n >= 0 {
        proof {
            lemma_quotient_small(n as int, d as int);
        }
        n / d
    } else {
        let m: i128 = -n;
        proof {
            lemma_quotient_small(m as int, d as int);
        }
        -(m / d)
    }
}

proof fn lemma_quotient_small(n: int, d: int)
    requires
        n >= 0,
        d > 0,
    ensures
        0 <= n / d <= n,
{
    assert(0 <= n / d <= n) by (nonlinear_arith)
        requires
            n >= 0,
            d > 0,
    ;
}

/// An angle in thousandths of a degree brought above -180 and to at most 180
/// degrees.
pub open spec fn wrapped(a: int) -> int {
    let x = a % 360_000;
    if x > 180_000 {
        x - 360_000
    } else {
        x
    }
}

/// Wraps an angle in thousandths of a degree above -180 and to at most 180
/// degrees.
pub fn wrap_half_turn(a: i64) -> (r: i64)
    ensures
        r == wrapped(a as int),
        -180_000 < r <= 180_000,
{
    let x: i64 = if a >= 0 {
        a % 360_000
    } else {
        let k: i64 = -(a + 1);
        359_999 - k % 360_000
    };
    if x > 180_000 {
        x - 360_000
    } else {
        x
    }
}

/// Wrapping keeps the direction and changes nothing that is in range already.
pub proof fn law_wrap_keeps_direction(a: int)
    ensures
        -180_000 < wrapped(a) <= 180_000,
        (a - wrapped(a)) % 360_000 == 0,
        -180_000 < a <= 180_000 ==> wrapped(a) == a,
{
}

/// `r` is the whole part of the square root of `n`.
pub open spec fn is_root(n: int, r: int) -> bool {
    r >= 0 && r * r <= n && n < (r + 1) * (r + 1)
}

/// Whole part of the square root.
pub fn isqrt(n: u128) -> (r: u64)
    requires
        n < 0x1_0000_0000_0000_0000_0000_0000,
    ensures
        is_root(n as int, r as int),
{
    let mut lo: u64 = 0;
    let mut hi: u64 = 0x1_0000_0000_0000;
    assert(0x1_0000_0000_0000int * 0x1_0000_0000_0000int
        == 0x1_0000_0000_0000_0000_0000_0000int) by (nonlinear_arith);
    while hi - lo > 1
        invariant
            0 <= lo < hi <= 0x1_0000_0000_0000,
            lo * lo <= n,
            n < hi * hi,
        decreases hi - lo,
    {
        let mid: u64 = lo + (hi - lo) / 2;
        assert(mid * mid <= 0x1_0000_0000_0000 * 0x1_0000_0000_0000) by (nonlinear_arith)
            requires
                0 <= mid <= 0x1_0000_0000_0000,
        ;
        if mid as u128 * mid as u128 <= n {
            lo = mid;
        } else {
            hi = mid;
        }
    }
    assert(hi == lo + 1);
    lo
}

/// Squared length of a vector.
pub open spec fn length2(dx: int, dy: int) -> int {
    dx * dx + dy * dy
}

/// Whole part of the length of a vector.
pub fn length(dx: i64, dy: i64) -> (r: u64)
    requires
        -100_000_000_000_000 <= dx <= 100_000_000_000_000,
        -100_000_000_000_000 <= dy <= 100_000_000_000_000,
    ensures
        is_root(length2(dx as int, dy as int), r as int),
{
    let a: u64 = if dx < 0 {
        (-dx) as u64
    } else {
        dx as u64
    };
    let b: u64 = if dy < 0 {
        (-dy) as u64
    } else {
        dy as u64
    };
    assert(a * a <= 100_000_000_000_000 * 100_000_000_000_000 && a * a == dx * dx)
        by (nonlinear_arith)
        requires
            0 <= a <= 100_000_000_000_000,
            a == dx || a == -dx,
    ;
    assert(b * b <= 100_000_000_000_000 * 100_000_000_000_000 && b * b == dy * dy)
        by (nonlinear_arith)
        requires
            0 <= b <= 100_000_000_000_000,
            b == dy || b == -dy,
    ;
    isqrt(a as u128 * a as u128 + b as u128 * b as u128)
}

/// A quotient rounded towards zero is no further from zero than the exact one, by less than
/// one, and changes its sign with the number.
pub proof fn law_quotient_towards_zero(n: int, d: int)
    requires
        d > 0,
    ensures
        n >= 0 ==> d * trunc_div(n, d) <= n < d * trunc_div(n, d) + d,
        n <= 0 ==> d * trunc_div(n, d) - d < n <= d * trunc_div(n, d),
        trunc_div(-n, d) == -trunc_div(n, d),
{
    vstd::arithmetic::div_mod::lemma_fundamental_div_mod(n, d);
    vstd::arithmetic::div_mod::lemma_fundamental_div_mod(-n, d);
    let q = (-n) / d;
    assert(d * (-q) == -(d * q)) by (nonlinear_arith);
    if n == 0 {
        assert(0int / d == 0) by (nonlinear_arith)
            requires
                d > 0,
        ;
    }
}

/// A number has one whole root, and that of a square is what was squared.
pub proof fn law_root_is_unique(n: int, a: int, b: int)
    ensures
        a >= 0 ==> is_root(a * a, a),
        is_root(n, a) && is_root(n, b) ==> a == b,
        is_root(n, a) ==> a * a <= n < a * a + 2 * a + 1,
{
    assert((a + 1) * (a + 1) == a * a + 2 * a + 1) by (nonlinear_arith);
    assert(0 <= a < b ==> (a + 1) * (a + 1) <= b * b) by (nonlinear_arith);
    assert(0 <= b < a ==> (b + 1) * (b + 1) <= a * a) by (nonlinear_arith);
}

/// The squared length is the square along an axis, and the two axes add up, whichever way
/// the vector points.
pub proof fn law_squared_length(dx: int, dy: int)
    ensures
        length2(dx, 0) == dx * dx,
        length2(0, dy) == dy * dy,
        length2(dx, dy) == length2(dx, 0) + length2(0, dy),
        length2(-dx, dy) == length2(dx, dy),
        length2(dy, dx) == length2(dx, dy),
{
    assert((-dx) * (-dx) == dx * dx) by (nonlinear_arith);
}

} // verus!
