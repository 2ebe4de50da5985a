//! Single-precision arithmetic in whole numbers.
//!
//! A single-precision value has 24 significant bits, and the result of every
//! operation is the nearest such value, the even one of two equally near. Here a
//! value is a whole number of some power of two that the user keeps in mind:
//! rounding does not depend on it. The exponents of the values in question are far
//! from the format's limits.
use vstd::arithmetic::div_mod::{
    lemma_div_denominator, lemma_fundamental_div_mod, lemma_fundamental_div_mod_converse,
};
use vstd::arithmetic::power2::{lemma_pow2_adds, lemma_pow2_pos, lemma_pow2_unfold, pow2};
use vstd::bits::lemma_u128_shr_is_div;
use vstd::prelude::*;

verus! {

/// Spacing of single-precision values around the whole number `n`: the least power
/// of two of which `n` holds fewer than 2^24.
pub open spec fn spacing(n: nat) -> nat
    decreases n,
{
    if n < 0x100_0000 {
        1
    } else {
        2 * spacing(n / 2)
    }
}

/// `n / d` rounded to the nearest whole number, the even one of two equally near.
pub open spec fn half_even(n: int, d: int) -> int {
    let (q, r) = (n / d, n % d);
    if 2 * r < d {
        q
    } else if 2 * r > d {
        q + 1
    } else {
        q + q % 2
    }
}

/// Quotient of two positive whole numbers in single precision, as a whole number;
/// meant for quotients of at least 2^23, or a divisor of 1.
pub open spec fn quotient(n: int, d: int) -> int {
    let u = spacing((n / d) as nat) as int;
    half_even(n, d * u) * u
}

/// A whole number in single precision.
pub open spec fn single(n: int) -> int {
    if n >= 0 {
        quotient(n, 1)
    } else {
        -quotient(-n, 1)
    }
}

/// Ratio of two whole numbers in single precision, in units of 2^-56.
pub open spec fn ratio(a: int, b: int) -> int {
    quotient(single(a) * 0x100_0000_0000_0000, single(b))
}

/// `n / d` rounded to the nearest whole number, halves away from zero; nothing
/// below zero.
pub open spec fn nearest(n: int, d: int) -> int {
    if n < 0 {
        0
    } else {
        (2 * n + d) / (2 * d)
    }
}

// ── Facts ─────────────────────────────────────────────────────────────────────

pub proof fn lemma_spacing(n: nat)
    ensures
        spacing(n) >= 1,
        spacing(n) == 1 || spacing(n) * 0x80_0000 <= n,
    decreases n,
{
    if n >= 0x100_0000 {
        lemma_spacing(n / 2);
    }
}

proof fn lemma_spacing_divides(a: nat, b: nat)
    requires
        a <= b,
    ensures
        spacing(b) % spacing(a) == 0,
    decreases b,
{
    lemma_spacing(a);
    lemma_spacing(b);
    if a < 0x100_0000 {
        assert(spacing(b) % 1 == 0);
    } else {
        lemma_spacing_divides(a / 2, b / 2);
        let (x, y) = (spacing(a / 2) as int, spacing(b / 2) as int);
        lemma_spacing(a / 2);
        lemma_fundamental_div_mod(y, x);
        let q = y / x;
        assert(2 * y == (2 * x) * q) by (nonlinear_arith)
            requires
                y == x * q,
        ;
        lemma_fundamental_div_mod_converse(2 * y, 2 * x, q, 0);
    }
}

/// Halving `k` times.
proof fn lemma_spacing_shift(n: nat, k: nat)
    requires
        n >= 0x80_0000 * pow2(k),
    ensures
        spacing(n) == pow2(k) * spacing(n / pow2(k)),
    decreases k,
{
    lemma_pow2_pos(k);
    if k == 0 {
        assert(pow2(0) == 1) by {
            vstd::arithmetic::power2::lemma2_to64();
        }
    } else {
        let j = (k - 1) as nat;
        lemma_pow2_pos(j);
        lemma_pow2_unfold(k);
        lemma_spacing_shift(n / 2, j);
        lemma_div_denominator(n as int, 2, pow2(j) as int);
        let s = spacing(n / pow2(k));
        assert(2 * (pow2(j) * s) == pow2(k) * s) by (nonlinear_arith)
            requires
                pow2(k) == 2 * pow2(j),
        ;
    }
}

/// How far rounding is off: at most half the spacing.
pub proof fn lemma_quotient(n: int, d: int)
    requires
        n >= 0,
        d > 0,
    ensures
        n / d >= 0,
        -d * spacing((n / d) as nat) <= 2 * (d * quotient(n, d) - n) <= d * spacing((n / d) as nat),
        0 <= quotient(n, d) <= 2 * (n / d) + 1,
{
    assert(n / d >= 0) by (nonlinear_arith)
        requires
            n >= 0,
            d > 0,
    ;
    let m = n / d;
    let u = spacing(m as nat) as int;
    lemma_spacing(m as nat);
    let b = d * u;
    assert(b > 0) by (nonlinear_arith)
        requires
            d > 0,
            u >= 1,
            b == d * u,
    ;
    lemma_fundamental_div_mod(n, b);
    let (q, r) = (n / b, n % b);
    let h = half_even(n, b);
    assert(q >= 0) by (nonlinear_arith)
        requires
            n == b * q + r,
            0 <= r < b,
            n >= 0,
            b > 0,
    ;
    assert(h == q && 2 * r <= b || h == q + 1 && 2 * r >= b);
    assert(d * (h * u) == b * h) by (nonlinear_arith)
        requires
            b == d * u,
    ;
    assert(-b <= 2 * (b * h - n) <= b) by (nonlinear_arith)
        requires
            n == b * q + r,
            0 <= r < b,
            h == q && 2 * r <= b || h == q + 1 && 2 * r >= b,
    ;
    assert(-d * u == -b) by (nonlinear_arith)
        requires
            b == d * u,
    ;
    assert(0 <= h * u) by (nonlinear_arith)
        requires
            h >= 0,
            u >= 1,
    ;
    // The quotient itself.
    lemma_fundamental_div_mod(n, d);
    let v = h * u;
    if u == 1 {
        assert(v <= m + 1) by (nonlinear_arith)
            requires
                2 * (d * v - n) <= d,
                n == d * m + n % d,
                0 <= n % d < d,
                d > 0,
        ;
    } else {
        assert(v <= 2 * m + 1) by (nonlinear_arith)
            requires
                2 * (d * v - n) <= d * u,
                n == d * m + n % d,
                0 <= n % d < d,
                u * 0x80_0000 <= m,
                d > 0,
                m >= 0,
        ;
    }
}

/// Bounds on a rounded whole number.
pub proof fn lemma_single(n: int)
    ensures
        n >= 0 ==> 0 <= single(n) <= 2 * n,
        n >= 0 ==> n <= 2 * single(n),
        n >= 0 ==> 0x100_0000 * single(n) <= 0x100_0001 * n,
        n <= 0 ==> 0x100_0001 * n <= 0x100_0000 * single(n),
        n <= 0 ==> 2 * n <= single(n) <= 0,
        -0x100_0000 < n < 0x100_0000 ==> single(n) == n,
{
    let m = if n >= 0 {
        n
    } else {
        -n
    };
    lemma_quotient(m, 1);
    lemma_spacing(m as nat);
    assert(m / 1 == m);
    let u = spacing(m as nat) as int;
    let v = quotient(m, 1);
    assert(-1 * u == -u && 1 * u == u && 1 * v == v);
    if m < 0x100_0000 {
        assert(u == 1 && half_even(m, 1) == m);
        assert(v == m);
    }
}

/// `n` is a single-precision value.
pub open spec fn is_single(n: nat) -> bool {
    n % spacing(n) == 0
}

proof fn lemma_double(n: nat)
    requires
        is_single(n),
    ensures
        is_single(2 * n),
{
    lemma_spacing(n);
    lemma_spacing(2 * n);
    if 2 * n >= 0x100_0000 {
        assert((2 * n) / 2 == n);
        let u = spacing(n);
        assert(spacing(2 * n) == 2 * u);
        lemma_fundamental_div_mod(n as int, u as int);
        let q = (n / u) as int;
        assert(2 * n == (2 * u) * q) by (nonlinear_arith)
            requires
                n == u * q,
        ;
        lemma_fundamental_div_mod_converse(2 * n as int, 2 * u as int, q, 0);
    }
}

/// 24 bits and a power of two make a single-precision value.
pub proof fn lemma_is_single(m: nat, k: nat)
    requires
        m < 0x100_0000,
    ensures
        is_single(m * pow2(k)),
        single((m * pow2(k)) as int) == m * pow2(k),
    decreases k,
{
    lemma_pow2_pos(k);
    if k == 0 {
        assert(pow2(0) == 1) by {
            vstd::arithmetic::power2::lemma2_to64();
        }
        assert(m * 1 == m);
    } else {
        lemma_is_single(m, (k - 1) as nat);
        lemma_pow2_unfold(k);
        let h = m * pow2((k - 1) as nat);
        assert(m * pow2(k) == 2 * h) by (nonlinear_arith)
            requires
                pow2(k) == 2 * pow2((k - 1) as nat),
                h == m * pow2((k - 1) as nat),
        ;
        lemma_double(h);
    }
    lemma_kept(m * pow2(k));
}

/// A single-precision value is its own rounding.
pub proof fn lemma_kept(n: nat)
    requires
        is_single(n),
    ensures
        single(n as int) == n,
{
    let u = spacing(n) as int;
    lemma_spacing(n);
    assert(n as int / 1 == n);
    assert(1 * u == u);
    lemma_fundamental_div_mod(n as int, u);
    assert(n == (n as int / u) * u) by (nonlinear_arith)
        requires
            n == u * (n as int / u),
    ;
}

/// A quotient that is at most a single-precision value is rounded to no more.
pub proof fn lemma_quotient_at_most(n: int, d: int, m: nat)
    requires
        n >= 0,
        d > 0,
        n <= d * m,
        is_single(m),
    ensures
        0 <= quotient(n, d) <= m,
{
    lemma_quotient(n, d);
    let f = n / d;
    lemma_fundamental_div_mod(n, d);
    assert(f <= m) by (nonlinear_arith)
        requires
            n == d * f + n % d,
            0 <= n % d < d,
            n <= d * m,
            d > 0,
    ;
    let u = spacing(f as nat) as int;
    lemma_spacing(f as nat);
    lemma_spacing(m);
    lemma_spacing_divides(f as nat, m);
    let t = spacing(m) as int;
    lemma_fundamental_div_mod(t, u);
    lemma_fundamental_div_mod(m as int, t);
    let c = (t / u) * (m as int / t);
    assert(m == u * c) by (nonlinear_arith)
        requires
            t == u * (t / u),
            m == t * (m as int / t),
            c == (t / u) * (m as int / t),
    ;
    let b = d * u;
    assert(b > 0) by (nonlinear_arith)
        requires
            b == d * u,
            d > 0,
            u >= 1,
    ;
    lemma_fundamental_div_mod(n, b);
    let (q, r) = (n / b, n % b);
    assert(n <= b * c) by (nonlinear_arith)
        requires
            n <= d * m,
            m == u * c,
            b == d * u,
    ;
    assert(q < c || q == c && r == 0) by (nonlinear_arith)
        requires
            n == b * q + r,
            0 <= r < b,
            n <= b * c,
            b > 0,
    ;
    let h = half_even(n, b);
    assert(h <= c);
    assert(h * u <= m) by (nonlinear_arith)
        requires
            h <= c,
            m == u * c,
            u >= 1,
    ;
}

proof fn lemma_below_spacing(n: nat)
    ensures
        n < 0x100_0000 * spacing(n),
    decreases n,
{
    if n >= 0x100_0000 {
        lemma_below_spacing(n / 2);
    }
}

/// A multiple of the spacing that a quotient reaches, it keeps.
proof fn lemma_quotient_reaches(n: int, d: int, c: int)
    requires
        n >= 0,
        d > 0,
        c * spacing((n / d) as nat) <= n / d,
    ensures
        quotient(n, d) >= c * spacing((n / d) as nat),
{
    let f = n / d;
    let u = spacing(f as nat) as int;
    lemma_spacing(f as nat);
    lemma_fundamental_div_mod(n, d);
    let b = d * u;
    assert(b > 0) by (nonlinear_arith)
        requires
            b == d * u,
            d > 0,
            u >= 1,
    ;
    lemma_fundamental_div_mod(n, b);
    let (q, r) = (n / b, n % b);
    assert(n >= b * c) by (nonlinear_arith)
        requires
            n == d * f + n % d,
            n % d >= 0,
            c * u <= f,
            b == d * u,
            d > 0,
    ;
    assert(q >= c) by (nonlinear_arith)
        requires
            n == b * q + r,
            0 <= r < b,
            n >= b * c,
            b > 0,
    ;
    assert(q >= 0) by (nonlinear_arith)
        requires
            n == b * q + r,
            0 <= r < b,
            n >= 0,
            b > 0,
    ;
    let h = half_even(n, b);
    assert(h >= c);
    assert(h * u >= c * u) by (nonlinear_arith)
        requires
            h >= c,
            u >= 1,
    ;
}

/// Rounding keeps the order.
pub proof fn lemma_quotient_monotone(m: int, n: int, d: int)
    requires
        0 <= m <= n,
        d > 0,
    ensures
        quotient(m, d) <= quotient(n, d),
{
    lemma_fundamental_div_mod(m, d);
    lemma_fundamental_div_mod(n, d);
    let (f, g) = (m / d, n / d);
    assert(0 <= f <= g) by (nonlinear_arith)
        requires
            m == d * f + m % d,
            n == d * g + n % d,
            0 <= m % d < d,
            0 <= n % d < d,
            0 <= m <= n,
            d > 0,
    ;
    let (u, t) = (spacing(f as nat) as int, spacing(g as nat) as int);
    lemma_spacing(f as nat);
    lemma_spacing(g as nat);
    let b = d * u;
    assert(b > 0) by (nonlinear_arith)
        requires
            b == d * u,
            d > 0,
            u >= 1,
    ;
    lemma_fundamental_div_mod(m, b);
    let (q, r) = (m / b, m % b);
    let h = half_even(m, b);
    if u == t {
        lemma_fundamental_div_mod(n, b);
        let (k, w) = (n / b, n % b);
        assert(q < k || q == k && r <= w) by (nonlinear_arith)
            requires
                m == b * q + r,
                n == b * k + w,
                0 <= r < b,
                0 <= w < b,
                m <= n,
                b > 0,
        ;
        let j = half_even(n, b);
        assert(h <= j);
        assert(h * u <= j * u) by (nonlinear_arith)
            requires
                h <= j,
                u >= 1,
        ;
    } else {
        lemma_spacing_divides(f as nat, g as nat);
        lemma_fundamental_div_mod(t, u);
        assert(t >= 2 * u) by (nonlinear_arith)
            requires
                t == u * (t / u),
                t != u,
                t >= 1,
                u >= 1,
        ;
        lemma_below_spacing(f as nat);
        assert(m < b * 0x100_0000) by (nonlinear_arith)
            requires
                m == d * f + m % d,
                m % d < d,
                f < 0x100_0000 * u,
                b == d * u,
                d > 0,
        ;
        assert(q < 0x100_0000) by (nonlinear_arith)
            requires
                m == b * q + r,
                r >= 0,
                m < b * 0x100_0000,
                b > 0,
        ;
        assert(h * u <= 0x100_0000 * u) by (nonlinear_arith)
            requires
                h <= 0x100_0000,
                u >= 1,
        ;
        lemma_quotient_reaches(n, d, 0x80_0000);
    }
}

/// A common factor does not change a quotient.
pub proof fn lemma_common_factor(m: nat, d: int)
    requires
        d > 0,
    ensures
        quotient(d * m, d) == single(m as int),
{
    assert(d * m == m * d) by (nonlinear_arith);
    lemma_fundamental_div_mod_converse(d * m, d, m as int, 0);
    let u = spacing(m) as int;
    lemma_spacing(m);
    assert(m as int / 1 == m && 1 * u == u);
    lemma_fundamental_div_mod(m as int, u);
    let (q, r) = (m as int / u, m as int % u);
    assert(d * m == q * (d * u) + d * r) by (nonlinear_arith)
        requires
            m == u * q + r,
    ;
    assert(0 <= d * r < d * u) by (nonlinear_arith)
        requires
            0 <= r < u,
            d > 0,
    ;
    lemma_fundamental_div_mod_converse(d * m, d * u, q, d * r);
    assert((2 * (d * r) < d * u) == (2 * r < u) && (2 * (d * r) > d * u) == (2 * r > u))
        by (nonlinear_arith)
        requires
            d > 0,
    ;
}

// ── Computation ───────────────────────────────────────────────────────────────

/// Spacing around `n`, and which power of two it is.
fn spacing_at(n: u128) -> (r: (u128, u32))
    ensures
        r.0 == spacing(n as nat),
        r.0 == pow2(r.1 as nat),
        r.1 < 128,
{
    let mut t: u128 = n;
    let mut u: u128 = 1;
    let mut k: u32 = 0;
    proof {
        vstd::arithmetic::power2::lemma2_to64();
        lemma_pow2_adds(64, 0);
    }
    if t >= 0x80_0000_0000_0000_0000_0000 {
        proof {
            lemma_spacing_shift(t as nat, 64);
        }
        t = t / 0x1_0000_0000_0000_0000;
        u = 0x1_0000_0000_0000_0000;
        k = 64;
    }
    if t >= 0x80_0000_0000_0000 {
        proof {
            lemma_spacing_shift(t as nat, 32);
            lemma_pow2_adds(k as nat, 32);
        }
        t = t / 0x1_0000_0000;
        u = u * 0x1_0000_0000;
        k = k + 32;
    }
    if t >= 0x80_0000_0000 {
        proof {
            lemma_spacing_shift(t as nat, 16);
            lemma_pow2_adds(k as nat, 16);
        }
        t = t / 0x1_0000;
        u = u * 0x1_0000;
        k = k + 16;
    }
    if t >= 0x8000_0000 {
        proof {
            lemma_spacing_shift(t as nat, 8);
            lemma_pow2_adds(k as nat, 8);
        }
        t = t / 0x100;
        u = u * 0x100;
        k = k + 8;
    }
    if t >= 0x800_0000 {
        proof {
            lemma_spacing_shift(t as nat, 4);
            lemma_pow2_adds(k as nat, 4);
        }
        t = t / 0x10;
        u = u * 0x10;
        k = k + 4;
    }
    if t >= 0x200_0000 {
        proof {
            lemma_spacing_shift(t as nat, 2);
            lemma_pow2_adds(k as nat, 2);
        }
        t = t / 4;
        u = u * 4;
        k = k + 2;
    }
    if t >= 0x100_0000 {
        proof {
            lemma_spacing_shift(t as nat, 1);
            lemma_pow2_adds(k as nat, 1);
        }
        t = t / 2;
        u = u * 2;
        k = k + 1;
    }
    (u, k)
}

/// Largest number that is divided or rounded here.
pub const MAX_MAGNITUDE: u128 = 0x3FFF_FFFF_FFFF_FFFF_FFFF_FFFF_FFFF_FFFF;

/// Quotient in single precision.
pub fn divide(n: u128, d: u128) -> (r: u128)
    requires
        d > 0,
        n <= MAX_MAGNITUDE,
        d <= MAX_MAGNITUDE,
    ensures
        r == quotient(n as int, d as int),
{
    let m: u128 = n / d;
    let (u, k): (u128, u32) = spacing_at(m);
    proof {
        lemma_spacing(m as nat);
        lemma_quotient(n as int, d as int);
        lemma_fundamental_div_mod(n as int, d as int);
        assert(u > 1 ==> d * u <= n) by (nonlinear_arith)
            requires
                u > 1 ==> u * 0x80_0000 <= m,
                n == d * m + n % d,
                n % d >= 0,
                d > 0,
                u >= 1,
        ;
        assert(u == 1 ==> d * u == d) by (nonlinear_arith);
        assert(d * u > 0) by (nonlinear_arith)
            requires
                d > 0,
                u >= 1,
        ;
    }
    let b: u128 = d * u;
    let q: u128 = n / b;
    let r: u128 = n % b;
    let up: bool = r > b - r || r == b - r && q % 2 == 1;
    let h: u128 = if up {
        q + 1
    } else {
        q
    };
    assert(h == half_even(n as int, b as int));
    h * u
}

fn round_magnitude(n: u128) -> (r: u128)
    requires
        n <= MAX_MAGNITUDE,
    ensures
        r == quotient(n as int, 1),
{
    if n < 0x100_0000 {
        proof {
            lemma_single(n as int);
        }
        return n;
    }
    let (u, k): (u128, u32) = spacing_at(n);
    proof {
        lemma_spacing(n as nat);
        lemma_quotient(n as int, 1);
        lemma_u128_shr_is_div(n, k as u128);
        assert(n as int / 1 == n && 1 * u == u);
        lemma_fundamental_div_mod(n as int, u as int);
    }
    let q: u128 = n >> (k as u128);
    assert(q * u <= n) by (nonlinear_arith)
        requires
            n == u * q + n % u,
            n % u >= 0,
    ;
    assert(u * q == q * u) by (nonlinear_arith);
    let r: u128 = n - q * u;
    let up: bool = r > u - r || r == u - r && q % 2 == 1;
    let h: u128 = if up {
        q + 1
    } else {
        q
    };
    assert(h == half_even(n as int, u as int));
    h * u
}

/// A whole number in single precision.
pub fn round(n: i128) -> (r: i128)
    requires
        -MAX_MAGNITUDE <= n <= MAX_MAGNITUDE,
    ensures
        r == single(n as int),
        n >= 0 ==> 0 <= r && 0x100_0000 * r <= 0x100_0001 * n,
        n <= 0 ==> r <= 0 && 0x100_0001 * n <= 0x100_0000 * r,
{
    proof {
        lemma_single(n as int);
    }
    if n >= 0 {
        round_magnitude(n as u128) as i128
    } else {
        -(round_magnitude((-n) as u128) as i128)
    }
}

// ── What rounding means ───────────────────────────────────────────────────────

/// Rounding goes to a nearest whole number: none is nearer to `n / d`, and of two that are
/// equally near it is the even one.
pub proof fn law_rounds_to_the_nearest(n: int, d: int, other: int)
    requires
        d > 0,
    ensures
        ({
            let r = half_even(n, d);
            let off = if d * r >= n {
                d * r - n
            } else {
                n - d * r
            };
            let off_other = if d * other >= n {
                d * other - n
            } else {
                n - d * other
            };
            &&& off <= off_other
            &&& off == off_other && other != r ==> r % 2 == 0
        }),
{
    lemma_fundamental_div_mod(n, d);
    let r = half_even(n, d);
    let (q, m) = (n / d, n % d);
    assert(d * (q + 1) == d * q + d) by (nonlinear_arith);
    assert(other <= q ==> d * other <= d * q) by (nonlinear_arith)
        requires
            d > 0,
    ;
    assert(other < q ==> d * other <= d * q - d) by (nonlinear_arith)
        requires
            d > 0,
    ;
    assert(other > q ==> d * other >= d * q + d) by (nonlinear_arith)
        requires
            d > 0,
    ;
    assert(other > q + 1 ==> d * other >= d * q + 2 * d) by (nonlinear_arith)
        requires
            d > 0,
    ;
    assert(r == q || r == q + 1);
    if 2 * m == d {
        assert((q + q % 2) % 2 == 0);
    }
}

/// Whole numbers below 2^24 are single-precision values as they are; above, values have 24
/// binary digits: they are spaced by the power of two that leaves a number between 2^23 and
/// 2^24 of steps.
pub proof fn law_spacing(n: nat)
    ensures
        n < 0x100_0000 ==> spacing(n) == 1,
        n >= 0x100_0000 ==> 0x80_0000 * spacing(n) <= n < 0x100_0000 * spacing(n),
        n >= 0x100_0000 ==> spacing(n) == 2 * spacing(n / 2),
{
    lemma_spacing(n);
    lemma_below_spacing(n);
}

/// A number in single precision keeps its sign and is off by at most one part in 2^24;
/// below 2^24 it is exact.
pub proof fn law_single_is_near(n: int)
    ensures
        -0x100_0000 < n < 0x100_0000 ==> single(n) == n,
        n >= 0 ==> 0 <= single(n) && -n <= 0x100_0000 * (single(n) - n) <= n,
        n <= 0 ==> single(n) <= 0 && n <= 0x100_0000 * (single(n) - n) <= -n,
        single(-n) == -single(n),
{
    lemma_single(n);
    lemma_single(-n);
    let m = if n >= 0 {
        n
    } else {
        -n
    };
    lemma_quotient(m, 1);
    assert(m / 1 == m);
    lemma_spacing(m as nat);
    if m == 0 {
    } else if m < 0x100_0000 {
    } else {
        let u = spacing(m as nat) as int;
        assert(-1 * u == -u && 1 * u == u);
        assert(1 * quotient(m, 1) == quotient(m, 1));
        assert(u * 0x80_0000 <= m);
    }
}

/// A quotient in single precision is off by at most one part in 2^24 where it has 24 binary
/// digits or more, and by at most a half below.
pub proof fn law_quotient_is_near(n: int, d: int)
    requires
        n >= 0,
        d > 0,
    ensures
        n >= 0x100_0000 * d ==> -n <= 0x100_0000 * (d * quotient(n, d) - n) <= n,
        n < 0x100_0000 * d ==> -d <= 2 * (d * quotient(n, d) - n) <= d,
{
    lemma_quotient(n, d);
    let f = n / d;
    lemma_fundamental_div_mod(n, d);
    lemma_spacing(f as nat);
    let u = spacing(f as nat) as int;
    let e = d * quotient(n, d) - n;
    assert(n >= 0x100_0000 * d ==> f >= 0x100_0000) by (nonlinear_arith)
        requires
            n == d * f + n % d,
            0 <= n % d < d,
            d > 0,
    ;
    assert(n < 0x100_0000 * d ==> f < 0x100_0000) by (nonlinear_arith)
        requires
            n == d * f + n % d,
            0 <= n % d < d,
            d > 0,
    ;
    if n >= 0x100_0000 * d {
        assert(u * 0x80_0000 <= f);
        assert(0x80_0000 * (d * u) <= n) by (nonlinear_arith)
            requires
                u * 0x80_0000 <= f,
                n == d * f + n % d,
                0 <= n % d < d,
                d > 0,
        ;
        assert(-d * u == -(d * u)) by (nonlinear_arith);
    } else {
        assert(u == 1);
        assert(-d * u == -d && d * u == d) by (nonlinear_arith)
            requires
                u == 1,
        ;
    }
}

/// Rounding a fraction goes to the nearest whole number, and up from the middle; a negative
/// one counts as nothing.
pub proof fn law_nearest(n: int, d: int)
    requires
        d > 0,
    ensures
        n < 0 ==> nearest(n, d) == 0,
        n >= 0 ==> -d <= 2 * (n - d * nearest(n, d)) < d,
{
    if n >= 0 {
        lemma_fundamental_div_mod(2 * n + d, 2 * d);
        let v = nearest(n, d);
        assert((2 * d) * v == 2 * (d * v)) by (nonlinear_arith);
    }
}

} // verus!
