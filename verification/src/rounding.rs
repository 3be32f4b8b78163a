//! Whole-number arithmetic that rounds the way IEEE 754 double precision
//! does: to 53 significant bits, a tie going to the even neighbour.
//!
//! Sizes and percentages are shown to users as double-precision arithmetic
//! gives them, so both are computed here digit for digit.

use vstd::arithmetic::power2::{
    lemma_pow2_adds, lemma_pow2_pos, lemma_pow2_strictly_increases, lemma_pow2_unfold, pow2,
};
use vstd::prelude::*;

verus! {

/// The least 53-bit number.
pub const MANTISSA_MIN: u64 = 0x10_0000_0000_0000;

/// One more than the greatest 53-bit number.
pub const MANTISSA_END: u64 = 0x20_0000_0000_0000;

/// The whole number nearest to `n / d`, a tie going to the even one.
pub open spec fn round_half_even(n: nat, d: nat) -> nat {
    let whole = n / d;
    let rest = n % d;
    if 2 * rest < d || (2 * rest == d && whole % 2 == 0) {
        whole
    } else {
        whole + 1
    }
}

/// `num / den` divided by two to the power `e`, as a numerator and a denominator.
pub open spec fn scaled(num: nat, den: nat, e: int) -> (nat, nat) {
    if e >= 0 {
        (num, den * pow2(e as nat))
    } else {
        (num * pow2((-e) as nat), den)
    }
}

/// The whole part of `num / den`, divided by two to the power `e`, has 53 bits.
pub open spec fn has_exponent(num: nat, den: nat, e: int) -> bool {
    let (n, d) = scaled(num, den, e);
    MANTISSA_MIN * d <= n < MANTISSA_END * d
}

/// A number `mantissa * 2^exponent`.
pub struct Double {
    pub mantissa: nat,
    pub exponent: int,
}

/// The double nearest to `num / den`.
pub open spec fn nearest_double(num: nat, den: nat) -> Double {
    if num == 0 {
        Double { mantissa: 0, exponent: 0 }
    } else {
        let e = choose|e: int| has_exponent(num, den, e);
        let (n, d) = scaled(num, den, e);
        Double { mantissa: round_half_even(n, d), exponent: e }
    }
}

/// The double nearest to a whole number is whole itself: this is its value.
pub open spec fn whole_as_double(x: nat) -> nat {
    if x < MANTISSA_END {
        x
    } else {
        let r = nearest_double(x, 1);
        r.mantissa * pow2(r.exponent as nat)
    }
}

/// The whole part of a double.
pub open spec fn truncated(x: Double) -> nat {
    if x.exponent >= 0 {
        x.mantissa * pow2(x.exponent as nat)
    } else {
        x.mantissa / pow2((-x.exponent) as nat)
    }
}

/// The whole number nearest to `n / d`, a tie going to the even one.
pub fn rounded_quotient(n: u128, d: u128) -> (r: u128)
    requires
        0 < d <= 0xffff_ffff_ffff_ffff_ffff_ffff_ffff,
        n <= 0xffff_ffff_ffff_ffff_ffff_ffff_ffff_ffff - 1,
    ensures
        r == round_half_even(n as nat, d as nat),
{
    let whole: u128 = n / d;
    let rest: u128 = n % d;
    if 2 * rest < d || (2 * rest == d && whole % 2 == 0) {
        whole
    } else {
        proof {
            assert(n / d <= n) by (nonlinear_arith)
                requires
                    d > 0,
            ;
        }
        whole + 1
    }
}

/// A number has one exponent.
proof fn exponent_is_unique(num: nat, den: nat, a: int, b: int)
    requires
        has_exponent(num, den, a),
        has_exponent(num, den, b),
    ensures
        a == b,
{
    exponent_is_no_less(num, den, a, b);
    exponent_is_no_less(num, den, b, a);
}

proof fn exponent_is_no_less(num: nat, den: nat, a: int, b: int)
    requires
        has_exponent(num, den, a),
        has_exponent(num, den, b),
    ensures
        a >= b,
{
    if a < b {
        let m: int = MANTISSA_MIN as int;
        if a >= 0 {
            let p = pow2(a as nat);
            let q = pow2(b as nat);
            let k = pow2((b - a - 1) as nat);
            lemma_pow2_adds(a as nat, (b - a) as nat);
            lemma_pow2_unfold((b - a) as nat);
            lemma_pow2_pos((b - a - 1) as nat);
            lemma_pow2_pos(a as nat);
            assert(num < m * (den * q)) by (nonlinear_arith)
                requires
                    q == p * (2 * k),
                    k >= 1,
                    p >= 1,
                    m >= 0,
                    num < (2 * m) * (den * p),
            ;
        } else if b < 0 {
            let p = pow2((-a) as nat);
            let q = pow2((-b) as nat);
            let k = pow2((b - a - 1) as nat);
            lemma_pow2_adds((-b) as nat, (b - a) as nat);
            lemma_pow2_unfold((b - a) as nat);
            lemma_pow2_pos((b - a - 1) as nat);
            lemma_pow2_pos((-b) as nat);
            assert(num * p >= (2 * m) * den) by (nonlinear_arith)
                requires
                    p == q * (2 * k),
                    k >= 1,
                    q >= 1,
                    m * den <= num * q,
            ;
        } else {
            let p = pow2((-a) as nat);
            let q = pow2(b as nat);
            let k = pow2((-a - 1) as nat);
            lemma_pow2_unfold((-a) as nat);
            lemma_pow2_pos((-a - 1) as nat);
            lemma_pow2_pos(b as nat);
            assert(m * den <= m * (den * q)) by (nonlinear_arith)
                requires
                    q >= 1,
                    m >= 0,
            ;
            assert(num * p >= (2 * m) * den) by (nonlinear_arith)
                requires
                    p == 2 * k,
                    k >= 1,
                    m * den <= num,
            ;
        }
    }
}

/// A double with a mantissa of at most 54 bits.
pub struct Scaled {
    pub mantissa: u64,
    pub exponent: i32,
}

impl View for Scaled {
    type V = Double;

    open spec fn view(&self) -> Double {
        Double { mantissa: self.mantissa as nat, exponent: self.exponent as int }
    }
}

/// The double nearest to `num / den`.
pub fn nearest(num: u128, den: u128) -> (r: Scaled)
    requires
        num <= 0x1_0000_0000_0000_0000,
        0 < den <= 0x1_0000_0000_0000_0000,
    ensures
        r@ == nearest_double(num as nat, den as nat),
        r.mantissa <= MANTISSA_END,
        num > 0 ==> r.mantissa >= MANTISSA_MIN,
        num > 0 ==> has_exponent(num as nat, den as nat, r.exponent as int),
        -118 <= r.exponent <= 12,
{
    if num == 0 {
        return Scaled { mantissa: 0, exponent: 0 };
    }
    let mut n: u128 = num;
    let mut d: u128 = den;
    let mut e: i32 = 0;
    proof {
        vstd::arithmetic::power2::lemma2_to64();
        assert(den * pow2(0) == den);
    }
    while n >= d * 0x20_0000_0000_0000
        invariant
            n == num,
            0 < num <= 0x1_0000_0000_0000_0000,
            0 < den <= d <= 0x1_0000_0000_0000_0000,
            0 <= e <= 12,
            d == den * pow2(e as nat),
            e > 0 ==> n >= d * 0x10_0000_0000_0000,
        decreases n - d,
    {
        proof {
            lemma_pow2_unfold((e + 1) as nat);
            lemma_pow2_pos(e as nat);
            let p = pow2(e as nat);
            assert(den * (2 * p) == 2 * (den * p)) by (nonlinear_arith);
            assert(den * p >= p) by (nonlinear_arith)
                requires
                    den >= 1,
            ;
            if e >= 12 {
                lemma_pow2_at_12();
                if e > 12 {
                    lemma_pow2_strictly_increases(12, e as nat);
                }
            }
        }
        d = d * 2;
        e = e + 1;
    }
    let ghost up = e;
    while n < d * 0x10_0000_0000_0000
        invariant
            0 < num <= n,
            0 < d <= 0x1_0000_0000_0000_0000,
            n < d * 0x20_0000_0000_0000,
            -118 <= e <= 12,
            (n as nat, d as nat) == scaled(num as nat, den as nat, e as int),
            up > 0 ==> n >= d * 0x10_0000_0000_0000,
            e > 0 ==> up > 0,
        decreases d * 0x20_0000_0000_0000 - n,
    {
        proof {
            let p = pow2((-e) as nat);
            lemma_pow2_unfold((-e + 1) as nat);
            lemma_pow2_pos((-e) as nat);
            vstd::arithmetic::power2::lemma2_to64();
            assert(num * (2 * p) == 2 * (num * p)) by (nonlinear_arith);
            assert(num * p >= p) by (nonlinear_arith)
                requires
                    num >= 1,
            ;
            assert(e <= 0);
            assert(den * pow2(0) == den);
            if e <= -118 {
                lemma_pow2_at_118();
                if -e > 118 {
                    lemma_pow2_strictly_increases(118, (-e) as nat);
                }
            }
        }
        n = n * 2;
        e = e - 1;
    }
    proof {
        assert(has_exponent(num as nat, den as nat, e as int));
        let chosen = choose|c: int| has_exponent(num as nat, den as nat, c);
        exponent_is_unique(num as nat, den as nat, e as int, chosen);
        rounded_mantissa_is_bounded(n as nat, d as nat);
    }
    let mantissa: u64 = rounded_quotient(n, d) as u64;
    Scaled { mantissa, exponent: e }
}

proof fn lemma_pow2_at_12()
    ensures
        pow2(12) == 4096,
{
    vstd::arithmetic::power2::lemma2_to64();
}

proof fn lemma_pow2_at_118()
    ensures
        pow2(118) == 0x40_0000_0000_0000_0000_0000_0000_0000,
{
    vstd::arithmetic::power2::lemma2_to64_rest();
    lemma_pow2_adds(59, 59);
}

/// The mantissa that a number of 53 bits rounds to.
proof fn rounded_mantissa_is_bounded(n: nat, d: nat)
    requires
        MANTISSA_MIN * d <= n < MANTISSA_END * d,
    ensures
        MANTISSA_MIN <= round_half_even(n, d) <= MANTISSA_END,
{
    assert(MANTISSA_MIN <= n / d < MANTISSA_END) by (nonlinear_arith)
        requires
            MANTISSA_MIN * d <= n < MANTISSA_END * d,
    ;
}

/// Two to the power `k`.
pub fn power_of_two(k: u32) -> (p: u64)
    requires
        k < 64,
    ensures
        p == pow2(k as nat),
{
    let mut p: u64 = 1;
    let mut i: u32 = 0;
    proof {
        vstd::arithmetic::power2::lemma2_to64();
    }
    while i < k
        invariant
            i <= k < 64,
            p == pow2(i as nat),
        decreases k - i,
    {
        proof {
            vstd::arithmetic::power2::lemma2_to64_rest();
            lemma_pow2_unfold((i + 1) as nat);
            if i < 63 {
                lemma_pow2_strictly_increases(i as nat, 63);
            }
        }
        p = p * 2;
        i += 1;
    }
    p
}

/// The exponent of a whole number that has more than 53 bits and no more than 64.
proof fn large_whole_exponent(x: nat, e: int)
    requires
        MANTISSA_END <= x < 0x1_0000_0000_0000_0000,
        has_exponent(x, 1, e),
    ensures
        0 <= e <= 11,
{
    if e < 0 {
        lemma_pow2_pos((-e) as nat);
        let p = pow2((-e) as nat);
        assert(x * p >= x) by (nonlinear_arith)
            requires
                p >= 1,
        ;
    } else if e > 11 {
        lemma_pow2_at_12();
        if e > 12 {
            lemma_pow2_strictly_increases(12, e as nat);
        }
    }
}

/// The double nearest to `x`.
pub fn as_double(x: u64) -> (r: u128)
    ensures
        r == whole_as_double(x as nat),
        r <= 0x1_0000_0000_0000_0000,
        x > 0 ==> r > 0,
{
    if x < 0x20_0000_0000_0000 {
        return x as u128;
    }
    let r = nearest(x as u128, 1);
    proof {
        large_whole_exponent(x as nat, r.exponent as int);
    }
    let p: u64 = power_of_two(r.exponent as u32);
    proof {
        lemma_pow2_at_12();
        lemma_pow2_unfold(12);
        if r.exponent < 11 {
            lemma_pow2_strictly_increases(r.exponent as nat, 11);
        }
        lemma_pow2_pos(r.exponent as nat);
        let m = r.mantissa;
        assert(0 < m * p <= 0x1_0000_0000_0000_0000) by (nonlinear_arith)
            requires
                0 < m <= 0x20_0000_0000_0000,
                0 < p <= 2048,
        ;
    }
    (r.mantissa as u128) * (p as u128)
}

/// Every positive quotient that is not too small has an exponent.
proof fn exponent_upwards(num: nat, den: nat) -> (e: int)
    requires
        den > 0,
        num >= MANTISSA_MIN * den,
    ensures
        e >= 0,
        has_exponent(num, den, e),
    decreases num - den,
{
    vstd::arithmetic::power2::lemma2_to64();
    if num < MANTISSA_END * den {
        assert(den * pow2(0) == den);
        0
    } else {
        let e = exponent_upwards(num, 2 * den);
        lemma_pow2_unfold((e + 1) as nat);
        let p = pow2(e as nat);
        assert((2 * den) * p == den * (2 * p)) by (nonlinear_arith);
        e + 1
    }
}

/// Every positive quotient that is not too great has an exponent.
proof fn exponent_downwards(num: nat, den: nat) -> (e: int)
    requires
        num > 0,
        num < MANTISSA_END * den,
    ensures
        e <= 0,
        has_exponent(num, den, e),
    decreases MANTISSA_END * den - num,
{
    vstd::arithmetic::power2::lemma2_to64();
    if num >= MANTISSA_MIN * den {
        assert(den * pow2(0) == den);
        0
    } else {
        let e = exponent_downwards(2 * num, den);
        lemma_pow2_unfold((1 - e) as nat);
        let p = pow2((-e) as nat);
        assert((2 * num) * p == num * (2 * p)) by (nonlinear_arith);
        if e == 0 {
            assert(2 * num * 1 == num * 2);
            assert(den * pow2(0) == den);
        }
        e - 1
    }
}

/// The exponent of a positive quotient.
proof fn exponent_exists(num: nat, den: nat) -> (e: int)
    requires
        num > 0,
        den > 0,
    ensures
        has_exponent(num, den, e),
        nearest_double(num, den).exponent == e,
        nearest_double(num, den).mantissa == round_half_even(
            scaled(num, den, e).0,
            scaled(num, den, e).1,
        ),
        MANTISSA_MIN <= nearest_double(num, den).mantissa <= MANTISSA_END,
{
    let e = if num >= MANTISSA_MIN * den {
        exponent_upwards(num, den)
    } else {
        exponent_downwards(num, den)
    };
    let chosen = choose|c: int| has_exponent(num, den, c);
    exponent_is_unique(num, den, e, chosen);
    let (n, d) = scaled(num, den, e);
    rounded_mantissa_is_bounded(n, d);
    e
}

/// `x` is no greater than `y`.
pub open spec fn at_most(x: Double, y: Double) -> bool {
    if x.exponent <= y.exponent {
        x.mantissa <= y.mantissa * pow2((y.exponent - x.exponent) as nat)
    } else {
        x.mantissa * pow2((x.exponent - y.exponent) as nat) <= y.mantissa
    }
}

/// What an exponent means, without division: `k` is great enough to make every
/// power whole.
proof fn exponent_times(num: nat, den: nat, e: int, k: nat)
    requires
        has_exponent(num, den, e),
        e + k >= 0,
    ensures
        MANTISSA_MIN * (den * pow2((e + k) as nat)) <= num * pow2(k) < MANTISSA_END * (den * pow2(
            (e + k) as nat,
        )),
{
    let lo: int = MANTISSA_MIN as int;
    let hi: int = MANTISSA_END as int;
    lemma_pow2_pos(k);
    let q = pow2(k);
    if e >= 0 {
        lemma_pow2_adds(e as nat, k);
        let p = pow2(e as nat);
        assert(lo * (den * (p * q)) <= num * q < hi * (den * (p * q))) by (nonlinear_arith)
            requires
                lo * (den * p) <= num < hi * (den * p),
                q > 0,
        ;
    } else {
        lemma_pow2_adds((-e) as nat, (e + k) as nat);
        lemma_pow2_pos((e + k) as nat);
        let p = pow2((-e) as nat);
        let r = pow2((e + k) as nat);
        assert(lo * (den * r) <= num * (p * r) < hi * (den * r)) by (nonlinear_arith)
            requires
                lo * den <= num * p < hi * den,
                r > 0,
        ;
    }
}

/// The greater of two quotients has no lesser exponent.
proof fn exponents_are_ordered(a: nat, b: nat, c: nat, d: nat, e: int, f: int)
    requires
        b > 0,
        d > 0,
        a * d <= c * b,
        has_exponent(a, b, e),
        has_exponent(c, d, f),
    ensures
        e <= f,
{
    if e > f {
        let k: nat = (if f < 0 {
            -f
        } else {
            0
        }) as nat;
        exponent_times(a, b, e, k);
        exponent_times(c, d, f, k);
        let lo: int = MANTISSA_MIN as int;
        let q = pow2(k);
        let p = pow2((e + k) as nat);
        let r = pow2((f + k) as nat);
        lemma_pow2_pos(k);
        lemma_pow2_pos((f + k) as nat);
        lemma_pow2_unfold((f + k + 1) as nat);
        if e > f + 1 {
            lemma_pow2_strictly_increases((f + k + 1) as nat, (e + k) as nat);
        }
        assert(p >= 2 * r);
        let bd = b * d;
        assert((lo * (b * p)) * d <= (a * q) * d) by (nonlinear_arith)
            requires
                lo * (b * p) <= a * q,
                d > 0,
        ;
        assert((c * q) * b < ((2 * lo) * (d * r)) * b) by (nonlinear_arith)
            requires
                c * q < (2 * lo) * (d * r),
                b > 0,
        ;
        assert((a * q) * d <= (c * q) * b) by (nonlinear_arith)
            requires
                a * d <= c * b,
                q > 0,
        ;
        assert((lo * (b * p)) * d == (lo * p) * bd) by (nonlinear_arith)
            requires
                bd == b * d,
        ;
        assert(((2 * lo) * (d * r)) * b == (2 * lo * r) * bd) by (nonlinear_arith)
            requires
                bd == b * d,
        ;
        assert((lo * p) * bd >= (2 * lo * r) * bd) by (nonlinear_arith)
            requires
                p >= 2 * r,
                lo > 0,
                bd >= 0,
        ;
    }
}

/// Rounding keeps order.
proof fn rounding_keeps_order(m: nat, c: nat, n: nat, d: nat)
    requires
        c > 0,
        d > 0,
        m * d <= n * c,
    ensures
        round_half_even(m, c) <= round_half_even(n, d),
{
    let v = m / c;
    let w = n / d;
    let s = m % c;
    let r = n % d;
    vstd::arithmetic::div_mod::lemma_fundamental_div_mod(m as int, c as int);
    vstd::arithmetic::div_mod::lemma_fundamental_div_mod(n as int, d as int);
    assert(v <= w) by (nonlinear_arith)
        requires
            m == c * v + s,
            n == d * w + r,
            0 <= s < c,
            0 <= r < d,
            m * d <= n * c,
            c > 0,
            d > 0,
    ;
    if v == w {
        assert(s * d <= r * c) by (nonlinear_arith)
            requires
                m == c * v + s,
                n == d * w + r,
                v == w,
                m * d <= n * c,
        ;
        if 2 * r < d {
            assert(2 * s < c) by (nonlinear_arith)
                requires
                    s * d <= r * c,
                    2 * r < d,
                    c > 0,
                    d > 0,
            ;
        } else if 2 * r == d {
            assert(2 * s <= c) by (nonlinear_arith)
                requires
                    s * d <= r * c,
                    2 * r == d,
                    c > 0,
                    d > 0,
            ;
        }
    }
}

/// The double nearest to the greater of two quotients is no less than that nearest
/// to the other.
pub proof fn nearest_keeps_order(a: nat, b: nat, c: nat, d: nat)
    requires
        b > 0,
        d > 0,
        a * d <= c * b,
    ensures
        at_most(nearest_double(a, b), nearest_double(c, d)),
{
    let x = nearest_double(a, b);
    let y = nearest_double(c, d);
    if a == 0 {
        if y.exponent < 0 {
            assert(0 * pow2((-y.exponent) as nat) == 0);
        }
    } else {
        assert(c > 0) by (nonlinear_arith)
            requires
                a * d <= c * b,
                a > 0,
                d > 0,
        ;
        let e = exponent_exists(a, b);
        let f = exponent_exists(c, d);
        exponents_are_ordered(a, b, c, d, e, f);
        if e == f {
            let (m, p) = scaled(a, b, e);
            let (n, q) = scaled(c, d, f);
            if e >= 0 {
                let t = pow2(e as nat);
                lemma_pow2_pos(e as nat);
                assert(a * (d * t) <= c * (b * t)) by (nonlinear_arith)
                    requires
                        a * d <= c * b,
                        t > 0,
                ;
                assert(b * t > 0) by (nonlinear_arith)
                    requires
                        b > 0,
                        t > 0,
                ;
                assert(d * t > 0) by (nonlinear_arith)
                    requires
                        d > 0,
                        t > 0,
                ;
            } else {
                let t = pow2((-e) as nat);
                lemma_pow2_pos((-e) as nat);
                assert((a * t) * d <= (c * t) * b) by (nonlinear_arith)
                    requires
                        a * d <= c * b,
                        t > 0,
                ;
            }
            rounding_keeps_order(m, p, n, q);
            vstd::arithmetic::power2::lemma2_to64();
            assert(y.mantissa * pow2(0) == y.mantissa);
        } else {
            let k = (f - e) as nat;
            lemma_pow2_unfold(k);
            lemma_pow2_pos((k - 1) as nat);
            let t = pow2(k);
            let m = y.mantissa;
            assert(m * t >= MANTISSA_END) by (nonlinear_arith)
                requires
                    m >= MANTISSA_MIN,
                    t >= 2,
            ;
        }
    }
}

/// The whole part keeps order.
pub proof fn truncation_keeps_order(x: Double, y: Double)
    requires
        at_most(x, y),
    ensures
        truncated(x) <= truncated(y),
{
    let m = x.mantissa as int;
    let n = y.mantissa as int;
    if x.exponent <= y.exponent {
        let k = (y.exponent - x.exponent) as nat;
        let t = pow2(k) as int;
        lemma_pow2_pos(k);
        if x.exponent >= 0 {
            lemma_pow2_adds(k, x.exponent as nat);
            let p = pow2(x.exponent as nat) as int;
            assert(m * p <= n * (t * p)) by (nonlinear_arith)
                requires
                    m <= n * t,
                    p >= 0,
            ;
        } else if y.exponent >= 0 {
            lemma_pow2_adds(y.exponent as nat, (-x.exponent) as nat);
            lemma_pow2_pos((-x.exponent) as nat);
            let q = pow2(y.exponent as nat) as int;
            let p = pow2((-x.exponent) as nat) as int;
            assert(m / p <= n * q) by (nonlinear_arith)
                requires
                    m <= n * (q * p),
                    p > 0,
            ;
        } else {
            lemma_pow2_adds((-y.exponent) as nat, k);
            lemma_pow2_pos((-y.exponent) as nat);
            let q = pow2((-y.exponent) as nat) as int;
            assert(q * t > 0 && m * q <= n * (q * t)) by (nonlinear_arith)
                requires
                    m <= n * t,
                    q > 0,
                    t > 0,
            ;
            quotients_keep_order(m, q * t, n, q);
        }
    } else {
        let k = (x.exponent - y.exponent) as nat;
        let t = pow2(k) as int;
        lemma_pow2_pos(k);
        if y.exponent >= 0 {
            lemma_pow2_adds(k, y.exponent as nat);
            let q = pow2(y.exponent as nat) as int;
            assert(m * (t * q) <= n * q) by (nonlinear_arith)
                requires
                    m * t <= n,
                    q >= 0,
            ;
        } else if x.exponent >= 0 {
            lemma_pow2_adds(x.exponent as nat, (-y.exponent) as nat);
            lemma_pow2_pos((-y.exponent) as nat);
            let p = pow2(x.exponent as nat) as int;
            let q = pow2((-y.exponent) as nat) as int;
            assert(m * p <= n / q) by (nonlinear_arith)
                requires
                    m * (p * q) <= n,
                    q > 0,
            ;
        } else {
            lemma_pow2_adds((-x.exponent) as nat, k);
            lemma_pow2_pos((-x.exponent) as nat);
            let p = pow2((-x.exponent) as nat) as int;
            assert(p * t > 0 && m * (p * t) <= n * p) by (nonlinear_arith)
                requires
                    m * t <= n,
                    p > 0,
                    t > 0,
            ;
            quotients_keep_order(m, p, n, p * t);
        }
    }
}

/// The whole part of the greater of two quotients is no less.
proof fn quotients_keep_order(m: int, p: int, n: int, q: int)
    requires
        0 <= m,
        0 <= n,
        0 < p,
        0 < q,
        m * q <= n * p,
    ensures
        m / p <= n / q,
{
    vstd::arithmetic::div_mod::lemma_fundamental_div_mod(m, p);
    vstd::arithmetic::div_mod::lemma_fundamental_div_mod(n, q);
    let v = m / p;
    let w = n / q;
    let s = m % p;
    let r = n % q;
    assert(v <= w) by (nonlinear_arith)
        requires
            m == p * v + s,
            n == q * w + r,
            0 <= s < p,
            0 <= r < q,
            m * q <= n * p,
    ;
}

/// Rounding does not see a common factor.
proof fn rounding_ignores_a_factor(n: nat, d: nat, c: nat)
    requires
        d > 0,
        c > 0,
    ensures
        round_half_even(n * c, d * c) == round_half_even(n, d),
{
    let w = n / d;
    let r = n % d;
    vstd::arithmetic::div_mod::lemma_fundamental_div_mod(n as int, d as int);
    assert(n * c == w * (d * c) + r * c && 0 <= r * c < d * c) by (nonlinear_arith)
        requires
            n == d * w + r,
            0 <= r < d,
            c > 0,
    ;
    vstd::arithmetic::div_mod::lemma_fundamental_div_mod_converse(
        (n * c) as int,
        (d * c) as int,
        w as int,
        (r * c) as int,
    );
    assert(2 * (r * c) < d * c <==> 2 * r < d) by (nonlinear_arith)
        requires
            c > 0,
    ;
    assert(2 * (r * c) == d * c <==> 2 * r == d) by (nonlinear_arith)
        requires
            c > 0,
    ;
}

/// A power of two moves the exponent and leaves the mantissa.
proof fn nearest_scales(n: nat, k: nat)
    requires
        n > 0,
    ensures
        nearest_double(n * pow2(k), 1) == (Double {
            mantissa: nearest_double(n, 1).mantissa,
            exponent: nearest_double(n, 1).exponent + k,
        }),
{
    let t = pow2(k);
    lemma_pow2_pos(k);
    assert(n * t > 0) by (nonlinear_arith)
        requires
            n > 0,
            t > 0,
    ;
    let e = exponent_exists(n, 1);
    let (m, d) = scaled(n, 1, e);
    let (m2, d2) = scaled(n * t, 1, e + k);
    let c: nat = if e >= 0 {
        t
    } else if e + k >= 0 {
        pow2((e + k) as nat)
    } else {
        1
    };
    if e >= 0 {
        lemma_pow2_adds(e as nat, k);
        lemma_pow2_pos(e as nat);
    } else if e + k >= 0 {
        lemma_pow2_adds((-e) as nat, (e + k) as nat);
        lemma_pow2_pos((e + k) as nat);
        let p = pow2((-e) as nat);
        assert(n * (p * c) == (n * p) * c) by (nonlinear_arith);
    } else {
        lemma_pow2_adds(k, (-e - k) as nat);
        let p = pow2((-e - k) as nat);
        assert((n * t) * p == n * (t * p)) by (nonlinear_arith);
        assert(m * 1 == m);
    }
    assert(m2 == m * c);
    assert(d2 == d * c);
    let lo: int = MANTISSA_MIN as int;
    let hi: int = MANTISSA_END as int;
    assert(lo * (d * c) <= m * c < hi * (d * c)) by (nonlinear_arith)
        requires
            lo * d <= m < hi * d,
            c > 0,
    ;
    let f = exponent_exists(n * t, 1);
    exponent_is_unique(n * t, 1, f, e + k);
    rounding_ignores_a_factor(m, d, c);
}

/// The product of one hundred and a double, as a double.
pub open spec fn hundredfold(x: Double) -> Double {
    let product = nearest_double(100 * x.mantissa, 1);
    Double { mantissa: product.mantissa, exponent: product.exponent + x.exponent }
}

/// A product with one hundred keeps order.
pub proof fn hundredfold_keeps_order(x: Double, y: Double)
    requires
        at_most(x, y),
    ensures
        at_most(hundredfold(x), hundredfold(y)),
{
    let u = hundredfold(x);
    let v = hundredfold(y);
    if x.mantissa == 0 {
        if u.exponent > v.exponent {
            assert(0 * pow2((u.exponent - v.exponent) as nat) == 0);
        }
    } else if x.exponent <= y.exponent {
        let k = (y.exponent - x.exponent) as nat;
        let t = pow2(k);
        let m = y.mantissa;
        assert(m > 0) by (nonlinear_arith)
            requires
                x.mantissa <= m * t,
                x.mantissa > 0,
        ;
        assert((100 * m) * t == 100 * (m * t)) by (nonlinear_arith);
        nearest_keeps_order(100 * x.mantissa, 1, (100 * m) * t, 1);
        nearest_scales(100 * m, k);
    } else {
        let k = (x.exponent - y.exponent) as nat;
        let t = pow2(k);
        let m = x.mantissa;
        assert((100 * m) * t == 100 * (m * t)) by (nonlinear_arith);
        nearest_keeps_order((100 * m) * t, 1, 100 * y.mantissa, 1);
        nearest_scales(100 * m, k);
    }
}

/// A whole number of more than 53 bits has a double whose exponent is not negative.
proof fn large_whole_is_whole(x: nat)
    requires
        x >= MANTISSA_END,
    ensures
        nearest_double(x, 1).exponent >= 0,
        whole_as_double(x) == truncated(nearest_double(x, 1)),
{
    let e = exponent_exists(x, 1);
    if e < 0 {
        lemma_pow2_pos((-e) as nat);
        let p = pow2((-e) as nat);
        assert(x * p >= x) by (nonlinear_arith)
            requires
                p >= 1,
        ;
    }
}

/// The doubles of whole numbers are in their order.
pub proof fn whole_keeps_order(x: nat, y: nat)
    requires
        x <= y,
    ensures
        whole_as_double(x) <= whole_as_double(y),
{
    if x < MANTISSA_END <= y {
        let end = MANTISSA_END as nat;
        large_whole_is_whole(end);
        large_whole_is_whole(y);
        nearest_keeps_order(end, 1, y, 1);
        truncation_keeps_order(nearest_double(end, 1), nearest_double(y, 1));
        vstd::arithmetic::power2::lemma2_to64();
        assert(has_exponent(end, 1, 1));
        let e = exponent_exists(end, 1);
        exponent_is_unique(end, 1, e, 1);
    } else if x >= MANTISSA_END {
        large_whole_is_whole(x);
        large_whole_is_whole(y);
        nearest_keeps_order(x, 1, y, 1);
        truncation_keeps_order(nearest_double(x, 1), nearest_double(y, 1));
    }
}

/// A positive whole number has a positive double.
pub proof fn whole_stays_positive(x: nat)
    requires
        x > 0,
    ensures
        whole_as_double(x) > 0,
{
    whole_keeps_order(1, x);
}

/// A number divided by itself is one.
pub proof fn one_as_double(x: nat)
    requires
        x > 0,
    ensures
        nearest_double(x, x) == (Double { mantissa: MANTISSA_MIN as nat, exponent: -52 }),
{
    vstd::arithmetic::power2::lemma2_to64_rest();
    let p = pow2(52);
    let lo: int = MANTISSA_MIN as int;
    assert(p == lo);
    assert(lo * x <= x * p < (2 * lo) * x) by (nonlinear_arith)
        requires
            p == lo,
            x > 0,
            lo > 0,
    ;
    assert(has_exponent(x, x, -52));
    let e = exponent_exists(x, x);
    exponent_is_unique(x, x, e, -52);
    vstd::arithmetic::div_mod::lemma_fundamental_div_mod_converse(
        (x * p) as int,
        x as int,
        p as int,
        0,
    );
}

/// One hundred times one is one hundred.
pub proof fn one_hundred_as_double()
    ensures
        truncated(hundredfold(Double { mantissa: MANTISSA_MIN as nat, exponent: -52 })) == 100,
{
    vstd::arithmetic::power2::lemma2_to64();
    vstd::arithmetic::power2::lemma2_to64_rest();
    let n: nat = 100 * MANTISSA_MIN as nat;
    assert(has_exponent(n, 1, 6));
    let e = exponent_exists(n, 1);
    exponent_is_unique(n, 1, e, 6);
    assert(pow2(6) == 64);
    assert(pow2(46) == 0x4000_0000_0000);
    assert(scaled(n, 1, 6) == (n, 64nat));
    assert(nearest_double(n, 1) == (Double { mantissa: 100 * 0x4000_0000_0000, exponent: 6 }));
    let h = hundredfold(Double { mantissa: MANTISSA_MIN as nat, exponent: -52 });
    assert(h == (Double { mantissa: 100 * 0x4000_0000_0000, exponent: -46 }));
    assert((100 * 0x4000_0000_0000nat) / 0x4000_0000_0000nat == 100);
}

/// How far `a` and `b` are apart.
pub open spec fn apart(a: nat, b: nat) -> nat {
    if a >= b {
        (a - b) as nat
    } else {
        (b - a) as nat
    }
}

/// A quotient is rounded to the whole number that is nearest to it: no more than half of the
/// divisor is gained or lost, and where it is just half, the whole number is even.
pub proof fn a_quotient_is_rounded_to_the_nearest(n: nat, d: nat)
    requires
        d > 0,
    ensures
        ({
            let r = round_half_even(n, d);
            &&& 2 * apart(r * d, n) <= d
            &&& 2 * apart(r * d, n) == d ==> r % 2 == 0
        }),
{
    let w = n / d;
    let rest = n % d;
    vstd::arithmetic::div_mod::lemma_fundamental_div_mod(n as int, d as int);
    assert(w * d == d * w && (w + 1) * d == d * w + d) by (nonlinear_arith);
}

/// A whole number is changed by less than one part in two to the power 53 when it becomes a
/// double, and not at all where it has no more than 53 bits.
pub proof fn a_whole_number_stays_near(x: nat)
    ensures
        x < 0x20_0000_0000_0000 ==> whole_as_double(x) == x,
        apart(whole_as_double(x), x) * 0x20_0000_0000_0000 <= x,
{
    if x >= MANTISSA_END {
        large_whole_is_whole(x);
        let e = exponent_exists(x, 1);
        let f = pow2(e as nat);
        lemma_pow2_pos(e as nat);
        let m = round_half_even(x, f);
        a_quotient_is_rounded_to_the_nearest(x, f);
        assert(1 * f == f);
        assert(scaled(x, 1, e) == (x, f));
        assert(nearest_double(x, 1).mantissa == m);
        assert(whole_as_double(x) == m * f);
        let off = apart(m * f, x);
        assert(0x10_0000_0000_0000 * f <= x);
        assert(off * 0x20_0000_0000_0000 <= x) by (nonlinear_arith)
            requires
                2 * off <= f,
                0x10_0000_0000_0000 * f <= x,
        ;
    }
}

/// A quotient of at most one: what its double is.
pub proof fn a_small_quotient_stays_near(a: nat, t: nat)
    requires
        0 < a <= t,
    ensures
        ({
            let x = nearest_double(a, t);
            let scale = pow2((-x.exponent) as nat);
            &&& x.exponent <= -52
            &&& scale >= 0x10_0000_0000_0000
            &&& 0x10_0000_0000_0000 <= x.mantissa <= 0x20_0000_0000_0000
            &&& 2 * apart(x.mantissa * t, a * scale) <= t
        }),
{
    let e = exponent_exists(a, t);
    one_as_double(t);
    let one = exponent_exists(t, t);
    assert(a * t <= t * t) by (nonlinear_arith)
        requires
            a <= t,
    ;
    exponents_are_ordered(a, t, t, t, e, one);
    let scale = pow2((-e) as nat);
    vstd::arithmetic::power2::lemma2_to64_rest();
    if -e > 52 {
        lemma_pow2_strictly_increases(52, (-e) as nat);
    }
    assert(scaled(a, t, e) == (a * scale, t));
    a_quotient_is_rounded_to_the_nearest(a * scale, t);
}

/// One hundred times a double: what it is.
pub proof fn one_hundred_times_stays_near(x: Double)
    requires
        0x10_0000_0000_0000 <= x.mantissa <= 0x20_0000_0000_0000,
    ensures
        ({
            let y = hundredfold(x);
            let f = y.exponent - x.exponent;
            &&& 0 <= f <= 7
            &&& pow2(f as nat) <= 128
            &&& 2 * apart(y.mantissa * pow2(f as nat), 100 * x.mantissa) <= pow2(f as nat)
        }),
{
    let n: nat = 100 * x.mantissa;
    let f = exponent_exists(n, 1);
    vstd::arithmetic::power2::lemma2_to64();
    if f < 0 {
        let p = pow2((-f) as nat);
        lemma_pow2_pos((-f) as nat);
        assert(n * p >= n) by (nonlinear_arith)
            requires
                p >= 1,
        ;
    } else {
        let p = pow2(f as nat);
        assert(1 * p == p);
        lemma_pow2_pos(f as nat);
        if f > 7 {
            if f > 8 {
                lemma_pow2_strictly_increases(8, f as nat);
            }
        } else if f < 7 {
            lemma_pow2_strictly_increases(f as nat, 7);
        }
        assert(scaled(n, 1, f) == (n, p));
        a_quotient_is_rounded_to_the_nearest(n, p);
    }
}

} // verus!
