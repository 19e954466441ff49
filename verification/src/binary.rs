//! Rounding to binary floating point, carried out on integers.
//!
//! A positive binary number is a pair `(m, e)` that stands for `m * 2^e`. Rounding to
//! `prec` bits keeps `m` between `2^(prec - 1)` and `2^prec`, to the nearest number, ties
//! to the even one. With 53 bits this is double precision, with 24 bits single
//! precision; the magnitudes handled here are far from either format's exponent limits.

use vstd::arithmetic::power2;
use vstd::prelude::*;

verus! {

/// `n / d` rounded to the nearest integer, ties to the even one.
pub open spec fn round_half_even(n: nat, d: nat) -> nat {
    let f = n / d;
    let r = n % d;
    if 2 * r < d {
        f
    } else if 2 * r > d {
        f + 1
    } else {
        f + f % 2
    }
}

/// Numerator of `(p / q) * 2^(-e)`.
pub open spec fn scaled_num(p: nat, e: int) -> nat {
    if e >= 0 {
        p
    } else {
        p * power2::pow2((-e) as nat)
    }
}

/// Denominator of `(p / q) * 2^(-e)`.
pub open spec fn scaled_den(q: nat, e: int) -> nat {
    if e >= 0 {
        q * power2::pow2(e as nat)
    } else {
        q
    }
}

/// `(p / q) * 2^(-e)` has exactly `prec` binary digits before the point.
pub open spec fn in_binade(p: nat, q: nat, e: int, prec: nat) -> bool {
    &&& power2::pow2((prec - 1) as nat) * scaled_den(q, e) <= scaled_num(p, e)
    &&& scaled_num(p, e) < power2::pow2(prec) * scaled_den(q, e)
}

/// The exponent at which `p / q` is rounded to `prec` bits.
pub open spec fn binade(p: nat, q: nat, prec: nat) -> int {
    choose|e: int| in_binade(p, q, e, prec)
}

/// The `prec`-bit number nearest to `p / q`, for positive `p` and `q`.
pub open spec fn nearest(p: nat, q: nat, prec: nat) -> (nat, int) {
    let e = binade(p, q, prec);
    (round_half_even(scaled_num(p, e), scaled_den(q, e)), e)
}

/// The double nearest to `p / q`; zero for `p == 0`.
pub open spec fn double_of(p: nat, q: nat) -> (nat, int) {
    if p == 0 {
        (0, 0)
    } else {
        nearest(p, q, 53)
    }
}

/// The double nearest to `m * 2^e`.
pub open spec fn double_at(m: nat, e: int) -> (nat, int) {
    let d = double_of(m, 1);
    (d.0, d.1 + e)
}

/// Product of a double and an integer, rounded to a double.
pub open spec fn double_times(d: (nat, int), n: nat) -> (nat, int) {
    double_at(d.0 * n, d.1)
}

/// `m * 2^e` in units of `2^unit`, for `unit <= e`.
pub open spec fn in_units(d: (nat, int), unit: int) -> nat {
    d.0 * power2::pow2((d.1 - unit) as nat)
}

pub open spec fn lower(a: int, b: int) -> int {
    if a <= b {
        a
    } else {
        b
    }
}

/// Sum of two doubles, rounded to a double.
pub open spec fn double_sum(a: (nat, int), b: (nat, int)) -> (nat, int) {
    let unit = lower(a.1, b.1);
    double_at(in_units(a, unit) + in_units(b, unit), unit)
}

/// `a <= b` as numbers.
pub open spec fn double_le(a: (nat, int), b: (nat, int)) -> bool {
    let unit = lower(a.1, b.1);
    in_units(a, unit) <= in_units(b, unit)
}

/// The integer part of `m * 2^e`.
pub open spec fn whole_part(d: (nat, int)) -> nat {
    if d.1 >= 0 {
        d.0 * power2::pow2(d.1 as nat)
    } else {
        d.0 / power2::pow2((-d.1) as nat)
    }
}

/// `m * 2^e` rounded to the nearest integer, halves up.
pub open spec fn round_half_up(d: (nat, int)) -> nat {
    if d.1 >= 0 {
        d.0 * power2::pow2(d.1 as nat)
    } else {
        (2 * d.0 + power2::pow2((-d.1) as nat)) / (2 * power2::pow2((-d.1) as nat))
    }
}

proof fn lemma_scale_cross(p: nat, q: nat, e1: int, e2: int)
    requires
        e1 <= e2,
    ensures
        scaled_num(p, e1) * scaled_den(q, e2) == scaled_num(p, e2) * scaled_den(q, e1)
            * power2::pow2((e2 - e1) as nat),
{
    let gap = power2::pow2((e2 - e1) as nat) as int;
    let pi = p as int;
    let qi = q as int;
    if e1 >= 0 {
        power2::lemma_pow2_adds(e1 as nat, (e2 - e1) as nat);
        let a = power2::pow2(e1 as nat) as int;
        assert(pi * (qi * (a * gap)) == pi * (qi * a) * gap) by (nonlinear_arith);
    } else if e2 < 0 {
        power2::lemma_pow2_adds((-e2) as nat, (e2 - e1) as nat);
        let a = power2::pow2((-e2) as nat) as int;
        assert(pi * (a * gap) * qi == pi * a * qi * gap) by (nonlinear_arith);
    } else {
        power2::lemma_pow2_adds((-e1) as nat, e2 as nat);
        let a = power2::pow2((-e1) as nat) as int;
        let b = power2::pow2(e2 as nat) as int;
        assert(pi * a * (qi * b) == pi * qi * (a * b)) by (nonlinear_arith);
    }
}

/// At most one exponent fits.
pub proof fn lemma_binade_unique(p: nat, q: nat, e1: int, e2: int, prec: nat)
    requires
        q > 0,
        prec >= 1,
        in_binade(p, q, e1, prec),
        in_binade(p, q, e2, prec),
    ensures
        e1 == e2,
{
    if e1 < e2 {
        lemma_binade_order(p, q, e1, e2, prec);
    } else if e2 < e1 {
        lemma_binade_order(p, q, e2, e1, prec);
    }
}

proof fn lemma_scaled_den_pos(q: nat, e: int)
    requires
        q > 0,
    ensures
        scaled_den(q, e) > 0,
{
    if e >= 0 {
        power2::lemma_pow2_pos(e as nat);
        let a = power2::pow2(e as nat) as int;
        let qi = q as int;
        assert(qi * a > 0) by (nonlinear_arith)
            requires
                qi > 0,
                a > 0,
        ;
    }
}

proof fn lemma_binade_order(p: nat, q: nat, e1: int, e2: int, prec: nat)
    requires
        q > 0,
        prec >= 1,
        e1 < e2,
        in_binade(p, q, e1, prec),
    ensures
        !in_binade(p, q, e2, prec),
{
    lemma_scale_cross(p, q, e1, e2);
    lemma_scaled_den_pos(q, e1);
    lemma_scaled_den_pos(q, e2);
    let n1 = scaled_num(p, e1) as int;
    let n2 = scaled_num(p, e2) as int;
    let d1 = scaled_den(q, e1) as int;
    let d2 = scaled_den(q, e2) as int;
    let lo = power2::pow2((prec - 1) as nat) as int;
    let gap = power2::pow2((e2 - e1) as nat) as int;
    power2::lemma_pow2_unfold(prec);
    power2::lemma_pow2_unfold((e2 - e1) as nat);
    power2::lemma_pow2_pos((e2 - e1 - 1) as nat);
    assert(gap >= 2);
    assert(n1 * d2 < 2 * lo * d1 * d2) by (nonlinear_arith)
        requires
            n1 < 2 * lo * d1,
            d2 > 0,
    ;
    if n2 >= lo * d2 {
    assert(n2 * d1 * gap >= 2 * lo * d1 * d2) by (nonlinear_arith)
        requires
            n2 >= lo * d2,
            lo * d2 >= 0,
            d1 > 0,
            gap >= 2,
    {
        assert(n2 * d1 >= lo * d2 * d1) by (nonlinear_arith)
            requires
                n2 >= lo * d2,
                d1 > 0,
        ;
        assert(n2 * d1 * gap >= lo * d2 * d1 * 2) by (nonlinear_arith)
            requires
                n2 * d1 >= lo * d2 * d1,
                lo * d2 * d1 >= 0,
                gap >= 2,
        ;
    }
    }
}

/// The exponent that fits is the one rounding uses.
pub proof fn lemma_nearest_at(p: nat, q: nat, e: int, prec: nat)
    requires
        q > 0,
        prec >= 1,
        in_binade(p, q, e, prec),
    ensures
        binade(p, q, prec) == e,
        nearest(p, q, prec) == (round_half_even(scaled_num(p, e), scaled_den(q, e)), e),
{
    lemma_binade_unique(p, q, e, binade(p, q, prec), prec);
}

/// From an exponent at which `p / q` has enough digits, a higher one gives exactly `prec`.
proof fn lemma_binade_above(p: nat, q: nat, e: int, prec: nat)
    requires
        p > 0,
        q > 0,
        prec > 0,
        power2::pow2((prec - 1) as nat) * scaled_den(q, e) <= scaled_num(p, e),
    ensures
        exists|f: int| in_binade(p, q, f, prec),
    decreases p - e,
{
    let lo = power2::pow2((prec - 1) as nat) as int;
    let hi = power2::pow2(prec) as int;
    power2::lemma_pow2_unfold(prec);
    power2::lemma_pow2_pos((prec - 1) as nat);
    lemma_scaled_den_pos(q, e);
    if scaled_num(p, e) < power2::pow2(prec) * scaled_den(q, e) {
        assert(in_binade(p, q, e, prec));
    } else {
        let n = scaled_num(p, e) as int;
        let d = scaled_den(q, e) as int;
        if e >= 0 {
            power2::lemma_pow2_unfold((e + 1) as nat);
            let a = power2::pow2(e as nat) as int;
            assert(scaled_den(q, e + 1) == 2 * d) by (nonlinear_arith)
                requires
                    scaled_den(q, e + 1) == q * (2 * a),
                    d == q * a,
            ;
            assert(lo * (2 * d) == hi * d) by (nonlinear_arith)
                requires
                    hi == 2 * lo,
            ;
            lemma_power_above(e as nat);
            assert(lo * (q * a) >= a) by (nonlinear_arith)
                requires
                    lo >= 1,
                    q >= 1,
                    a >= 1,
            ;
        } else {
            power2::lemma_pow2_unfold((-e) as nat);
            power2::lemma2_to64();
            let a = power2::pow2((-e - 1) as nat) as int;
            assert(n == 2 * (p * a)) by (nonlinear_arith)
                requires
                    n == p * (2 * a),
            ;
            if e == -1 {
                assert(power2::pow2(0) == 1);
                assert(p * a == p) by (nonlinear_arith)
                    requires
                        a == 1,
                ;
                assert(q * power2::pow2(0) == q) by (nonlinear_arith)
                    requires
                        power2::pow2(0) == 1,
                ;
            } else {
                assert(-(e + 1) == -e - 1);
            }
            assert(lo * d <= p * a) by (nonlinear_arith)
                requires
                    hi == 2 * lo,
                    hi * d <= n,
                    n == 2 * (p * a),
            ;
        }
        lemma_binade_above(p, q, e + 1, prec);
    }
}

proof fn lemma_power_above(e: nat)
    ensures
        e < power2::pow2(e),
    decreases e,
{
    if e == 0 {
        power2::lemma2_to64();
    } else {
        lemma_power_above((e - 1) as nat);
        power2::lemma_pow2_unfold(e);
    }
}

/// Every positive quotient is rounded at some exponent.
pub proof fn lemma_binade_exists(p: nat, q: nat, prec: nat)
    requires
        p > 0,
        q > 0,
        prec > 0,
    ensures
        in_binade(p, q, binade(p, q, prec), prec),
{
    let k = (q + prec) as nat;
    let a = power2::pow2((prec - 1) as nat) as int;
    let b = power2::pow2((q + 1) as nat) as int;
    power2::lemma_pow2_adds((prec - 1) as nat, (q + 1) as nat);
    power2::lemma_pow2_pos((prec - 1) as nat);
    lemma_power_above((q + 1) as nat);
    assert(a * q <= p * (a * b)) by (nonlinear_arith)
        requires
            a >= 1,
            q <= b,
            p >= 1,
            q >= 1,
    ;
    lemma_binade_above(p, q, -(k as int), prec);
}

/// A positive quotient is rounded to a positive number.
pub proof fn lemma_nearest_positive(p: nat, q: nat, prec: nat)
    requires
        p > 0,
        q > 0,
        prec > 0,
    ensures
        nearest(p, q, prec).0 > 0,
{
    lemma_binade_exists(p, q, prec);
    let e = binade(p, q, prec);
    let n = scaled_num(p, e) as int;
    let d = scaled_den(q, e) as int;
    lemma_scaled_den_pos(q, e);
    power2::lemma_pow2_pos((prec - 1) as nat);
    assert(n / d >= 1) by (nonlinear_arith)
        requires
            n >= power2::pow2((prec - 1) as nat) * d,
            power2::pow2((prec - 1) as nat) >= 1,
            d > 0,
    ;
}

proof fn lemma_pow2_big()
    ensures
        power2::pow2(64) == 0x1_0000_0000_0000_0000,
        power2::pow2(100) == 0x10_0000_0000_0000_0000_0000_0000,
        power2::pow2(124) == 0x1000_0000_0000_0000_0000_0000_0000_0000,
        power2::pow2(52) == 0x10_0000_0000_0000,
        power2::pow2(53) == 0x20_0000_0000_0000,
        power2::pow2(23) == 0x80_0000,
        power2::pow2(24) == 0x100_0000,
{
    power2::lemma2_to64();
    power2::lemma2_to64_rest();
    power2::lemma_pow2_adds(64, 36);
    power2::lemma_pow2_adds(64, 60);
}

proof fn lemma_exponent_small(e: nat, x: nat)
    requires
        power2::pow2(e) <= x,
        x < 0x1000_0000_0000_0000_0000_0000_0000_0000,
    ensures
        e < 124,
{
    lemma_pow2_big();
    if e > 124 {
        power2::lemma_pow2_strictly_increases(124, e);
    }
}

/// Rounds `p / q` to 53 bits when `double`, else to 24 bits.
pub fn round_ratio(p: u128, q: u64, double: bool) -> (r: (u64, i32))
    requires
        0 < p < 0x80_0000_0000_0000_0000_0000_0000_0000,
        0 < q,
    ensures
        (r.0 as nat, r.1 as int) == nearest(p as nat, q as nat, if double { 53 } else { 24 }),
        in_binade(p as nat, q as nat, r.1 as int, if double { 53 } else { 24 }),
        -124 <= r.1 <= 124,
        0 < r.0 <= 0x20_0000_0000_0000,
        double ==> r.0 >= 0x10_0000_0000_0000,
        !double ==> 0x80_0000 <= r.0 <= 0x100_0000,
{
    let lo: u128 = if double {
        0x10_0000_0000_0000
    } else {
        0x80_0000
    };
    let ghost prec: nat = if double {
        53
    } else {
        24
    };
    let mut n: u128 = p;
    let mut d: u128 = q as u128;
    let mut e: i32 = 0;
    proof {
        lemma_pow2_big();
        power2::lemma2_to64();
        assert(2 * lo * d <= 0x20_0000_0000_0000 * 0xffff_ffff_ffff_ffff) by (nonlinear_arith)
            requires
                lo <= 0x10_0000_0000_0000,
                0 < d <= 0xffff_ffff_ffff_ffff,
        ;
        assert(q * 1 == q);
    }
    while n >= 2 * lo * d
        invariant
            lo == 0x10_0000_0000_0000 || lo == 0x80_0000,
            0 < p < 0x80_0000_0000_0000_0000_0000_0000_0000,
            n == p,
            0 < q,
            d > 0,
            0 <= e < 124,
            n == scaled_num(p as nat, e as int),
            d == scaled_den(q as nat, e as int),
            power2::pow2(e as nat) <= d,
            lo * d <= n || d == q,
            2 * lo * d < 0x200_0000_0000_0000_0000_0000_0000_0000,
            e > 0 ==> lo * d <= n,
        decreases n - d,
    {
        assert(d < n) by (nonlinear_arith)
            requires
                n >= 2 * lo * d,
                d > 0,
                lo >= 1,
        ;
        assert(2 * d <= n) by (nonlinear_arith)
            requires
                n >= 2 * lo * d,
                d > 0,
                lo >= 1,
        ;
        proof {
            power2::lemma_pow2_unfold((e + 1) as nat);
            let a = power2::pow2(e as nat) as int;
            let qi = q as int;
            assert(qi * (2 * a) == 2 * (qi * a)) by (nonlinear_arith);
            lemma_exponent_small((e + 1) as nat, (2 * d) as nat);
            assert(lo * (2 * d) == 2 * lo * d) by (nonlinear_arith);
            assert(2 * lo * (2 * d) == 2 * (2 * lo * d)) by (nonlinear_arith);
        }
        d = 2 * d;
        e = e + 1;
    }
    proof {
        let x = power2::pow2(0) as int;
        assert(p * x == p) by (nonlinear_arith)
            requires
                x == 1,
        ;
        assert(2 * lo * d == 2 * (lo * d)) by (nonlinear_arith);
    }
    let bound: u128 = lo * d;
    while n < bound
        invariant
            bound == lo * d,
            lo == 0x10_0000_0000_0000 || lo == 0x80_0000,
            0 < p,
            n >= 1,
            0 < q,
            d > 0,
            -124 < e < 124,
            n == scaled_num(p as nat, e as int),
            d == scaled_den(q as nat, e as int),
            n < 2 * lo * d,
            e > 0 ==> lo * d <= n,
            2 * lo * d < 0x200_0000_0000_0000_0000_0000_0000_0000,
            e <= 0 ==> power2::pow2((-e) as nat) <= n,
        decreases 2 * lo * d - n,
    {
        proof {
            power2::lemma_pow2_unfold((1 - e) as nat);
            if e == 0 {
                power2::lemma2_to64();
            }
            let a = power2::pow2((-e) as nat) as int;
            let pi = p as int;
            assert(pi * (2 * a) == 2 * (pi * a)) by (nonlinear_arith);
            assert(n == p * power2::pow2((-e) as nat)) by {
                if e == 0 {
                    assert(pi * 1 == pi);
                }
            }
            assert(lo * d < 0x100_0000_0000_0000_0000_0000_0000_0000) by (nonlinear_arith)
                requires
                    2 * lo * d < 0x200_0000_0000_0000_0000_0000_0000_0000,
            ;
            assert(2 * lo * d == 2 * (lo * d)) by (nonlinear_arith);
            lemma_exponent_small((1 - e) as nat, (2 * n) as nat);
            assert(d == q) by {
                if e == 0 {
                    assert(q * 1 == q);
                }
            }
        }
        n = 2 * n;
        e = e - 1;
    }
    proof {
        assert(2 * lo * d == (2 * lo) * d) by (nonlinear_arith);
        assert(in_binade(p as nat, q as nat, e as int, prec));
        lemma_nearest_at(p as nat, q as nat, e as int, prec);
    }
    let f: u128 = n / d;
    let rem: u128 = n % d;
    proof {
        assert(lo <= f < 2 * lo) by (nonlinear_arith)
            requires
                lo * d <= n,
                n < 2 * lo * d,
                d > 0,
                f == n / d,
        ;
        assert(d <= lo * d) by (nonlinear_arith)
            requires
                d > 0,
                lo >= 1,
        ;
        assert(2 * lo * d == 2 * (lo * d)) by (nonlinear_arith);
    }
    let m: u128 = if 2 * rem < d {
        f
    } else if 2 * rem > d {
        f + 1
    } else {
        f + f % 2
    };
    (m as u64, e)
}

/// Rounding to `prec` bits makes a number larger by at most one part in `2^prec`.
pub proof fn lemma_nearest_close(p: nat, q: nat, e: int, prec: nat)
    requires
        q > 0,
        prec >= 1,
        in_binade(p, q, e, prec),
    ensures
        power2::pow2(prec) * (nearest(p, q, prec).0 * scaled_den(q, e)) <= (power2::pow2(prec) + 1)
            * scaled_num(p, e),
        nearest(p, q, prec).1 == e,
{
    lemma_nearest_at(p, q, e, prec);
    lemma_scaled_den_pos(q, e);
    let n = scaled_num(p, e) as int;
    let d = scaled_den(q, e) as int;
    let lo = power2::pow2((prec - 1) as nat) as int;
    power2::lemma_pow2_unfold(prec);
    power2::lemma_pow2_pos((prec - 1) as nat);
    let f = n / d;
    let r = n % d;
    vstd::arithmetic::div_mod::lemma_fundamental_div_mod(n, d);
    let m = round_half_even(n as nat, d as nat) as int;
    assert(2 * (m * d) <= 2 * n + d) by (nonlinear_arith)
        requires
            n == d * f + r,
            r >= 0,
            m == f || (m == f + 1 && 2 * r >= d),
            d > 0,
    ;
    let k = 2 * lo;
    let md = m * d;
    assert(k * d == 2 * (lo * d)) by (nonlinear_arith)
        requires
            k == 2 * lo,
    ;
    assert(k * md <= (k + 1) * n) by (nonlinear_arith)
        requires
            2 * md <= 2 * n + d,
            k * d <= 2 * n,
            k >= 0,
    {
        assert(k * (2 * md) <= k * (2 * n + d)) by (nonlinear_arith)
            requires
                2 * md <= 2 * n + d,
                k >= 0,
        ;
        assert(k * (2 * md) == 2 * (k * md)) by (nonlinear_arith);
        assert(k * (2 * n + d) == 2 * (k * n) + k * d) by (nonlinear_arith);
    }
}

/// The double nearest to `p / q`.
pub fn double_from_ratio(p: u64, q: u64) -> (r: (u64, i32))
    requires
        0 < q,
    ensures
        (r.0 as nat, r.1 as int) == double_of(p as nat, q as nat),
        -124 <= r.1 <= 124,
        r.0 <= 0x20_0000_0000_0000,
        p > 0 ==> in_binade(p as nat, q as nat, r.1 as int, 53),
        p > 0 ==> r.0 > 0,
{
    if p == 0 {
        return (0, 0);
    }
    round_ratio(p as u128, q, true)
}

/// `d * n`, rounded to a double.
pub fn double_mul(d: (u64, i32), n: u32) -> (r: (u64, i32))
    requires
        d.0 <= 0x20_0000_0000_0000,
        -1000 <= d.1 <= 1000,
    ensures
        (r.0 as nat, r.1 as int) == double_times((d.0 as nat, d.1 as int), n as nat),
        d.1 - 124 <= r.1 <= d.1 + 33,
        r.0 <= 0x20_0000_0000_0000,
        (d.0 > 0 && n > 0) ==> in_binade((d.0 * n) as nat, 1, r.1 - d.1, 53),
{
    assert(0 <= d.0 * n <= 0x20_0000_0000_0000 * 0xffff_ffff) by (nonlinear_arith)
        requires
            0 <= d.0 <= 0x20_0000_0000_0000,
            0 <= n <= 0xffff_ffff,
    ;
    let p: u128 = d.0 as u128 * n as u128;
    if p == 0 {
        proof {
            assert(d.0 == 0 || n == 0) by (nonlinear_arith)
                requires
                    d.0 * n == 0,
            ;
        }
        return (0, d.1);
    }
    let r = round_ratio(p, 1, true);
    proof {
        if r.1 >= 34 {
            power2::lemma2_to64();
            power2::lemma2_to64_rest();
            if r.1 > 34 {
                power2::lemma_pow2_strictly_increases(34, r.1 as nat);
            }
            let a = power2::pow2(r.1 as nat) as int;
            assert(0x10_0000_0000_0000 * (1 * a) >= 0x10_0000_0000_0000 * 0x4_0000_0000)
                by (nonlinear_arith)
                requires
                    a >= 0x4_0000_0000,
            ;
        }
    }
    (r.0, r.1 + d.1)
}

fn shift_up(m: u64, by: u32) -> (r: u128)
    requires
        m <= 0x20_0000_0000_0000,
        by <= 64,
    ensures
        r == m * power2::pow2(by as nat),
        r <= 0x20_0000_0000_0000_0000_0000_0000_0000,
{
    let mut v: u128 = m as u128;
    let mut i: u32 = 0;
    proof {
        power2::lemma2_to64();
        assert(m * 1 == m);
    }
    while i < by
        invariant
            i <= by <= 64,
            m <= 0x20_0000_0000_0000,
            v == m * power2::pow2(i as nat),
        decreases by - i,
    {
        proof {
            power2::lemma_pow2_unfold((i + 1) as nat);
            let a = power2::pow2(i as nat) as int;
            power2::lemma2_to64();
            power2::lemma2_to64_rest();
            if i < 64 {
                power2::lemma_pow2_strictly_increases(i as nat, 64);
            }
            assert(m * a <= 0x20_0000_0000_0000 * 0x1_0000_0000_0000_0000) by (nonlinear_arith)
                requires
                    0 <= m <= 0x20_0000_0000_0000,
                    0 <= a <= 0x1_0000_0000_0000_0000,
            ;
            assert(m * (2 * a) == 2 * (m * a)) by (nonlinear_arith);
        }
        v = 2 * v;
        i += 1;
    }
    proof {
        power2::lemma2_to64();
        power2::lemma2_to64_rest();
        if by < 64 {
            power2::lemma_pow2_strictly_increases(by as nat, 64);
        }
        let a = power2::pow2(by as nat) as int;
        assert(m * a <= 0x20_0000_0000_0000 * 0x1_0000_0000_0000_0000) by (nonlinear_arith)
            requires
                0 <= m <= 0x20_0000_0000_0000,
                0 <= a <= 0x1_0000_0000_0000_0000,
        ;
    }
    v
}

/// `a + b`, rounded to a double, for exponents at most 64 apart.
pub fn double_add(a: (u64, i32), b: (u64, i32)) -> (r: (u64, i32))
    requires
        a.0 <= 0x20_0000_0000_0000,
        b.0 <= 0x20_0000_0000_0000,
        -1000 <= a.1 <= 1000,
        -1000 <= b.1 <= 1000,
        -64 <= a.1 - b.1 <= 64,
    ensures
        (r.0 as nat, r.1 as int) == double_sum((a.0 as nat, a.1 as int), (b.0 as nat, b.1 as int)),
        r.0 <= 0x20_0000_0000_0000,
        -1124 <= r.1 <= 1124,
        a.1 - 188 <= r.1,
        r.1 <= a.1 + 2 || r.1 <= b.1 + 2,
{
    let unit: i32 = if a.1 <= b.1 {
        a.1
    } else {
        b.1
    };
    let x: u128 = shift_up(a.0, (a.1 - unit) as u32);
    let y: u128 = shift_up(b.0, (b.1 - unit) as u32);
    let s: u128 = x + y;
    if s == 0 {
        return (0, unit);
    }
    let r = round_ratio(s, 1, true);
    proof {
        let top = if a.1 <= b.1 {
            b.1 - unit
        } else {
            a.1 - unit
        };
        if r.1 > top + 2 {
            lemma_sum_exponent(
                a.0 as int,
                (a.1 - unit) as nat,
                b.0 as int,
                (b.1 - unit) as nat,
                top as nat,
                r.1 as nat,
            );
        }
    }
    (r.0, r.1 + unit)
}

proof fn lemma_sum_exponent(m: int, i: nat, n: int, j: nat, top: nat, e: nat)
    requires
        0 <= m <= 0x20_0000_0000_0000,
        0 <= n <= 0x20_0000_0000_0000,
        i <= top,
        j <= top,
        e > top + 2,
    ensures
        m * power2::pow2(i) + n * power2::pow2(j) < power2::pow2(52) * (1 * power2::pow2(e)),
{
    power2::lemma2_to64();
    power2::lemma2_to64_rest();
    let t = power2::pow2(top) as int;
    let x = power2::pow2(i) as int;
    let y = power2::pow2(j) as int;
    power2::lemma_pow2_pos(top);
    power2::lemma_pow2_pos(i);
    power2::lemma_pow2_pos(j);
    if i < top {
        power2::lemma_pow2_strictly_increases(i, top);
    }
    if j < top {
        power2::lemma_pow2_strictly_increases(j, top);
    }
    power2::lemma_pow2_strictly_increases(top + 2, e);
    power2::lemma_pow2_adds(top, 2);
    assert(m * x <= 0x20_0000_0000_0000 * t) by (nonlinear_arith)
        requires
            0 <= m <= 0x20_0000_0000_0000,
            0 <= x <= t,
    ;
    assert(n * y <= 0x20_0000_0000_0000 * t) by (nonlinear_arith)
        requires
            0 <= n <= 0x20_0000_0000_0000,
            0 <= y <= t,
    ;
}

/// Whether `a <= b`, for exponents at most 64 apart.
pub fn double_not_above(a: (u64, i32), b: (u64, i32)) -> (r: bool)
    requires
        a.0 <= 0x20_0000_0000_0000,
        b.0 <= 0x20_0000_0000_0000,
        -1000 <= a.1 <= 1000,
        -1000 <= b.1 <= 1000,
        -64 <= a.1 - b.1 <= 64,
    ensures
        r == double_le((a.0 as nat, a.1 as int), (b.0 as nat, b.1 as int)),
{
    let unit: i32 = if a.1 <= b.1 {
        a.1
    } else {
        b.1
    };
    shift_up(a.0, (a.1 - unit) as u32) <= shift_up(b.0, (b.1 - unit) as u32)
}

/// The integer part of `m * 2^e`.
pub fn whole(d: (u64, i32)) -> (r: u128)
    requires
        d.0 <= 0x20_0000_0000_0000,
        -1200 <= d.1 <= 64,
    ensures
        r == whole_part((d.0 as nat, d.1 as int)),
        r <= 0x20_0000_0000_0000_0000_0000_0000_0000,
{
    if d.1 >= 0 {
        return shift_up(d.0, d.1 as u32);
    }
    let k: u32 = (-d.1) as u32;
    if k >= 64 {
        proof {
            power2::lemma2_to64();
            power2::lemma2_to64_rest();
            if k > 64 {
                power2::lemma_pow2_strictly_increases(64, k as nat);
            }
            vstd::arithmetic::div_mod::lemma_basic_div(d.0 as int, power2::pow2(k as nat) as int);
        }
        return 0;
    }
    let r: u64 = d.0 >> (k as u64);
    proof {
        vstd::bits::lemma_u64_shr_is_div(d.0, k as u64);
    }
    r as u128
}

/// `m * 2^e` rounded to the nearest integer, halves up.
pub fn round_up_half(d: (u64, i32)) -> (r: u128)
    requires
        d.0 <= 0x20_0000_0000_0000,
        -1200 <= d.1 <= 64,
    ensures
        r == round_half_up((d.0 as nat, d.1 as int)),
{
    if d.1 >= 0 {
        return shift_up(d.0, d.1 as u32);
    }
    let k: u32 = (-d.1) as u32;
    proof {
        power2::lemma2_to64();
        power2::lemma2_to64_rest();
    }
    if k >= 64 {
        proof {
            if k > 64 {
                power2::lemma_pow2_strictly_increases(64, k as nat);
            }
            let q = power2::pow2(k as nat) as int;
            vstd::arithmetic::div_mod::lemma_basic_div(2 * d.0 + q, 2 * q);
        }
        return 0;
    }
    let q: u128 = shift_up(1, k);
    (2 * d.0 as u128 + q) / (2 * q)
}

/// The bits of the single-precision number nearest to `v`.
pub open spec fn single_bits(v: nat) -> nat {
    if v == 0 {
        0
    } else {
        let d = nearest(v, 1, 24);
        ((d.1 + 150) * 0x80_0000 + d.0 - 0x80_0000) as nat
    }
}

/// The bits of the single-precision number nearest to `v`.
pub fn single_from(v: u32) -> (r: u32)
    ensures
        r == single_bits(v as nat),
{
    if v == 0 {
        return 0;
    }
    let d = round_ratio(v as u128, 1, false);
    let biased: u32 = (d.1 + 150) as u32;
    biased * 0x80_0000 + (d.0 as u32 - 0x80_0000)
}

/// The size of a double, given by its bits, without its fraction.
pub open spec fn real_size(bits: u64) -> nat {
    let exp = bits as nat / 0x10_0000_0000_0000 % 2048;
    let frac = bits as nat % 0x10_0000_0000_0000;
    if exp == 0 {
        0
    } else if exp == 2047 {
        if frac == 0 {
            0x1_0000_0000_0000_0000
        } else {
            0
        }
    } else if exp >= 1075 {
        (0x10_0000_0000_0000 + frac) * power2::pow2((exp - 1075) as nat)
    } else {
        (0x10_0000_0000_0000 + frac) / power2::pow2((1075 - exp) as nat)
    }
}

/// A double, given by its bits, as a 64-bit integer: towards zero, held to the limits, and zero
/// for what is no number.
pub open spec fn real_integer(bits: u64) -> int {
    let size = real_size(bits);
    if bits >= 0x8000_0000_0000_0000 {
        if size > 0x8000_0000_0000_0000 {
            i64::MIN as int
        } else {
            -size
        }
    } else if size > i64::MAX {
        i64::MAX as int
    } else {
        size as int
    }
}

/// The size of a double without its fraction, held to 64 bits.
fn size_of_real(bits: u64) -> (r: u64)
    ensures
        r == (if real_size(bits) <= u64::MAX {
            real_size(bits)
        } else {
            u64::MAX as nat
        }),
{
    let exp: u64 = bits / 0x10_0000_0000_0000 % 2048;
    let frac: u64 = bits % 0x10_0000_0000_0000;
    let m: u64 = 0x10_0000_0000_0000 + frac;
    if exp == 0 {
        return 0;
    }
    if exp == 2047 {
        if frac == 0 {
            return 0xffff_ffff_ffff_ffff;
        }
        return 0;
    }
    proof {
        power2::lemma2_to64();
        power2::lemma2_to64_rest();
    }
    if exp >= 1075 {
        let k: u64 = exp - 1075;
        if k > 11 {
            proof {
                power2::lemma_pow2_strictly_increases(11, k as nat);
                let a = power2::pow2(k as nat) as int;
                power2::lemma_pow2_unfold(12);
                if k > 12 {
                    power2::lemma_pow2_strictly_increases(12, k as nat);
                }
                assert(m * a >= 0x1_0000_0000_0000_0000) by (nonlinear_arith)
                    requires
                        m >= 0x10_0000_0000_0000,
                        a >= 4096,
                ;
            }
            return 0xffff_ffff_ffff_ffff;
        }
        let mut v: u64 = m;
        let mut i: u64 = 0;
        assert(m * 1 == m);
        while i < k
            invariant
                i <= k <= 11,
                0x10_0000_0000_0000 <= m < 0x20_0000_0000_0000,
                v == m * power2::pow2(i as nat),
            decreases k - i,
        {
            proof {
                power2::lemma2_to64();
                power2::lemma_pow2_unfold((i + 1) as nat);
                if i < 10 {
                    power2::lemma_pow2_strictly_increases(i as nat, 10);
                }
                let a = power2::pow2(i as nat) as int;
                assert(0 <= m * a < 0x20_0000_0000_0000 * 1024) by (nonlinear_arith)
                    requires
                        0 <= m < 0x20_0000_0000_0000,
                        0 < a <= 1024,
                ;
                assert(m * (2 * a) == 2 * (m * a)) by (nonlinear_arith);
            }
            v = v * 2;
            i += 1;
        }
        return v;
    }
    let k: u64 = 1075 - exp;
    if k >= 64 {
        proof {
            if k > 64 {
                power2::lemma_pow2_strictly_increases(64, k as nat);
            }
            vstd::arithmetic::div_mod::lemma_basic_div(m as int, power2::pow2(k as nat) as int);
        }
        return 0;
    }
    proof {
        vstd::bits::lemma_u64_shr_is_div(m, k);
        power2::lemma_pow2_pos(k as nat);
        vstd::arithmetic::div_mod::lemma_div_is_ordered_by_denominator(
            m as int,
            1,
            power2::pow2(k as nat) as int,
        );
    }
    m >> k
}

/// A double, given by its bits, as a 64-bit integer.
pub fn integer_of_real(bits: u64) -> (r: i64)
    ensures
        r == real_integer(bits),
{
    let size: u64 = size_of_real(bits);
    if bits >= 0x8000_0000_0000_0000 {
        if size >= 0x8000_0000_0000_0000 {
            i64::MIN
        } else {
            -(size as i64)
        }
    } else if size > 0x7fff_ffff_ffff_ffff {
        i64::MAX
    } else {
        size as i64
    }
}

/// A double, given by its bits, as a natural number: towards zero and held to 64 bits; none for
/// what is below zero or no number.
pub open spec fn real_natural(bits: u64) -> Option<nat> {
    let exp = bits as nat / 0x10_0000_0000_0000 % 2048;
    let frac = bits as nat % 0x10_0000_0000_0000;
    if exp == 2047 && frac != 0 {
        None
    } else if bits > 0x8000_0000_0000_0000 {
        None
    } else if real_size(bits) > u64::MAX {
        Some(u64::MAX as nat)
    } else {
        Some(real_size(bits))
    }
}

/// A double, given by its bits, as a natural number.
pub fn natural_of_real(bits: u64) -> (r: Option<u64>)
    ensures
        match r {
            Some(v) => real_natural(bits) == Some(v as nat),
            None => real_natural(bits) is None,
        },
{
    let exp: u64 = bits / 0x10_0000_0000_0000 % 2048;
    let frac: u64 = bits % 0x10_0000_0000_0000;
    if (exp == 2047 && frac != 0) || bits > 0x8000_0000_0000_0000 {
        return None;
    }
    Some(size_of_real(bits))
}

/// Rounding misses by at most one half, and where it is exactly one half the result is even.
pub proof fn law_rounding_is_near(n: nat, d: nat)
    requires
        d > 0,
    ensures
        2 * n <= 2 * (round_half_even(n, d) * d) + d,
        2 * (round_half_even(n, d) * d) <= 2 * n + d,
        2 * n == 2 * (round_half_even(n, d) * d) + d || 2 * (round_half_even(n, d) * d) == 2 * n + d
            ==> round_half_even(n, d) % 2 == 0,
{
    let f = n / d;
    vstd::arithmetic::div_mod::lemma_fundamental_div_mod(n as int, d as int);
    assert(d * f == f * d) by (nonlinear_arith);
    assert((f + 1) * d == f * d + d) by (nonlinear_arith);
    vstd::arithmetic::div_mod::lemma_mod_bound(n as int, d as int);
}

/// The number that a ratio is rounded to has the full number of digits and misses the ratio by at
/// most one half of its last digit.
pub proof fn law_nearest_is_near(p: nat, q: nat, prec: nat)
    requires
        p > 0,
        q > 0,
        prec > 0,
    ensures
        ({
            let r = nearest(p, q, prec);
            let (n, d) = (scaled_num(p, r.1), scaled_den(q, r.1));
            &&& d > 0
            &&& 2 * n <= 2 * (r.0 * d) + d
            &&& 2 * (r.0 * d) <= 2 * n + d
            &&& power2::pow2((prec - 1) as nat) * d <= n
            &&& n < power2::pow2(prec) * d
        }),
{
    lemma_binade_exists(p, q, prec);
    let e = binade(p, q, prec);
    lemma_scaled_den_pos(q, e);
    law_rounding_is_near(scaled_num(p, e), scaled_den(q, e));
}

/// A number below 2^24 is kept exactly: the digits behind the leading one and the exponent stand in
/// the bits, and give the number back.
pub proof fn law_single_keeps_small(v: nat)
    requires
        0 < v < 0x100_0000,
    ensures
        ({
            let exponent = single_bits(v) / 0x80_0000;
            let digits = single_bits(v) % 0x80_0000 + 0x80_0000;
            &&& 127 <= exponent <= 150
            &&& digits == v * power2::pow2((150 - exponent) as nat)
        }),
        single_bits(0) == 0,
{
    lemma_pow2_big();
    lemma_binade_exists(v, 1, 24);
    let e = binade(v, 1, 24);
    if e > 0 {
        power2::lemma_pow2_pos(e as nat);
        let a = power2::pow2(e as nat) as int;
        assert(a >= 2) by {
            power2::lemma_pow2_unfold(e as nat);
            power2::lemma_pow2_pos((e - 1) as nat);
        }
        assert(scaled_den(1, e) == a && scaled_num(v, e) == v);
        assert(v >= 0x100_0000) by (nonlinear_arith)
            requires
                power2::pow2(23) * a <= v,
                power2::pow2(23) == 0x80_0000,
                a >= 2,
        ;
    }
    assert(e <= 0);
    let k = (-e) as nat;
    let a = power2::pow2(k) as int;
    power2::lemma_pow2_pos(k);
    if k > 23 {
        power2::lemma_pow2_strictly_increases(23, k);
        assert(v * a >= a * 1) by (nonlinear_arith)
            requires
                v >= 1,
                a >= 0,
        ;
        power2::lemma_pow2_unfold(24);
        if k > 24 {
            power2::lemma_pow2_strictly_increases(24, k);
        }
    }
    power2::lemma2_to64();
    let n = v * power2::pow2(k);
    if e == 0 {
        assert(v * 1 == v);
    }
    assert(scaled_den(1, e) == 1);
    assert(scaled_num(v, e) == n);
    assert(power2::pow2(23) * 1 <= n && n < power2::pow2(24) * 1);
    assert(round_half_even(n, 1) == n);
    assert(single_bits(v) == (e + 150) * 0x80_0000 + n - 0x80_0000);
    assert(single_bits(v) / 0x80_0000 == e + 150 && single_bits(v) % 0x80_0000 == n - 0x80_0000) by (nonlinear_arith)
        requires
            single_bits(v) == (e + 150) * 0x80_0000 + (n - 0x80_0000),
            0x80_0000 <= n < 0x100_0000,
            e + 150 >= 0,
    ;
}

/// What a double holds, from its three fields: digits, behind a leading one, times two to the power
/// of the exponent less 1075, and a fraction is cut off.
pub proof fn law_size_of_double(exponent: nat, digits: nat, bits: u64)
    requires
        0 < exponent < 2047,
        digits < 0x10_0000_0000_0000,
        bits % 0x8000_0000_0000_0000 == exponent * 0x10_0000_0000_0000 + digits,
    ensures
        ({
            let m = 0x10_0000_0000_0000 + digits;
            &&& exponent >= 1075 ==> real_size(bits) == m * power2::pow2((exponent - 1075) as nat)
            &&& exponent < 1075 ==> real_size(bits) * power2::pow2((1075 - exponent) as nat) <= m
                && m < (real_size(bits) + 1) * power2::pow2((1075 - exponent) as nat)
            &&& bits < 0x8000_0000_0000_0000 && real_size(bits) < 0x8000_0000_0000_0000
                ==> real_integer(bits) == real_size(bits) && real_natural(bits) == Some(
                real_size(bits),
            )
            &&& bits >= 0x8000_0000_0000_0000 && real_size(bits) < 0x8000_0000_0000_0000
                ==> real_integer(bits) == -real_size(bits) && real_natural(bits) is None
        }),
{
    let b = bits as nat;
    let m = 0x10_0000_0000_0000 + digits;
    let low = b % 0x8000_0000_0000_0000;
    assert(low / 0x10_0000_0000_0000 == exponent && low % 0x10_0000_0000_0000 == digits);
    assert(b / 0x10_0000_0000_0000 % 2048 == exponent);
    assert(b % 0x10_0000_0000_0000 == digits);
    if exponent < 1075 {
        let g = power2::pow2((1075 - exponent) as nat);
        power2::lemma_pow2_pos((1075 - exponent) as nat);
        vstd::arithmetic::div_mod::lemma_fundamental_div_mod(m as int, g as int);
        vstd::arithmetic::div_mod::lemma_mod_bound(m as int, g as int);
        assert(g * (m / g) == (m / g) * g) by (nonlinear_arith);
        assert((m / g + 1) * g == (m / g) * g + g) by (nonlinear_arith);
    }
}
} // verus!
