//! How an exact timestamp count becomes milliseconds on the wire.
//!
//! A segment decodes to an exact integer `v` of scaled units (ten thousand per
//! millisecond). The identifier format fixes the milliseconds it stands for as
//! the IEEE-754 binary64 computation `round(double(v) / 10000)`: `v` rounded
//! once to the nearest double (ties to even), divided in binary64 (again to the
//! nearest, ties to even), then rounded half away from zero to an integer.
//! This module states that computation over the integers and implements it
//! with integer arithmetic alone.

use vstd::arithmetic::div_mod::{
    lemma_div_by_multiple, lemma_div_denominator, lemma_div_is_ordered, lemma_div_multiples_vanish, lemma_fundamental_div_mod,
    lemma_mod_multiples_basic,
};
use vstd::arithmetic::power2::{
    lemma2_to64, lemma2_to64_rest, lemma_pow2_adds, lemma_pow2_pos, lemma_pow2_strictly_increases, lemma_pow2_unfold,
    pow2,
};
use vstd::prelude::*;

verus! {

/// Scaled units per millisecond.
pub const PRECISION: u128 = 10000;

/// `a / b` rounded to the nearest integer, ties to the even neighbour.
pub open spec fn round_half_even(a: nat, b: nat) -> nat
    recommends
        b > 0,
{
    let q = a / b;
    let r = a % b;
    if 2 * r < b {
        q
    } else if 2 * r > b {
        q + 1
    } else if q % 2 == 0 {
        q
    } else {
        q + 1
    }
}

/// The number of binary digits of `v` (zero for zero).
pub open spec fn bit_length(v: nat) -> nat
    decreases v,
{
    if v == 0 {
        0
    } else {
        1 + bit_length(v / 2)
    }
}

/// The value of `v as f64`: `v` itself while it has at most 53 significant
/// bits, otherwise the nearest multiple of the spacing `2^s` of the doubles of
/// its binade, ties to an even significand.
pub open spec fn nearest_double(v: nat) -> nat {
    if bit_length(v) <= 53 {
        v
    } else {
        let s = (bit_length(v) - 53) as nat;
        round_half_even(v, pow2(s)) * pow2(s)
    }
}

/// `2^52 · 10000`: `d · 2^k` reaches it exactly when `d / 10000 · 2^k` has
/// 53 significant bits above the binary point.
pub open spec fn significand_floor() -> nat {
    pow2(52) * 10000
}

/// The least `k` (searching upward from `k`, at most `fuel` steps) with
/// `d · 2^k >= 2^52 · 10000`.
pub open spec fn quotient_shift_from(d: nat, k: nat, fuel: nat) -> nat
    decreases fuel,
{
    if fuel == 0 || d * pow2(k) >= significand_floor() {
        k
    } else {
        quotient_shift_from(d, k + 1, (fuel - 1) as nat)
    }
}

/// For `0 < d < 2^53 · 10000`: the `k` for which the doubles near
/// `d / 10000` are the multiples of `2^-k`.
pub open spec fn quotient_shift(d: nat) -> nat {
    quotient_shift_from(d, 0, 80)
}

/// `round(d / 10000)` computed in binary64: the quotient rounded to the
/// nearest multiple of `2^-k` (ties to even), then rounded half away from zero.
pub open spec fn rounded_quotient(d: nat) -> nat
    recommends
        d < pow2(53) * 10000,
{
    if d == 0 {
        0
    } else {
        let k = quotient_shift(d);
        let m = round_half_even(d * pow2(k), 10000);
        (2 * m + pow2(k)) / pow2(k + 1)
    }
}

/// The milliseconds that a segment worth `v` scaled units stands for.
pub open spec fn millis_of_scaled(v: nat) -> nat {
    rounded_quotient(nearest_double(v))
}

proof fn lemma_bit_length_bounds(v: nat)
    ensures
        v == 0 ==> bit_length(v) == 0,
        v > 0 ==> bit_length(v) >= 1 && pow2((bit_length(v) - 1) as nat) <= v && v < pow2(
            bit_length(v),
        ),
    decreases v,
{
    if v > 0 {
        let h = v / 2;
        lemma_bit_length_bounds(h);
        let b = bit_length(v);
        assert(b == 1 + bit_length(h));
        lemma_pow2_unfold(b);
        if h == 0 {
            lemma2_to64();
        } else {
            let bh = bit_length(h);
            lemma_pow2_unfold(bh);
            assert(pow2((b - 1) as nat) == pow2(bh));
        }
    }
}

pub proof fn lemma_bit_length_at_most(v: nat, n: nat)
    requires
        v < pow2(n),
    ensures
        bit_length(v) <= n,
{
    lemma_bit_length_bounds(v);
    if v > 0 && bit_length(v) > n {
        if (bit_length(v) - 1) as nat > n {
            lemma_pow2_strictly_increases(n, (bit_length(v) - 1) as nat);
        }
    }
}

proof fn lemma_round_half_even_bounds(a: nat, b: nat)
    requires
        b > 0,
    ensures
        a / b <= round_half_even(a, b) <= a / b + 1,
        (a / b) * b <= a,
        round_half_even(a, b) * b <= a + b,
        a % b == 0 ==> round_half_even(a, b) == a / b,
{
    lemma_fundamental_div_mod(a as int, b as int);
    let q = a / b;
    assert(q * b <= a) by (nonlinear_arith)
        requires
            a == b * q + a % b,
            a % b >= 0,
    ;
    assert((q + 1) * b <= a + b) by (nonlinear_arith)
        requires
            q * b <= a,
    ;
    assert(q * b <= a + b);
}

/// Rounding `a / b` the way the exec code does it.
fn round_half_even_exec(a: u128, b: u128) -> (r: u128)
    requires
        b > 0,
        a < u128::MAX,
    ensures
        r == round_half_even(a as nat, b as nat),
{
    let q = a / b;
    let rem = a % b;
    proof {
        lemma_fundamental_div_mod(a as int, b as int);
    }
    if rem < b - rem {
        q
    } else if rem > b - rem {
        assert(q < a || b == 1 || q == 0) by (nonlinear_arith)
            requires
                a == b * q + rem,
                b > 0,
                rem >= 0,
        ;
        q + 1
    } else if q % 2 == 0 {
        q
    } else {
        q + 1
    }
}

/// `v as f64`, as an integer: the nearest double to `v`.
fn nearest_double_exec(v: u128) -> (d: u128)
    requires
        v < pow2(57),
    ensures
        d == nearest_double(v as nat),
        d <= pow2(57),
{
    let mut w: u128 = v;
    let mut bits: u128 = 0;
    proof {
        lemma2_to64_rest();
        lemma_bit_length_at_most(v as nat, 57);
    }
    while w > 0
        invariant
            bits + bit_length(w as nat) == bit_length(v as nat),
            bit_length(v as nat) <= 57,
        decreases w,
    {
        w = w / 2;
        bits = bits + 1;
    }
    assert(bit_length(w as nat) == 0);
    if bits <= 53 {
        return v;
    }
    let shift: u128 = bits - 53;
    let mut p: u128 = 1;
    let mut i: u128 = 0;
    proof {
        lemma2_to64();
    }
    while i < shift
        invariant
            i <= shift,
            shift <= 4,
            p == pow2(i as nat),
        decreases shift - i,
    {
        proof {
            lemma2_to64();
            lemma_pow2_unfold((i + 1) as nat);
        }
        p = p * 2;
        i = i + 1;
    }
    let rounded = round_half_even_exec(v, p);
    proof {
        lemma_pow2_pos(shift as nat);
        lemma_round_half_even_bounds(v as nat, p as nat);
        lemma_bit_length_bounds(v as nat);
        lemma_pow2_adds(53, shift as nat);
        lemma2_to64();
        let q = (v as nat) / (p as nat);
        assert(q < pow2(53)) by (nonlinear_arith)
            requires
                q * p <= v,
                v < pow2(53) * p,
                p > 0,
        ;
        assert(rounded * p <= pow2(53) * p) by (nonlinear_arith)
            requires
                rounded <= pow2(53),
                p > 0,
        ;
        lemma2_to64_rest();
        if shift < 4 {
            lemma_pow2_strictly_increases((53 + shift) as nat, 57);
        }
    }
    rounded * p
}

/// The milliseconds a segment worth `v` scaled units stands for, computed
/// with integers.
pub fn millis_of_scaled_exec(v: u128) -> (ms: u128)
    requires
        v < pow2(57),
    ensures
        ms == millis_of_scaled(v as nat),
{
    let d = nearest_double_exec(v);
    if d == 0 {
        return 0;
    }
    let floor: u128 = 0x10000000000000 * 10000;
    let mut x: u128 = d;
    let mut p: u128 = 1;
    let mut k: u128 = 0;
    proof {
        lemma2_to64();
        lemma2_to64_rest();
        assert(pow2(52) == 0x10000000000000);
        assert(floor == significand_floor());
        assert(pow2(0) == 1);
    }
    while x < floor
        invariant
            1 <= d <= pow2(57),
            pow2(57) == 0x200000000000000,
            floor == significand_floor(),
            floor == 0x10000000000000 * 10000,
            x == d * p,
            p == pow2(k as nat),
            p >= 1,
            k <= 66,
            x < 2 * floor,
            quotient_shift(d as nat) == quotient_shift_from(d as nat, k as nat, (80 - k) as nat),
        decreases 2 * floor - x,
    {
        proof {
            assert(p <= x) by (nonlinear_arith)
                requires
                    x == d * p,
                    d >= 1,
                    p >= 0,
            ;
            if k >= 66 {
                lemma_pow2_adds(64, 2);
                lemma2_to64();
                if k > 66 {
                    lemma_pow2_strictly_increases(66, k as nat);
                }
            }
            assert(k < 66);
            lemma_pow2_unfold((k + 1) as nat);
            assert(quotient_shift_from(d as nat, k as nat, (80 - k) as nat) == quotient_shift_from(
                d as nat,
                (k + 1) as nat,
                (80 - (k + 1)) as nat,
            ));
        }
        x = x * 2;
        p = p * 2;
        k = k + 1;
        proof {
            assert(x == d * p) by (nonlinear_arith)
                requires
                    x == 2 * (d * (p / 2)),
                    p == 2 * (p / 2),
            ;
        }
    }
    assert(quotient_shift(d as nat) == k);
    let m = round_half_even_exec(x, 10000);
    proof {
        lemma_round_half_even_bounds(x as nat, 10000);
        lemma_pow2_unfold((k + 1) as nat);
        assert(x / 10000 < pow2(53)) by (nonlinear_arith)
            requires
                x < 2 * floor,
                floor == 0x10000000000000 * 10000,
                pow2(53) == 0x20000000000000,
        ;
        assert(p <= pow2(66)) by {
            lemma_pow2_adds(64, 2);
            if k < 66 {
                lemma_pow2_strictly_increases(k as nat, 66);
            }
        }
        assert(pow2(66) == 0x10000000000000000 * 4) by {
            lemma_pow2_adds(64, 2);
        }
        assert(m <= 0x20000000000000);
    }
    (2 * m + p) / (2 * p)
}

proof fn lemma_quotient_shift_positive(d: nat)
    requires
        0 < d < significand_floor(),
    ensures
        quotient_shift(d) >= 1,
{
    lemma2_to64();
    assert(d * pow2(0) == d);
    assert(quotient_shift_from(d, 0, 80) == quotient_shift_from(d, 1, 79));
    lemma_quotient_shift_from_at_least(d, 1, 79);
}

proof fn lemma_quotient_shift_from_at_least(d: nat, k: nat, fuel: nat)
    ensures
        quotient_shift_from(d, k, fuel) >= k,
    decreases fuel,
{
    if fuel > 0 && d * pow2(k) < significand_floor() {
        lemma_quotient_shift_from_at_least(d, k + 1, (fuel - 1) as nat);
    }
}

proof fn lemma_nearest_double_exact(v: nat)
    requires
        v < pow2(57),
        v % 16 == 0,
    ensures
        nearest_double(v) == v,
{
    lemma_bit_length_at_most(v, 57);
    let b = bit_length(v);
    if b > 53 {
        let s = (b - 53) as nat;
        lemma2_to64();
        let p = pow2(s);
        assert(v % p == 0) by {
            assert(p == 2 || p == 4 || p == 8 || p == 16);
            lemma_fundamental_div_mod(v as int, 16);
        }
        lemma_round_half_even_bounds(v, p);
        lemma_fundamental_div_mod(v as int, p as int);
    }
}

/// A stamp taken at a whole millisecond decodes to that millisecond.
pub proof fn law_whole_millisecond_round_trip(m: nat)
    requires
        10000 * m < pow2(57),
    ensures
        millis_of_scaled(10000 * m) == m,
{
    let v = 10000 * m;
    lemma_nearest_double_exact(v);
    if m > 0 {
        lemma2_to64_rest();
        lemma2_to64();
        assert(v < significand_floor());
        lemma_quotient_shift_positive(v);
        let k = quotient_shift(v);
        let pk = pow2(k);
        lemma_pow2_pos(k);
        let x = v * pk;
        assert(x == 10000 * (m * pk)) by (nonlinear_arith)
            requires
                x == v * pk,
                v == 10000 * m,
        ;
        lemma_div_multiples_vanish((m * pk) as int, 10000);
        lemma_mod_multiples_basic((m * pk) as int, 10000);
        assert(x % 10000 == 0) by {
            assert((m * pk) * 10000 == x) by (nonlinear_arith)
                requires
                    x == 10000 * (m * pk),
            ;
        }
        lemma_round_half_even_bounds(x, 10000);
        let mm = round_half_even(x, 10000);
        assert(mm == m * pk);
        lemma_pow2_unfold(k + 1);
        assert(2 * mm + pk == (2 * m + 1) * pk) by (nonlinear_arith)
            requires
                mm == m * pk,
        ;
        assert(pow2(k + 1) == pk * 2);
        lemma_div_denominator(((2 * m + 1) * pk) as int, pk as int, 2);
        assert(((2 * m + 1) * pk) / pk == 2 * m + 1) by {
            lemma_div_by_multiple((2 * m + 1) as int, pk as int);
        }
        assert((2 * m + 1) / 2 == m);
    }
}

proof fn lemma_round_half_even_monotone(a1: nat, a2: nat, b: nat)
    requires
        b > 0,
        a1 <= a2,
    ensures
        round_half_even(a1, b) <= round_half_even(a2, b),
{
    lemma_fundamental_div_mod(a1 as int, b as int);
    lemma_fundamental_div_mod(a2 as int, b as int);
    lemma_div_is_ordered(a1 as int, a2 as int, b as int);
    let q1 = a1 / b;
    let q2 = a2 / b;
    if q1 == q2 {
        assert(a1 % b <= a2 % b);
    }
}

proof fn lemma_bit_length_monotone(v1: nat, v2: nat)
    requires
        v1 <= v2,
    ensures
        bit_length(v1) <= bit_length(v2),
{
    lemma_bit_length_bounds(v1);
    lemma_bit_length_bounds(v2);
    if bit_length(v1) > bit_length(v2) {
        if (bit_length(v1) - 1) as nat > bit_length(v2) {
            lemma_pow2_strictly_increases(bit_length(v2), (bit_length(v1) - 1) as nat);
        }
    }
}

/// Rounding beyond 53 bits stays within the binade, or reaches its top.
proof fn lemma_nearest_double_binade(v: nat)
    requires
        bit_length(v) > 53,
    ensures
        pow2((bit_length(v) - 1) as nat) <= nearest_double(v) <= pow2(bit_length(v)),
{
    let b = bit_length(v);
    let s = (b - 53) as nat;
    let p = pow2(s);
    lemma_pow2_pos(s);
    lemma_bit_length_bounds(v);
    lemma_round_half_even_bounds(v, p);
    lemma_pow2_adds(53, s);
    lemma_pow2_adds(52, s);
    lemma_fundamental_div_mod(v as int, p as int);
    lemma2_to64_rest();
    let q = v / p;
    assert(pow2(52) <= q && q < pow2(53)) by (nonlinear_arith)
        requires
            pow2(52) * p <= v,
            v < pow2(53) * p,
            v == p * q + v % p,
            0 <= v % p < p,
            p > 0,
    ;
    let r = round_half_even(v, p);
    assert(pow2(52) * p <= r * p && r * p <= pow2(53) * p) by (nonlinear_arith)
        requires
            pow2(52) <= q <= r <= q + 1,
            q < pow2(53),
            p > 0,
    ;
    assert((52 + s) as nat == (b - 1) as nat);
}

/// `v as f64` is monotone.
pub proof fn lemma_nearest_double_monotone(v1: nat, v2: nat)
    requires
        v1 <= v2,
    ensures
        nearest_double(v1) <= nearest_double(v2),
{
    lemma_bit_length_monotone(v1, v2);
    let b1 = bit_length(v1);
    let b2 = bit_length(v2);
    lemma_bit_length_bounds(v1);
    if b2 > 53 {
        lemma_nearest_double_binade(v2);
        if b1 <= 53 {
            if 53 < (b2 - 1) as nat {
                lemma_pow2_strictly_increases(53, (b2 - 1) as nat);
            }
            if v1 > 0 {
                if b1 < 53 {
                    lemma_pow2_strictly_increases(b1, 53);
                }
            }
        } else if b1 == b2 {
            let s = (b1 - 53) as nat;
            lemma_pow2_pos(s);
            lemma_round_half_even_monotone(v1, v2, pow2(s));
            assert(round_half_even(v1, pow2(s)) * pow2(s) <= round_half_even(v2, pow2(s)) * pow2(
                s,
            )) by (nonlinear_arith)
                requires
                    round_half_even(v1, pow2(s)) <= round_half_even(v2, pow2(s)),
            ;
        } else {
            lemma_nearest_double_binade(v1);
            if b1 < (b2 - 1) as nat {
                lemma_pow2_strictly_increases(b1, (b2 - 1) as nat);
            }
        }
    }
}

proof fn lemma_shift_from(d: nat, k: nat, fuel: nat)
    requires
        d >= 1,
        d * pow2(k) < significand_floor(),
        d * pow2(k + fuel) >= significand_floor(),
    ensures
        significand_floor() <= d * pow2(quotient_shift_from(d, k, fuel)) < 2 * significand_floor(),
        quotient_shift_from(d, k, fuel) > k,
    decreases fuel,
{
    lemma_pow2_unfold(k + 1);
    assert(d * pow2(k + 1) == 2 * (d * pow2(k))) by (nonlinear_arith)
        requires
            pow2(k + 1) == 2 * pow2(k),
    ;
    if fuel == 0 {
        assert(k + fuel == k);
    }
    assert(quotient_shift_from(d, k, fuel) == quotient_shift_from(d, k + 1, (fuel - 1) as nat));
    if d * pow2(k + 1) >= significand_floor() {
        assert(quotient_shift_from(d, k + 1, (fuel - 1) as nat) == k + 1);
    } else {
        if fuel == 1 {
            assert(k + fuel == k + 1);
        }
        assert((k + 1 + (fuel - 1)) as nat == k + fuel);
        lemma_shift_from(d, k + 1, (fuel - 1) as nat);
    }
}

/// For `0 < d < 2^52 · 10000` the shift puts `d · 2^k` in
/// `[2^52 · 10000, 2^53 · 10000)`.
proof fn lemma_quotient_shift_bounds(d: nat)
    requires
        0 < d < significand_floor(),
    ensures
        significand_floor() <= d * pow2(quotient_shift(d)) < 2 * significand_floor(),
{
    lemma2_to64();
    lemma2_to64_rest();
    lemma_pow2_adds(64, 16);
    assert(pow2(80) >= significand_floor());
    assert(d * pow2(80) >= pow2(80)) by (nonlinear_arith)
        requires
            d >= 1,
    ;
    assert(d * pow2(0) == d);
    lemma_shift_from(d, 0, 80);
}

/// `round(d / 10000)` in binary64 is monotone in `d`.
proof fn lemma_rounded_quotient_monotone(d1: nat, d2: nat)
    requires
        0 < d1 <= d2 < significand_floor(),
    ensures
        rounded_quotient(d1) <= rounded_quotient(d2),
{
    let k1 = quotient_shift(d1);
    let k2 = quotient_shift(d2);
    lemma_quotient_shift_bounds(d1);
    lemma_quotient_shift_bounds(d2);
    let p1 = pow2(k1);
    let p2 = pow2(k2);
    lemma_pow2_pos(k1);
    lemma_pow2_pos(k2);
    let x1 = d1 * p1;
    let x2 = d2 * p2;
    let fl = significand_floor();
    if k1 < k2 {
        lemma_pow2_unfold(k2);
        if k1 < (k2 - 1) as nat {
            lemma_pow2_strictly_increases(k1, (k2 - 1) as nat);
        }
        assert(x2 >= 2 * x1) by (nonlinear_arith)
            requires
                p2 >= 2 * p1,
                d2 >= d1,
                x1 == d1 * p1,
                x2 == d2 * p2,
                p1 > 0,
        ;
        assert(false);
    }
    let m1 = round_half_even(x1, 10000);
    let m2 = round_half_even(x2, 10000);
    lemma_pow2_unfold(k1 + 1);
    lemma_pow2_unfold(k2 + 1);
    let n1 = 2 * m1 + p1;
    let n2 = 2 * m2 + p2;
    if k1 == k2 {
        assert(x1 <= x2) by (nonlinear_arith)
            requires
                d1 <= d2,
                x1 == d1 * p1,
                x2 == d2 * p1,
                p1 > 0,
        ;
        lemma_round_half_even_monotone(x1, x2, 10000);
        lemma_div_is_ordered(n1 as int, n2 as int, pow2(k1 + 1) as int);
    } else {
        let t = pow2((k1 - k2) as nat);
        lemma_pow2_adds(k2, (k1 - k2) as nat);
        assert(p1 == p2 * t);
        lemma_pow2_pos((k1 - k2) as nat);
        lemma_pow2_unfold((k1 - k2) as nat);
        lemma_pow2_pos((k1 - k2 - 1) as nat);
        assert(t >= 2);
        lemma2_to64_rest();
        lemma_round_half_even_bounds(x1, 10000);
        lemma_round_half_even_bounds(x2, 10000);
        lemma_fundamental_div_mod(x1 as int, 10000);
        lemma_fundamental_div_mod(x2 as int, 10000);
        assert(m1 <= pow2(53)) by (nonlinear_arith)
            requires
                x1 < 2 * fl,
                fl == pow2(52) * 10000,
                pow2(53) == 2 * pow2(52),
                m1 <= x1 / 10000 + 1,
                x1 == 10000 * (x1 / 10000) + x1 % 10000,
                x1 % 10000 >= 0,
        ;
        assert(m2 >= pow2(52)) by (nonlinear_arith)
            requires
                x2 >= fl,
                fl == pow2(52) * 10000,
                m2 >= x2 / 10000,
                x2 == 10000 * (x2 / 10000) + x2 % 10000,
                x2 % 10000 < 10000,
        ;
        assert(n1 <= n2 * t) by (nonlinear_arith)
            requires
                m1 <= pow2(53),
                m2 >= pow2(52),
                pow2(53) == 2 * pow2(52),
                t >= 2,
                n1 == 2 * m1 + p1,
                n2 == 2 * m2 + p2,
                p1 == p2 * t,
        ;
        let den2 = pow2(k2 + 1);
        assert(pow2(k1 + 1) == den2 * t) by (nonlinear_arith)
            requires
                pow2(k1 + 1) == 2 * p1,
                den2 == 2 * p2,
                p1 == p2 * t,
        ;
        lemma_div_is_ordered(n1 as int, (n2 * t) as int, (den2 * t) as int);
        lemma_div_denominator((n2 * t) as int, t as int, den2 as int);
        lemma_div_by_multiple(n2 as int, t as int);
        assert(t * den2 == den2 * t) by (nonlinear_arith);
    }
}

/// `round_half_even(a, b)` is within half of `b` of `a / b`, scaled by `b`.
proof fn lemma_round_half_even_close(a: nat, b: nat)
    requires
        b > 0,
    ensures
        2 * (round_half_even(a, b) * b) <= 2 * a + b,
        2 * a <= 2 * (round_half_even(a, b) * b) + b,
{
    lemma_fundamental_div_mod(a as int, b as int);
    let q = a / b;
    let r = a % b;
    assert(a == q * b + r) by (nonlinear_arith)
        requires
            a == b * q + r,
    ;
    assert((q + 1) * b == q * b + b) by (nonlinear_arith);
}

/// `v as f64` is within 8 of `v` below `2^57`.
proof fn lemma_nearest_double_close(v: nat)
    requires
        v < pow2(57),
    ensures
        nearest_double(v) <= v + 8,
        v <= nearest_double(v) + 8,
{
    lemma_bit_length_at_most(v, 57);
    let b = bit_length(v);
    if b > 53 {
        let s = (b - 53) as nat;
        lemma2_to64();
        let p = pow2(s);
        assert(p == 2 || p == 4 || p == 8 || p == 16);
        lemma_round_half_even_close(v, p);
    }
}

/// A stamp decodes to its exact value rounded to the nearest millisecond,
/// halves up, unless its sub-millisecond part lies within 20 units of a half
/// (`4980 <= v % 10000 < 5020`): there the two binary64 roundings may land on
/// either neighbour. Either way it is one of the two milliseconds around it.
pub proof fn law_rounds_to_nearest_millisecond(v: nat)
    requires
        v < pow2(57),
    ensures
        v / 10000 <= millis_of_scaled(v) <= v / 10000 + 1,
        v % 10000 < 4980 || v % 10000 >= 5020 ==> millis_of_scaled(v) == (v + 5000) / 10000,
{
    let d = nearest_double(v);
    lemma_nearest_double_close(v);
    lemma_fundamental_div_mod(v as int, 10000);
    let q = v / 10000;
    let r = v % 10000;
    lemma2_to64_rest();
    lemma_bit_length_at_most(v, 57);
    if bit_length(v) > 53 {
        lemma_nearest_double_binade(v);
        if bit_length(v) < 57 {
            lemma_pow2_strictly_increases(bit_length(v), 57);
        }
    }
    assert(d <= pow2(57));
    if v == 0 {
        assert(d == 0);
        assert(millis_of_scaled(v) == 0);
    } else {
        if bit_length(v) > 53 {
            lemma_bit_length_bounds(v);
            lemma_pow2_pos((bit_length(v) - 1) as nat);
        }
        assert(d > 0);
        assert(pow2(57) < significand_floor()) by {
            lemma_pow2_adds(52, 5);
            lemma2_to64();
            lemma_pow2_pos(52);
        }
        lemma_quotient_shift_bounds(d);
        let k = quotient_shift(d);
        let pk = pow2(k);
        lemma_pow2_pos(k);
        assert(pk >= 512) by {
            if k < 9 {
                if k < 8 {
                    lemma_pow2_strictly_increases(k, 8);
                }
                lemma2_to64();
                lemma_pow2_adds(57, 8);
                lemma_pow2_adds(52, 13);
                assert(d * pk <= pow2(57) * 256) by (nonlinear_arith)
                    requires
                        d <= pow2(57),
                        pk <= 256,
                ;
                assert(pow2(65) < significand_floor()) by (nonlinear_arith)
                    requires
                        pow2(65) == pow2(52) * 8192,
                        pow2(52) > 0,
                ;
                assert(false);
            }
            if k > 9 {
                lemma_pow2_strictly_increases(9, k);
            }
            lemma2_to64();
        }
        let x = d * pk;
        let m = round_half_even(x, 10000);
        lemma_round_half_even_close(x, 10000);
        lemma_pow2_unfold(k + 1);
        let den = pow2(k + 1);
        let res = (2 * m + pk) / den;
        assert(res == millis_of_scaled(v));
        let num: int = (2 * m + pk) as int;
        let rem: int = num % (den as int);
        lemma_fundamental_div_mod(num, den as int);
        assert(res == num / (den as int));
        assert(res * den <= 2 * m + pk && 2 * m + pk < (res + 1) * den) by (nonlinear_arith)
            requires
                num == (den as int) * (res as int) + rem,
                0 <= rem < den,
                num == 2 * m + pk,
        ;
        // Lower bound: res >= q, and res >= q + 1 when r >= 5020.
        assert(20000 * pk * (res + 1) > 20000 * q * pk + 10000 * pk + 2 * pk * (r as int) - 16 * pk
            - 10000) by (nonlinear_arith)
            requires
                2 * m + pk < (res + 1) * den,
                den == 2 * pk,
                2 * x <= 2 * (m * 10000) + 10000,
                x == d * pk,
                v <= d + 8,
                v == 10000 * q + r,
        ;
        assert(res >= q) by (nonlinear_arith)
            requires
                20000 * pk * (res + 1) > 20000 * q * pk + 10000 * pk + 2 * pk * (r as int) - 16 * pk
                    - 10000,
                pk >= 512,
                r >= 0,
        ;
        if r >= 5020 {
            assert(res >= q + 1) by (nonlinear_arith)
                requires
                    20000 * pk * (res + 1) > 20000 * q * pk + 10000 * pk + 2 * pk * (r as int) - 16
                        * pk - 10000,
                    pk >= 512,
                    r >= 5020,
            ;
        }
        // Upper bound: res <= q + 1, and res <= q when r < 4980.
        assert(20000 * pk * res <= 20000 * q * pk + 10000 * pk + 2 * pk * (r as int) + 16 * pk
            + 10000) by (nonlinear_arith)
            requires
                res * den <= 2 * m + pk,
                den == 2 * pk,
                2 * (m * 10000) <= 2 * x + 10000,
                x == d * pk,
                d <= v + 8,
                v == 10000 * q + r,
        ;
        assert(res <= q + 1) by (nonlinear_arith)
            requires
                20000 * pk * res <= 20000 * q * pk + 10000 * pk + 2 * pk * (r as int) + 16 * pk
                    + 10000,
                pk >= 512,
                r < 10000,
        ;
        if r < 4980 {
            assert(res <= q) by (nonlinear_arith)
                requires
                    20000 * pk * res <= 20000 * q * pk + 10000 * pk + 2 * pk * (r as int) + 16 * pk
                        + 10000,
                    pk >= 512,
                    r < 4980,
            ;
        }
        assert((v + 5000) / 10000 == if r >= 5000 { q + 1 } else { q }) by {
            lemma_fundamental_div_mod((v + 5000) as int, 10000);
        }
    }
}

/// Decoding is monotone: a later stamp never decodes to an earlier
/// millisecond.
pub proof fn law_millis_monotone(v1: nat, v2: nat)
    requires
        v1 <= v2 < pow2(57),
    ensures
        millis_of_scaled(v1) <= millis_of_scaled(v2),
{
    lemma_nearest_double_monotone(v1, v2);
    lemma_bit_length_at_most(v2, 57);
    lemma2_to64_rest();
    let d1 = nearest_double(v1);
    let d2 = nearest_double(v2);
    if bit_length(v2) > 53 {
        lemma_nearest_double_binade(v2);
        lemma_pow2_strictly_increases(bit_length(v2), 66);
        if bit_length(v2) < 57 {
            lemma_pow2_strictly_increases(bit_length(v2), 57);
        }
    }
    assert(d2 <= pow2(57));
    if d1 > 0 {
        lemma_rounded_quotient_monotone(d1, d2);
    }
}

} // verus!
