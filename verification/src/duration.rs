//! Rendering durations the way `format!("{:.1}", us as f64 / unit as f64)`
//! does, with the binary floating-point steps modelled exactly in integers.
use vstd::prelude::*;
use crate::formatting::{duration_unit, spec_duration_unit};
use crate::text::{decimal, digit_char, push_char, push_decimal};
use vstd::arithmetic::div_mod::{lemma_fundamental_div_mod, lemma_mod_bound};

verus! {

/// `2^k`.
pub open spec fn two_to(k: nat) -> nat
    decreases k,
{
    if k == 0 { 1 } else { 2 * two_to((k - 1) as nat) }
}

/// `n / d` rounded to the nearest integer, halves to the even neighbour.
pub open spec fn round_half_even(n: nat, d: nat) -> nat {
    let q = n / d;
    let r = n % d;
    if 2 * r > d || (2 * r == d && q % 2 == 1) { (q + 1) as nat } else { q }
}

/// The non-negative part of `k`.
pub open spec fn pos_part(k: int) -> nat {
    if k >= 0 { k as nat } else { 0 }
}

/// The non-negative part of `-k`.
pub open spec fn neg_part(k: int) -> nat {
    if k >= 0 { 0 } else { (-k) as nat }
}

/// The fraction `num / den` multiplied by `2^k`, as a pair of naturals.
pub open spec fn scaled(num: nat, den: nat, k: int) -> (nat, nat) {
    (num * two_to(pos_part(k)), den * two_to(neg_part(k)))
}

/// Multiplying `num / den` by `2^k` brings it into `[2^52, 2^53)`.
pub open spec fn normalizes(num: nat, den: nat, k: int) -> bool {
    let f = scaled(num, den, k);
    two_to(52) * f.1 <= f.0 && f.0 < two_to(53) * f.1
}

/// The double nearest to the positive fraction `num / den` (ties to an
/// even mantissa), as `(m, k)` standing for `m / 2^k`: `k` puts the
/// fraction's 53 significant bits before the binary point and `m` is the
/// fraction so scaled, rounded.
pub open spec fn nearest_double(num: nat, den: nat) -> (nat, int) {
    let k = choose|k: int| normalizes(num, den, k);
    let f = scaled(num, den, k);
    (round_half_even(f.0, f.1), k)
}

/// `n as f64`: exact below `2^53`, the nearest double above.
pub open spec fn f64_of_nat(n: nat) -> (nat, int) {
    if n < two_to(53) { (n, 0) } else { nearest_double(n, 1) }
}

/// The value `m / 2^k` of a double `(m, k)` as a fraction.
pub open spec fn double_fraction(x: (nat, int)) -> (nat, nat) {
    scaled(x.0, 1, x.1 * -1)
}

/// Ten times the value of a double, rounded half to even: its digits when
/// printed with one decimal (`{:.1}`).
pub open spec fn tenths(x: (nat, int)) -> nat {
    let f = scaled(10 * x.0, 1, x.1 * -1);
    round_half_even(f.0, f.1)
}

/// A count of tenths printed with one decimal.
pub open spec fn one_decimal(t: nat) -> Seq<char> {
    decimal(t / 10) + seq!['.', digit_char((t % 10) as int)]
}

/// How a duration of `us` microseconds is shown: whole microseconds under a
/// millisecond, otherwise the duration in its unit (see
/// [`spec_duration_unit`]) computed as the `f64` quotient
/// `us as f64 / unit as f64` and printed with one decimal.
pub open spec fn humanize_text(us: nat) -> Seq<char> {
    if us < 1000 {
        decimal(us) + seq!['u', 's']
    } else {
        let unit = spec_duration_unit(us);
        let x = double_fraction(f64_of_nat(us));
        let q = nearest_double(x.0, x.1 * unit.spec_micros());
        one_decimal(tenths(q)) + unit.spec_suffix()
    }
}

proof fn lemma_two_to_adds(a: nat, b: nat)
    ensures
        two_to(a + b) == two_to(a) * two_to(b),
    decreases a,
{
    if a > 0 {
        let a1 = (a - 1) as nat;
        lemma_two_to_adds(a1, b);
        let s = a1 + b;
        assert(a + b == s + 1);
        assert(two_to(a + b) == two_to(s + 1));
        assert(two_to(s + 1) == 2 * two_to(s));
        assert(two_to(a) == 2 * two_to(a1));
        let x = two_to(a1);
        let y = two_to(b);
        assert(two_to(s) == x * y);
        assert(2 * (x * y) == (2 * x) * y) by (nonlinear_arith);
        assert(two_to(a + b) == two_to(a) * two_to(b));
    } else {
        assert(two_to(a) == 1);
        assert(a + b == b);
    }
}

proof fn lemma_two_to_pos(a: nat)
    ensures
        two_to(a) >= 1,
    decreases a,
{
    if a > 0 {
        lemma_two_to_pos((a - 1) as nat);
    }
}

proof fn lemma_two_to_monotone(a: nat, b: nat)
    requires
        a <= b,
    ensures
        two_to(a) <= two_to(b),
    decreases b,
{
    if a < b {
        lemma_two_to_monotone(a, (b - 1) as nat);
        lemma_two_to_pos((b - 1) as nat);
    }
}

proof fn lemma_two_to_values()
    ensures
        two_to(52) == 0x10_0000_0000_0000,
        two_to(53) == 0x20_0000_0000_0000,
        two_to(128) == 0x1_0000_0000_0000_0000_0000_0000_0000_0000,
{
    reveal_with_fuel(two_to, 14);
    assert(two_to(13) == 8192);
    assert(two_to(12) == 4096);
    assert(two_to(1) == 2);
    lemma_two_to_adds(13, 13);
    assert(two_to(26) == 0x400_0000);
    lemma_two_to_adds(26, 26);
    assert(two_to(52) == 0x10_0000_0000_0000);
    lemma_two_to_adds(52, 1);
    assert(two_to(53) == 0x20_0000_0000_0000);
    lemma_two_to_adds(52, 12);
    assert(two_to(64) == 0x1_0000_0000_0000_0000);
    lemma_two_to_adds(64, 64);
    assert(two_to(128) == 0x1_0000_0000_0000_0000_0000_0000_0000_0000);
}

/// The scaled fractions at two exponents differ by the power of two between
/// them.
proof fn lemma_scaled_cross(a: nat, b: nat, k1: int, k2: int)
    requires
        k1 <= k2,
    ensures
        scaled(a, b, k2).0 * scaled(a, b, k1).1 == two_to((k2 - k1) as nat) * (scaled(a, b, k1).0 * scaled(a, b, k2).1),
{
    let e = (k2 - k1) as nat;
    assert(pos_part(k2) + neg_part(k1) == e + pos_part(k1) + neg_part(k2));
    lemma_two_to_adds(pos_part(k2), neg_part(k1));
    lemma_two_to_adds(e, pos_part(k1));
    lemma_two_to_adds(e + pos_part(k1), neg_part(k2));
    let p2 = two_to(pos_part(k2));
    let n1 = two_to(neg_part(k1));
    let p1 = two_to(pos_part(k1));
    let n2 = two_to(neg_part(k2));
    let t = two_to(e);
    assert(p2 * n1 == t * p1 * n2);
    assert((a * p2) * (b * n1) == t * ((a * p1) * (b * n2))) by (nonlinear_arith)
        requires
            p2 * n1 == t * p1 * n2,
    {
    }
}

/// Moving the exponent up by one doubles the numerator (non-negative
/// exponents) or halves the denominator (negative ones).
proof fn lemma_scaled_step(num: nat, den: nat, j: int)
    ensures
        j >= 0 ==> scaled(num, den, j + 1).0 == 2 * scaled(num, den, j).0 && scaled(num, den, j + 1).1 == scaled(num, den, j).1,
        j < 0 ==> scaled(num, den, j).1 == 2 * scaled(num, den, j + 1).1 && scaled(num, den, j + 1).0 == scaled(num, den, j).0,
{
    if j >= 0 {
        let t = two_to(j as nat);
        assert(two_to((j + 1) as nat) == 2 * t);
        assert(num * (2 * t) == 2 * (num * t)) by (nonlinear_arith);
    } else {
        let t = two_to((-j - 1) as nat);
        assert(two_to((-j) as nat) == 2 * t);
        assert(den * (2 * t) == 2 * (den * t)) by (nonlinear_arith);
    }
}

/// A positive multiple of `2^x` that is below `2^128` has `x < 128`.
proof fn lemma_exponent_below_128(a: nat, x: nat)
    requires
        a >= 1,
        a * two_to(x) < two_to(128),
    ensures
        x < 128,
{
    if x >= 128 {
        lemma_two_to_monotone(128, x);
        let t = two_to(x);
        assert(a * t >= t) by (nonlinear_arith)
            requires
                a >= 1,
        {
        }
    }
}

proof fn lemma_scaled_den_pos(a: nat, b: nat, k: int)
    requires
        b > 0,
    ensures
        scaled(a, b, k).1 > 0,
{
    lemma_two_to_pos(neg_part(k));
    let t = two_to(neg_part(k));
    assert(b * t > 0) by (nonlinear_arith)
        requires
            b > 0,
            t >= 1,
    {
    }
}

/// Two different exponents cannot both normalize a fraction.
proof fn lemma_normalizes_not_below(a: nat, b: nat, k1: int, k2: int)
    requires
        b > 0,
        k1 < k2,
        normalizes(a, b, k1),
    ensures
        !normalizes(a, b, k2),
{
    if normalizes(a, b, k2) {
        reveal_with_fuel(two_to, 2);
        assert(two_to(1) == 2);
        lemma_scaled_cross(a, b, k1, k2);
        lemma_two_to_monotone(1, (k2 - k1) as nat);
        lemma_scaled_den_pos(a, b, k1);
        lemma_scaled_den_pos(a, b, k2);
        lemma_two_to_values();
        let f1 = scaled(a, b, k1);
        let f2 = scaled(a, b, k2);
        let e = two_to((k2 - k1) as nat);
        assert(false) by (nonlinear_arith)
            requires
                f2.0 * f1.1 == e * (f1.0 * f2.1),
                e >= 2,
                0x10_0000_0000_0000 * f1.1 <= f1.0,
                f2.0 < 0x20_0000_0000_0000 * f2.1,
                f1.1 > 0,
                f2.1 > 0,
        {
        }
    }
}

/// Only one exponent normalizes a fraction.
proof fn lemma_normalizes_unique(a: nat, b: nat, k1: int, k2: int)
    requires
        b > 0,
        normalizes(a, b, k1),
        normalizes(a, b, k2),
    ensures
        k1 == k2,
{
    if k1 < k2 {
        lemma_normalizes_not_below(a, b, k1, k2);
    } else if k2 < k1 {
        lemma_normalizes_not_below(a, b, k2, k1);
    }
}

/// Fractions with the same value round alike.
proof fn lemma_round_same_ratio(n1: nat, d1: nat, n2: nat, d2: nat)
    requires
        d1 > 0,
        d2 > 0,
        n1 * d2 == n2 * d1,
    ensures
        round_half_even(n1, d1) == round_half_even(n2, d2),
{
    let q1 = n1 / d1;
    let r1 = n1 % d1;
    let q2 = n2 / d2;
    let r2 = n2 % d2;
    lemma_fundamental_div_mod(n1 as int, d1 as int);
    lemma_fundamental_div_mod(n2 as int, d2 as int);
    lemma_mod_bound(n1 as int, d1 as int);
    lemma_mod_bound(n2 as int, d2 as int);
    assert(q1 == q2 && r1 * d2 == r2 * d1) by (nonlinear_arith)
        requires
            d1 > 0,
            d2 > 0,
            n1 * d2 == n2 * d1,
            n1 == d1 * q1 + r1,
            n2 == d2 * q2 + r2,
            0 <= r1 < d1,
            0 <= r2 < d2,
            q1 >= 0,
            q2 >= 0,
    {
    }
    assert((2 * r1 > d1) == (2 * r2 > d2)) by (nonlinear_arith)
        requires
            d1 > 0,
            d2 > 0,
            r1 * d2 == r2 * d1,
    {
    }
    assert((2 * r1 == d1) == (2 * r2 == d2)) by (nonlinear_arith)
        requires
            d1 > 0,
            d2 > 0,
            r1 * d2 == r2 * d1,
    {
    }
}

/// Whether `n >= c * d`, decided by integer division.
fn at_least(n: u128, d: u128, c: u128) -> (r: bool)
    requires
        d > 0,
    ensures
        r == (n >= c * d),
{
    let q = n / d;
    assert((q >= c) == (n >= c * d)) by (nonlinear_arith)
        requires
            d > 0,
            q == n / d,
    {
    }
    q >= c
}

/// `n / d` rounded half to even.
fn round_half_even_exec(n: u128, d: u128) -> (r: u128)
    requires
        d > 0,
        n / d < u128::MAX,
    ensures
        r == round_half_even(n as nat, d as nat),
{
    let q = n / d;
    let r = n % d;
    if r > d - r || (r == d - r && q % 2 == 1) { q + 1 } else { q }
}

/// `2^e`.
fn pow2_exec(e: u32) -> (r: u128)
    requires
        e < 128,
    ensures
        r == two_to(e as nat),
{
    proof {
        lemma_two_to_values();
    }
    let mut r: u128 = 1;
    let mut i: u32 = 0;
    while i < e
        invariant
            i <= e,
            e < 128,
            r == two_to(i as nat),
            two_to(128) == 0x1_0000_0000_0000_0000_0000_0000_0000_0000,
        decreases e - i,
    {
        proof {
            lemma_two_to_monotone((i + 1) as nat, 127);
            lemma_two_to_adds(127, 1);
            reveal_with_fuel(two_to, 2);
        }
        r = r * 2;
        i = i + 1;
    }
    r
}

/// Finds the exponent `k` that normalizes `num * 2^e0 / den`, and returns
/// the double nearest to that fraction as `(m, k)`.
fn nearest_double_exec(num: u128, e0: u32, den: u128) -> (r: (u128, i64))
    requires
        num > 0,
        den > 0,
        den < 0x800_0000_0000_0000_0000,
        e0 <= 128,
    ensures
        (r.0 as nat, r.1 as int) == nearest_double(num as nat * two_to(e0 as nat), den as nat),
        normalizes(num as nat * two_to(e0 as nat), den as nat, r.1 as int),
        0x10_0000_0000_0000 <= r.0 <= 0x20_0000_0000_0000,
        -128 - e0 < r.1 < 128,
        r.0 * scaled(num as nat * two_to(e0 as nat), den as nat, r.1 as int).1
            <= 2 * scaled(num as nat * two_to(e0 as nat), den as nat, r.1 as int).0,
{
    proof {
        lemma_two_to_values();
    }
    let two52: u128 = 0x10_0000_0000_0000;
    let two53: u128 = 0x20_0000_0000_0000;
    let mut n: u128 = num;
    let mut d: u128 = den;
    let mut j: i64 = 0;
    assert(two_to(0) == 1);
    assert(pos_part(0) == 0 && neg_part(0) == 0);
    assert(num as nat * 1 == num as nat && den as nat * 1 == den as nat);
    assert(scaled(num as nat, den as nat, 0) == (num as nat, den as nat));
    // Shrink while the fraction is at least 2^53.
    while at_least(n, d, two53)
        invariant
            num > 0,
            den > 0,
            n > 0,
            d > 0,
            -128 < j <= 0,
            two53 == 0x20_0000_0000_0000,
            (n as nat, d as nat) == scaled(num as nat, den as nat, j as int),
            two_to(128) == 0x1_0000_0000_0000_0000_0000_0000_0000_0000,
        decreases j + 128,
    {
        assert(d * 2 <= n / 0x8_0000_0000_0000) by (nonlinear_arith)
            requires
                n >= 0x20_0000_0000_0000 * d,
                d > 0,
        {
        }
        proof {
            lemma_scaled_step(num as nat, den as nat, j - 1);
        }
        d = d * 2;
        j = j - 1;
        proof {
            lemma_exponent_below_128(den as nat, (-j) as nat);
        }
    }
    // Grow while the fraction is below 2^52.
    while !at_least(n, d, two52)
        invariant
            num > 0,
            den > 0,
            den < 0x800_0000_0000_0000_0000,
            n > 0,
            d > 0,
            -128 < j < 128,
            two52 == 0x10_0000_0000_0000,
            two53 == 0x20_0000_0000_0000,
            n < two53 * d,
            j >= 0 ==> d == den,
            (n as nat, d as nat) == scaled(num as nat, den as nat, j as int),
            two_to(128) == 0x1_0000_0000_0000_0000_0000_0000_0000_0000,
        decreases 128 - j,
    {
        proof {
            lemma_scaled_step(num as nat, den as nat, j as int);
        }
        assert(n < 0x10_0000_0000_0000 * d);
        if j < 0 {
            let ghost d_old = d;
            d = d / 2;
            assert(d_old == 2 * d);
            assert(n < 0x20_0000_0000_0000 * d);
            if j == -1 {
                assert(neg_part(0) == 0 && two_to(0) == 1);
                assert(den as nat * 1 == den as nat);
            }
        } else {
            assert(n * 2 < 0x20_0000_0000_0000 * d);
            n = n * 2;
            proof {
                lemma_exponent_below_128(num as nat, (j + 1) as nat);
            }
        }
        j = j + 1;
    }
    assert(n / d < u128::MAX) by (nonlinear_arith)
        requires
            n < two53 * d,
            d > 0,
    {
    }
    let m = round_half_even_exec(n, d);
    let k: i64 = j - (e0 as i64);
    proof {
        let a: nat = num as nat * two_to(e0 as nat);
        assert(normalizes(num as nat, den as nat, j as int));
        lemma_same_ratio_scaled(num as nat, e0 as nat, den as nat, j as int);
        let f = scaled(a, den as nat, k as int);
        lemma_scaled_den_pos(a, den as nat, k as int);
        let lo = two_to(52);
        let hi = two_to(53);
        let (f0, f1) = f;
        assert(lo * f1 <= f0 && f0 < hi * f1) by (nonlinear_arith)
            requires
                f0 * d == n * f1,
                f1 > 0,
                d > 0,
                lo * d <= n,
                n < hi * d,
        {
        }
        assert(normalizes(a, den as nat, k as int));
        let c = choose|c: int| normalizes(a, den as nat, c);
        lemma_normalizes_unique(a, den as nat, c, k as int);
        lemma_round_same_ratio(n as nat, d as nat, f.0, f.1);
        assert(m <= two53) by (nonlinear_arith)
            requires
                m <= n / d + 1,
                n < two53 * d,
                d > 0,
        {
        }
        assert(m >= two52) by (nonlinear_arith)
            requires
                m >= n / d,
                two52 * d <= n,
                d > 0,
        {
        }
        assert(m * f1 <= 2 * f0) by (nonlinear_arith)
            requires
                m <= n / d + 1,
                f0 * d == n * f1,
                lo * f1 <= f0,
                lo == 0x10_0000_0000_0000,
                f1 > 0,
                d > 0,
        {
            assert(m * d <= n + d);
            assert(m * d * f1 <= (n + d) * f1);
            assert((n + d) * f1 == f0 * d + d * f1);
            assert(d * f1 <= d * f0);
        }
    }
    (m, k)
}

/// The fraction `num * 2^e0 / den` scaled by `2^(j - e0)` has the value of
/// `num / den` scaled by `2^j`.
proof fn lemma_same_ratio_scaled(num: nat, e0: nat, den: nat, j: int)
    ensures
        ({
            let f = scaled(num * two_to(e0), den, j - e0);
            let g = scaled(num, den, j);
            f.0 * g.1 == g.0 * f.1
        }),
{
    let k = j - e0;
    assert(e0 + pos_part(k) + neg_part(j) == pos_part(j) + neg_part(k));
    lemma_two_to_adds(e0, pos_part(k));
    lemma_two_to_adds(e0 + pos_part(k), neg_part(j));
    lemma_two_to_adds(pos_part(j), neg_part(k));
    let te = two_to(e0);
    let pk = two_to(pos_part(k));
    let nk = two_to(neg_part(k));
    let pj = two_to(pos_part(j));
    let nj = two_to(neg_part(j));
    assert(te * pk * nj == pj * nk);
    assert(((num * te) * pk) * (den * nj) == (num * pj) * (den * nk)) by (nonlinear_arith)
        requires
            te * pk * nj == pj * nk,
    {
    }
}

/// Renders a duration given in microseconds: `{us}us` under a millisecond,
/// otherwise the duration in the largest unit it fills, with one decimal
/// (`1.5ms`, `2.0s`, `1.5m`, `1.5h`), exactly as `format!("{:.1}")` prints
/// the `f64` quotient of the duration by the unit.
pub fn humanize(us: u128) -> (r: String)
    ensures
        r@ == humanize_text(us as nat),
{
    if us < 1000 {
        let mut out = String::new();
        push_decimal(&mut out, us);
        push_char(&mut out, 'u');
        push_char(&mut out, 's');
        assert(out@ =~= humanize_text(us as nat));
        return out;
    }
    proof {
        lemma_two_to_values();
    }
    let unit = duration_unit(us);
    let micros = unit.micros();
    let two53: u128 = 0x20_0000_0000_0000;
    // `us as f64`, as `num * 2^e0`.
    let (num, e0): (u128, u32) = if us < two53 {
        proof {
            assert(pos_part(0) == 0 && neg_part(0) == 0 && two_to(0) == 1);
            assert(us as nat * 1 == us as nat);
        }
        (us, 0)
    } else {
        let (m1, k1) = nearest_double_exec(us, 0, 1);
        proof {
            assert(two_to(0) == 1);
            assert(us as nat * 1 == us as nat);
            if k1 >= 1 {
                lemma_two_to_monotone(1, k1 as nat);
                reveal_with_fuel(two_to, 2);
                let t = two_to(k1 as nat);
                assert(us as nat * t >= 2 * us) by (nonlinear_arith)
                    requires
                        t >= 2,
                {
                }
            }
        }
        (m1, (0 - k1) as u32)
    };
    let ghost x = double_fraction(f64_of_nat(us as nat));
    proof {
        if us >= two53 {
            assert(neg_part(0) == 0);
            assert(x == (num as nat * two_to(e0 as nat), 1nat));
        }
        assert(x.1 == 1);
        assert(x.0 == num as nat * two_to(e0 as nat));
        assert(1 * micros as nat == micros as nat);
        // The value of `us as f64` is at most twice `us`.
        if us >= two53 {
            let f = scaled(us as nat, 1, (0 - e0) as int);
            assert(pos_part((0 - e0) as int) == 0 && neg_part((0 - e0) as int) == e0);
            assert(f == (us as nat * 1, two_to(e0 as nat) * 1)) by {
                assert(two_to(0) == 1);
            }
            assert(num as nat * two_to(e0 as nat) <= 2 * us);
        }
    }
    let (m2, k2) = nearest_double_exec(num, e0, micros);
    let t: u128 = if k2 <= 0 {
        proof {
            let a: nat = num as nat * two_to(e0 as nat);
            let f = scaled(a, micros as nat, k2 as int);
            assert(pos_part(k2 as int) == 0 && neg_part(k2 as int) == (0 - k2) as nat);
            assert(two_to(0) == 1);
            assert(f.0 == a * 1 && f.1 == micros as nat * two_to((0 - k2) as nat));
            let w = two_to((0 - k2) as nat);
            assert((0x8_0000_0000_0000 * micros) * w < two_to(128)) by (nonlinear_arith)
                requires
                    0x10_0000_0000_0000 * (micros * w) <= a * 1,
                    a <= 2 * us,
                    us < 0x1_0000_0000_0000_0000_0000_0000_0000_0000,
                    two_to(128) == 0x1_0000_0000_0000_0000_0000_0000_0000_0000,
            {
            }
            lemma_exponent_below_128((0x8_0000_0000_0000 * micros) as nat, (0 - k2) as nat);
        }
        let p = pow2_exec((0 - k2) as u32);
        proof {
            let a: nat = num as nat * two_to(e0 as nat);
            let f = scaled(a, micros as nat, k2 as int);
            assert(pos_part(k2 as int) == 0 && neg_part(k2 as int) == (0 - k2) as nat);
            assert(two_to(0) == 1);
            assert(f.1 == micros as nat * p);
            assert(f.0 == a * 1);
            assert(m2 * (micros * p) <= 2 * a);
            assert(a <= 2 * us);
            assert(micros >= 1000);
            assert(10 * m2 * p <= us) by (nonlinear_arith)
                requires
                    m2 * (micros * p) <= 2 * a,
                    a <= 2 * us,
                    micros >= 1000,
            {
            }
        }
        10 * m2 * p
    } else {
        let p = pow2_exec(k2 as u32);
        proof {
            lemma_two_to_pos(k2 as nat);
        }
        let tm: u128 = 10 * m2;
        assert(tm / p <= tm) by (nonlinear_arith)
            requires
                p >= 1,
        {
        }
        round_half_even_exec(tm, p)
    };
    proof {
        let q = (m2 as nat, k2 as int);
        let f = scaled(10 * m2 as nat, 1, k2 * -1);
        if k2 <= 0 {
            assert(pos_part(k2 * -1) == (0 - k2) as nat && neg_part(k2 * -1) == 0);
            assert(two_to(0) == 1);
            assert(f == (10 * m2 as nat * two_to((0 - k2) as nat), 1nat));
            assert(round_half_even(f.0, 1) == f.0);
            assert(t == tenths(q));
        } else {
            assert(pos_part(k2 * -1) == 0 && neg_part(k2 * -1) == k2 as nat);
            assert(two_to(0) == 1);
            assert(10 * m2 as nat * 1 == 10 * m2 as nat);
            assert(1 * two_to(k2 as nat) == two_to(k2 as nat));
            assert(f == (10 * m2 as nat, two_to(k2 as nat)));
            assert(t == tenths(q));
        }
    }
    let mut out = String::new();
    push_decimal(&mut out, t / 10);
    push_char(&mut out, '.');
    push_decimal(&mut out, t % 10);
    out.append(unit.suffix());
    assert(decimal((t % 10) as nat) =~= seq![digit_char((t % 10) as int)]);
    assert(out@ =~= humanize_text(us as nat));
    out
}

} // verus!
