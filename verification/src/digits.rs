//! Significant digits: numbers in exponent form, and the shortest text of a number.

use crate::arith::{infinity, mod_scales, open_mag, unit_exponent, Raw};
use crate::bignum::{big, less, mul_add, subtract};
use crate::decimal::{decimal_bits, decimal_of, limbs_of, pow10, pow10_unfold, zeros};
use crate::fits::{int_chars, int_text};
use crate::rounding::{inf_bits, is_prec, nearest, unit_exp, units};
use crate::text::{nat_text, nat_text_value, piece, put_chars, put_nat, put_text};
use vstd::arithmetic::div_mod::*;
use vstd::arithmetic::mul::*;
use vstd::arithmetic::power2::*;
use vstd::arithmetic::power::*;
use vstd::prelude::*;

verus! {

/// How many times ten `d` has to be multiplied by ten so that `n / d` is below ten.
pub open spec fn tens_up(n: nat, d: nat) -> nat
    decreases n - d,
{
    if d == 0 || n < 10 * d {
        0
    } else {
        1 + tens_up(n, 10 * d)
    }
}

/// How many times `n` has to be multiplied by ten so that `n / d` is at least one.
pub open spec fn tens_down(n: nat, d: nat) -> nat
    decreases
        if n >= d {
            0
        } else {
            d - n
        },
{
    if n == 0 || n >= d {
        0
    } else {
        1 + tens_down(10 * n, d)
    }
}

/// The exponent of the leading decimal digit of `n / d`.
pub open spec fn decade(n: nat, d: nat) -> int {
    if n >= d {
        tens_up(n, d) as int
    } else {
        -(tens_down(n, d) as int)
    }
}

/// A decimal number: `digits * 10^exp`.
pub struct Decimal {
    pub digits: nat,
    pub exp: int,
}

/// `n / d` cut off after `k` significant digits.
pub open spec fn cut_digits(n: nat, d: nat, k: nat) -> nat {
    let x = decade(n, d) - k + 1;
    if x >= 0 {
        n / (d * pow10(x as nat))
    } else {
        (n * pow10((-x) as nat)) / d
    }
}

/// `n / d` rounded to `k` significant digits, ties to even.
pub open spec fn round_digits(n: nat, d: nat, k: nat) -> nat {
    let x = decade(n, d) - k + 1;
    if x >= 0 {
        nearest(n, d * pow10(x as nat))
    } else {
        nearest(n * pow10((-x) as nat), d)
    }
}

/// `n / d` rounded to a whole number, ties to the greater one.
pub open spec fn half_up(n: nat, d: nat) -> nat {
    if 2 * (n % d) >= d {
        n / d + 1
    } else {
        n / d
    }
}

/// `n / d` rounded to `k` significant digits, ties to the greater one.
pub open spec fn near_digits(n: nat, d: nat, k: nat) -> nat {
    let x = decade(n, d) - k + 1;
    if x >= 0 {
        half_up(n, d * pow10(x as nat))
    } else {
        half_up(n * pow10((-x) as nat), d)
    }
}

/// A number of at most `k` digits, or the one after the largest of them, which is written
/// with one digit less and the next exponent.
pub open spec fn normal_decimal(r: nat, x: int, k: nat) -> Decimal {
    if r == pow10(k) {
        Decimal { digits: pow10((k - 1) as nat), exp: x + 1 }
    } else {
        Decimal { digits: r, exp: x }
    }
}

/// A finite magnitude rounded to `k` significant digits.
pub open spec fn rounded_decimal(mag: nat, k: nat, p: int) -> Decimal {
    let (n, d) = (units(mag, p), pow2(unit_exp(p)));
    normal_decimal(round_digits(n, d, k), decade(n, d) - k + 1, k)
}

/// The decimal of `k` significant digits nearest to a finite magnitude, the greater one of two.
pub open spec fn near_decimal(mag: nat, k: nat, p: int) -> Decimal {
    let (n, d) = (units(mag, p), pow2(unit_exp(p)));
    normal_decimal(near_digits(n, d, k), decade(n, d) - k + 1, k)
}

/// The decimal of `k` significant digits next to a finite magnitude on the other side.
pub open spec fn other_decimal(mag: nat, k: nat, p: int) -> Decimal {
    let (n, d) = (units(mag, p), pow2(unit_exp(p)));
    let cut = cut_digits(n, d, k);
    let r = if near_digits(n, d, k) == cut {
        cut + 1
    } else {
        cut
    };
    normal_decimal(r, decade(n, d) - k + 1, k)
}

/// Whether a decimal stands for a magnitude.
pub open spec fn stands_for(c: Decimal, mag: nat, p: int) -> bool {
    decimal_bits(c.digits, c.exp, p) == mag
}

/// The decimal of `k` significant digits that stands for a magnitude, the nearer one first.
pub open spec fn decimal_of_length(mag: nat, k: nat, p: int) -> Option<Decimal> {
    if stands_for(near_decimal(mag, k, p), mag, p) {
        Some(near_decimal(mag, k, p))
    } else if stands_for(other_decimal(mag, k, p), mag, p) {
        Some(other_decimal(mag, k, p))
    } else {
        None
    }
}

/// The shortest decimal, of at least `k` and at most 17 digits, that stands for a magnitude.
pub open spec fn shortest_from(mag: nat, k: nat, p: int) -> Decimal
    decreases 17 - k,
{
    if k >= 17 {
        near_decimal(mag, 17, p)
    } else {
        match decimal_of_length(mag, k, p) {
            Some(c) => c,
            None => shortest_from(mag, k + 1, p),
        }
    }
}

/// The text of a decimal number without an exponent.
pub open spec fn positional(c: Decimal) -> Seq<char> {
    let t = nat_text(c.digits);
    if c.exp >= 0 {
        t + zeros(c.exp as nat)
    } else if t.len() + c.exp > 0 {
        t.take(t.len() + c.exp).push('.') + t.skip(t.len() + c.exp)
    } else {
        "0."@ + zeros((-c.exp - t.len()) as nat) + t
    }
}

/// The shortest text of a number that stands for it and no other.
pub open spec fn shortest_spec(a: Raw, p: int) -> Seq<char> {
    let sign = if a.neg {
        seq!['-']
    } else {
        Seq::empty()
    };
    if a.nan(p) {
        "NaN"@
    } else if a.infinite(p) {
        sign + "inf"@
    } else if a.mag == 0 {
        sign.push('0')
    } else {
        sign + positional(shortest_from(a.mag as nat, 1, p))
    }
}

/// The text of a number with `k` digits behind the point and an exponent.
pub open spec fn scientific_spec(a: Raw, k: nat, p: int) -> Seq<char> {
    let sign = if a.neg {
        seq!['-']
    } else {
        Seq::empty()
    };
    let c = if a.mag == 0 {
        Decimal { digits: 0, exp: -(k as int) }
    } else {
        rounded_decimal(a.mag as nat, k + 1, p)
    };
    let t = if a.mag == 0 {
        zeros(k + 1)
    } else {
        nat_text(c.digits)
    };
    if a.nan(p) {
        "NaN"@
    } else if a.infinite(p) {
        sign + "inf"@
    } else {
        sign + seq![t[0], '.'] + t.skip(1) + "E"@ + int_text(c.exp + k)
    }
}

pub proof fn pow10_add(a: nat, b: nat)
    ensures
        pow10(a + b) == pow10(a) * pow10(b),
        pow10(a) > 0,
        pow10(b) > 0,
{
    lemma_pow_adds(10, a, b);
    lemma_pow_positive(10, a);
    lemma_pow_positive(10, b);
    lemma_pow_positive(10, a + b);
}

proof fn pow10_zero()
    ensures
        pow10(0) == 1,
{
    lemma_pow0(10);
}

/// `m * 2^s` as limbs.
fn shifted_limbs(m: u64, s: u32) -> (r: Vec<u32>)
    ensures
        big(r@) == m * pow2(s as nat),
{
    let mut v: Vec<u32> = limbs_of(m as u128);
    let mut i: u32 = 0;
    proof {
        lemma2_to64();
        assert(m * 1 == m);
    }
    while i < s
        invariant
            i <= s,
            big(v@) == m * pow2(i as nat),
        decreases s - i,
    {
        proof {
            lemma_pow2_unfold((i + 1) as nat);
            let w = pow2(i as nat);
            assert(m * (2 * w) == (m * w) * 2) by (nonlinear_arith);
        }
        mul_add(&mut v, 2, 0);
        i = i + 1;
    }
    v
}

/// A fraction with its leading digit before the point, and the exponent of that digit.
struct Leading {
    num: Vec<u32>,
    den: Vec<u32>,
    exp: i64,
}

spec fn is_leading(r: Leading, n: nat, d: nat) -> bool {
    &&& r.exp == decade(n, d)
    &&& big(r.den@) <= big(r.num@) < 10 * big(r.den@)
    &&& r.exp >= 0 ==> big(r.num@) == n && big(r.den@) == d * pow10(r.exp as nat)
    &&& r.exp < 0 ==> big(r.num@) == n * pow10((-r.exp) as nat) && big(r.den@) == d
}

/// The leading digit of `num / den`.
fn leading(num: Vec<u32>, den: Vec<u32>) -> (r: Leading)
    requires
        big(num@) > 0,
        big(den@) > 0,
        decade(big(num@), big(den@)) <= 0x7fff_ffff,
        decade(big(num@), big(den@)) >= -0x7fff_ffff,
    ensures
        is_leading(r, big(num@), big(den@)),
{
    let ghost (n, d) = (big(num@), big(den@));
    let mut num = num;
    let mut den = den;
    let mut e: i64 = 0;
    proof {
        pow10_zero();
        assert(d * 1 == d && n * 1 == n);
    }
    if less(&num, &den) {
        while less(&num, &den)
            invariant
                n > 0,
                d == big(den@),
                -0x7fff_ffff <= e <= 0,
                big(num@) == n * pow10((-e) as nat),
                big(num@) > 0,
                big(num@) < 10 * d,
                tens_down(n, d) == -e + tens_down(big(num@), d),
                tens_down(n, d) <= 0x7fff_ffff,
            decreases
                if big(num@) >= d {
                    0
                } else {
                    d - big(num@)
                },
        {
            proof {
                pow10_unfold((-e + 1) as nat);
                let w = pow10((-e) as nat);
                assert(n * (10 * w) == (n * w) * 10) by (nonlinear_arith);
            }
            mul_add(&mut num, 10, 0);
            e = e - 1;
        }
    } else {
        let mut ten: Vec<u32> = den.clone();
        assert(ten@ =~= den@);
        mul_add(&mut ten, 10, 0);
        while !less(&num, &ten)
            invariant
                n == big(num@),
                d > 0,
                0 <= e <= 0x7fff_ffff,
                big(den@) == d * pow10(e as nat),
                big(den@) > 0,
                big(ten@) == 10 * big(den@),
                big(den@) <= n,
                tens_up(n, d) == e + tens_up(n, big(den@)),
                tens_up(n, d) <= 0x7fff_ffff,
            decreases n - big(den@),
        {
            proof {
                pow10_unfold((e + 1) as nat);
                let w = pow10(e as nat);
                assert(d * (10 * w) == (d * w) * 10) by (nonlinear_arith);
            }
            den = ten.clone();
            assert(den@ =~= ten@);
            mul_add(&mut ten, 10, 0);
            e = e + 1;
        }
    }
    Leading { num, den, exp: e }
}

/// The first digits of a fraction.
struct Cut {
    /// The digits, cut off.
    digits: u64,
    /// Whether they round up, ties to even.
    up: bool,
    /// Whether they round up, ties to the greater one.
    near: bool,
    /// The power of ten they are to be multiplied by.
    exp: i64,
}

spec fn is_cut(r: Cut, n: nat, d: nat, k: nat) -> bool {
    &&& r.digits == cut_digits(n, d, k)
    &&& round_digits(n, d, k) == r.digits + if r.up {
        1int
    } else {
        0
    }
    &&& near_digits(n, d, k) == r.digits + if r.near {
        1int
    } else {
        0
    }
    &&& r.exp == decade(n, d) - k + 1
    &&& r.digits < pow10(k)
}

/// The quotient and the remainder do not change where both sides are multiplied.
proof fn cut_from(n: nat, d: nat, k: nat, e: int, num: nat, den: nat, r: nat, rem: nat)
    requires
        n > 0,
        d > 0,
        k > 0,
        e == decade(n, d),
        e >= 0 ==> num == n && den == d * pow10(e as nat),
        e < 0 ==> num == n * pow10((-e) as nat) && den == d,
        num * pow10((k - 1) as nat) == r * den + rem,
        rem < den,
    ensures
        cut_digits(n, d, k) == r,
        round_digits(n, d, k) == r + if 2 * rem > den || (2 * rem == den && r % 2 == 1) {
            1int
        } else {
            0
        },
        near_digits(n, d, k) == r + if 2 * rem >= den {
            1int
        } else {
            0
        },
{
    let k1 = (k - 1) as nat;
    let x = e - k1;
    let t = pow10(k1);
    let whole = num * t;
    assert(den > 0);
    lemma_fundamental_div_mod_converse(whole as int, den as int, r as int, rem as int);
    // The operands of the definition, and the factor between them and these.
    let (a, b, g): (nat, nat, nat) = if x >= 0 {
        (n, d * pow10(x as nat), t)
    } else if e >= 0 {
        (n * pow10((-x) as nat), d, pow10(e as nat))
    } else {
        (n * pow10((-x) as nat), d, 1)
    };
    if x >= 0 {
        pow10_add(x as nat, k1);
        let y = pow10(x as nat);
        assert(d * (y * t) == (d * y) * t) by (nonlinear_arith);
        assert(d * y > 0) by (nonlinear_arith)
            requires
                d > 0,
                y > 0,
        ;
    } else if e >= 0 {
        pow10_add((-x) as nat, e as nat);
        let (y, z) = (pow10((-x) as nat), pow10(e as nat));
        assert(n * (y * z) == (n * y) * z) by (nonlinear_arith);
    } else {
        pow10_add((-e) as nat, k1);
        let (y, z) = (pow10((-e) as nat), t);
        assert((n * y) * z == n * (y * z)) by (nonlinear_arith);
        assert(((-e) as nat) + k1 == (-x) as nat);
    }
    assert(a * g == whole);
    assert(b * g == den);
    mod_scales(a, b, g);
    let q = a % b;
    assert(q * g == rem);
    assert(2 * (q * g) > b * g <==> 2 * q > b) by (nonlinear_arith)
        requires
            g > 0,
    ;
    assert(2 * (q * g) == b * g <==> 2 * q == b) by (nonlinear_arith)
        requires
            g > 0,
    ;
}

proof fn pow10_17(k: nat)
    requires
        k <= 17,
    ensures
        pow10(k) <= 100_000_000_000_000_000,
    decreases 17 - k,
{
    if k < 17 {
        pow10_17(k + 1);
        pow10_unfold(k + 1);
    } else {
        assert(pow(10, 17) == 100_000_000_000_000_000) by {
            reveal(pow);
            reveal_with_fuel(pow, 18);
        }
    }
}

/// The first `k` digits.
fn cut(l: &Leading, k: u32, Ghost(n): Ghost<nat>, Ghost(d): Ghost<nat>) -> (r: Cut)
    requires
        n > 0,
        d > 0,
        1 <= k <= 17,
        is_leading(*l, n, d),
        -0x8000_0000 <= l.exp <= 0x8000_0000,
    ensures
        is_cut(r, n, d, k as nat),
{
    let ghost (num, den) = (big(l.num@), big(l.den@));
    let mut rest: Vec<u32> = l.num.clone();
    assert(rest@ =~= l.num@);
    let mut r: u64 = 0;
    let mut i: u32 = 0;
    proof {
        pow10_zero();
        assert(num * 1 == 10 * (0 * den) + num) by (nonlinear_arith);
    }
    while i < k
        invariant
            i <= k <= 17,
            den == big(l.den@),
            den > 0,
            big(rest@) < 10 * den,
            num * pow10(i as nat) == 10 * (r * den) + big(rest@),
            r < pow10(i as nat),
            i > 0 ==> big(rest@) % 10 == 0,
        decreases k - i,
    {
        let ghost r0 = big(rest@);
        let mut digit: u64 = 0;
        proof {
            pow10_17(i as nat);
            pow10_unfold((i + 1) as nat);
            assert(0 * den == 0) by (nonlinear_arith);
        }
        while !less(&rest, &l.den)
            invariant
                den == big(l.den@),
                den > 0,
                r0 < 10 * den,
                digit <= 9,
                r0 == digit * den + big(rest@),
            decreases big(rest@),
        {
            proof {
                assert((digit + 1) * den == digit * den + den) by (nonlinear_arith);
                assert(digit + 1 <= 9) by (nonlinear_arith)
                    requires
                        (digit + 1) * den <= r0,
                        r0 < 10 * den,
                        den > 0,
                ;
            }
            subtract(&mut rest, &l.den);
            digit = digit + 1;
        }
        let ghost rem = big(rest@);
        mul_add(&mut rest, 10, 0);
        proof {
            let w = pow10(i as nat);
            let old_r = r as int;
            assert(num * (10 * w) == 10 * (num * w)) by (nonlinear_arith);
            assert((10 * old_r + digit) * den == 10 * (old_r * den) + digit * den)
                by (nonlinear_arith);
            assert(big(rest@) == 10 * rem);
        }
        r = 10 * r + digit;
        i = i + 1;
    }
    let ghost rem = big(rest@) / 10;
    proof {
        pow10_unfold(k as nat);
        let w = pow10((k - 1) as nat);
        assert(num * (10 * w) == 10 * (num * w)) by (nonlinear_arith);
        cut_from(n, d, k as nat, l.exp as int, num, den, r as nat, rem);
    }
    let mut half: Vec<u32> = l.den.clone();
    assert(half@ =~= l.den@);
    mul_add(&mut half, 5, 0);
    let above: bool = less(&half, &rest);
    let below: bool = less(&rest, &half);
    let up: bool = above || (!below && r % 2 == 1);
    Cut { digits: r, up, near: !below, exp: l.exp - k as i64 + 1 }
}

/// A decimal number: `digits * 10^exp`.
#[derive(Clone, Copy, Debug, PartialEq, Eq, Structural)]
pub struct Digits {
    pub digits: u64,
    pub exp: i64,
}

impl Digits {
    pub open spec fn decimal(self) -> Decimal {
        Decimal { digits: self.digits as nat, exp: self.exp as int }
    }
}

fn power_of_ten(k: u32) -> (r: u64)
    requires
        k <= 17,
    ensures
        r == pow10(k as nat),
{
    let mut r: u64 = 1;
    let mut i: u32 = 0;
    proof {
        pow10_zero();
    }
    while i < k
        invariant
            i <= k <= 17,
            r == pow10(i as nat),
        decreases k - i,
    {
        proof {
            pow10_unfold((i + 1) as nat);
            pow10_17((i + 1) as nat);
        }
        r = r * 10;
        i = i + 1;
    }
    r
}

fn normal(r: u64, x: i64, k: u32) -> (c: Digits)
    requires
        1 <= k <= 17,
        -0x1_0000_0000 <= x <= 0x1_0000_0000,
    ensures
        c.decimal() == normal_decimal(r as nat, x as int, k as nat),
        -0x1_0000_0001 <= c.exp <= 0x1_0000_0001,
{
    if r == power_of_ten(k) {
        Digits { digits: power_of_ten(k - 1), exp: x + 1 }
    } else {
        Digits { digits: r, exp: x }
    }
}

proof fn tens_up_bound(n: nat, d: nat, b: nat)
    requires
        d > 0,
        n < d * pow10(b),
    ensures
        tens_up(n, d) <= b,
    decreases b,
{
    pow10_zero();
    if b == 0 {
        assert(d * 1 == d);
    } else if n >= 10 * d {
        pow10_unfold(b);
        let w = pow10((b - 1) as nat);
        assert(d * (10 * w) == (10 * d) * w) by (nonlinear_arith);
        tens_up_bound(n, 10 * d, (b - 1) as nat);
    }
}

proof fn tens_down_bound(n: nat, d: nat, b: nat)
    requires
        n > 0,
        d <= n * pow10(b),
    ensures
        tens_down(n, d) <= b,
    decreases b,
{
    pow10_zero();
    if b == 0 {
        assert(n * 1 == n);
    } else if n < d {
        pow10_unfold(b);
        let w = pow10((b - 1) as nat);
        assert(n * (10 * w) == (10 * n) * w) by (nonlinear_arith);
        tens_down_bound(10 * n, d, (b - 1) as nat);
    }
}

proof fn pow2_below_pow10(k: nat)
    ensures
        pow2(k) <= pow10(k),
    decreases k,
{
    lemma2_to64();
    pow10_zero();
    if k > 0 {
        pow2_below_pow10((k - 1) as nat);
        lemma_pow2_unfold(k);
        pow10_unfold(k);
    }
}

/// The leading digit of a finite magnitude.
fn leading_of(mag: u64, p: u32) -> (r: Leading)
    requires
        is_prec(p as int),
        0 < mag < inf_bits(p as int),
    ensures
        is_leading(r, units(mag as nat, p as int), pow2(unit_exp(p as int))),
        units(mag as nat, p as int) > 0,
        pow2(unit_exp(p as int)) > 0,
        -5000 <= r.exp <= 5000,
{
    let (m, s): (u64, u32) = open_mag(mag, p);
    let u: u32 = unit_exponent(p);
    let ghost n = units(mag as nat, p as int);
    let ghost d = pow2(u as nat);
    let num = shifted_limbs(m, s);
    let den = shifted_limbs(1, u);
    proof {
        lemma_pow2_pos(s as nat);
        lemma_pow2_pos(u as nat);
        assert(1 * d == d);
        assert(n > 0) by (nonlinear_arith)
            requires
                n == m * pow2(s as nat),
                m > 0,
                pow2(s as nat) > 0,
        ;
        // Both sides are below a power of ten.
        lemma2_to64();
        lemma_pow2_adds(64, s as nat);
        lemma2_to64_rest();
        let x = pow2(s as nat);
        assert(m * x < 0x1_0000_0000_0000_0000 * x) by (nonlinear_arith)
            requires
                m < 0x1_0000_0000_0000_0000,
                x > 0,
        ;
        pow2_below_pow10((64 + s) as nat);
        let t = pow10((64 + s) as nat);
        assert(n < d * t) by (nonlinear_arith)
            requires
                n < t,
                d >= 1,
        ;
        tens_up_bound(n, d, (64 + s) as nat);
        pow2_below_pow10(u as nat);
        let v = pow10(u as nat);
        assert(d <= n * v) by (nonlinear_arith)
            requires
                d <= v,
                n >= 1,
        ;
        tens_down_bound(n, d, u as nat);
    }
    leading(num, den)
}

fn stands(c: Digits, mag: u64, p: u32) -> (r: bool)
    requires
        is_prec(p as int),
    ensures
        r == stands_for(c.decimal(), mag as nat, p as int),
{
    let mut v: Vec<char> = Vec::new();
    put_nat(&mut v, c.digits as u128);
    assert(v@ =~= nat_text(c.digits as nat));
    proof {
        nat_text_value(c.digits as nat);
    }
    decimal_of(&v, c.exp as i128, p, Ghost(c.exp as int)) == mag
}

fn shortest_decimal(mag: u64, p: u32) -> (r: Digits)
    requires
        is_prec(p as int),
        0 < mag < inf_bits(p as int),
    ensures
        r.decimal() == shortest_from(mag as nat, 1, p as int),
        -6000 <= r.exp <= 6000,
{
    let l = leading_of(mag, p);
    let ghost n = units(mag as nat, p as int);
    let ghost d = pow2(unit_exp(p as int));
    let mut k: u32 = 1;
    while k < 17
        invariant
            is_prec(p as int),
            n == units(mag as nat, p as int) > 0,
            d == pow2(unit_exp(p as int)) > 0,
            is_leading(l, n, d),
            -5000 <= l.exp <= 5000,
            1 <= k <= 17,
            shortest_from(mag as nat, 1, p as int) == shortest_from(mag as nat, k as nat, p as int),
        decreases 17 - k,
    {
        let c = cut(&l, k, Ghost(n), Ghost(d));
        proof {
            pow10_17(k as nat);
        }
        let near: u64 = if c.near {
            c.digits + 1
        } else {
            c.digits
        };
        let far: u64 = if c.near {
            c.digits
        } else {
            c.digits + 1
        };
        let a = normal(near, c.exp, k);
        assert(a.decimal() == near_decimal(mag as nat, k as nat, p as int));
        if stands(a, mag, p) {
            return a;
        }
        let b = normal(far, c.exp, k);
        assert(b.decimal() == other_decimal(mag as nat, k as nat, p as int));
        if stands(b, mag, p) {
            return b;
        }
        k = k + 1;
    }
    let c = cut(&l, 17, Ghost(n), Ghost(d));
    proof {
        pow10_17(17);
    }
    let near: u64 = if c.near {
        c.digits + 1
    } else {
        c.digits
    };
    normal(near, c.exp, 17)
}

fn rounded_to(l: &Leading, k: u32, Ghost(mag): Ghost<nat>, p: u32) -> (r: Digits)
    requires
        1 <= k <= 17,
        units(mag, p as int) > 0,
        pow2(unit_exp(p as int)) > 0,
        is_leading(*l, units(mag, p as int), pow2(unit_exp(p as int))),
        -5000 <= l.exp <= 5000,
    ensures
        r.decimal() == rounded_decimal(mag, k as nat, p as int),
        -6000 <= r.exp <= 6000,
{
    let c = cut(l, k, Ghost(units(mag, p as int)), Ghost(pow2(unit_exp(p as int))));
    proof {
        pow10_17(k as nat);
    }
    let near: u64 = if c.up {
        c.digits + 1
    } else {
        c.digits
    };
    normal(near, c.exp, k)
}

fn put_zeros(v: &mut Vec<char>, n: usize)
    ensures
        final(v)@ == old(v)@ + zeros(n as nat),
{
    let ghost before = v@;
    for i in 0..n
        invariant
            v@ =~= before + zeros(i as nat),
    {
        v.push('0');
    }
}

fn put_positional(out: &mut Vec<char>, c: Digits)
    requires
        -6000 <= c.exp <= 6000,
    ensures
        final(out)@ == old(out)@ + positional(c.decimal()),
{
    let ghost before = out@;
    let mut t: Vec<char> = Vec::new();
    put_nat(&mut t, c.digits as u128);
    assert(t@ =~= nat_text(c.digits as nat));
    let n: usize = t.len();
    if c.exp >= 0 {
        put_chars(out, &t);
        put_zeros(out, c.exp as usize);
    } else {
        let back: usize = (-c.exp) as usize;
        if n > back {
            let whole = piece(&t, 0, n - back);
            let frac = piece(&t, n - back, n);
            assert(whole@ =~= t@.take(n - back));
            assert(frac@ =~= t@.skip(n - back));
            put_chars(out, &whole);
            out.push('.');
            put_chars(out, &frac);
        } else {
            put_text(out, "0.");
            put_zeros(out, back - n);
            put_chars(out, &t);
        }
    }
    assert(out@ =~= before + positional(c.decimal()));
}

/// The shortest text of a number that stands for it and no other.
pub fn shortest(a: Raw, p: u32) -> (r: Vec<char>)
    requires
        is_prec(p as int),
    ensures
        r@ == shortest_spec(a, p as int),
{
    let inf: u64 = infinity(p);
    let mut r: Vec<char> = Vec::new();
    if a.mag > inf {
        put_text(&mut r, "NaN");
        assert(r@ =~= "NaN"@);
        return r;
    }
    if a.neg {
        r.push('-');
    }
    if a.mag == inf {
        put_text(&mut r, "inf");
    } else if a.mag == 0 {
        r.push('0');
    } else {
        let c = shortest_decimal(a.mag, p);
        put_positional(&mut r, c);
    }
    assert(r@ =~= shortest_spec(a, p as int));
    r
}

/// The text of a number with `k` digits behind the point and an exponent.
pub fn scientific(a: Raw, k: u32, p: u32) -> (r: Vec<char>)
    requires
        is_prec(p as int),
        1 <= k <= 16,
    ensures
        r@ == scientific_spec(a, k as nat, p as int),
{
    let inf: u64 = infinity(p);
    let mut r: Vec<char> = Vec::new();
    if a.mag > inf {
        put_text(&mut r, "NaN");
        assert(r@ =~= "NaN"@);
        return r;
    }
    if a.neg {
        r.push('-');
    }
    if a.mag == inf {
        put_text(&mut r, "inf");
        assert(r@ =~= scientific_spec(a, k as nat, p as int));
        return r;
    }
    let ghost sign = r@;
    let mut t: Vec<char> = Vec::new();
    let e: i64;
    if a.mag == 0 {
        put_zeros(&mut t, k as usize + 1);
        assert(t@ =~= zeros((k + 1) as nat));
        e = 0;
    } else {
        let l = leading_of(a.mag, p);
        let c = rounded_to(&l, k + 1, Ghost(a.mag as nat), p);
        put_nat(&mut t, c.digits as u128);
        assert(t@ =~= nat_text(c.digits as nat));
        proof {
            nat_text_value(c.digits as nat);
        }
        e = c.exp + k as i64;
    }
    let head = t[0];
    let tail = piece(&t, 1, t.len());
    assert(tail@ =~= t@.skip(1));
    r.push(head);
    r.push('.');
    put_chars(&mut r, &tail);
    put_text(&mut r, "E");
    let x = int_chars(e);
    put_chars(&mut r, &x);
    assert(r@ =~= scientific_spec(a, k as nat, p as int));
    r
}

} // verus!
