//! Decimal text to floating-point numbers and back.

use crate::arith::{infinity, mod_scales, open_mag, Raw};
use crate::bignum::{big, div_ten, is_zero, less, mul_add, subtract};
use crate::rounding::{
    inf_bits, is_prec, lead, lead_is_pow2, nan_bits, nearest, pack, power_of_two, round_bits,
    spacing, unit_exp, units,
};
use crate::text::{
    all_digits, digits_capped, digits_value, find, find_spec, is_digit, lower, lower_spec, nat_text,
    only_digits, piece, put_chars, put_text, same_text,
};
use vstd::arithmetic::div_mod::*;
use vstd::arithmetic::mul::*;
use vstd::arithmetic::power2::*;
use vstd::arithmetic::power::*;
use vstd::prelude::*;

verus! {

// ---------------------------------------------------------------------------
// Reading
// ---------------------------------------------------------------------------

/// `10^n`.
pub open spec fn pow10(n: nat) -> nat {
    pow(10, n) as nat
}

/// The magnitude bits nearest to `digits * 10^exp`.
pub open spec fn decimal_bits(digits: nat, exp: int, p: int) -> nat {
    if exp >= 0 {
        round_bits(digits * pow10(exp as nat) * pow2(unit_exp(p)), 1, p)
    } else {
        round_bits(digits * pow2(unit_exp(p)), pow10((-exp) as nat), p)
    }
}

/// The exponent that `s` spells: digits, perhaps after a sign.
pub open spec fn exponent_spec(s: Seq<char>) -> Option<int> {
    let signed = s.len() > 0 && (s[0] == '+' || s[0] == '-');
    let t = if signed {
        s.drop_first()
    } else {
        s
    };
    if t.len() == 0 || !all_digits(t) {
        None
    } else if signed && s[0] == '-' {
        Some(-(digits_value(t) as int))
    } else {
        Some(digits_value(t) as int)
    }
}

/// What a decimal numeral without a sign stands for: digits with a point among
/// them or none, and perhaps an exponent. The result is the digits as one number
/// and the power of ten it is to be multiplied by.
pub open spec fn numeral_spec(s: Seq<char>) -> Option<(nat, int)> {
    let e = find_spec(s, 'e', 'E');
    let mantissa = s.take(e);
    let exp = if e < s.len() {
        exponent_spec(s.skip(e + 1))
    } else {
        Some(0)
    };
    let dot = find_spec(mantissa, '.', '.');
    let whole = mantissa.take(dot);
    let frac = if dot < mantissa.len() {
        mantissa.skip(dot + 1)
    } else {
        Seq::empty()
    };
    if exp is None || !all_digits(whole) || !all_digits(frac) || whole.len() + frac.len() == 0 {
        None
    } else {
        Some((digits_value(whole + frac), exp->0 - frac.len()))
    }
}

/// The floating-point number that `s` spells: a sign or none, and then a decimal
/// numeral or one of the words for infinity and not-a-number.
pub open spec fn float_spec(s: Seq<char>, p: int) -> Option<Raw> {
    let signed = s.len() > 0 && (s[0] == '+' || s[0] == '-');
    let neg = signed && s[0] == '-';
    let body = if signed {
        s.drop_first()
    } else {
        s
    };
    let word = lower_spec(body);
    if word == "nan"@ {
        Some(Raw { neg, mag: nan_bits(p) as u64 })
    } else if word == "inf"@ || word == "infinity"@ {
        Some(Raw { neg, mag: inf_bits(p) as u64 })
    } else {
        match numeral_spec(body) {
            Some((digits, exp)) => Some(Raw { neg, mag: decimal_bits(digits, exp, p) as u64 }),
            None => None,
        }
    }
}

proof fn round_tiny(n: nat, d: nat, p: int)
    requires
        is_prec(p),
        2 * n < d,
    ensures
        round_bits(n, d, p) == 0,
{
    assert(2 * lead(p) * d >= d) by (nonlinear_arith)
        requires
            lead(p) >= 1,
            d >= 0,
    ;
    lemma2_to64();
    assert(d * pow2(0) == d) by (nonlinear_arith)
        requires
            pow2(0) == 1,
    ;
    lemma_small_mod(n, d);
    lemma_basic_div(n as int, d as int);
}

proof fn spacing_at_least(n: nat, d: nat, p: int, k: nat)
    requires
        is_prec(p),
        d > 0,
        n >= lead(p) * d * pow2(k),
    ensures
        spacing(n, d, p) >= k,
    decreases k,
{
    if k > 0 {
        let h = lead(p);
        let x = pow2((k - 1) as nat);
        lemma_pow2_unfold(k);
        lemma_pow2_pos((k - 1) as nat);
        assert(h * d * (2 * x) >= 2 * h * d) by (nonlinear_arith)
            requires
                x >= 1,
                h >= 0,
                d >= 0,
        ;
        assert(h * (2 * d) * x == h * d * (2 * x)) by (nonlinear_arith);
        spacing_at_least(n, 2 * d, p, (k - 1) as nat);
    }
}

/// An exponent past which every number is infinite.
pub open spec fn huge(p: int) -> nat {
    if p == 24 {
        400
    } else {
        2200
    }
}

proof fn round_huge(n: nat, d: nat, p: int)
    requires
        is_prec(p),
        d > 0,
        n >= d * pow2(huge(p)),
    ensures
        round_bits(n, d, p) == inf_bits(p),
{
    let k = (huge(p) - p + 1) as nat;
    let h = lead(p);
    lead_is_pow2(p);
    lemma_pow2_adds((p - 1) as nat, k);
    let x = pow2(k);
    assert(h * d * x == d * (h * x)) by (nonlinear_arith);
    spacing_at_least(n, d, p, k);
    let s = spacing(n, d, p);
    if p == 24 {
        assert(k * h >= inf_bits(p)) by (nonlinear_arith)
            requires
                k == 377,
                h == 0x80_0000,
                inf_bits(p) == 0x7f80_0000,
        ;
    } else {
        assert(k * h >= inf_bits(p)) by (nonlinear_arith)
            requires
                k == 2148,
                h == 0x10_0000_0000_0000,
                inf_bits(p) == 0x7ff0_0000_0000_0000,
        ;
    }
    assert(s * h >= k * h) by (nonlinear_arith)
        requires
            s >= k,
            h >= 0,
    ;
}

proof fn pow10_large(n: nat)
    ensures
        pow10(n) >= pow2(3 * n),
        pow10(n) > 0,
    decreases n,
{
    lemma2_to64();
    if n == 0 {
        lemma_pow0(10);
    } else {
        let m = (n - 1) as nat;
        pow10_large(m);
        lemma_pow_adds(10, 1, m);
        lemma_pow1(10);
        lemma_pow_positive(10, n);
        lemma_pow_positive(10, m);
        lemma_pow2_adds(3, 3 * m);
        assert(3 + 3 * m == 3 * n);
        assert(pow10(n) == 10 * pow10(m));
        assert(pow2(3 * n) == 8 * pow2(3 * m));
    }
}

pub proof fn pow10_unfold(n: nat)
    requires
        n > 0,
    ensures
        pow10(n) == 10 * pow10((n - 1) as nat),
        pow10(0) == 1,
        pow10(n) > 0,
{
    lemma_pow_adds(10, 1, (n - 1) as nat);
    lemma_pow1(10);
    lemma_pow0(10);
    lemma_pow_positive(10, n);
    lemma_pow_positive(10, (n - 1) as nat);
}

proof fn digits_bound(s: Seq<char>)
    requires
        all_digits(s),
    ensures
        digits_value(s) < pow10(s.len()),
    decreases s.len(),
{
    if s.len() == 0 {
        lemma_pow0(10);
    } else {
        assert(all_digits(s.drop_last())) by {
            assert forall|i: int| 0 <= i < s.len() - 1 implies is_digit(
                #[trigger] s.drop_last()[i],
            ) by {
                assert(is_digit(s[i]));
            }
        }
        digits_bound(s.drop_last());
        pow10_unfold(s.len());
        assert(is_digit(s[s.len() - 1]));
    }
}

/// `v * 10^n`, in place.
pub fn scale_ten(v: &mut Vec<u32>, n: u128)
    ensures
        big(final(v)@) == big(old(v)@) * pow10(n as nat),
{
    let ghost b = big(v@);
    proof {
        lemma_pow0(10);
        assert(b * 1 == b);
    }
    let mut i: u128 = 0;
    while i < n
        invariant
            i <= n,
            big(v@) == b * pow10(i as nat),
        decreases n - i,
    {
        mul_add(v, 10, 0);
        proof {
            pow10_unfold((i + 1) as nat);
            let w = pow10(i as nat);
            assert(b * (10 * w) == (b * w) * 10) by (nonlinear_arith);
        }
        i = i + 1;
    }
}

/// The leading 64 bits of `num / den`, where `den <= num < 2 * den`, and whether
/// anything is left.
fn leading_bits(num: Vec<u32>, den: &Vec<u32>) -> (r: (u64, bool))
    requires
        big(den@) <= big(num@) < 2 * big(den@),
    ensures
        ({
            let (n, d) = (big(num@), big(den@));
            &&& 2 * d * r.0 <= n * pow2(64) < 2 * d * (r.0 + 1)
            &&& r.1 <==> 2 * d * r.0 != n * pow2(64)
            &&& r.0 >= 0x8000_0000_0000_0000
        }),
{
    let ghost n = big(num@);
    let ghost d = big(den@);
    let mut rest = num;
    let mut m: u64 = 0;
    let mut i: u32 = 0;
    proof {
        lemma2_to64();
        assert(n * 1 == n + 2 * d * 0) by (nonlinear_arith);
    }
    while i < 64
        invariant
            i <= 64,
            d == big(den@),
            big(rest@) < 2 * d,
            m < pow2(i as nat),
            n * pow2(i as nat) == big(rest@) + 2 * d * m,
        decreases 64 - i,
    {
        let ghost r0 = big(rest@);
        let ghost m0 = m;
        let ghost w = pow2(i as nat);
        proof {
            lemma_pow2_unfold((i + 1) as nat);
            lemma2_to64_rest();
            if i < 63 {
                lemma_pow2_strictly_increases(i as nat, 63);
            }
            assert(n * (2 * w) == 2 * (n * w)) by (nonlinear_arith);
            assert(2 * d * (2 * m0) == 2 * (2 * d * m0)) by (nonlinear_arith);
            assert(2 * d * (2 * m0 + 1) == 2 * (2 * d * m0) + 2 * d) by (nonlinear_arith);
        }
        if less(&rest, den) {
            m = 2 * m;
        } else {
            subtract(&mut rest, den);
            m = 2 * m + 1;
        }
        mul_add(&mut rest, 2, 0);
        i = i + 1;
    }
    let left: bool = !is_zero(&rest);
    proof {
        lemma2_to64_rest();
        assert(2 * d * (m + 1) == 2 * d * m + 2 * d) by (nonlinear_arith);
        let w = pow2(64);
        assert(w == 0x1_0000_0000_0000_0000);
        if m < 0x8000_0000_0000_0000 {
            assert(n * w >= d * w) by (nonlinear_arith)
                requires
                    n >= d,
                    w >= 0,
            ;
            assert(2 * d * (m + 1) <= 2 * d * 0x8000_0000_0000_0000) by (nonlinear_arith)
                requires
                    m + 1 <= 0x8000_0000_0000_0000,
                    d >= 0,
            ;
        }
    }
    (m, left)
}

/// The magnitude bits nearest to `num / den`.
fn ratio_bits(num: Vec<u32>, den: Vec<u32>, p: u32) -> (r: u64)
    requires
        is_prec(p as int),
        big(num@) > 0,
        big(den@) > 0,
    ensures
        r == round_bits(big(num@) * pow2(unit_exp(p as int)), big(den@), p as int),
{
    let u: u32 = if p == 24 {
        149
    } else {
        1074
    };
    let ghost n0 = big(num@);
    let ghost d0 = big(den@);
    let ghost uu = pow2(u as nat);
    let mut top = num;
    let mut bot = den;
    let mut y: u32 = 0;
    let mut x: u32 = 0;
    proof {
        lemma2_to64();
        lemma_pow2_pos(u as nat);
        assert(d0 * 1 == d0 && n0 * 1 == n0);
    }
    while !less(&top, &bot)
        invariant
            big(top@) == n0 > 0,
            d0 > 0,
            is_prec(p as int),
            n0 == big(num@),
            d0 == big(den@),
            uu == pow2(unit_exp(p as int)) > 0,
            big(bot@) == d0 * pow2(y as nat),
            big(bot@) > 0,
            y <= 5000,
        decreases 5000 - y,
    {
        proof {
            lemma_pow2_unfold((y + 1) as nat);
            let w = pow2(y as nat);
            assert(d0 * (2 * w) == 2 * (d0 * w)) by (nonlinear_arith);
        }
        if y >= 5000 {
            proof {
                lemma_pow2_strictly_increases(huge(p as int), y as nat);
                let (w, v) = (pow2(y as nat), pow2(huge(p as int)));
                assert(n0 * uu >= d0 * v) by (nonlinear_arith)
                    requires
                        n0 >= d0 * w,
                        w >= v,
                        uu >= 1,
                        d0 >= 0,
                        v >= 0,
                ;
                round_huge(n0 * uu, d0, p as int);
            }
            return infinity(p);
        }
        mul_add(&mut bot, 2, 0);
        y = y + 1;
    }
    while less(&top, &bot)
        invariant
            n0 > 0,
            d0 > 0,
            is_prec(p as int),
            n0 == big(num@),
            d0 == big(den@),
            uu == pow2(unit_exp(p as int)),
            unit_exp(p as int) <= 1074,
            big(top@) == n0 * pow2(x as nat),
            big(top@) > 0,
            big(top@) < 2 * big(bot@),
            big(bot@) == d0 * pow2(y as nat),
            y <= 5000,
            x <= 9000,
        decreases 9000 - x,
    {
        proof {
            lemma_pow2_unfold((x + 1) as nat);
            let w = pow2(x as nat);
            assert(n0 * (2 * w) == 2 * (n0 * w)) by (nonlinear_arith);
        }
        if x >= 9000 {
            proof {
                let (w, v) = (pow2(x as nat), pow2(y as nat));
                let c = pow2(2000);
                lemma_pow2_adds((y + 2000) as nat, (x - y - 2000) as nat);
                lemma_pow2_adds(y as nat, 2000);
                lemma_pow2_pos((x - y - 2000) as nat);
                lemma_pow2_pos(y as nat);
                let g = pow2((x - y - 2000) as nat);
                assert(w == (v * c) * g);
                assert(n0 * ((v * c) * g) >= n0 * c * v) by (nonlinear_arith)
                    requires
                        g >= 1,
                        n0 >= 0,
                        v >= 0,
                        c >= 0,
                ;
                assert(n0 * c < d0) by (nonlinear_arith)
                    requires
                        n0 * c * v < d0 * v,
                        v > 0,
                ;
                lemma_pow2_unfold((unit_exp(p as int) + 1) as nat);
                lemma_pow2_strictly_increases((unit_exp(p as int) + 1) as nat, 2000);
                assert(2 * (n0 * uu) <= n0 * c) by (nonlinear_arith)
                    requires
                        2 * uu <= c,
                        n0 >= 0,
                ;
                round_tiny(n0 * uu, d0, p as int);
            }
            return 0;
        }
        mul_add(&mut top, 2, 0);
        x = x + 1;
    }
    let ghost n1 = big(top@);
    let ghost d1 = big(bot@);
    let (m, sticky): (u64, bool) = leading_bits(top, &bot);
    let ghost n = n0 * uu;
    proof {
        lemma2_to64_rest();
        let (xx, yy) = (pow2(x as nat), pow2(y as nat));
        lemma_pow2_adds(u as nat, y as nat);
        lemma_pow2_adds(x as nat, 63);
        let h = pow2(63);
        let t = pow2(64);
        assert(t == 2 * h);
        // The bounds of `leading_bits`, times half the unit's weight.
        assert(d0 * m * (uu * yy) == (d1 * m) * uu) by (nonlinear_arith)
            requires
                d1 == d0 * yy,
        ;
        assert(d0 * (m + 1) * (uu * yy) == (d1 * (m + 1)) * uu) by (nonlinear_arith)
            requires
                d1 == d0 * yy,
        ;
        assert(n * (xx * h) == (n1 * h) * uu) by (nonlinear_arith)
            requires
                n == n0 * uu,
                n1 == n0 * xx,
        ;
        let (a, b, c) = (d1 * m, n1 * h, d1 * (m + 1));
        assert(2 * d1 * m == 2 * a) by (nonlinear_arith)
            requires
                a == d1 * m,
        ;
        assert(2 * d1 * (m + 1) == 2 * c) by (nonlinear_arith)
            requires
                c == d1 * (m + 1),
        ;
        assert(n1 * t == 2 * b) by (nonlinear_arith)
            requires
                t == 2 * h,
                b == n1 * h,
        ;
        assert(a <= b < c);
        assert(a * uu <= b * uu) by (nonlinear_arith)
            requires
                a <= b,
                uu > 0,
        ;
        assert(b * uu < c * uu) by (nonlinear_arith)
            requires
                b < c,
                uu > 0,
        ;
        assert(a * uu == b * uu <==> a == b) by (nonlinear_arith)
            requires
                uu > 0,
        ;
    }
    pack(p, m as u128, u + y, x + 63, sticky, Ghost(n), Ghost(d0))
}

/// The magnitude bits nearest to the number that `digits` spells times `10^e`;
/// where `e` is out of the range in which that matters, it need not be exact.
pub fn decimal_of(digits: &Vec<char>, e: i128, p: u32, Ghost(exp): Ghost<int>) -> (r: u64)
    requires
        is_prec(p as int),
        all_digits(digits@),
        ({
            ||| e == exp
            ||| e > 0x4_0000_0000_0000_0000 && exp > 0x4_0000_0000_0000_0000
            ||| e < -0x4_0000_0000_0000_0000 && exp < -0x4_0000_0000_0000_0000
        }),
    ensures
        r == decimal_bits(digits_value(digits@), exp, p as int),
{
    let mut num: Vec<u32> = Vec::new();
    let n: usize = digits.len();
    assert(digits@.take(0) =~= Seq::empty());
    for i in 0..n
        invariant
            n == digits@.len(),
            all_digits(digits@),
            big(num@) == digits_value(digits@.take(i as int)),
    {
        assert(digits@.take(i + 1).drop_last() =~= digits@.take(i as int));
        assert(is_digit(digits@[i as int]));
        mul_add(&mut num, 10, digits[i] as u32 - 0x30);
    }
    assert(digits@.take(n as int) =~= digits@);
    let ghost dv = digits_value(digits@);
    let ghost uu = pow2(unit_exp(p as int));
    proof {
        lemma_pow2_pos(unit_exp(p as int));
        lemma_pow0(10);
    }
    if is_zero(&num) {
        proof {
            if exp >= 0 {
                assert(0 * pow10(exp as nat) * uu == 0) by (nonlinear_arith);
                round_tiny(0, 1, p as int);
            } else {
                assert(0 * uu == 0) by (nonlinear_arith);
                pow10_large((-exp) as nat);
                round_tiny(0, pow10((-exp) as nat), p as int);
            }
        }
        return 0;
    }
    if e > 1000 {
        proof {
            let t = pow10(exp as nat);
            pow10_large(exp as nat);
            lemma_pow2_strictly_increases(huge(p as int), 3 * exp as nat);
            let v = pow2(huge(p as int));
            assert(dv * t * uu >= 1 * v) by (nonlinear_arith)
                requires
                    dv >= 1,
                    t >= v,
                    uu >= 1,
                    v >= 0,
            ;
            round_huge(dv * t * uu, 1, p as int);
        }
        return infinity(p);
    }
    if e < -(n as i128) - 500 {
        proof {
            digits_bound(digits@);
            let m = (-exp) as nat;
            lemma_pow_adds(10, n as nat, (m - n) as nat);
            let (t, g) = (pow10(n as nat), pow10((m - n) as nat));
            pow10_large((m - n) as nat);
            pow10_large(n as nat);
            lemma_pow_positive(10, n as nat);
            lemma_pow_positive(10, (m - n) as nat);
            assert(pow10(m) == t * g);
            lemma_pow2_unfold((unit_exp(p as int) + 1) as nat);
            lemma_pow2_strictly_increases(
                (unit_exp(p as int) + 1) as nat,
                3 * (m - n) as nat,
            );
            assert(2 * (dv * uu) < t * g) by (nonlinear_arith)
                requires
                    dv < t,
                    2 * uu <= g,
                    uu > 0,
            ;
            round_tiny(dv * uu, pow10(m), p as int);
        }
        return 0;
    }
    let mut den: Vec<u32> = Vec::new();
    den.push(1);
    assert(big(den@) == 1) by {
        reveal_with_fuel(big, 2);
    }
    if e >= 0 {
        scale_ten(&mut num, e as u128);
        proof {
            pow10_large(e as nat);
            let t = pow10(e as nat);
            assert(dv * t > 0) by (nonlinear_arith)
                requires
                    dv > 0,
                    t > 0,
            ;
        }
    } else {
        scale_ten(&mut den, (-e) as u128);
        proof {
            pow10_large((-e) as nat);
            assert(1 * pow10((-e) as nat) == pow10((-e) as nat));
        }
    }
    ratio_bits(num, den, p)
}

/// The exponent that `v` spells, with its size capped at `10^30`.
fn exponent_of(v: &Vec<char>) -> (r: Option<i128>)
    ensures
        r is Some <==> exponent_spec(v@) is Some,
        r is Some ==> ({
            let e = exponent_spec(v@)->0;
            let cap = 1_000_000_000_000_000_000_000_000_000_000int;
            r->0 == if e > cap {
                cap
            } else if e < -cap {
                -cap
            } else {
                e
            }
        }),
{
    let signed: bool = v.len() > 0 && (v[0] == '+' || v[0] == '-');
    let start: usize = if signed {
        1
    } else {
        0
    };
    let t = piece(v, start, v.len());
    assert(v@.subrange(0, v@.len() as int) =~= v@);
    assert(v@.len() > 0 ==> v@.subrange(1, v@.len() as int) =~= v@.drop_first());
    if t.len() == 0 || !only_digits(&t) {
        return None;
    }
    let n: u128 = digits_capped(&t, 1_000_000_000_000_000_000_000_000_000_000);
    if signed && v[0] == '-' {
        Some(-(n as i128))
    } else {
        Some(n as i128)
    }
}

/// The floating-point number that `v` spells.
pub fn parse_float(v: &Vec<char>, p: u32) -> (r: Option<Raw>)
    requires
        is_prec(p as int),
    ensures
        r == float_spec(v@, p as int),
        r is Some ==> r->0.mag <= nan_bits(p as int),
{
    let signed: bool = v.len() > 0 && (v[0] == '+' || v[0] == '-');
    let neg: bool = signed && v[0] == '-';
    let start: usize = if signed {
        1
    } else {
        0
    };
    let body = piece(v, start, v.len());
    assert(v@.subrange(0, v@.len() as int) =~= v@);
    assert(v@.len() > 0 ==> v@.subrange(1, v@.len() as int) =~= v@.drop_first());
    let word = lower(&body);
    if same_text(&word, "nan") {
        let mag: u64 = if p == 24 {
            0x7fc0_0000
        } else {
            0x7ff8_0000_0000_0000
        };
        return Some(Raw { neg, mag });
    }
    if same_text(&word, "inf") || same_text(&word, "infinity") {
        return Some(Raw { neg, mag: infinity(p) });
    }
    let e: usize = find(&body, 'e', 'E');
    let mantissa = piece(&body, 0, e);
    assert(mantissa@ =~= body@.take(e as int));
    let exp: Option<i128> = if e < body.len() {
        let t = piece(&body, e + 1, body.len());
        assert(t@ =~= body@.skip(e + 1));
        exponent_of(&t)
    } else {
        Some(0)
    };
    let dot: usize = find(&mantissa, '.', '.');
    let mut digits = piece(&mantissa, 0, dot);
    assert(digits@ =~= mantissa@.take(dot as int));
    let frac: Vec<char> = if dot < mantissa.len() {
        piece(&mantissa, dot + 1, mantissa.len())
    } else {
        Vec::new()
    };
    assert(dot < mantissa@.len() ==> frac@ =~= mantissa@.skip(dot + 1));
    assert(frac@.len() == 0 ==> frac@ =~= Seq::empty());
    if !only_digits(&digits) || !only_digits(&frac) || (digits.len() == 0 && frac.len() == 0) {
        return None;
    }
    match exp {
        None => None,
        Some(x) => {
            let ghost whole = digits@;
            put_chars(&mut digits, &frac);
            assert(all_digits(digits@)) by {
                assert forall|i: int| 0 <= i < digits@.len() implies is_digit(
                    #[trigger] digits@[i],
                ) by {
                    if i < whole.len() {
                        assert(is_digit(whole[i]));
                    } else {
                        assert(is_digit(frac@[i - whole.len()]));
                    }
                }
            }
            let ghost full = numeral_spec(body@)->0;
            let mag: u64 = decimal_of(&digits, x - frac.len() as i128, p, Ghost(full.1));
            Some(Raw { neg, mag })
        },
    }
}

// ---------------------------------------------------------------------------
// Writing
// ---------------------------------------------------------------------------

/// `n` zeroes.
pub open spec fn zeros(n: nat) -> Seq<char> {
    Seq::new(n, |i: int| '0')
}

/// `s` with zeroes in front, so that it has at least `n` characters.
pub open spec fn pad_zero(s: Seq<char>, n: nat) -> Seq<char> {
    if s.len() >= n {
        s
    } else {
        zeros((n - s.len()) as nat) + s
    }
}

/// The numeral of `r / 10^k`, with `k` digits after the point.
pub open spec fn point_text(r: nat, k: nat) -> Seq<char> {
    let t = pad_zero(nat_text(r), k + 1);
    if k == 0 {
        t
    } else {
        t.take(t.len() - k).push('.') + t.skip(t.len() - k)
    }
}

/// A finite magnitude in units of `10^-k`, rounded to the nearest, ties to even.
pub open spec fn scaled_spec(mag: nat, k: nat, p: int) -> nat {
    nearest(units(mag, p) * pow10(k), pow2(unit_exp(p)))
}

/// The number in decimal with `k` digits after the point.
pub open spec fn fixed_spec(a: Raw, k: nat, p: int) -> Seq<char> {
    if a.nan(p) {
        "NaN"@
    } else if a.infinite(p) {
        if a.neg {
            "-inf"@
        } else {
            "inf"@
        }
    } else {
        let digits = point_text(scaled_spec(a.mag as nat, k, p), k);
        if a.neg {
            seq!['-'] + digits
        } else {
            digits
        }
    }
}

/// The decimal numeral of `v`.
fn big_text(v: Vec<u32>) -> (r: Vec<char>)
    ensures
        r@ == nat_text(big(v@)),
    decreases big(v@),
{
    let mut q = v;
    let d: u32 = div_ten(&mut q);
    if is_zero(&q) {
        let mut r: Vec<char> = Vec::new();
        r.push((0x30 + d as u8) as char);
        assert(r@ =~= nat_text(big(v@)));
        r
    } else {
        let mut r = big_text(q);
        r.push((0x30 + d as u8) as char);
        r
    }
}

/// The limbs of `x`.
pub fn limbs_of(x: u128) -> (r: Vec<u32>)
    ensures
        big(r@) == x,
{
    let b: u128 = 0x1_0000_0000;
    let mut r: Vec<u32> = Vec::new();
    let y: u128 = x / b;
    let z: u128 = y / b;
    let w: u128 = z / b;
    r.push((x % b) as u32);
    r.push((y % b) as u32);
    r.push((z % b) as u32);
    r.push((w % b) as u32);
    proof {
        let t0 = r@;
        let t1 = t0.drop_first();
        let t2 = t1.drop_first();
        let t3 = t2.drop_first();
        let t4 = t3.drop_first();
        assert(big(t4) == 0);
        assert(t3[0] == w % b && w < b);
        assert(big(t3) == w);
        assert(big(t2) == z);
        assert(big(t1) == y);
    }
    r
}

/// A finite magnitude in units of `10^-k`.
fn scaled(mag: u64, k: u32, p: u32) -> (r: Vec<u32>)
    requires
        is_prec(p as int),
        mag < inf_bits(p as int),
        k <= 20,
    ensures
        big(r@) == scaled_spec(mag as nat, k as nat, p as int),
{
    let (m, s): (u64, u32) = open_mag(mag, p);
    let u: u32 = if p == 24 {
        149
    } else {
        1074
    };
    let ghost uu = pow2(u as nat);
    let ghost t = pow10(k as nat);
    proof {
        lemma_pow2_pos(u as nat);
        lemma_pow_positive(10, k as nat);
        lemma2_to64();
        lemma2_to64_rest();
    }
    if s >= u {
        let mut v: Vec<u32> = limbs_of(m as u128);
        scale_ten(&mut v, k as u128);
        let ghost b = big(v@);
        let mut i: u32 = 0;
        assert(b * 1 == b);
        while i < s - u
            invariant
                i <= s - u,
                u <= s < 2047,
                big(v@) == b * pow2(i as nat),
            decreases s - u - i,
        {
            proof {
                lemma_pow2_unfold((i + 1) as nat);
                let w = pow2(i as nat);
                assert(b * (2 * w) == (b * w) * 2) by (nonlinear_arith);
            }
            mul_add(&mut v, 2, 0);
            i = i + 1;
        }
        proof {
            let w = pow2((s - u) as nat);
            lemma_pow2_adds((s - u) as nat, u as nat);
            assert(m * (w * uu) * t == uu * ((m * t) * w)) by (nonlinear_arith);
            let q = (m * t) * w;
            lemma_div_multiples_vanish(q, uu as int);
            lemma_mod_multiples_basic(q, uu as int);
            lemma_mul_is_commutative(q, uu as int);
        }
        return v;
    }
    let j: u32 = u - s;
    let mut c: u128 = 1;
    let mut i: u32 = 0;
    proof {
        lemma_pow0(10);
    }
    while i < k
        invariant
            i <= k <= 20,
            c == pow10(i as nat),
            c <= 100_000_000_000_000_000_000,
            i < k ==> c <= 10_000_000_000_000_000_000,
        decreases k - i,
    {
        proof {
            pow10_unfold((i + 1) as nat);
            pow10_small(i as nat);
            if i + 1 < k {
                pow10_small((i + 1) as nat);
            }
        }
        c = c * 10;
        i = i + 1;
    }
    assert(m * c <= 0x20_0000_0000_0000 * 100_000_000_000_000_000_000) by (nonlinear_arith)
        requires
            0 <= m <= 0x20_0000_0000_0000,
            0 <= c <= 100_000_000_000_000_000_000,
    ;
    let x: u128 = m as u128 * c;
    let ghost w = pow2(s as nat);
    let ghost g = pow2(j as nat);
    proof {
        lemma_pow2_adds(j as nat, s as nat);
        lemma_pow2_pos(s as nat);
        lemma_pow2_pos(j as nat);
        mod_scales(x as nat, g, w);
        assert(m * w * t == x * w) by (nonlinear_arith)
            requires
                x == m * t,
        ;
        let r = x as nat % g;
        assert(2 * (r * w) > g * w <==> 2 * r > g) by (nonlinear_arith)
            requires
                w > 0,
        ;
        assert(2 * (r * w) == g * w <==> 2 * r == g) by (nonlinear_arith)
            requires
                w > 0,
        ;
        assert(nearest((x * w) as nat, (g * w) as nat) == nearest(x as nat, g));
    }
    if j >= 128 {
        proof {
            lemma_pow2_adds(64, 64);
            if j > 128 {
                lemma_pow2_strictly_increases(128, j as nat);
            }
            lemma_small_mod(x as nat, g);
            lemma_basic_div(x as int, g as int);
        }
        return limbs_of(0);
    }
    let d: u128 = power_of_two(j);
    let q: u128 = x / d;
    let r: u128 = x % d;
    proof {
        lemma_div_nonincreasing(x as int, d as int);
    }
    if r > d - r || (r == d - r && q % 2 == 1) {
        limbs_of(q + 1)
    } else {
        limbs_of(q)
    }
}

proof fn pow10_small(k: nat)
    requires
        k < 20,
    ensures
        pow10(k) <= 10_000_000_000_000_000_000,
    decreases 19 - k,
{
    if k < 19 {
        pow10_small(k + 1);
        pow10_unfold(k + 1);
    } else {
        reveal(pow);
        assert(pow(10, 19) == 10_000_000_000_000_000_000) by {
            reveal_with_fuel(pow, 20);
        }
    }
}

/// The number in decimal with `k` digits after the point.
pub fn fixed(a: Raw, k: u32, p: u32) -> (r: Vec<char>)
    requires
        is_prec(p as int),
        k <= 20,
    ensures
        r@ == fixed_spec(a, k as nat, p as int),
{
    let inf: u64 = infinity(p);
    let mut r: Vec<char> = Vec::new();
    if a.mag > inf {
        put_text(&mut r, "NaN");
        assert(r@ =~= "NaN"@);
        return r;
    }
    if a.mag == inf {
        if a.neg {
            put_text(&mut r, "-inf");
            assert(r@ =~= "-inf"@);
        } else {
            put_text(&mut r, "inf");
            assert(r@ =~= "inf"@);
        }
        return r;
    }
    let v = scaled(a.mag, k, p);
    let digits = big_text(v);
    let ghost n = scaled_spec(a.mag as nat, k as nat, p as int);
    let t = padded(digits, k as usize + 1);
    let len: usize = t.len();
    if a.neg {
        r.push('-');
    }
    let ghost sign = r@;
    if k == 0 {
        put_chars(&mut r, &t);
    } else {
        let whole = piece(&t, 0, len - k as usize);
        let frac = piece(&t, len - k as usize, len);
        put_chars(&mut r, &whole);
        r.push('.');
        put_chars(&mut r, &frac);
        assert(whole@ =~= t@.take(len - k));
        assert(frac@ =~= t@.skip(len - k));
    }
    assert(r@ =~= sign + point_text(n, k as nat));
    assert(r@ =~= fixed_spec(a, k as nat, p as int));
    r
}

/// `v` with zeroes in front, so that it has at least `n` characters.
pub fn padded(v: Vec<char>, n: usize) -> (r: Vec<char>)
    ensures
        r@ == pad_zero(v@, n as nat),
        r@.len() >= n,
{
    if v.len() >= n {
        return v;
    }
    let mut r: Vec<char> = Vec::new();
    let k: usize = n - v.len();
    for i in 0..k
        invariant
            r@ =~= zeros(i as nat),
    {
        r.push('0');
    }
    put_chars(&mut r, &v);
    r
}

} // verus!
