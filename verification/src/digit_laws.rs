//! The shortest text of a number is read as that number.

use crate::arith::{representable_rounds_to_itself, units_increase, Raw};
use crate::decimal::{
    decimal_bits, float_spec, numeral_spec, pow10, pow10_unfold, zeros,
};
use crate::digits::{
    decade, half_up, near_decimal, near_digits, positional, pow10_add, shortest_from, shortest_spec,
    stands_for, tens_down, tens_up, Decimal,
};
use crate::num::{Double, Single};
use crate::rounding::{
    inf_bits, is_prec, lead, nearest, round_bits, spacing_is, unit_exp, units,
};
use crate::text::{
    all_digits, digits_value, find_behind, find_spec, is_digit, lower_spec, nat_text,
    nat_text_value, starts_with_spec,
};
use vstd::arithmetic::div_mod::*;
use vstd::arithmetic::power2::*;
use vstd::arithmetic::power::*;
use vstd::prelude::*;

verus! {

// ---------------------------------------------------------------------------
// Seventeen digits are enough
// ---------------------------------------------------------------------------

/// Whether `n / d` differs from `v` by at most one part in `2 * 10^16`.
spec fn is_near(n: int, d: int, v: int) -> bool {
    &&& 20_000_000_000_000_000 * (n - v * d) <= v * d
    &&& 20_000_000_000_000_000 * (v * d - n) <= v * d
}

/// The whole number next to a fraction.
proof fn nearest_to(n: nat, d: nat, q: nat)
    requires
        d > 0,
        -d < 2 * (n - q * d) < d,
    ensures
        nearest(n, d) == q,
{
    if n >= q * d {
        lemma_fundamental_div_mod_converse(n as int, d as int, q as int, n - q * d);
    } else {
        assert((q - 1) * d == q * d - d) by (nonlinear_arith);
        lemma_fundamental_div_mod_converse(n as int, d as int, q - 1, n - (q - 1) * d);
    }
}

/// A fraction near a representable magnitude is rounded to it.
proof fn near_is_rounded(n: nat, d: nat, mag: nat, p: int)
    requires
        is_prec(p),
        0 < mag < inf_bits(p),
        d > 0,
        is_near(n as int, d as int, units(mag, p) as int),
    ensures
        round_bits(n, d, p) == mag,
{
    let h = lead(p) as int;
    let e = mag as int / h;
    let frac = mag as int % h;
    lemma_fundamental_div_mod(mag as int, h);
    lemma2_to64();
    let k: nat = if e == 0 {
        0
    } else {
        (e - 1) as nat
    };
    let m = if e == 0 {
        frac
    } else {
        h + frac
    };
    let w = pow2(k) as int;
    lemma_pow2_pos(k);
    let v = units(mag, p) as int;
    assert(frac * 1 == frac);
    assert(v == m * w);
    assert(mag == k * h + m) by (nonlinear_arith)
        requires
            mag == h * e + frac,
            e == 0 ==> k == 0 && m == frac,
            e != 0 ==> k == e - 1 && m == h + frac,
    ;
    let g = d as int * w;
    assert(g > 0) by (nonlinear_arith)
        requires
            d > 0,
            w > 0,
            g == d as int * w,
    ;
    assert(v * d == m * g) by (nonlinear_arith)
        requires
            v == m * w,
            g == d as int * w,
    ;
    assert(m * g <= (2 * h - 1) * g) by (nonlinear_arith)
        requires
            m <= 2 * h - 1,
            g > 0,
    ;
    assert((2 * h - 1) * g == 2 * (h * g) - g) by (nonlinear_arith);
    assert(h * g <= 0x10_0000_0000_0000 * g) by (nonlinear_arith)
        requires
            h <= 0x10_0000_0000_0000,
            g > 0,
    ;
    assert(2 * h * d * w == 2 * (h * g) && h * d * w == h * g) by (nonlinear_arith)
        requires
            g == d as int * w,
    ;
    let z = n - m * g;
    assert(-g < 2 * z < g);
    if k == 0 || n >= h * g {
        spacing_is(n, d, p, k);
        nearest_to(n, g as nat, m as nat);
    } else {
        if m > h {
            assert(m * g >= (h + 1) * g) by (nonlinear_arith)
                requires
                    m >= h + 1,
                    g > 0,
            ;
            assert((h + 1) * g == h * g + g) by (nonlinear_arith);
        }
        assert(m == h);
        let j = (k - 1) as nat;
        lemma_pow2_unfold(k);
        lemma_pow2_pos(j);
        let w1 = pow2(j) as int;
        let g1 = d as int * w1;
        assert(g == 2 * g1) by (nonlinear_arith)
            requires
                g == d as int * w,
                g1 == d as int * w1,
                w == 2 * w1,
        ;
        assert(h * g == 2 * (h * g1)) by (nonlinear_arith)
            requires
                g == 2 * g1,
        ;
        assert(2 * h * d * w1 == 2 * (h * g1) && h * d * w1 == h * g1) by (nonlinear_arith)
            requires
                g1 == d as int * w1,
        ;
        assert(h * g1 >= g1) by (nonlinear_arith)
            requires
                h >= 1,
                g1 > 0,
        ;
        assert((2 * h) * g1 == 2 * (h * g1)) by (nonlinear_arith);
        spacing_is(n, d, p, j);
        nearest_to(n, g1 as nat, (2 * h) as nat);
        assert(j * h + 2 * h == k * h + h) by (nonlinear_arith)
            requires
                k == j + 1,
        ;
    }
}

proof fn small_powers()
    ensures
        pow10(0) == 1,
        pow10(1) == 10,
        pow10(16) == 10_000_000_000_000_000,
        pow10(17) == 100_000_000_000_000_000,
{
    lemma_pow0(10);
    lemma_pow1(10);
    assert(pow(10, 16) == 10_000_000_000_000_000) by {
        reveal(pow);
        reveal_with_fuel(pow, 17);
    }
    pow10_unfold(17);
}

proof fn tens_up_reach(n: nat, d: nat)
    requires
        0 < d <= n,
    ensures
        d * pow10(tens_up(n, d)) <= n,
    decreases n - d,
{
    small_powers();
    if n >= 10 * d {
        tens_up_reach(n, 10 * d);
        let t = tens_up(n, 10 * d);
        pow10_unfold((t + 1) as nat);
        let w = pow10(t);
        assert((10 * d) * w == d * (10 * w)) by (nonlinear_arith);
    } else {
        assert(d * 1 == d);
    }
}

proof fn tens_down_reach(n: nat, d: nat)
    requires
        n > 0,
        d > 0,
    ensures
        n * pow10(tens_down(n, d)) >= d,
    decreases
            if n >= d {
                0
            } else {
                d - n
            },
{
    small_powers();
    if n < d {
        tens_down_reach(10 * n, d);
        let t = tens_down(10 * n, d);
        pow10_unfold((t + 1) as nat);
        let w = pow10(t);
        assert((10 * n) * w == n * (10 * w)) by (nonlinear_arith);
    } else {
        assert(n * 1 == n);
    }
}

proof fn half_up_error(n: nat, d: nat)
    requires
        d > 0,
    ensures
        -d <= 2 * (half_up(n, d) * d - n) <= d,
{
    lemma_fundamental_div_mod(n as int, d as int);
    let q = n / d;
    assert(d * q == q * d && (q + 1) * d == q * d + d) by (nonlinear_arith);
}

/// A fraction with both sides divided by ten is as near.
proof fn tenth_is_near(n: int, d: int, v: int)
    requires
        is_near(10 * n, 10 * d, v),
    ensures
        is_near(n, d, v),
{
    assert(v * (10 * d) == 10 * (v * d)) by (nonlinear_arith);
}

/// The nearest decimal of seventeen digits stands for a magnitude.
proof fn seventeen_digits(mag: nat, p: int)
    requires
        is_prec(p),
        0 < mag < inf_bits(p),
    ensures
        stands_for(near_decimal(mag, 17, p), mag, p),
{
    let v = units(mag, p);
    let u = pow2(unit_exp(p));
    lemma_pow2_pos(unit_exp(p));
    units_increase(0, mag, p);
    small_powers();
    let big = pow10(16);
    let e = decade(v, u);
    let x = e - 16;
    let r = near_digits(v, u, 17);
    if x >= 0 {
        let q = pow10(x as nat);
        let t = u * q;
        pow10_add(x as nat, 16);
        tens_up_reach(v, u);
        assert(u * (q * big) == t * big) by (nonlinear_arith)
            requires
                t == u * q,
        ;
        assert(t > 0) by (nonlinear_arith)
            requires
                u > 0,
                q > 0,
                t == u * q,
        ;
        half_up_error(v, t);
        let n = r * q * u;
        assert(n == r * t) by (nonlinear_arith)
            requires
                n == r * q * u,
                t == u * q,
        ;
        assert(v * 1 == v);
        assert(is_near(n as int, 1, v as int));
        if r == pow10(17) {
            pow10_add(x as nat, 1);
            let n1 = big * pow10((x + 1) as nat) * u;
            assert(n1 == n) by (nonlinear_arith)
                requires
                    n1 == big * (q * 10) * u,
                    n == (big * 10) * q * u,
            ;
        }
        near_is_rounded(n, 1, mag, p);
    } else {
        let q = pow10((-x) as nat);
        let a = v * q;
        if e >= 0 {
            let f = pow10(e as nat);
            pow10_add(e as nat, (-x) as nat);
            tens_up_reach(v, u);
            assert(u * big <= a) by (nonlinear_arith)
                requires
                    u * f <= v,
                    big == f * q,
                    a == v * q,
                    q > 0,
            ;
        } else {
            let f = pow10((-e) as nat);
            pow10_add((-e) as nat, 16);
            tens_down_reach(v, u);
            assert(u * big <= a) by (nonlinear_arith)
                requires
                    v * f >= u,
                    q == f * big,
                    a == v * q,
                    big > 0,
            ;
        }
        half_up_error(a, u);
        let n = r * u;
        assert(is_near(n as int, q as int, v as int));
        pow10_add((-x - 1) as nat, 1);
        let q1 = pow10((-x - 1) as nat);
        assert(q == 10 * q1);
        if r == pow10(17) {
            let n1 = big * u;
            assert(n == 10 * n1) by (nonlinear_arith)
                requires
                    n == (10 * big) * u,
                    n1 == big * u,
            ;
            tenth_is_near(n1 as int, q1 as int, v as int);
            near_is_rounded(n1, q1, mag, p);
            assert(big * 1 * u == n1);
        } else {
            near_is_rounded(n, q, mag, p);
        }
    }
}

/// The shortest decimal stands for its magnitude.
proof fn shortest_stands(mag: nat, k: nat, p: int)
    requires
        is_prec(p),
        0 < mag < inf_bits(p),
        k <= 17,
    ensures
        stands_for(shortest_from(mag, k, p), mag, p),
    decreases 17 - k,
{
    if k == 17 {
        seventeen_digits(mag, p);
    } else {
        shortest_stands(mag, k + 1, p);
    }
}

// ---------------------------------------------------------------------------
// Numerals
// ---------------------------------------------------------------------------

/// The characters of a numeral without an exponent.
pub open spec fn is_numeral_char(c: char) -> bool {
    is_digit(c) || c == '.' || c == '-'
}

/// Whether a text is digits, with a point among them or none.
spec fn is_plain_numeral(s: Seq<char>) -> bool {
    &&& s.len() >= 1
    &&& is_digit(s[0])
    &&& is_digit(s.last())
    &&& forall|i: int| 0 <= i < s.len() ==> is_digit(#[trigger] s[i]) || s[i] == '.'
}

proof fn leading_zeros(k: nat, s: Seq<char>)
    ensures
        digits_value(zeros(k) + s) == digits_value(s),
    decreases s.len(), k,
{
    if s.len() == 0 {
        assert(zeros(k) + s =~= zeros(k));
        if k > 0 {
            leading_zeros((k - 1) as nat, s);
            assert(zeros(k).drop_last() =~= zeros((k - 1) as nat));
            assert(zeros((k - 1) as nat) + s =~= zeros((k - 1) as nat));
        } else {
            assert(zeros(0) =~= Seq::<char>::empty());
            assert(s =~= Seq::<char>::empty());
        }
    } else {
        leading_zeros(k, s.drop_last());
        assert((zeros(k) + s).drop_last() =~= zeros(k) + s.drop_last());
    }
}

proof fn trailing_zeros(s: Seq<char>, k: nat)
    ensures
        digits_value(s + zeros(k)) == digits_value(s) * pow10(k),
    decreases k,
{
    let t = s + zeros(k);
    if k == 0 {
        small_powers();
        assert(t =~= s);
        assert(digits_value(s) * 1 == digits_value(s));
    } else {
        let j = (k - 1) as nat;
        trailing_zeros(s, j);
        assert(t.drop_last() =~= s + zeros(j));
        assert(t.last() == '0');
        pow10_unfold(k);
        let (a, w) = (digits_value(s), pow10(j));
        assert(10 * (a * w) == a * (10 * w)) by (nonlinear_arith);
    }
}

/// A text without an exponent sign.
proof fn no_exponent(s: Seq<char>)
    requires
        forall|i: int| 0 <= i < s.len() ==> is_digit(#[trigger] s[i]) || s[i] == '.',
    ensures
        find_spec(s, 'e', 'E') == s.len(),
    decreases s.len(),
{
    if s.len() > 0 {
        let t = s.drop_first();
        assert forall|i: int| 0 <= i < t.len() implies is_digit(#[trigger] t[i]) || t[i] == '.' by {
            assert(t[i] == s[i + 1]);
        }
        assert(is_digit(s[0]) || s[0] == '.');
        no_exponent(t);
    }
}

/// What digits alone stand for.
proof fn whole_reads(t: Seq<char>)
    requires
        all_digits(t),
        t.len() >= 1,
    ensures
        numeral_spec(t) == Some((digits_value(t), 0int)),
        is_plain_numeral(t),
{
    assert(is_digit(t[0]) && is_digit(t[t.len() - 1]));
    no_exponent(t);
    assert(t.take(t.len() as int) =~= t);
    assert(!t.contains('.')) by {
        assert forall|i: int| 0 <= i < t.len() implies t[i] != '.' by {
            assert(is_digit(t[i]));
        }
    }
    assert(starts_with_spec(t, t));
    find_behind(t, t, '.');
    assert(t + Seq::<char>::empty() =~= t);
}

/// What digits with a point among them stand for.
proof fn pointed_reads(whole: Seq<char>, frac: Seq<char>)
    requires
        all_digits(whole),
        all_digits(frac),
        whole.len() >= 1,
        frac.len() >= 1,
    ensures
        numeral_spec(whole.push('.') + frac) == Some(
            (digits_value(whole + frac), -(frac.len() as int)),
        ),
        is_plain_numeral(whole.push('.') + frac),
{
    let body = whole.push('.') + frac;
    assert forall|i: int| 0 <= i < body.len() implies is_digit(#[trigger] body[i]) || body[i]
        == '.' by {
        if i < whole.len() {
            assert(body[i] == whole[i]);
        } else if i > whole.len() {
            assert(body[i] == frac[i - whole.len() - 1]);
        }
    }
    assert(body[0] == whole[0] && is_digit(whole[0]));
    assert(body.last() == frac.last() && is_digit(frac[frac.len() - 1]));
    no_exponent(body);
    assert(body.take(body.len() as int) =~= body);
    assert(!whole.contains('.')) by {
        assert forall|i: int| 0 <= i < whole.len() implies whole[i] != '.' by {
            assert(is_digit(whole[i]));
        }
    }
    assert(starts_with_spec(body, whole)) by {
        assert(body.take(whole.len() as int) =~= whole);
    }
    find_behind(body, whole, '.');
    assert(body.skip(whole.len() as int + 1) =~= frac);
    assert(body.take(whole.len() as int) =~= whole);
}

/// The text of a decimal stands for what the decimal stands for.
proof fn positional_reads(c: Decimal, p: int)
    ensures
        is_plain_numeral(positional(c)),
        numeral_spec(positional(c)) matches Some((digits, exp)) && decimal_bits(digits, exp, p)
            == decimal_bits(c.digits, c.exp, p),
{
    nat_text_value(c.digits);
    let t = nat_text(c.digits);
    let n = t.len() as int;
    small_powers();
    if c.exp >= 0 {
        let k = c.exp as nat;
        let s = t + zeros(k);
        trailing_zeros(t, k);
        assert forall|i: int| 0 <= i < s.len() implies is_digit(#[trigger] s[i]) by {
            if i < n {
                assert(s[i] == t[i]);
            }
        }
        whole_reads(s);
        let a = digits_value(s);
        assert(a * 1 == a);
    } else if n + c.exp > 0 {
        let (whole, frac) = (t.take(n + c.exp), t.skip(n + c.exp));
        assert forall|i: int| 0 <= i < whole.len() implies is_digit(#[trigger] whole[i]) by {
            assert(is_digit(t[i]));
        }
        assert forall|i: int| 0 <= i < frac.len() implies is_digit(#[trigger] frac[i]) by {
            assert(is_digit(t[i + n + c.exp]));
        }
        pointed_reads(whole, frac);
        assert(whole + frac =~= t);
    } else {
        reveal_strlit("0.");
        let k = (-c.exp - n) as nat;
        let whole = seq!['0'];
        let frac = zeros(k) + t;
        assert forall|i: int| 0 <= i < frac.len() implies is_digit(#[trigger] frac[i]) by {
            if i >= k {
                assert(frac[i] == t[i - k]);
            }
        }
        pointed_reads(whole, frac);
        leading_zeros(k + 1, t);
        assert(whole + frac =~= zeros(k + 1) + t);
        assert(positional(c) =~= whole.push('.') + frac);
    }
}

/// The shortest text of a finite number is a numeral that is read as the number.
proof fn shortest_reads(a: Raw, p: int)
    requires
        is_prec(p),
        a.mag < inf_bits(p),
    ensures
        ({
            let t = shortest_spec(a, p);
            &&& float_spec(t, p) == Some(a)
            &&& t.len() >= 1
            &&& is_digit(t.last())
            &&& forall|i: int| 0 <= i < t.len() ==> is_numeral_char(#[trigger] t[i])
        }),
{
    let t = shortest_spec(a, p);
    let body = if a.mag == 0 {
        seq!['0']
    } else {
        positional(shortest_from(a.mag as nat, 1, p))
    };
    if a.mag == 0 {
        small_powers();
        representable_rounds_to_itself(0, p);
        whole_reads(body);
        assert(body.drop_last() =~= Seq::<char>::empty());
        assert(digits_value(body.drop_last()) == 0);
        assert(body.last() == '0');
        assert(digits_value(body) == 0);
        assert(0 * pow10(0) * pow2(unit_exp(p)) == 0) by (nonlinear_arith);
        assert(decimal_bits(0, 0, p) == 0);
    } else {
        shortest_stands(a.mag as nat, 1, p);
        positional_reads(shortest_from(a.mag as nat, 1, p), p);
    }
    if a.neg {
        assert(t =~= seq!['-'] + body);
        assert(t.drop_first() =~= body);
    } else {
        assert(t =~= body);
    }
    assert forall|i: int| 0 <= i < t.len() implies is_numeral_char(#[trigger] t[i]) by {
        if a.neg && i > 0 {
            assert(t[i] == body[i - 1]);
        }
    }
    assert(t.last() == body.last());
    reveal_strlit("nan");
    reveal_strlit("inf");
    reveal_strlit("infinity");
    let word = lower_spec(body);
    assert(word[0] == body[0]);
    assert("nan"@[0] == 'n' && "inf"@[0] == 'i' && "infinity"@[0] == 'i');
}

/// The shortest text of a finite number is a numeral without an exponent, and is read as that
/// number.
pub proof fn shortest_text_is_read_back(x: Double)
    requires
        x.is_finite(),
    ensures
        ({
            let t = x.shortest_spec();
            &&& Double::parse_spec(t) == Some(x)
            &&& t.len() >= 1
            &&& is_digit(t.last())
            &&& forall|i: int| 0 <= i < t.len() ==> is_numeral_char(#[trigger] t[i])
        }),
{
    reveal(Double::shortest_spec);
    reveal(Double::parse_spec);
    shortest_reads(x.raw(), 53);
}

/// So it is for a number of single precision.
pub proof fn shortest_single_is_read_back(x: Single)
    requires
        x.is_finite(),
    ensures
        float_spec(x.shortest_spec(), 24) == Some(x.raw()),
{
    reveal(Single::shortest_spec);
    shortest_reads(x.raw(), 24);
}

} // verus!
