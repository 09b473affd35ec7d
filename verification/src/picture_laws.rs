//! How pixels become levels and colours, measured against exact arithmetic.

use crate::arith::{representable_rounds_to_itself, units_increase, Whole};
use crate::exact::{
    alike, alike_bound, alike_cancel, alike_chain, alike_nothing, alike_self, alike_times,
    alike_wider, coarse, coarse_minus, coarse_of, coarse_order, coarse_over, coarse_plus,
    coarse_root, coarse_times, coarse_whole, coarse_worth, in_range, is_ample, nothing_is_ample,
    one, parts, powers_grow, range_ample, range_product, range_quotient, round_at_most, round_grows,
    size_by_bits,
};
use crate::fits::FitsImage;
use crate::image::{
    arguments_spec, curve_value, grayscale_spec, index_spec, normal_spec, shown_level, span_spec,
    Curve, Limits, Stretch,
};
use crate::num::Single;
use crate::rounding::{round_bits, units};
use vstd::arithmetic::power2::*;
use vstd::prelude::*;

verus! {

/// The numbers one, ten and a thousand.
pub open spec fn c_one() -> Single {
    Single { bits: 0x3f80_0000 }
}

pub open spec fn c_ten() -> Single {
    Single { bits: 0x4120_0000 }
}

pub open spec fn c_thousand() -> Single {
    Single { bits: 0x447a_0000 }
}

/// The numbers of units in the constants.
proof fn constants()
    ensures
        one(24) > 0,
        in_range(one(24), 149, 149),
        coarse(c_one()) == one(24),
        coarse(c_ten()) == 10 * one(24),
        coarse(c_thousand()) == 1000 * one(24),
        coarse(Single { bits: 0x4479_c000 }) == 999 * one(24),
        coarse(Single { bits: 0x437f_0000 }) == 255 * one(24),
        parts(24) == 0x100_0000,
{
    lemma2_to64();
    lemma_pow2_pos(149);
    size_by_bits(0x3f80_0000, 127, 0, 24);
    lemma_pow2_adds(23, 126);
    size_by_bits(0x4120_0000, 130, 0x20_0000, 24);
    lemma_pow2_adds(20, 129);
    size_by_bits(0x447a_0000, 136, 0x7a_0000, 24);
    size_by_bits(0x4479_c000, 136, 0x79_c000, 24);
    lemma_pow2_adds(14, 135);
    size_by_bits(0x437f_0000, 134, 0x7f_0000, 24);
    lemma_pow2_adds(16, 133);
    let (a, b, c) = (pow2(129) as int, pow2(135) as int, pow2(133) as int);
    assert(0xa0_0000 * a == 10 * (0x10_0000 * a)) by (nonlinear_arith);
    assert(0xfa_0000 * b == 1000 * (0x4000 * b)) by (nonlinear_arith);
    assert(0xf9_c000 * b == 999 * (0x4000 * b)) by (nonlinear_arith);
    assert(0xff_0000 * c == 255 * (0x1_0000 * c)) by (nonlinear_arith);
}

/// Numbers that are not negative and of one size are the same.
proof fn same_size(x: Single, y: Single)
    requires
        x.is_finite(),
        y.is_finite(),
        !x.raw().neg,
        !y.raw().neg,
        coarse(x) == coarse(y),
    ensures
        x == y,
{
    let (m, n) = (x.raw().mag as nat, y.raw().mag as nat);
    if m < n {
        units_increase(m, n, 24);
    }
    if n < m {
        units_increase(n, m, 24);
    }
}

/// A number times one is the number.
pub proof fn one_times(x: Single)
    requires
        x.is_finite(),
    ensures
        c_one().times(x) == x,
        x.times(c_one()) == x,
{
    reveal(Single::times_spec);
    constants();
    let m = x.raw().mag as nat;
    let n = units(m, 24);
    let o = pow2(149);
    assert((n * o) * 1 == n * o && o * n == n * o) by (nonlinear_arith);
    round_grows(n * o, o, n, 1, 24);
    round_grows(n, 1, n * o, o, 24);
    representable_rounds_to_itself(m, 24);
    coarse_of(x.raw());
}

/// A number divided by itself is one.
pub proof fn over_itself(x: Single)
    requires
        x.is_finite(),
        x.raw().mag > 0,
    ensures
        x.over(x) == c_one(),
{
    reveal(Single::over_spec);
    constants();
    let m = x.raw().mag as nat;
    units_increase(0, m, 24);
    let n = units(m, 24);
    let o = pow2(149);
    assert((o * n) * 1 == o * n && n * o == o * n) by (nonlinear_arith);
    round_grows((o * n) as nat, n, o, 1, 24);
    round_grows(o, 1, (o * n) as nat, n, 24);
    representable_rounds_to_itself(0x3f80_0000, 24);
    assert(units(0, 24) == 0);
}

/// The distance between limits that are far enough apart is their difference.
proof fn span_is_the_difference(lim: Limits)
    requires
        (Single { bits: 0x0da2_4260 }).le(lim.high.minus(lim.low)),
    ensures
        span_spec(lim) == lim.high.minus(lim.low),
{
}

/// Whether limits are apart: by a finite number that is not tiny.
pub open spec fn are_apart(lim: Limits) -> bool {
    lim.high.is_finite() && lim.high.minus(lim.low).is_finite() && (Single {
        bits: 0x0da2_4260,
    }).le(lim.high.minus(lim.low))
}

/// The level of a pixel at the upper limit is one.
pub proof fn upper_limit_has_the_full_level(lim: Limits)
    requires
        are_apart(lim),
    ensures
        normal_spec(lim.high, lim) == c_one(),
{
    span_is_the_difference(lim);
    over_itself(lim.high.minus(lim.low));
}

/// The argument whose function value is the end of the range: a thousand for the logarithm, ten for
/// the inverse hyperbolic sine, one for the hyperbolic sine and a power.
pub open spec fn last_argument(s: Stretch) -> Single {
    match s {
        Stretch::Log => c_thousand(),
        Stretch::Asinh => c_ten(),
        _ => c_one(),
    }
}

/// A pixel at the upper limit has the argument at the end of the range, under every stretch.
pub proof fn upper_limit_has_the_last_argument(lim: Limits, s: Stretch)
    requires
        are_apart(lim),
    ensures
        s.argument_spec(normal_spec(lim.high, lim)) == last_argument(s),
{
    upper_limit_has_the_full_level(lim);
    constants();
    let k = Single { bits: 0x4479_c000 };
    one_times(k);
    one_times(c_ten());
    if s == Stretch::Log {
        reveal(Single::plus_spec);
        let m: nat = 0x447a_0000;
        representable_rounds_to_itself(m, 24);
        assert(k.raw().value(24) + c_one().raw().value(24) == units(m, 24));
        assert(k.plus(c_one()) == c_thousand());
    }
}

/// With a true curve, one whose value at the last argument is the value at the end, a pixel at the
/// upper limit is shown in the last colour, under every stretch.
pub proof fn upper_limit_has_the_last_colour(
    img: FitsImage,
    lim: Limits,
    s: Stretch,
    c: Curve,
    i: int,
)
    requires
        are_apart(lim),
        0 <= i < img.data@.len(),
        img.data@[i] == lim.high,
        c.end.is_finite(),
        (Single { bits: 0 }).lt(c.end),
        s.is_curved() && s.argument_spec(normal_spec(img.data@[i], lim)) == last_argument(s) ==> (
        curve_value(c, i) == match s {
            Stretch::Power(_) => c_one(),
            _ => c.end,
        }),
    ensures
        shown_level(img, lim, s, c, i) == c_one(),
        index_spec(shown_level(img, lim, s, c, i)) == 255,
        grayscale_spec(img, lim, s, c)[i] == 255,
        arguments_spec(img, lim, s)[i] == last_argument(s),
{
    upper_limit_has_the_full_level(lim);
    upper_limit_has_the_last_argument(lim, s);
    constants();
    one_times(c_one());
    over_itself(c.end);
    root_of_one();
    let k = Single { bits: 0x437f_0000 };
    one_times(k);
    coarse_whole(k, Whole::Trunc, 255);
    let j = k.whole_spec(Whole::Trunc, 0, 255);
    let o = one(24);
    if j < 255 {
        assert((j + 1) * o <= 255 * o) by (nonlinear_arith)
            requires
                j + 1 <= 255,
                o > 0,
        ;
    }
}

/// The root of one is one.
proof fn root_of_one()
    ensures
        c_one().sqrt() == c_one(),
{
    reveal(Single::sqrt_spec);
    constants();
    let o = pow2(149);
    let n = (o * o) as nat;
    assert(n >= 0) by (nonlinear_arith)
        requires
            n == o * o,
    ;
    let q = crate::arith::root(n);
    crate::arith::root_bounds(n);
    assert(q == o) by (nonlinear_arith)
        requires
            q * q <= n < (q + 1) * (q + 1),
            n == o * o,
            q >= 0,
            o >= 0,
    ;
    let w = (2 * o) as nat;
    assert(w * 1 == o * 2);
    round_grows(w, 2, o, 1, 24);
    round_grows(o, 1, w, 2, 24);
    representable_rounds_to_itself(0x3f80_0000, 24);
}

/// A level that is zero, or not tiny, and at most one.
pub open spec fn is_plain_level(n: Single) -> bool {
    &&& n.is_finite()
    &&& !n.raw().neg
    &&& coarse(n) <= one(24)
    &&& coarse(n) == 0 || coarse(n) >= pow2(90)
}

/// The argument of the inverse hyperbolic sine is ten times the level, that of the logarithm grows
/// evenly from one to a thousand, and those of the other functions are the level itself.
pub proof fn arguments_grow_evenly(s: Stretch, n: Single)
    requires
        is_plain_level(n),
    ensures
        ({
            let (a, l, o) = (coarse(s.argument_spec(n)), coarse(n), one(24));
            match s {
                Stretch::Log => alike(a, 999 * l + o, 6, parts(24)),
                Stretch::Asinh => alike(a, 10 * l, 2, parts(24)),
                _ => s.argument_spec(n) == n,
            }
        }),
{
    constants();
    let (l, o, b) = (coarse(n), one(24), parts(24));
    match s {
        Stretch::Log => {
            let c = Single { bits: 0x4479_c000 };
            scaled(n, c, 999);
            let p = n.times(c);
            let q = coarse(p);
            alike_bound(q, 999 * l, 2, b);
            lemma2_to64();
            lemma_pow2_adds(11, 149);
            lemma_pow2_strictly_increases(160, 240);
            coarse_plus(p, c_one());
            alike_self(o, 2, b);
            crate::exact::alike_sum(q, 999 * l, o, o, 2, b);
            alike_chain(coarse(p.plus(c_one())), q + o, 999 * l + o, 2, 2, b);
            alike_wider(coarse(p.plus(c_one())), 999 * l + o, 5, 6, b);
        },
        Stretch::Asinh => {
            scaled(n, c_ten(), 10);
        },
        _ => {},
    }
}

/// A level times a small whole number.
proof fn scaled(n: Single, c: Single, k: int)
    requires
        is_plain_level(n),
        c.is_finite(),
        !c.raw().neg,
        coarse(c) == k * one(24),
        1 <= k <= 1000,
    ensures
        n.times(c).is_finite(),
        !n.times(c).raw().neg,
        alike(coarse(n.times(c)), k * coarse(n), 2, parts(24)),
{
    constants();
    let (l, o, b) = (coarse(n), one(24), parts(24));
    let m = l * (k * o);
    lemma2_to64();
    if l == 0 {
        assert(m == 0) by (nonlinear_arith)
            requires
                m == l * (k * o),
                l == 0,
        ;
        nothing_is_ample(o, 24);
    } else {
        assert(in_range(k, 0, 10));
        range_product(k, o, 0, 10, 149, 149);
        range_product(l, k * o, 90, 149, 149, 159);
        range_ample(m, o, 239, 308, 149, 149, 24);
    }
    coarse_times(n, c);
    let r = coarse(n.times(c));
    assert(m == (k * l) * o) by (nonlinear_arith)
        requires
            m == l * (k * o),
    ;
    assert(k * l >= 0) by (nonlinear_arith)
        requires
            k >= 0,
            l >= 0,
    ;
    alike_cancel(r, k * l, o, 2, b);
}

/// The level shown under each stretch: the level itself, its root, its square, or the share of the
/// function's value in the value at the end.
pub proof fn levels_under_each_stretch(s: Stretch, n: Single, y: Single, end: Single)
    requires
        is_plain_level(n),
        coarse(n) > 0,
        is_plain_level(y),
        end.is_finite(),
        !end.raw().neg,
        in_range(coarse(end), 140, 160),
    ensures
        ({
            let r = s.level_spec(n, y, end);
            let (v, l, o) = (coarse(r), coarse(n), one(24));
            match s {
                Stretch::Linear => r == n,
                Stretch::Sqrt => alike(v * v, l * o, 7, parts(24)),
                Stretch::Squared => alike(v * o, l * l, 2, parts(24)),
                Stretch::Power(_) => r == y,
                _ => alike(v * coarse(end), coarse(y) * o, 2, parts(24)),
            }
        }),
{
    constants();
    let (l, o) = (coarse(n), one(24));
    powers_grow(90, 149);
    assert(n.raw().mag > 0) by {
        assert(units(0, 24) == 0);
    }
    match s {
        Stretch::Sqrt => {
            lemma_pow2_strictly_increases(149, 240);
            coarse_root(n);
        },
        Stretch::Squared => {
            range_product(l, l, 90, 149, 90, 149);
            range_ample(l * l, o, 180, 298, 149, 149, 24);
            coarse_times(n, n);
        },
        Stretch::Log | Stretch::Asinh | Stretch::Sinh => {
            let m = coarse(y) * o;
            powers_grow(140, 140);
            if coarse(y) == 0 {
                assert(m == 0) by (nonlinear_arith)
                    requires
                        m == coarse(y) * o,
                        coarse(y) == 0,
                ;
                nothing_is_ample(coarse(end), 24);
            } else {
                range_product(coarse(y), o, 90, 149, 149, 149);
                range_ample(m, coarse(end), 239, 298, 140, 160, 24);
            }
            coarse_over(y, end);
        },
        _ => {},
    }
}

/// The colour is the one at the share of the table that the level says, counted from the first.
pub proof fn colours_are_in_the_order_of_levels(level: Single)
    requires
        is_plain_level(level),
    ensures
        ({
            let (i, l, o, b) = (index_spec(level), coarse(level), one(24), parts(24));
            &&& 0 <= i <= 255
            &&& i * o * b <= 255 * l * (b + 2)
            &&& i < 255 ==> 255 * l * b <= (i + 1) * o * (b + 2)
        }),
{
    constants();
    let (l, o, b) = (coarse(level), one(24), parts(24));
    let c = Single { bits: 0x437f_0000 };
    scaled(level, c, 255);
    let p = level.times(c);
    let v = coarse(p);
    // No more than the last.
    reveal(Single::times_spec);
    let m = level.raw().mag as nat;
    let n = l * (255 * o);
    assert(n <= (255 * o) * o) by (nonlinear_arith)
        requires
            n == l * (255 * o),
            l <= o,
            o > 0,
    ;
    assert(n >= 0) by (nonlinear_arith)
        requires
            n == l * (255 * o),
            l >= 0,
            o > 0,
    ;
    round_at_most(n as nat, o as nat, 0x437f_0000, 24);
    let q = p.clamp(Single { bits: 0 }, c);
    assert(p.raw().mag <= 0x437f_0000);
    assert(q == p);
    coarse_whole(p, Whole::Trunc, 255);
    let i = index_spec(level);
    assert(i * o * b <= v * b) by (nonlinear_arith)
        requires
            i * o <= v,
            b > 0,
    ;
    if i < 255 {
        assert(v * (b + 2) <= ((i + 1) * o) * (b + 2)) by (nonlinear_arith)
            requires
                v <= (i + 1) * o,
                b > 0,
        ;
    }
}

/// The level of a pixel between the limits is its share of the way from the lower to the upper one,
/// to a few roundings.
#[verifier::spinoff_prover]
pub proof fn levels_are_shares_of_the_range(v: Single, lim: Limits)
    requires
        v.is_finite(),
        lim.low.is_finite(),
        lim.high.is_finite(),
        ({
            let x = coarse_worth(v) - coarse_worth(lim.low);
            let w = coarse_worth(lim.high) - coarse_worth(lim.low);
            &&& in_range(w, 60, 220)
            &&& 0 <= x <= w
            &&& x == 0 || x * 0x10_0000_0000_0000 >= w
        }),
    ensures
        ({
            let x = coarse_worth(v) - coarse_worth(lim.low);
            let w = coarse_worth(lim.high) - coarse_worth(lim.low);
            let n = normal_spec(v, lim);
            &&& n.is_finite()
            &&& 0 <= coarse_worth(n) <= one(24)
            &&& alike(coarse(n) * w, x * one(24), 8, parts(24))
        }),
{
    constants();
    let (o, b) = (one(24), parts(24));
    let x = coarse_worth(v) - coarse_worth(lim.low);
    let w = coarse_worth(lim.high) - coarse_worth(lim.low);
    lemma_pow2_strictly_increases(220, 240);
    powers_grow(60, 60);
    coarse_minus(v, lim.low);
    coarse_minus(lim.high, lim.low);
    let (d, s) = (v.minus(lim.low), lim.high.minus(lim.low));
    let (fd, fs) = (coarse(d), coarse(s));
    lemma2_to64();
    assert(fs * 1 == fs);
    range_quotient(fs, 1, w, 60, 220, 0, 0, 2, b);
    // The distance counts as it is.
    let tiny = Single { bits: 0x0da2_4260 };
    size_by_bits(0x0da2_4260, 27, 0x22_4260, 24);
    lemma_pow2_adds(24, 26);
    powers_grow(50, 59);
    powers_grow(59, 59);
    let q = pow2(26) as int;
    lemma_pow2_pos(26);
    assert(0xa2_4260 * q <= 0x100_0000 * q) by (nonlinear_arith)
        requires
            q > 0,
    ;
    coarse_order(s, tiny);
    assert(span_spec(lim) == s);
    // The share.
    not_further(v, lim.high, lim.low);
    let n = d.over(s);
    if x == 0 {
        alike_nothing(fd, 2, b);
        assert(0 * o == 0) by (nonlinear_arith);
        nothing_is_ample(fs, 24);
    } else {
        alike_bound(fd, x, 2, b);
        alike_bound(fs, w, 2, b);
        let c = 0x10_0000_0000_0000int;
        let m = fd * o;
        // Not too small.
        lemma2_to64_rest();
        lemma_pow2_adds(52, 97);
        let g = pow2(97) as int;
        assert(o == c * g);
        lemma_pow2_strictly_increases(64, 97);
        assert(m >= 0x80_0000 * fs) by (nonlinear_arith)
            requires
                m == fd * o,
                o == c * g,
                g >= 0x1_0000_0000_0000_0000,
                c > 0,
                x <= 2 * fd,
                fs <= 2 * w,
                x * c >= w,
                w > 0,
                fd >= 0,
        ;
        // Not too large.
        lemma_pow2_adds(149, 91);
        let t = pow2(240) as int;
        lemma_pow2_strictly_increases(149, 240);
        assert(m < fs * t) by (nonlinear_arith)
            requires
                m == fd * o,
                fd <= fs,
                0 < fs,
                0 < o < t,
        ;
        assert(is_ample(m, fs, 24));
    }
    coarse_over(d, s);
    let f = coarse(n);
    // f * w is alike to x * o.
    alike_times(fd, x, o, 2, b);
    alike_chain(f * fs, fd * o, x * o, 2, 2, b);
    alike_times(fs, w, f, 2, b);
    assert(fs * f == f * fs && w * f == f * w) by (nonlinear_arith);
    alike_chain(f * w, f * fs, x * o, 2, 5, b);
    // No clamping.
    at_most_one(d, s);
    if x == 0 {
        alike_nothing(f * fs, 2, b);
        assert(f == 0) by (nonlinear_arith)
            requires
                f * fs == 0,
                fs > 0,
        ;
    }
    let (zero, unit) = (Single { bits: 0 }, c_one());
    assert(units(0, 24) == 0);
    coarse_order(n, zero);
    coarse_order(unit, n);
    assert(normal_spec(v, lim) == n);
}

/// A number that is no more than another is no further from a third below both.
proof fn not_further(a: Single, b: Single, c: Single)
    requires
        a.is_finite(),
        b.is_finite(),
        c.is_finite(),
        coarse_worth(c) <= coarse_worth(a) <= coarse_worth(b),
        coarse_worth(b) - coarse_worth(c) < pow2(240),
    ensures
        coarse(a.minus(c)) <= coarse(b.minus(c)),
{
    reveal(Single::minus_spec);
    reveal(Single::plus_spec);
    let n = c.negate().raw();
    assert(n.mag == c.raw().mag && n.neg == !c.raw().neg);
    let (x, y) = (coarse_worth(a) - coarse_worth(c), coarse_worth(b) - coarse_worth(c));
    assert(units(0, 24) == 0);
    coarse_minus(a, c);
    coarse_minus(b, c);
    if x > 0 {
        assert(x * 1 == x && y * 1 == y);
        round_grows(x as nat, 1, y as nat, 1, 24);
        crate::exact::rounded_alike(y as nat, 1, 24);
        let (p, q) = (round_bits(x as nat, 1, 24), round_bits(y as nat, 1, 24));
        if p < q {
            units_increase(p, q, 24);
        }
        coarse_of(crate::arith::sum_spec(a.raw(), n, 24));
        coarse_of(crate::arith::sum_spec(b.raw(), n, 24));
    }
}

/// A share of something larger is at most one.
proof fn at_most_one(d: Single, s: Single)
    requires
        d.is_finite(),
        s.is_finite(),
        coarse(s) > 0,
        coarse(d) <= coarse(s),
    ensures
        coarse(d.over(s)) <= one(24),
{
    constants();
    reveal(Single::over_spec);
    let o = pow2(149);
    let (x, y) = (units(d.raw().mag as nat, 24), units(s.raw().mag as nat, 24));
    assert(units(0, 24) == 0);
    assert(x * o <= o * y) by (nonlinear_arith)
        requires
            x <= y,
            o >= 0,
    ;
    let n = (x * o) as nat;
    assert(n >= 0) by (nonlinear_arith)
        requires
            n == x * o,
    ;
    round_at_most(n, y, 0x3f80_0000, 24);
    coarse_of(crate::arith::quotient_spec(d.raw(), s.raw(), 24));
    let m = d.over(s).raw().mag as nat;
    if m < 0x3f80_0000 {
        units_increase(m, 0x3f80_0000, 24);
    }
}

} // verus!
