//! What smoothing does, measured against exact arithmetic.

use crate::exact::{
    abs, alike, alike_cancel, alike_chain, alike_self, alike_times, alike_wider, bounds_by_bits,
    coarse, coarse_ceil, coarse_exact_integer, coarse_over, coarse_times, in_range, one, parts,
    powers_grow, range_ample, range_product, range_quotient, size_by_bits,
};
use crate::filters::{exponent_spec, exponents_spec, radius_spec};
use crate::num::Single;
use crate::rounding::unit_exp;
use vstd::arithmetic::power2::*;
use vstd::prelude::*;

verus! {

/// Whether a width lies between a millionth of a pixel and a million pixels, about.
pub open spec fn is_usual(sigma: Single) -> bool {
    (Single { bits: 0x3580_0000 }).le(sigma) && sigma.le(Single { bits: 0x4980_0000 })
}

proof fn usual_range(sigma: Single)
    requires
        is_usual(sigma),
    ensures
        sigma.is_finite(),
        !sigma.raw().neg,
        in_range(coarse(sigma), 129, 169),
{
    let m = sigma.raw().mag as nat;
    bounds_by_bits(m, 107, 24);
    bounds_by_bits(m, 147, 24);
    lemma2_to64();
    lemma_pow2_adds(23, 106);
    lemma_pow2_adds(23, 146);
}

/// The numbers of units in one, two and three.
pub proof fn small_numbers()
    ensures
        coarse(Single { bits: 0x3f80_0000 }) == one(24),
        coarse(Single { bits: 0x4000_0000 }) == 2 * one(24),
        coarse(Single { bits: 0x4040_0000 }) == 3 * one(24),
        in_range(one(24), 149, 149),
        one(24) > 0,
{
    lemma2_to64();
    size_by_bits(0x3f80_0000, 127, 0, 24);
    size_by_bits(0x4000_0000, 128, 0, 24);
    size_by_bits(0x4040_0000, 128, 0x40_0000, 24);
    lemma_pow2_adds(23, 126);
    lemma_pow2_adds(23, 127);
    lemma_pow2_adds(22, 127);
    lemma_pow2_unfold(150);
    let w = pow2(127) as int;
    let q = pow2(22) as int;
    assert(0xc0_0000 * w == 3 * (q * w)) by (nonlinear_arith)
        requires
            q == 0x40_0000,
    ;
    lemma_pow2_pos(149);
}

/// The kernel falls off with the distance and the width squared: the exponent at the distance `k`,
/// times twice the square of the width, is the square of the distance with a minus sign, to a few
/// roundings.
#[verifier::spinoff_prover]
pub proof fn kernel_falls_off_with_squares(sigma: Single, k: int)
    requires
        is_usual(sigma),
        -radius_spec(sigma) <= k <= radius_spec(sigma),
    ensures
        ({
            let e = exponents_spec(sigma)[radius_spec(sigma) + k];
            let (s, o) = (coarse(sigma), one(24));
            &&& exponents_spec(sigma).len() == 2 * radius_spec(sigma) + 1
            &&& e.is_finite()
            &&& e.raw().neg || k == 0
            &&& alike(coarse(e) * (2 * s * s), k * k * o * o * o, 20, parts(24))
        }),
{
    let (s, o, b) = (coarse(sigma), one(24), parts(24));
    usual_range(sigma);
    small_radius(sigma);
    small_numbers();
    lemma2_to64();
    let (c1, c2) = (Single { bits: 0x3f80_0000 }, Single { bits: 0x4000_0000 });
    // Twice the width.
    let two = 2 * o;
    lemma_pow2_unfold(150);
    let t1 = c2.times(sigma);
    range_product(two, s, 150, 150, 129, 169);
    range_ample(two * s, o, 279, 319, 149, 149, 24);
    coarse_times(c2, sigma);
    let a1 = coarse(t1);
    assert(two * s == (2 * s) * o) by (nonlinear_arith)
        requires
            two == 2 * o,
    ;
    alike_cancel(a1, 2 * s, o, 2, b);
    range_quotient(a1, o, two * s, 279, 319, 149, 149, 2, b);
    // Times the width.
    let t2 = t1.times(sigma);
    range_product(a1, s, 129, 171, 129, 169);
    range_ample(a1 * s, o, 258, 340, 149, 149, 24);
    coarse_times(t1, sigma);
    let a2 = coarse(t2);
    range_quotient(a2, o, a1 * s, 258, 340, 149, 149, 2, b);
    alike_times(a1, 2 * s, s, 2, b);
    alike_chain(a2 * o, a1 * s, 2 * s * s, 2, 2, b);
    // One over it.
    let inv = c1.over(t2);
    range_product(o, o, 149, 149, 149, 149);
    range_ample(o * o, a2, 298, 298, 108, 192, 24);
    powers_grow(108, 108);
    coarse_over(c1, t2);
    let a3 = coarse(inv);
    range_quotient(a3, a2, o * o, 298, 298, 108, 192, 2, b);
    // The square of the distance.
    coarse_exact_integer(k);
    let d = Single::from_int_spec(k);
    let dk = abs(k) * o;
    let kk = k * k;
    assert(dk * dk == kk * (o * o)) by (nonlinear_arith)
        requires
            dk == abs(k) * o,
            kk == k * k,
            abs(k) == k || abs(k) == -k,
    ;
    if k == 0 {
        assert(dk == 0) by (nonlinear_arith)
            requires
                dk == abs(k) * o,
                abs(k) == 0,
        ;
        zero_exponent(sigma, inv);
    } else {
        assert(1 <= kk <= 0x1000_0000_0000) by (nonlinear_arith)
            requires
                kk == k * k,
                k != 0,
                -0x40_0000 <= k <= 0x40_0000,
        ;
        lemma2_to64();
        assert(in_range(kk, 0, 44)) by {
            lemma2_to64_rest();
        }
        range_product(kk, o * o, 0, 44, 298, 298);
        range_ample(dk * dk, o, 298, 342, 149, 149, 24);
        coarse_times(d, d);
        let dd = d.times(d);
        let a4 = coarse(dd);
        range_quotient(a4, o, dk * dk, 298, 342, 149, 149, 2, b);
        assert((dk * dk) == (kk * o) * o) by (nonlinear_arith)
            requires
                dk * dk == kk * (o * o),
        ;
        assert(kk * o >= 0) by (nonlinear_arith)
            requires
                kk >= 0,
                o >= 0,
        ;
        alike_cancel(a4, kk * o, o, 2, b);
        // The exponent.
        let n = dd.negate();
        assert(n.raw().mag == dd.raw().mag && n.raw().neg);
        let e = n.times(inv);
        range_product(a4, a3, 148, 194, 105, 191);
        range_ample(a4 * a3, o, 253, 385, 149, 149, 24);
        coarse_times(n, inv);
        let a5 = coarse(e);
        // All together: a5 * a2 * o is alike to a4 * a3 * a2, that to a4 * o * o.
        alike_times(a5 * o, a4 * a3, a2, 2, b);
        alike_times(a3 * a2, o * o, a4, 2, b);
        assert((a4 * a3) * a2 == (a3 * a2) * a4) by (nonlinear_arith);
        alike_chain((a5 * o) * a2, (a4 * a3) * a2, (o * o) * a4, 2, 2, b);
        alike_times(a4, kk * o, o * o, 2, b);
        assert((o * o) * a4 == a4 * (o * o)) by (nonlinear_arith);
        alike_chain((a5 * o) * a2, (o * o) * a4, (kk * o) * (o * o), 5, 2, b);
        alike_times(a2 * o, 2 * s * s, a5, 5, b);
        assert((a2 * o) * a5 == (a5 * o) * a2 && (2 * s * s) * a5 == a5 * (2 * s * s))
            by (nonlinear_arith);
        flip((a5 * o) * a2, a5 * (2 * s * s), 5, b);
        alike_chain(a5 * (2 * s * s), (a5 * o) * a2, (kk * o) * (o * o), 5, 8, b);
        assert((kk * o) * (o * o) == k * k * o * o * o) by (nonlinear_arith)
            requires
                kk == k * k,
        ;
        alike_wider(a5 * (2 * s * s), k * k * o * o * o, 14, 20, b);
    }
}

/// The radius of a usual kernel is not large.
proof fn small_radius(sigma: Single)
    requires
        is_usual(sigma),
    ensures
        0 <= radius_spec(sigma) <= 0x40_0000,
{
    kernel_reaches_three_widths(sigma);
    usual_range(sigma);
    small_numbers();
    lemma2_to64();
    lemma_pow2_adds(20, 149);
    let (r, s, o, b) = (radius_spec(sigma), coarse(sigma), one(24), parts(24));
    assert(r <= 0x40_0000) by (nonlinear_arith)
        requires
            (r - 1) * o * b < 3 * s * (b + 2),
            s <= 0x10_0000 * o,
            b == 0x100_0000,
            o > 0,
    ;
}

/// Being alike goes both ways.
proof fn flip(x: int, y: int, k: int, b: int)
    requires
        alike(x, y, k, b),
    ensures
        alike(y, x, k, b),
{
}

/// The exponent in the middle.
proof fn zero_exponent(sigma: Single, inv: Single)
    requires
        inv.is_finite(),
        inv == (Single { bits: 0x3f80_0000 }).over(
            (Single { bits: 0x4000_0000 }).times(sigma).times(sigma),
        ),
    ensures
        exponent_spec(sigma, 0).is_finite(),
        alike(
            coarse(exponent_spec(sigma, 0)) * (2 * coarse(sigma) * coarse(sigma)),
            0 * 0 * one(24) * one(24) * one(24),
            20,
            parts(24),
        ),
{
    coarse_exact_integer(0);
    let d = Single::from_int_spec(0);
    let o = one(24);
    lemma_pow2_pos(unit_exp(24));
    assert(0 * o == 0 && 0int * 0int == 0) by (nonlinear_arith);
    lemma_pow2_pos(240);
    assert(o * pow2(240) > 0) by (nonlinear_arith)
        requires
            o > 0,
            pow2(240) > 0,
    ;
    coarse_times(d, d);
    let dd = d.times(d);
    let a = coarse(dd);
    assert(a == 0) by (nonlinear_arith)
        requires
            a * o * parts(24) <= 0 * (parts(24) + 2),
            a >= 0,
            o > 0,
            parts(24) > 0,
    ;
    let n = dd.negate();
    assert(n.raw().mag == dd.raw().mag);
    assert(0 * coarse(inv) == 0) by (nonlinear_arith);
    coarse_times(n, inv);
    let e = coarse(n.times(inv));
    assert(e == 0) by (nonlinear_arith)
        requires
            e * o * parts(24) <= 0 * (parts(24) + 2),
            e >= 0,
            o > 0,
            parts(24) > 0,
    ;
    let z = 2 * coarse(sigma) * coarse(sigma);
    assert(0 * z == 0) by (nonlinear_arith);
    assert(0 * 0 * o * o * o == 0) by (nonlinear_arith);
    alike_self(0, 20, parts(24));
}

/// At a distance of one width the exponent is minus one half, whatever the width is.
pub proof fn one_width_off(sigma: Single, k: int)
    requires
        0 < k <= 0x10_0000,
        sigma == Single::from_int_spec(k),
    ensures
        k <= radius_spec(sigma),
        exponents_spec(sigma)[radius_spec(sigma) + k].raw().neg,
        alike(
            2 * coarse(exponents_spec(sigma)[radius_spec(sigma) + k]),
            one(24),
            20,
            parts(24),
        ),
{
    coarse_exact_integer(k);
    let (o, b) = (one(24), parts(24));
    let s = k * o;
    whole_is_usual(k);
    usual_range(sigma);
    kernel_reaches_three_widths(sigma);
    let r = radius_spec(sigma);
    lemma2_to64();
    small_numbers();
    assert(k <= r) by (nonlinear_arith)
        requires
            3 * (k * o) * b <= r * o * (b + 2),
            b == 0x100_0000,
            o > 0,
            r >= 1,
            k > 0,
    ;
    kernel_falls_off_with_squares(sigma, k);
    let e = coarse(exponents_spec(sigma)[radius_spec(sigma) + k]);
    powers_grow(149, 149);
    let c = k * k * o * o;
    assert(c > 0) by (nonlinear_arith)
        requires
            c == k * k * o * o,
            k > 0,
            o > 0,
    ;
    assert(e * (2 * s * s) == (2 * e) * c) by (nonlinear_arith)
        requires
            s == k * o,
            c == k * k * o * o,
    ;
    assert(k * k * o * o * o == o * c) by (nonlinear_arith)
        requires
            c == k * k * o * o,
    ;
    alike_cancel(2 * e, o, c, 20, b);
}

/// Whole widths up to a million are usual.
proof fn whole_is_usual(k: int)
    requires
        0 < k <= 0x10_0000,
    ensures
        is_usual(Single::from_int_spec(k)),
{
    coarse_exact_integer(k);
    let m = Single::from_int_spec(k).raw().mag as nat;
    let o = one(24);
    lemma2_to64();
    lemma_pow2_adds(20, 149);
    lemma_pow2_pos(149);
    assert(o <= k * o <= 0x10_0000 * o) by (nonlinear_arith)
        requires
            0 < k <= 0x10_0000,
            o > 0,
    ;
    size_by_bits(0x3580_0000, 107, 0, 24);
    size_by_bits(0x4980_0000, 147, 0, 24);
    lemma_pow2_adds(23, 106);
    lemma_pow2_adds(23, 146);
    lemma_pow2_strictly_increases(129, 149);
    if m < 0x3580_0000 {
        crate::arith::units_increase(m, 0x3580_0000, 24);
    }
    if m > 0x4980_0000 {
        crate::arith::units_increase(0x4980_0000, m, 24);
    }
}

/// The kernel reaches three widths to either side: to the first whole distance at or behind that,
/// to rounding.
pub proof fn kernel_reaches_three_widths(sigma: Single)
    requires
        is_usual(sigma),
    ensures
        ({
            let (r, s, o, b) = (radius_spec(sigma), coarse(sigma), one(24), parts(24));
            &&& r >= 1
            &&& 3 * s * b <= r * o * (b + 2)
            &&& (r - 1) * o * b < 3 * s * (b + 2)
        }),
{
    let (s, o, b) = (coarse(sigma), one(24), parts(24));
    usual_range(sigma);
    small_numbers();
    lemma2_to64();
    let three = Single { bits: 0x4040_0000 };
    lemma_pow2_unfold(150);
    lemma_pow2_unfold(151);
    let n = (3 * o) * s;
    range_product(3 * o, s, 150, 151, 129, 169);
    range_ample(n, o, 279, 320, 149, 149, 24);
    coarse_times(three, sigma);
    let z = three.times(sigma);
    let a = coarse(z);
    range_quotient(a, o, n, 279, 320, 149, 149, 2, b);
    assert(n == (3 * s) * o) by (nonlinear_arith)
        requires
            n == (3 * o) * s,
    ;
    alike_cancel(a, 3 * s, o, 2, b);
    let hi = i32::MAX as int;
    coarse_ceil(z, hi);
    let r = radius_spec(sigma);
    // Far below the largest radius.
    lemma_pow2_adds(23, 149);
    assert(r < hi) by {
        if r == hi {
            assert((hi - 1) * o >= 0x80_0000 * o) by (nonlinear_arith)
                requires
                    hi - 1 >= 0x80_0000,
                    o > 0,
            ;
            powers_grow(149, 149);
        }
    }
    if r == 0 {
        assert(0 * o == 0) by (nonlinear_arith);
        powers_grow(129, 129);
    }
    assert(3 * s * b <= a * (b + 2));
    assert(a * (b + 2) <= (r * o) * (b + 2)) by (nonlinear_arith)
        requires
            a <= r * o,
            b > 0,
    ;
    assert(((r - 1) * o) * b < a * b) by (nonlinear_arith)
        requires
            (r - 1) * o < a,
            b > 0,
    ;
}

} // verus!
