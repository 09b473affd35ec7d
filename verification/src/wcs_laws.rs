//! The reference pixel and the reference point of an image.

use crate::arith::{mod_scales, product_spec, representable_rounds_to_itself, units_increase, Raw};
use crate::exact::{fine_of, nearest_error, packed_units, round_at_most, spacing_fits};
use crate::fits::{
    d0, d1, degrees_per_radian, has_cd, radians_per_degree, rotation_spec, wcs_spec, Header,
    SkyTrig, Wcs, WcsNumbers,
};
use crate::num::Double;
use crate::rounding::{
    inf_bits, lead, lead_is_pow2, nearest, round_bits, spacing, spacing_is, unit_exp, units,
};
use vstd::arithmetic::div_mod::*;
use vstd::arithmetic::power2::*;
use vstd::prelude::*;

verus! {

// ---------------------------------------------------------------------------
// Rounding
// ---------------------------------------------------------------------------

/// How the magnitude nearest to a fraction comes about.
proof fn rounded(n: nat, d: nat, p: int)
    requires
        p == 53,
        d > 0,
        n < d * pow2(2000),
    ensures
        ({
            let m = round_bits(n, d, p);
            let k = spacing(n, d, p);
            let q = nearest(n, (d * pow2(k)) as nat);
            &&& m < inf_bits(p)
            &&& units(m, p) == q * pow2(k)
            &&& q <= 2 * lead(p)
            &&& k > 0 ==> q >= lead(p)
            &&& k > 0 ==> n >= lead(p) * d * pow2(k)
            &&& n < 2 * lead(p) * d * pow2(k)
        }),
{
    let h = lead(p) as int;
    let k = spacing(n, d, p);
    let w = pow2(k) as int;
    lemma_pow2_pos(k);
    lead_is_pow2(p);
    spacing_fits(n, d, p);
    let g = d as int * w;
    assert(g > 0) by (nonlinear_arith)
        requires
            d > 0,
            w > 0,
            g == d as int * w,
    ;
    assert(2 * h * d * w == (2 * h) * g && h * d * w == h * g) by (nonlinear_arith)
        requires
            g == d as int * w,
    ;
    let q = nearest(n, g as nat) as int;
    nearest_error(n, g as nat);
    assert(q <= 2 * h) by (nonlinear_arith)
        requires
            2 * (q * g - n) <= g,
            n < (2 * h) * g,
            g > 0,
    ;
    if k > 0 {
        assert(q >= h) by (nonlinear_arith)
            requires
                -g <= 2 * (q * g - n),
                n >= h * g,
                g > 0,
        ;
    }
    packed_units(k, q as nat, p);
    let top: nat = 2000;
    if k > 0 {
        if k > top {
            lemma_pow2_strictly_increases(top, k);
            let t = pow2(top) as int;
            assert(h * g >= d * t) by (nonlinear_arith)
                requires
                    g == d as int * w,
                    w > t,
                    t >= 0,
                    h >= 1,
                    d > 0,
            ;
        }
    }
    assert(k * h + 2 * h <= (top + 2) * h) by (nonlinear_arith)
        requires
            k <= top,
            h >= 0,
    ;
}

/// Nothing divided by something is nothing.
proof fn nothing_rounded(d: nat)
    requires
        d > 0,
    ensures
        round_bits(0, d, 53) == 0,
{
    lemma2_to64();
    assert(2 * lead(53) * d * 1 > 0) by (nonlinear_arith)
        requires
            d > 0,
            lead(53) == 0x10_0000_0000_0000,
    ;
    spacing_is(0, d, 53, 0);
    assert(nearest(0, d * 1) == 0);
}

/// A fraction with both sides multiplied is rounded to the same.
proof fn scaled_rounds_alike(n: nat, w: nat)
    requires
        w > 0,
    ensures
        round_bits(n * w, w, 53) == round_bits(n, 1, 53),
{
    let h = lead(53) as int;
    let k = spacing(n, 1, 53);
    let z = pow2(k) as int;
    lemma_pow2_pos(k);
    spacing_fits(n, 1, 53);
    assert(2 * h * 1 * z == 2 * h * z && h * 1 * z == h * z);
    assert(n * w < (2 * h * z) * w) by (nonlinear_arith)
        requires
            n < 2 * h * z,
            w > 0,
    ;
    assert((2 * h * z) * w == 2 * h * w * z) by (nonlinear_arith);
    if k > 0 {
        assert(n * w >= (h * z) * w) by (nonlinear_arith)
            requires
                n >= h * z,
                w > 0,
        ;
        assert((h * z) * w == h * w * z) by (nonlinear_arith);
    }
    spacing_is(n * w, w, 53, k);
    mod_scales(n, z as nat, w);
    assert(w * z == z * w) by (nonlinear_arith);
    let (r, d) = (n % (z as nat), z as nat);
    assert(2 * (r * w) > d * w <==> 2 * r > d) by (nonlinear_arith)
        requires
            w > 0,
    ;
    assert(2 * (r * w) == d * w <==> 2 * r == d) by (nonlinear_arith)
        requires
            w > 0,
    ;
    assert(1 * z == z);
}

// ---------------------------------------------------------------------------
// Zero and one
// ---------------------------------------------------------------------------

/// Whether a number is zero, of either sign.
pub open spec fn is_zero(x: Double) -> bool {
    x.raw().mag == 0
}

proof fn one_units()
    ensures
        units(d1().raw().mag as nat, 53) == pow2(1074),
{
    lemma2_to64();
    lemma2_to64_rest();
    lemma_pow2_adds(52, 1022);
    let m = d1().raw().mag as nat;
    assert(m == 0x3ff0_0000_0000_0000);
    assert(m / 0x10_0000_0000_0000 == 1023);
    assert(m % 0x10_0000_0000_0000 == 0);
}

/// A number times zero is zero.
pub proof fn times_zero(z: Double, a: Double)
    requires
        is_zero(z),
        a.is_finite(),
    ensures
        is_zero(z.times(a)),
        is_zero(a.times(z)),
{
    reveal(Double::times_spec);
    let x = units(a.raw().mag as nat, 53);
    assert(0 * x == 0 && x * 0 == 0) by (nonlinear_arith);
    assert(units(0, 53) == 0);
    lemma_pow2_pos(unit_exp(53));
    nothing_rounded(pow2(unit_exp(53)));
}

/// A number times one is the number.
pub proof fn times_one(a: Double)
    requires
        a.is_finite(),
    ensures
        a.times(d1()) == a,
{
    reveal(Double::times_spec);
    let m = a.raw().mag as nat;
    one_units();
    lemma_pow2_pos(1074);
    scaled_rounds_alike(units(m, 53), pow2(1074));
    representable_rounds_to_itself(m, 53);
}

/// The factors of a product may change places.
pub proof fn times_commutes(a: Double, b: Double)
    ensures
        a.times(b) == b.times(a),
{
    reveal(Double::times_spec);
    let (x, y) = (units(a.raw().mag as nat, 53), units(b.raw().mag as nat, 53));
    assert(x * y == y * x) by (nonlinear_arith);
}

/// A finite number less itself is zero.
proof fn minus_itself(x: Double)
    requires
        x.is_finite(),
    ensures
        x.minus(x) == d0(),
{
    reveal(Double::minus_spec);
    reveal(Double::plus_spec);
    let (a, b) = (x.raw(), x.negate().raw());
    assert(b.mag == a.mag && b.neg == !a.neg);
    assert(a.value(53) + b.value(53) == 0);
}

/// Zero more or less changes nothing.
pub proof fn plus_zero(z: Double, a: Double)
    requires
        is_zero(z),
        a.is_finite(),
    ensures
        z.plus(a).same(a),
        is_zero(a) ==> is_zero(z.plus(a)),
        is_zero(a) ==> is_zero(z.minus(a)),
{
    reveal(Double::plus_spec);
    reveal(Double::minus_spec);
    let m = a.raw().mag as nat;
    assert(units(0, 53) == 0);
    representable_rounds_to_itself(m, 53);
    if m > 0 {
        units_increase(0, m, 53);
    }
    assert(is_zero(a) ==> is_zero(a.negate()));
}

/// Zero divided by a positive number is zero.
proof fn zero_over(z: Double, y: Double)
    requires
        is_zero(z),
        d0().lt(y),
    ensures
        is_zero(z.over(y)),
{
    reveal(Double::over_spec);
    let b = y.raw();
    if b.finite(53) {
        units_increase(0, b.mag as nat, 53);
        let w = pow2(unit_exp(53));
        assert(0 * w == 0) by (nonlinear_arith);
        nothing_rounded(units(b.mag as nat, 53));
        assert(units(0, 53) == 0);
    }
}

/// The number of units in `2^64`.
proof fn large_units(m: nat)
    requires
        m <= 0x43f0_0000_0000_0000,
    ensures
        units(m, 53) <= pow2(1138),
{
    lemma2_to64();
    lemma2_to64_rest();
    lemma_pow2_adds(52, 1086);
    let top = 0x43f0_0000_0000_0000nat;
    assert(top / 0x10_0000_0000_0000 == 1087);
    assert(top % 0x10_0000_0000_0000 == 0);
    if m < top {
        units_increase(m, top, 53);
    }
}

/// A product of numbers up to `2^64` is finite.
proof fn product_is_finite(a: Double, b: Double)
    requires
        a.raw().mag <= 0x43f0_0000_0000_0000,
        b.raw().mag <= 0x43f0_0000_0000_0000,
    ensures
        a.times(b).is_finite(),
{
    reveal(Double::times_spec);
    let (x, y) = (units(a.raw().mag as nat, 53), units(b.raw().mag as nat, 53));
    large_units(a.raw().mag as nat);
    large_units(b.raw().mag as nat);
    let p = pow2(1138) as int;
    assert(x * y <= p * p) by (nonlinear_arith)
        requires
            0 <= x <= p,
            0 <= y <= p,
    ;
    lemma_pow2_adds(1138, 1138);
    lemma_pow2_adds(1074, 2000);
    lemma_pow2_strictly_increases(2276, 3074);
    lemma_pow2_pos(1074);
    let n = x * y;
    rounded(n as nat, pow2(1074), 53);
}

/// One divided by a number that is not tiny is finite.
proof fn inverse_is_finite(y: Double)
    requires
        y.is_finite(),
        y.raw().mag >= 0x39b4_484b_feeb_c2a0,
    ensures
        d1().over(y).is_finite(),
{
    reveal(Double::over_spec);
    let m = y.raw().mag as nat;
    let low = 0x39b4_484b_feeb_c2a0nat;
    if low < m {
        units_increase(low, m, 53);
    }
    one_units();
    lemma2_to64();
    lemma2_to64_rest();
    assert(low / 0x10_0000_0000_0000 == 923);
    let f = (low % 0x10_0000_0000_0000) as int;
    let p = pow2(922) as int;
    lemma_pow2_pos(922);
    assert((0x10_0000_0000_0000 + f) * p >= p) by (nonlinear_arith)
        requires
            f >= 0,
            p >= 0,
    ;
    let d = units(m, 53);
    assert(d >= p);
    lemma_pow2_adds(1074, 1074);
    lemma_pow2_adds(922, 2000);
    lemma_pow2_strictly_increases(2148, 2922);
    let w = pow2(2000) as int;
    assert(d * w >= p * w) by (nonlinear_arith)
        requires
            d >= p,
            w >= 0,
    ;
    rounded(pow2(2148), d, 53);
}

// ---------------------------------------------------------------------------
// There and back
// ---------------------------------------------------------------------------

/// Whether the numbers of a coordinate system are finite.
pub open spec fn are_finite(w: WcsNumbers) -> bool {
    &&& w.crpix1.is_finite()
    &&& w.crpix2.is_finite()
    &&& w.cd11.is_finite()
    &&& w.cd12.is_finite()
    &&& w.cd21.is_finite()
    &&& w.cd22.is_finite()
}

/// The reference pixel lies at the reference point: its distance on the tangent plane is one that
/// [`Wcs::at_reference`] answers with the reference point.
pub proof fn reference_pixel_is_at_the_reference_point(w: WcsNumbers)
    requires
        are_finite(w),
    ensures
        is_zero(Wcs::tangent_spec(w, w.crpix1, w.crpix2).rho),
        Wcs::tangent_spec(w, w.crpix1, w.crpix2).rho.lt(Double { bits: 0x3cd2_03af_9ee7_5616 }),
{
    minus_itself(w.crpix1);
    minus_itself(w.crpix2);
    let z = d0();
    let t = Wcs::tangent_spec(w, w.crpix1, w.crpix2);
    no_offset(w.cd11, w.cd12);
    no_offset(w.cd21, w.cd22);
    times_zero(t.xi, t.xi);
    times_zero(t.eta, t.eta);
    plus_zero(t.xi.times(t.xi), t.eta.times(t.eta));
    reveal(Double::sqrt_spec);
}

/// No offset in pixels is no offset on the tangent plane.
proof fn no_offset(a: Double, b: Double)
    requires
        a.is_finite(),
        b.is_finite(),
    ensures
        is_zero(a.times(d0()).plus(b.times(d0())).times(radians_per_degree())),
{
    times_zero(d0(), a);
    times_zero(d0(), b);
    plus_zero(a.times(d0()), b.times(d0()));
    times_zero(a.times(d0()).plus(b.times(d0())), radians_per_degree());
}

/// The reference point is not apart from itself: the angle between the right ascensions that
/// [`Wcs::sky_angles`] gives for it is zero.
pub proof fn reference_point_is_not_off(crval1: Double)
    requires
        crval1.abs().le(Double { bits: 0x43f0_0000_0000_0000 }),
    ensures
        crval1.times(radians_per_degree()).minus(crval1.times(radians_per_degree())) == d0(),
{
    product_is_finite(crval1, radians_per_degree());
    minus_itself(crval1.times(radians_per_degree()));
}

/// Whether sines and cosines are those of the reference point itself: of one declination, and of
/// no difference between the right ascensions.
pub open spec fn is_of_reference(t: SkyTrig) -> bool {
    &&& t.sin_dec == t.sin_dec0
    &&& t.cos_dec == t.cos_dec0
    &&& is_zero(t.sin_dra)
    &&& t.cos_dra == d1()
    &&& t.sin_dec.abs().le(d1())
    &&& t.cos_dec.abs().le(d1())
}

/// The reference point is seen at the reference pixel, whatever the matrix, if it has an inverse.
pub proof fn reference_point_is_at_the_reference_pixel(w: WcsNumbers, t: SkyTrig)
    requires
        are_finite(w),
        Wcs::det_spec(w).is_finite(),
        !Wcs::det_spec(w).abs().lt(Double { bits: 0x39b4_484b_feeb_c2a0 }),
        is_of_reference(t),
        d0().lt(Wcs::depth_spec(t)),
    ensures
        Wcs::project_spec(w, t) matches Some((x, y)) && x.same(w.crpix1) && y.same(w.crpix2),
{
    let depth = Wcs::depth_spec(t);
    let det = Wcs::det_spec(w);
    let (s, c) = (t.sin_dec0, t.cos_dec0);
    // No offset on the tangent plane.
    times_zero(t.sin_dra, c);
    zero_over(c.times(t.sin_dra), depth);
    let xi = c.times(t.sin_dra).over(depth).times(degrees_per_radian());
    times_zero(c.times(t.sin_dra).over(depth), degrees_per_radian());
    product_is_finite(c, s);
    times_commutes(c, s);
    times_one(s.times(c));
    minus_itself(c.times(s));
    let across = c.times(s).minus(s.times(c).times(t.cos_dra));
    assert(across == d0());
    zero_over(across, depth);
    let eta = across.over(depth).times(degrees_per_radian());
    times_zero(across.over(depth), degrees_per_radian());
    // None in pixels either.
    inverse_is_finite(det);
    let inv = d1().over(det);
    times_zero(xi, w.cd22);
    times_zero(eta, w.cd12);
    plus_zero(w.cd22.times(xi), w.cd12.times(eta));
    times_zero(w.cd22.times(xi).minus(w.cd12.times(eta)), inv);
    plus_zero(inv.times(w.cd22.times(xi).minus(w.cd12.times(eta))), w.crpix1);
    assert(w.cd21.negate().is_finite());
    times_zero(xi, w.cd21.negate());
    times_zero(eta, w.cd11);
    plus_zero(w.cd21.negate().times(xi), w.cd11.times(eta));
    times_zero(w.cd21.negate().times(xi).plus(w.cd11.times(eta)), inv);
    plus_zero(inv.times(w.cd21.negate().times(xi).plus(w.cd11.times(eta))), w.crpix2);
}

/// A sky position has no pixel where the matrix has no inverse, and where the position lies a
/// quarter of a turn or more from the reference point.
pub proof fn no_pixel_behind_the_plane(w: WcsNumbers, t: SkyTrig)
    requires
        Wcs::depth_spec(t).le(d0()) || is_zero(Wcs::det_spec(w)),
    ensures
        Wcs::project_spec(w, t) is None,
{
}

// ---------------------------------------------------------------------------
// The matrix of a header
// ---------------------------------------------------------------------------

/// The order of a sum does not matter.
proof fn plus_commutes(a: Double, b: Double)
    requires
        a.is_finite(),
        b.is_finite(),
    ensures
        a.plus(b) == b.plus(a),
{
    reveal(Double::plus_spec);
}

/// A number times one, in either order.
proof fn by_one(a: Double)
    requires
        a.is_finite(),
    ensures
        a.times(d1()) == a,
        d1().times(a) == a,
{
    times_one(a);
    times_commutes(a, d1());
}

/// Products of equal numbers with one number are equal.
proof fn same_times(a: Double, b: Double, c: Double)
    requires
        a.is_finite(),
        b.is_finite(),
        a.same(b),
        c.is_finite(),
        a.times(c).is_finite(),
    ensures
        a.times(c).same(b.times(c)),
{
    if a != b {
        assert(is_zero(a) && is_zero(b));
        times_zero(a, c);
        times_zero(b, c);
    }
}

/// A sum with zero, in either order.
proof fn with_nothing(a: Double, z: Double)
    requires
        a.is_finite(),
        is_zero(z),
    ensures
        a.plus(z).same(a),
        z.plus(a).same(a),
        a.plus(z).is_finite(),
        z.plus(a).is_finite(),
{
    plus_zero(z, a);
    plus_commutes(a, z);
}

/// Where a step of one pixel along an axis leads on the tangent plane, in degrees, if it leads to
/// `(xi, eta)`.
pub open spec fn leads_to(w: WcsNumbers, dx: Double, dy: Double, xi: Double, eta: Double) -> bool {
    forall|x: Double, y: Double|
        #![trigger Wcs::tangent_spec(w, x, y)]
        x.minus(w.crpix1) == dx && y.minus(w.crpix2) == dy ==> {
            let t = Wcs::tangent_spec(w, x, y);
            &&& t.xi.same(xi.times(radians_per_degree()))
            &&& t.eta.same(eta.times(radians_per_degree()))
        }
}

/// The columns of the matrix say where one pixel along each axis leads.
pub proof fn columns_are_steps(w: WcsNumbers)
    requires
        are_finite(w),
    ensures
        leads_to(w, d1(), d0(), w.cd11, w.cd21),
        leads_to(w, d0(), d1(), w.cd12, w.cd22),
{
    one_step(w.cd11, w.cd12);
    one_step(w.cd21, w.cd22);
}

proof fn one_step(a: Double, b: Double)
    requires
        a.is_finite(),
        b.is_finite(),
    ensures
        a.times(d1()).plus(b.times(d0())).times(radians_per_degree()).same(
            a.times(radians_per_degree()),
        ),
        a.times(d0()).plus(b.times(d1())).times(radians_per_degree()).same(
            b.times(radians_per_degree()),
        ),
{
    let r = radians_per_degree();
    by_one(a);
    by_one(b);
    times_zero(d0(), a);
    times_zero(d0(), b);
    with_nothing(a, b.times(d0()));
    with_nothing(b, a.times(d0()));
    shrinks(a);
    shrinks(b);
    shrinks(a.plus(b.times(d0())));
    shrinks(a.times(d0()).plus(b));
    same_times(a.plus(b.times(d0())), a, r);
    same_times(a.times(d0()).plus(b), b, r);
}

/// An angle in radians is no larger a number than in degrees.
proof fn shrinks(a: Double)
    requires
        a.is_finite(),
    ensures
        a.times(radians_per_degree()).is_finite(),
{
    reveal(Double::times_spec);
    let r = radians_per_degree();
    let m = a.raw().mag as nat;
    let (x, y, o) = (units(m, 53), units(r.raw().mag as nat, 53), pow2(1074));
    one_units();
    units_increase(r.raw().mag as nat, d1().raw().mag as nat, 53);
    assert(x * y <= x * o) by (nonlinear_arith)
        requires
            y <= o,
            x >= 0,
    ;
    lemma_pow2_pos(1074);
    round_at_most(x * y, o, m, 53);
    fine_of(product_spec(a.raw(), r.raw(), 53));
}

/// Whether a header gives its matrix by a scale for each axis alone: no matrix, no rotation.
pub open spec fn has_scales_only(h: Header) -> bool {
    &&& !has_cd(h)
    &&& h.number_spec("PC1_1"@) is None
    &&& h.number_spec("PC1_2"@) is None
    &&& h.number_spec("PC2_1"@) is None
    &&& h.number_spec("PC2_2"@) is None
    &&& h.number_spec("CROTA2"@) is None
}

/// Whether a matrix has the given scales, each on its own axis.
pub open spec fn has_scales(w: WcsNumbers, s1: Double, s2: Double) -> bool {
    &&& w.cd11.same(s1)
    &&& is_zero(w.cd12)
    &&& is_zero(w.cd21)
    &&& w.cd22.same(s2)
}

/// Without a matrix and a rotation, one pixel along the first axis moves by `CDELT1` degrees along
/// the first coordinate and not along the second, and one along the second by `CDELT2` along the
/// second and not along the first.
pub proof fn scales_belong_to_their_axes(h: Header, turn: (Double, Double))
    requires
        has_scales_only(h),
        wcs_spec(h, turn) is Some,
        h.number_or("CDELT1"@, d1()).is_finite(),
        h.number_or("CDELT2"@, d1()).is_finite(),
    ensures
        has_scales(
            wcs_spec(h, turn)->0,
            h.number_or("CDELT1"@, d1()),
            h.number_or("CDELT2"@, d1()),
        ),
{
    let (s1, s2) = (h.number_or("CDELT1"@, d1()), h.number_or("CDELT2"@, d1()));
    by_one(s1);
    by_one(s2);
    times_zero(d0(), s1);
    times_zero(d0(), s2);
}

/// A rotation by no angle is none: the matrix has the scales alone.
pub proof fn no_angle_is_no_rotation(h: Header)
    requires
        rotation_spec(h) is Some,
        wcs_spec(h, (d1(), d0())) is Some,
        h.number_or("CDELT1"@, d1()).is_finite(),
        h.number_or("CDELT2"@, d1()).is_finite(),
    ensures
        has_scales(
            wcs_spec(h, (d1(), d0()))->0,
            h.number_or("CDELT1"@, d1()),
            h.number_or("CDELT2"@, d1()),
        ),
{
    let (s1, s2) = (h.number_or("CDELT1"@, d1()), h.number_or("CDELT2"@, d1()));
    by_one(s1);
    by_one(s2);
    assert(s2.negate().is_finite());
    times_zero(d0(), s1);
    times_zero(d0(), s2.negate());
}

/// A quarter of a turn takes the first axis to the second coordinate, and the second axis to the
/// first one the other way.
pub proof fn a_quarter_turn_exchanges_the_axes(h: Header)
    requires
        rotation_spec(h) is Some,
        wcs_spec(h, (d0(), d1())) is Some,
        h.number_or("CDELT1"@, d1()).is_finite(),
        h.number_or("CDELT2"@, d1()).is_finite(),
    ensures
        ({
            let w = wcs_spec(h, (d0(), d1()))->0;
            &&& is_zero(w.cd11)
            &&& w.cd21 == h.number_or("CDELT1"@, d1())
            &&& w.cd12 == h.number_or("CDELT2"@, d1()).negate()
            &&& is_zero(w.cd22)
        }),
{
    let (s1, s2) = (h.number_or("CDELT1"@, d1()), h.number_or("CDELT2"@, d1()));
    by_one(s1);
    assert(s2.negate().is_finite());
    by_one(s2.negate());
    times_zero(d0(), s1);
    times_zero(d0(), s2);
}

/// A header that gives a rotation by its angle, and one that gives it by a matrix of the cosine and
/// the sine, have the same matrix where the scales of both axes are the same.
pub proof fn angle_and_rotation_matrix_agree(h: Header, g: Header, turn: (Double, Double))
    requires
        rotation_spec(h) is Some,
        wcs_spec(h, turn) is Some,
        !has_cd(g),
        rotation_spec(g) is None,
        wcs_spec(g, turn) is Some,
        g.number_spec("PC1_1"@) == Some(turn.0),
        g.number_spec("PC1_2"@) == Some(turn.1.negate()),
        g.number_spec("PC2_1"@) == Some(turn.1),
        g.number_spec("PC2_2"@) == Some(turn.0),
        h.number_or("CDELT1"@, d1()) == h.number_or("CDELT2"@, d1()),
        g.number_or("CDELT1"@, d1()) == h.number_or("CDELT1"@, d1()),
        g.number_or("CDELT2"@, d1()) == h.number_or("CDELT1"@, d1()),
        turn.0.is_finite(),
        turn.1.is_finite(),
        h.number_or("CDELT1"@, d1()).is_finite(),
    ensures
        ({
            let (v, w) = (wcs_spec(h, turn)->0, wcs_spec(g, turn)->0);
            &&& v.cd11 == w.cd11
            &&& v.cd12 == w.cd12
            &&& v.cd21 == w.cd21
            &&& v.cd22 == w.cd22
        }),
{
    let s = h.number_or("CDELT1"@, d1());
    times_commutes(s, turn.0);
    times_commutes(s, turn.1);
    reveal(Double::times_spec);
    let (x, y) = (units(s.raw().mag as nat, 53), units(turn.1.raw().mag as nat, 53));
    assert(x * y == y * x) by (nonlinear_arith);
    assert(s.negate().raw() == (Raw { neg: !s.raw().neg, mag: s.raw().mag }));
    assert(turn.1.negate().raw() == (Raw { neg: !turn.1.raw().neg, mag: turn.1.raw().mag }));
}

/// A rotation matrix scales by rows: the first row by `CDELT1`, the second by `CDELT2`.
pub proof fn rotation_matrices_scale_by_rows(h: Header, g: Header, turn: (Double, Double))
    requires
        !has_cd(h),
        !has_cd(g),
        rotation_spec(h) is None,
        rotation_spec(g) is None,
        wcs_spec(h, turn) is Some,
        wcs_spec(g, turn) is Some,
        h.number_or("CDELT1"@, d1()) == d1(),
        h.number_or("CDELT2"@, d1()) == d1(),
        g.number_or("PC1_1"@, d1()) == h.number_or("PC1_1"@, d1()),
        g.number_or("PC1_2"@, d0()) == h.number_or("PC1_2"@, d0()),
        g.number_or("PC2_1"@, d0()) == h.number_or("PC2_1"@, d0()),
        g.number_or("PC2_2"@, d1()) == h.number_or("PC2_2"@, d1()),
        h.number_or("PC1_1"@, d1()).is_finite(),
        h.number_or("PC1_2"@, d0()).is_finite(),
        h.number_or("PC2_1"@, d0()).is_finite(),
        h.number_or("PC2_2"@, d1()).is_finite(),
    ensures
        ({
            let (v, w) = (wcs_spec(h, turn)->0, wcs_spec(g, turn)->0);
            let (s1, s2) = (g.number_or("CDELT1"@, d1()), g.number_or("CDELT2"@, d1()));
            &&& v.cd11 == h.number_or("PC1_1"@, d1())
            &&& v.cd12 == h.number_or("PC1_2"@, d0())
            &&& v.cd21 == h.number_or("PC2_1"@, d0())
            &&& v.cd22 == h.number_or("PC2_2"@, d1())
            &&& w.cd11 == s1.times(v.cd11)
            &&& w.cd12 == s1.times(v.cd12)
            &&& w.cd21 == s2.times(v.cd21)
            &&& w.cd22 == s2.times(v.cd22)
        }),
{
    let (a, b, c, d) = (
        h.number_or("PC1_1"@, d1()),
        h.number_or("PC1_2"@, d0()),
        h.number_or("PC2_1"@, d0()),
        h.number_or("PC2_2"@, d1()),
    );
    let (s1, s2) = (g.number_or("CDELT1"@, d1()), g.number_or("CDELT2"@, d1()));
    by_one(a);
    by_one(b);
    by_one(c);
    by_one(d);
    times_commutes(a, s1);
    times_commutes(b, s1);
    times_commutes(c, s2);
    times_commutes(d, s2);
}

/// A header with the full matrix has that matrix, whatever scales and rotation it gives besides: one
/// pixel along the first axis leads to the first column.
pub proof fn a_full_matrix_is_kept(h: Header, turn: (Double, Double))
    requires
        has_cd(h),
        wcs_spec(h, turn) is Some,
        are_finite(wcs_spec(h, turn)->0),
    ensures
        ({
            let w = wcs_spec(h, turn)->0;
            &&& leads_to(
                w,
                d1(),
                d0(),
                h.number_spec("CD1_1"@)->0,
                h.number_spec("CD2_1"@)->0,
            )
            &&& leads_to(
                w,
                d0(),
                d1(),
                h.number_spec("CD1_2"@)->0,
                h.number_spec("CD2_2"@)->0,
            )
        }),
{
    columns_are_steps(wcs_spec(h, turn)->0);
}

} // verus!
