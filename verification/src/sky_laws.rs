//! Angles of the sky, measured against exact arithmetic.

use crate::exact::{
    fine_is, fine_minus_within, fine_over_within, fine_plus_within, fine_times_within, fine_worth,
    one, parts, size_by_bits, spot,
};
use crate::fits::{d1, degrees_per_radian, radians_per_degree};
use crate::num::Double;
use crate::sky::{angle_spec, from_pole_spec, parts_value, sexagesimal_value, GalacticTrig};
use crate::text::trim_spec;
use crate::wcs_laws::{is_zero, plus_zero, times_commutes, times_one, times_zero};
use vstd::arithmetic::power2::*;
use vstd::prelude::*;

verus! {

/// How the units compare.
proof fn scale()
    ensures
        one(53) > 0,
        spot(20, 53) > 0,
        one(53) == 0x2_0000_0000 * spot(20, 53),
        pow2((20int) as nat) == 0x10_0000,
        parts(53) == 0x20_0000_0000_0000,
{
    lemma2_to64();
    lemma2_to64_rest();
    lemma_pow2_pos(1041);
    lemma_pow2_adds(33, 1041);
    lemma_pow2_pos(1074);
}

proof fn sixties()
    ensures
        fine_is(Double { bits: 0x404e_0000_0000_0000 }, 60),
        fine_is(Double { bits: 0x40ac_2000_0000_0000 }, 3600),
{
    lemma2_to64();
    lemma2_to64_rest();
    size_by_bits(0x404e_0000_0000_0000, 1028, 0xe_0000_0000_0000, 53);
    size_by_bits(0x40ac_2000_0000_0000, 1034, 0xc_2000_0000_0000, 53);
    lemma_pow2_adds(47, 1027);
    lemma_pow2_adds(41, 1033);
    let (a, b) = (pow2(1027) as int, pow2(1033) as int);
    assert(0x1e_0000_0000_0000 * a == 60 * (0x8000_0000_0000 * a)) by (nonlinear_arith);
    assert(0x1c_2000_0000_0000 * b == 3600 * (0x200_0000_0000 * b)) by (nonlinear_arith);
}

// ---------------------------------------------------------------------------
// Sexagesimal text
// ---------------------------------------------------------------------------

/// A share of a bounded number.
proof fn share_of(x: Double, c: Double, k: int)
    requires
        x.is_finite(),
        c.is_finite(),
        0 <= fine_worth(x) <= 0x10_0000 * one(53),
        fine_worth(c) == k * one(53),
        1 <= k <= 3600,
    ensures
        x.over(c).is_finite(),
        -k * spot(20, 53) <= k * fine_worth(x.over(c)) - fine_worth(x) <= k * spot(20, 53),
{
    scale();
    let (o, s) = (one(53), spot(20, 53));
    let a = fine_worth(x);
    let ko = k * o;
    assert(ko >= o) by (nonlinear_arith)
        requires
            ko == k * o,
            k >= 1,
            o > 0,
    ;
    let p = pow2((20int) as nat) as int;
    assert(p * ko >= 0x10_0000 * o) by (nonlinear_arith)
        requires
            p == 0x10_0000,
            ko >= o,
    ;
    fine_over_within(x, c, 20);
    let v = fine_worth(x.over(c));
    let d = k * v - a;
    assert(v * ko - a * o == d * o && ko * s == (k * s) * o && (-k) * s == -(k * s))
        by (nonlinear_arith)
        requires
            d == k * v - a,
            ko == k * o,
    ;
    assert(-(k * s) <= d <= k * s) by (nonlinear_arith)
        requires
            -((k * s) * o) <= d * o <= (k * s) * o,
            o > 0,
    ;
}

/// The parts of a sexagesimal number are whole parts, their sixtieths and the sixtieths of these: an
/// hour, or a degree, has sixty minutes and a minute sixty seconds.
pub proof fn parts_are_sixtieths(a: Double, b: Double, c: Double)
    requires
        a.is_finite(),
        b.is_finite(),
        c.is_finite(),
        0 <= fine_worth(a) <= 0x8_0000 * one(53),
        0 <= fine_worth(b) <= 0x8_0000 * one(53),
        0 <= fine_worth(c) <= 0x8_0000 * one(53),
    ensures
        ({
            let two = parts_value(seq![Some(a), Some(b)]);
            let three = parts_value(seq![Some(a), Some(b), Some(c)]);
            let e = 20_000 * spot(20, 53);
            &&& two matches Some(v) && v.is_finite() && -e <= 60 * fine_worth(v) - (60 * fine_worth(a)
                + fine_worth(b)) <= e
            &&& three matches Some(v) && v.is_finite() && -e <= 3600 * fine_worth(v) - (3600
                * fine_worth(a) + 60 * fine_worth(b) + fine_worth(c)) <= e
            // The error is below a hundred-thousandth of a second.
            &&& 100_000 * e < one(53)
        }),
{
    scale();
    sixties();
    let (o, s) = (one(53), spot(20, 53));
    let (sixty, hour) = (
        Double { bits: 0x404e_0000_0000_0000 },
        Double { bits: 0x40ac_2000_0000_0000 },
    );
    share_of(b, sixty, 60);
    share_of(c, hour, 3600);
    let (p, q) = (b.over(sixty), c.over(hour));
    assert(pow2((20int) as nat) * o == 0x10_0000 * o) by (nonlinear_arith)
        requires
            pow2((20int) as nat) == 0x10_0000,
    ;
    fine_plus_within(a, p, 20);
    fine_plus_within(a.plus(p), q, 20);
}

/// A minus sign before a sexagesimal number holds for all of it.
pub proof fn a_sign_holds_for_all_parts(t: Seq<char>)
    requires
        t.len() > 0,
        t[0] != '-',
        t[0] != '+',
    ensures
        sexagesimal_value(seq!['-'] + t) == match sexagesimal_value(t) {
            Some(x) => Some(x.negate()),
            None => None,
        },
        sexagesimal_value(seq!['+'] + t) == sexagesimal_value(t),
{
    assert((seq!['-'] + t).drop_first() =~= t);
    assert((seq!['+'] + t).drop_first() =~= t);
}

/// A longitude in hours is fifteen times as many degrees.
pub proof fn an_hour_is_fifteen_degrees(s: Seq<char>, x: int)
    requires
        trim_spec(s).contains(':'),
        angle_spec(s, false) matches Some(d) && fine_is(d, x),
        -0x1_0000_0000 <= x <= 0x1_0000_0000,
    ensures
        angle_spec(s, true) matches Some(d) && fine_is(d, 15 * x),
{
    lemma2_to64();
    lemma2_to64_rest();
    let c = Double { bits: 0x402e_0000_0000_0000 };
    size_by_bits(0x402e_0000_0000_0000, 1026, 0xe_0000_0000_0000, 53);
    lemma_pow2_adds(49, 1025);
    let a = pow2(1025) as int;
    assert(0x1e_0000_0000_0000 * a == 15 * (0x2_0000_0000_0000 * a)) by (nonlinear_arith);
    assert(fine_is(c, 15));
    let d = angle_spec(s, false)->0;
    crate::exact::fine_whole_times(d, c, x, 15);
}

// ---------------------------------------------------------------------------
// Galactic coordinates
// ---------------------------------------------------------------------------

/// The galactic pole has the pole's own declination, whatever the longitude there.
pub proof fn the_galactic_pole_is_at_its_declination(t: GalacticTrig)
    requires
        t.sin_b == d1(),
        is_zero(t.cos_b),
        t.sin_pole.is_finite(),
        t.cos_pole.is_finite(),
        t.cos_from.is_finite(),
    ensures
        t.sin_dec_spec().same(t.sin_pole),
{
    times_one(t.sin_pole);
    times_commutes(t.sin_pole, d1());
    times_zero(t.cos_b, t.cos_pole);
    times_zero(t.cos_b.times(t.cos_pole), t.cos_from);
    turned_sum(t.sin_pole, t.cos_b.times(t.cos_pole).times(t.cos_from));
}

/// On the galactic equator the declination follows the angle from the pole alone.
pub proof fn the_galactic_equator_follows_the_pole(t: GalacticTrig)
    requires
        is_zero(t.sin_b),
        t.cos_b == d1(),
        t.cos_from == d1(),
        t.sin_pole.is_finite(),
        t.cos_pole.is_finite(),
    ensures
        t.sin_dec_spec().same(t.cos_pole),
{
    times_zero(t.sin_b, t.sin_pole);
    times_one(t.cos_pole);
    times_commutes(t.cos_pole, d1());
    plus_zero(t.sin_b.times(t.sin_pole), t.cos_pole);
}

/// If both poles were one, latitudes would be declinations.
pub proof fn with_one_pole_latitudes_are_declinations(t: GalacticTrig)
    requires
        t.sin_pole == d1(),
        is_zero(t.cos_pole),
        t.sin_b.is_finite(),
        t.cos_b.is_finite(),
        t.cos_from.is_finite(),
    ensures
        t.sin_dec_spec().same(t.sin_b),
{
    times_one(t.sin_b);
    times_zero(t.cos_pole, t.cos_b);
    times_zero(t.cos_b.times(t.cos_pole), t.cos_from);
    turned_sum(t.sin_b, t.cos_b.times(t.cos_pole).times(t.cos_from));
}

/// A sum with zero behind it.
proof fn turned_sum(a: Double, z: Double)
    requires
        a.is_finite(),
        is_zero(z),
    ensures
        a.plus(z).same(a),
{
    plus_zero(z, a);
    reveal(Double::plus_spec);
}

/// The angle from the pole falls by as much as the longitude grows: it is what the longitude lacks
/// to that of the celestial pole, 122.932 degrees, in radians.
pub proof fn longitudes_count_back_from_the_pole(l: Double)
    requires
        l.is_finite(),
        -512 * one(53) <= fine_worth(l) <= 512 * one(53),
    ensures
        ({
            let pole = Double { bits: 0x405e_bba5_e353_f7cf };
            let r = fine_worth(radians_per_degree());
            let f = from_pole_spec(l);
            let (o, e) = (one(53), 3 * spot(20, 53));
            &&& f.is_finite()
            &&& -(o * e) <= fine_worth(f) * o - (fine_worth(pole) - fine_worth(l)) * r <= o * e
            &&& -o <= 1_000_000_000 * (1000 * fine_worth(pole) - 122_932 * o) <= o
        }),
{
    scale();
    constants_of_the_pole();
    let (o, s) = (one(53), spot(20, 53));
    let pole = Double { bits: 0x405e_bba5_e353_f7cf };
    let rad = radians_per_degree();
    let (p, v, r) = (fine_worth(pole), fine_worth(l), fine_worth(rad));
    let t = pow2((20int) as nat) as int;
    assert(t * o * o == 0x10_0000 * (o * o) && t * o == 0x10_0000 * o) by (nonlinear_arith)
        requires
            t == 0x10_0000,
    ;
    let (a, b) = (p * r, v * r);
    assert(-(512 * (o * o)) <= a <= 512 * (o * o) && -(512 * (o * o)) <= b <= 512 * (o * o))
        by (nonlinear_arith)
        requires
            a == p * r,
            b == v * r,
            0 <= r <= o,
            0 <= p <= 512 * o,
            -512 * o <= v <= 512 * o,
            o > 0,
    ;
    assert(o * o >= 0) by (nonlinear_arith);
    fine_times_within(pole, rad, 20);
    fine_times_within(l, rad, 20);
    let (x, y) = (pole.times(rad), l.times(rad));
    let (fx, fy) = (fine_worth(x), fine_worth(y));
    assert(-1024 * o <= fx <= 1024 * o && -1024 * o <= fy <= 1024 * o) by (nonlinear_arith)
        requires
            -(o * s) <= fx * o - a <= o * s,
            -(o * s) <= fy * o - b <= o * s,
            -(512 * (o * o)) <= a <= 512 * (o * o),
            -(512 * (o * o)) <= b <= 512 * (o * o),
            o == 0x2_0000_0000 * s,
            s > 0,
    ;
    fine_minus_within(x, y, 20);
    let f = fine_worth(x.minus(y));
    let g = f - (fx - fy);
    assert(f * o - (p - v) * r == g * o + (fx * o - a) - (fy * o - b)) by (nonlinear_arith)
        requires
            g == f - (fx - fy),
            a == p * r,
            b == v * r,
    ;
    assert(-(o * s) <= g * o <= o * s) by (nonlinear_arith)
        requires
            -s <= g <= s,
            o > 0,
    ;
    assert(o * (3 * s) == 3 * (o * s)) by (nonlinear_arith);
}

proof fn constants_of_the_pole()
    ensures
        ({
            let (p, r, o) = (
                fine_worth(Double { bits: 0x405e_bba5_e353_f7cf }),
                fine_worth(radians_per_degree()),
                one(53),
            );
            &&& 0 <= p <= 512 * o
            &&& 0 <= r <= o
            &&& -o <= 1_000_000_000 * (1000 * p - 122_932 * o) <= o
        }),
{
    lemma2_to64();
    lemma2_to64_rest();
    lemma_pow2_pos(1028);
    lemma_pow2_pos(1016);
    size_by_bits(0x405e_bba5_e353_f7cf, 1029, 0xe_bba5_e353_f7cf, 53);
    size_by_bits(0x3f91_df46_a252_9d39, 1017, 0x1_df46_a252_9d39, 53);
    lemma_pow2_adds(46, 1028);
    lemma_pow2_adds(58, 1016);
    let (a, b) = (pow2(1028) as int, pow2(1016) as int);
    let (p, r, o) = (0x1e_bba5_e353_f7cf * a, 0x11_df46_a252_9d39 * b, one(53));
    assert(o == 0x4000_0000_0000 * a && o == 0x400_0000_0000_0000 * b);
    assert(0 <= p <= 512 * o && -o <= 1_000_000_000 * (1000 * p - 122_932 * o) <= o)
        by (nonlinear_arith)
        requires
            p == 0x1e_bba5_e353_f7cf * a,
            o == 0x4000_0000_0000 * a,
            a > 0,
    ;
    assert(0 <= r <= o) by (nonlinear_arith)
        requires
            r == 0x11_df46_a252_9d39 * b,
            o == 0x400_0000_0000_0000 * b,
            b > 0,
    ;
}

/// Half a turn is 180 degrees, and as many radians as a half circle has radii: 3.14159265358979.
/// Degrees and radians undo each other.
pub proof fn half_a_turn_is_pi()
    ensures
        ({
            let (r, d, o) = (
                fine_worth(radians_per_degree()),
                fine_worth(degrees_per_radian()),
                one(53),
            );
            &&& -o <= 18_000_000_000_000_000 * r - 314_159_265_358_979 * o <= o
            &&& -(o * o) <= 1_000_000_000_000_000 * (r * d - o * o) <= o * o
        }),
{
    lemma2_to64();
    lemma2_to64_rest();
    lemma_pow2_pos(1016);
    lemma_pow2_pos(1027);
    size_by_bits(0x3f91_df46_a252_9d39, 1017, 0x1_df46_a252_9d39, 53);
    size_by_bits(0x404c_a5dc_1a63_c1f8, 1028, 0xc_a5dc_1a63_c1f8, 53);
    lemma_pow2_adds(58, 1016);
    lemma_pow2_adds(47, 1027);
    let (a, b) = (pow2(1016) as int, pow2(1027) as int);
    let (r, d, o) = (0x11_df46_a252_9d39 * a, 0x1c_a5dc_1a63_c1f8 * b, one(53));
    assert(o == 0x400_0000_0000_0000 * a && o == 0x8000_0000_0000 * b);
    assert(-o <= 18_000_000_000_000_000 * r - 314_159_265_358_979 * o <= o) by (nonlinear_arith)
        requires
            r == 0x11_df46_a252_9d39 * a,
            o == 0x400_0000_0000_0000 * a,
            a > 0,
    ;
    let ab = a * b;
    assert(ab > 0) by (nonlinear_arith)
        requires
            ab == a * b,
            a > 0,
            b > 0,
    ;
    assert(r * d == 0x11_df46_a252_9d39 * 0x1c_a5dc_1a63_c1f8 * ab && o * o == 0x400_0000_0000_0000
        * 0x8000_0000_0000 * ab) by (nonlinear_arith)
        requires
            r == 0x11_df46_a252_9d39 * a,
            d == 0x1c_a5dc_1a63_c1f8 * b,
            o == 0x400_0000_0000_0000 * a,
            o == 0x8000_0000_0000 * b,
            ab == a * b,
    ;
    assert(-(o * o) <= 1_000_000_000_000_000 * (r * d - o * o) <= o * o) by (nonlinear_arith)
        requires
            r * d == 0x11_df46_a252_9d39 * 0x1c_a5dc_1a63_c1f8 * ab,
            o * o == 0x400_0000_0000_0000 * 0x8000_0000_0000 * ab,
            ab > 0,
    ;
}

} // verus!
