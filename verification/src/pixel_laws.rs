//! How stored numbers become pixels, and how angles and edges are counted.

use crate::arith::Whole;
use crate::edits::sample_region;
use crate::exact::{
    coarse_is, coarse_whole_int, coarse_whole_plus, coarse_whole_times, fine_is, fine_whole_cut,
    fine_whole_int, fine_whole_minus, fine_whole_modulo, fine_whole_order, fine_whole_over,
    fine_whole_plus, fine_whole_root, fine_whole_times, one, parts, size_by_bits,
};
use crate::fits::{full_turn, wrapped_spec, Stored};
use crate::hdu::{plane_value, tile_value, Scaling};
use crate::marker::ShapeView;
use crate::num::{Double, Single};
use crate::overlay::{direction_spec, edge_point, unwrapped};
use crate::rounding::units;
use vstd::arithmetic::div_mod::*;
use vstd::arithmetic::power2::*;
use vstd::prelude::*;

verus! {

proof fn numbers()
    ensures
        fine_is(Double { bits: 0 }, 0),
        fine_is(Double { bits: 0x3ff0_0000_0000_0000 }, 1),
        fine_is(Double { bits: 0x4000_0000_0000_0000 }, 2),
        fine_is(Double { bits: 0x4030_0000_0000_0000 }, 16),
        fine_is(Double { bits: 0x4066_8000_0000_0000 }, 180),
        fine_is(Double { bits: 0x4076_8000_0000_0000 }, 360),
        parts(53) == 0x20_0000_0000_0000,
        parts(24) == 0x100_0000,
{
    lemma2_to64();
    lemma2_to64_rest();
    lemma_pow2_pos(1074);
    assert(units(0, 53) == 0);
    assert(0 * one(53) == 0) by (nonlinear_arith);
    size_by_bits(0x3ff0_0000_0000_0000, 1023, 0, 53);
    size_by_bits(0x4030_0000_0000_0000, 1027, 0, 53);
    size_by_bits(0x4066_8000_0000_0000, 1030, 0x6_8000_0000_0000, 53);
    size_by_bits(0x4076_8000_0000_0000, 1031, 0x6_8000_0000_0000, 53);
    size_by_bits(0x4000_0000_0000_0000, 1024, 0, 53);
    lemma_pow2_adds(52, 1022);
    lemma_pow2_adds(52, 1023);
    lemma_pow2_unfold(1075);
    lemma_pow2_adds(48, 1026);
    lemma_pow2_adds(45, 1029);
    lemma_pow2_adds(44, 1030);
    let a = pow2(1026) as int;
    let b = pow2(1029) as int;
    let c = pow2(1030) as int;
    assert(0x10_0000_0000_0000 * a == 16 * (0x1_0000_0000_0000 * a)) by (nonlinear_arith);
    assert(0x16_8000_0000_0000 * b == 180 * (0x2000_0000_0000 * b)) by (nonlinear_arith);
    assert(0x16_8000_0000_0000 * c == 360 * (0x1000_0000_0000 * c)) by (nonlinear_arith);
}

// ---------------------------------------------------------------------------
// Stored numbers
// ---------------------------------------------------------------------------

/// Whether the integer `n` is stored at the place `i`.
pub open spec fn stores(stored: Stored, i: int, n: int) -> bool {
    match stored {
        Stored::U8(v) => v@[i] == n,
        Stored::I16(v) => v@[i] == n,
        Stored::I32(v) => v@[i] == n,
        Stored::I64(v) => v@[i] == n,
        _ => false,
    }
}

/// A stored integer stands for its multiple of the scale, from the zero point, in planes and in
/// tiles alike; the integer that stands for a blank is missing, and no other is.
pub proof fn stored_integers_are_steps_from_the_zero_point(
    stored: Stored,
    i: int,
    s: Scaling,
    n: int,
    scale: int,
    zero: int,
    blank: int,
)
    requires
        stores(stored, i, n),
        coarse_is(s.scale, scale),
        coarse_is(s.zero, zero),
        s.blank matches Some(b) ==> fine_is(b, blank),
        i64::MIN <= blank <= i64::MAX,
        -0x100_0000 <= n <= 0x100_0000,
        -0x100_0000 <= n * scale <= 0x100_0000,
        -0x100_0000 <= n * scale + zero <= 0x100_0000,
    ensures
        s.blank is None || n != blank ==> coarse_is(
            plane_value(stored, i, s),
            n * scale + zero,
        ) && coarse_is(tile_value(stored, i, s), n * scale + zero),
        s.blank is Some && n == blank ==> plane_value(stored, i, s).is_nan(),
        s.blank is Some && n == blank && !(stored is U8) ==> tile_value(stored, i, s).is_nan(),
{
    numbers();
    coarse_whole_int(n);
    let x = Single::from_int_spec(n);
    coarse_whole_times(x, s.scale, n, scale);
    coarse_whole_plus(x.times(s.scale), s.zero, n * scale, zero);
    if let Some(b) = s.blank {
        fine_whole_cut(b, blank, Whole::Trunc, i64::MIN as int, i64::MAX as int);
    }
}

/// A stored number that is no integer is scaled in a plane, and kept in a tile.
pub proof fn stored_floats_are_scaled_in_planes(
    v: Vec<Single>,
    i: int,
    s: Scaling,
    n: int,
    scale: int,
    zero: int,
)
    requires
        coarse_is(v@[i], n),
        coarse_is(s.scale, scale),
        coarse_is(s.zero, zero),
        -0x100_0000 <= n * scale <= 0x100_0000,
        -0x100_0000 <= n * scale + zero <= 0x100_0000,
    ensures
        coarse_is(plane_value(Stored::F32(v), i, s), n * scale + zero),
        coarse_is(tile_value(Stored::F32(v), i, s), n),
{
    numbers();
    let x = v@[i];
    coarse_whole_times(x, s.scale, n, scale);
    coarse_whole_plus(x.times(s.scale), s.zero, n * scale, zero);
    if crate::hdu::is_plain(s) {
        plain_is_one_and_nothing(s, scale, zero);
        assert(n * scale + zero == n) by (nonlinear_arith)
            requires
                scale == 1,
                zero == 0,
        ;
    }
}

proof fn plain_is_one_and_nothing(s: Scaling, scale: int, zero: int)
    requires
        crate::hdu::is_plain(s),
        coarse_is(s.scale, scale),
        coarse_is(s.zero, zero),
    ensures
        scale == 1,
        zero == 0,
{
    lemma2_to64();
    lemma_pow2_pos(149);
    assert(units(0, 24) == 0);
    size_by_bits(0x3f80_0000, 127, 0, 24);
    lemma_pow2_adds(23, 126);
    let o = one(24);
    assert(scale == 1) by (nonlinear_arith)
        requires
            scale * o == o,
            o > 0,
    ;
    assert(zero == 0) by (nonlinear_arith)
        requires
            zero * o == 0,
            o > 0,
    ;
}

// ---------------------------------------------------------------------------
// Turns
// ---------------------------------------------------------------------------

/// An angle is brought within a turn by whole turns.
pub proof fn angles_are_kept_within_a_turn(x: Double, k: int)
    requires
        fine_is(x, k),
    ensures
        exists|v: int|
            #![auto]
            fine_is(wrapped_spec(x, full_turn()), v) && 0 <= v < 360 && (k - v) % 360 == 0,
{
    numbers();
    let m = full_turn();
    fine_whole_modulo(x, m, k, 360);
    let r = x.modulo(m);
    let c = if k < 0 {
        -((-k) % 360)
    } else {
        k % 360
    };
    fine_whole_order(r, Double { bits: 0 }, c, 0);
    let v = if c < 0 {
        c + 360
    } else {
        c
    };
    if c < 0 {
        assert(m.abs() == m);
        fine_whole_plus(r, m, c, 360);
    }
    assert(fine_is(wrapped_spec(x, m), v) && 0 <= v < 360 && (k - v) % 360 == 0);
}

/// Right ascensions on either side of zero are brought together by whole turns: all lie between
/// half a turn and one and a half.
pub proof fn sides_of_zero_are_brought_together(ras: Seq<Double>, i: int, k: int)
    requires
        0 <= i < ras.len(),
        fine_is(ras[i], k),
        0 <= k < 360,
    ensures
        exists|v: int|
            #![auto]
            fine_is(unwrapped(ras)[i], v) && 180 <= v < 540 && (v - k) % 360 == 0,
{
    numbers();
    let half = Double { bits: 0x4066_8000_0000_0000 };
    let turn = Double { bits: 0x4076_8000_0000_0000 };
    fine_whole_order(ras[i], half, k, 180);
    fine_whole_plus(ras[i], turn, k, 360);
    let v = if k < 180 {
        k + 360
    } else {
        k
    };
    assert(fine_is(unwrapped(ras)[i], v) && 180 <= v < 540 && (v - k) % 360 == 0);
}

// ---------------------------------------------------------------------------
// Edges
// ---------------------------------------------------------------------------

/// Whether a point has the given whole numbers as its coordinates.
pub open spec fn is_at(p: (Double, Double), x: int, y: int) -> bool {
    fine_is(p.0, x) && fine_is(p.1, y)
}

/// The points on the edges start at the lower left and end at the upper right corners, with all
/// four corners among them.
#[verifier::spinoff_prover]
pub proof fn edges_go_from_corner_to_corner(w: int, h: int)
    requires
        1 <= w <= 0x1_0000_0000,
        1 <= h <= 0x1_0000_0000,
    ensures
        is_at(edge_point(w, h, 0), 1, 1),
        is_at(edge_point(w, h, 1), 1, h),
        is_at(edge_point(w, h, 2), 1, 1),
        is_at(edge_point(w, h, 3), w, 1),
        is_at(edge_point(w, h, 64), w, 1),
        is_at(edge_point(w, h, 65), w, h),
        is_at(edge_point(w, h, 66), 1, h),
        is_at(edge_point(w, h, 67), w, h),
{
    numbers();
    side_ends(w);
    side_ends(h);
}

/// The first and the last of the distances along a side.
#[verifier::spinoff_prover]
proof fn side_ends(size: int)
    requires
        1 <= size <= 0x1_0000_0000,
    ensures
        ({
            let sixteen = Double { bits: 0x4030_0000_0000_0000 };
            let first = Double { bits: 0x3ff0_0000_0000_0000 };
            let full = Double::from_int_spec(size);
            let start = Double::from_int_spec(0).over(sixteen);
            let end = Double::from_int_spec(16).over(sixteen);
            &&& fine_is(full, size)
            &&& fine_is(first.plus(start.times(full.minus(first))), 1)
            &&& fine_is(first.plus(end.times(full.minus(first))), size)
        }),
{
    numbers();
    let sixteen = Double { bits: 0x4030_0000_0000_0000 };
    let first = Double { bits: 0x3ff0_0000_0000_0000 };
    let full = Double::from_int_spec(size);
    let start = Double::from_int_spec(0).over(sixteen);
    let end = Double::from_int_spec(16).over(sixteen);
    fine_whole_int(size);
    fine_whole_int(0);
    fine_whole_int(16);
    fine_whole_minus(full, first, size, 1);
    fine_whole_over(Double::from_int_spec(0), sixteen, 0, 16);
    fine_whole_over(Double::from_int_spec(16), sixteen, 1, 16);
    assert(0 * (size - 1) == 0 && 1 * (size - 1) == size - 1);
    fine_whole_times(start, full.minus(first), 0, size - 1);
    fine_whole_times(end, full.minus(first), 1, size - 1);
    fine_whole_plus(first, start.times(full.minus(first)), 1, 0);
    fine_whole_plus(first, end.times(full.minus(first)), 1, size - 1);
}

/// The region to start with is a circle around the middle of the image.
pub proof fn sample_regions_are_in_the_middle(w: usize, h: usize, a: int, b: int)
    requires
        w == 2 * a,
        h == 2 * b,
        a <= 0x1000_0000_0000,
        b <= 0x1000_0000_0000,
    ensures
        sample_region(w, h) matches ShapeView::Circle { center, .. } && is_at(
            (center.x, center.y),
            a,
            b,
        ),
{
    numbers();
    let two = Double { bits: 0x4000_0000_0000_0000 };
    fine_whole_int(w as int);
    fine_whole_int(h as int);
    assert(a * 2 == w && b * 2 == h);
    fine_whole_over(Double::from_int_spec(w as int), two, a, 2);
    fine_whole_over(Double::from_int_spec(h as int), two, b, 2);
}

/// The direction along a row or a column is one pixel that way, however far the end is.
pub proof fn directions_are_one_pixel_long(a: (int, int), k: int)
    requires
        0 < k <= 0x100_0000,
    ensures
        is_at(direction_spec(a, (a.0 + k, a.1)), 1, 0),
        is_at(direction_spec(a, (a.0 - k, a.1)), -1, 0),
        is_at(direction_spec(a, (a.0, a.1 + k)), 0, 1),
        is_at(direction_spec(a, (a.0, a.1 - k)), 0, -1),
        is_at(direction_spec(a, a), 0, 0),
{
    numbers();
    straight(k, k);
    straight(-k, k);
    straight(0, 0);
}

#[verifier::spinoff_prover]
proof fn straight(d: int, k: int)
    requires
        0 <= k <= 0x100_0000,
        d == k || d == -k,
    ensures
        ({
            let x = Double::from_int_spec(d);
            let y = Double::from_int_spec(0);
            let first = Double { bits: 0x3ff0_0000_0000_0000 };
            let s = if d > 0 {
                1int
            } else if d < 0 {
                -1int
            } else {
                0int
            };
            &&& fine_is(x.over(x.times(x).plus(y.times(y)).sqrt().max(first)), s)
            &&& fine_is(y.over(x.times(x).plus(y.times(y)).sqrt().max(first)), 0)
            &&& fine_is(x.over(y.times(y).plus(x.times(x)).sqrt().max(first)), s)
            &&& fine_is(y.over(y.times(y).plus(x.times(x)).sqrt().max(first)), 0)
        }),
{
    numbers();
    let x = Double::from_int_spec(d);
    let y = Double::from_int_spec(0);
    let first = Double { bits: 0x3ff0_0000_0000_0000 };
    fine_whole_int(d);
    fine_whole_int(0);
    let q = k * k;
    assert(0 <= q <= 0x1_0000_0000_0000 && d * d == q) by (nonlinear_arith)
        requires
            q == k * k,
            0 <= k <= 0x100_0000,
            d == k || d == -k,
    ;
    assert(0int * 0int == 0);
    fine_whole_times(x, x, d, d);
    fine_whole_times(y, y, 0, 0);
    let (xx, yy) = (x.times(x), y.times(y));
    fine_whole_plus(xx, yy, q, 0);
    fine_whole_plus(yy, xx, 0, q);
    fine_whole_root(xx.plus(yy), k);
    fine_whole_root(yy.plus(xx), k);
    let (r, t) = (xx.plus(yy).sqrt(), yy.plus(xx).sqrt());
    fine_whole_order(r, first, k, 1);
    fine_whole_order(first, r, 1, k);
    fine_whole_order(t, first, k, 1);
    fine_whole_order(first, t, 1, k);
    let n = if k == 0 {
        1
    } else {
        k
    };
    let s = if d > 0 {
        1int
    } else if d < 0 {
        -1int
    } else {
        0int
    };
    assert(fine_is(r.max(first), n) && fine_is(t.max(first), n));
    assert(s * n == d && 0 * n == 0) by (nonlinear_arith)
        requires
            s == 1 && n == d || s == -1 && n == -d || s == 0 && d == 0,
    ;
    fine_whole_over(x, r.max(first), s, n);
    fine_whole_over(y, r.max(first), 0, n);
    fine_whole_over(x, t.max(first), s, n);
    fine_whole_over(y, t.max(first), 0, n);
}

} // verus!
