//! Where things are: on the display, near a point, inside a region.

use crate::color::Orientation;
use crate::exact::{
    abs, alike, alike_cancel, alike_chain, alike_nothing, alike_product, alike_sum, alike_times,
    coarse_is, coarse_whole_int, coarse_whole_minus, coarse_whole_widen, fine, fine_is, fine_order,
    fine_over, fine_plus, fine_times, fine_whole_cut, fine_whole_int, fine_whole_minus,
    fine_whole_narrow, fine_whole_plus, in_range, nothing_is_ample, one, parts, powers_grow,
    range_ample, range_product, range_quotient, size_by_bits,
};
use crate::fits::WcsNumbers;
use crate::frame::Frame;
use crate::marker::{PixelPos, Shape, ShapeView};
use crate::measure_laws::{is_plain_offset, offset, squared_offset};
use crate::mosaic::{composite_spec, moved_wcs, Bounds};
use crate::num::{Double, Single};
use crate::pointer::{pixel_of, shown_value};
use crate::show::{
    display_to_fits_spec, distance2, frame_place, inside_spec, moved, moved_shape, nearest_spec,
};
use vstd::arithmetic::power2::*;
use vstd::prelude::*;

verus! {

/// One, two and sixteen.
proof fn small_numbers()
    ensures
        fine_is(Double { bits: 0x3ff0_0000_0000_0000 }, 1),
        fine_is(Double { bits: 0x4000_0000_0000_0000 }, 2),
        fine_is(Double { bits: 0x4030_0000_0000_0000 }, 16),
        one(53) > 0,
        in_range(one(53), 1074, 1074),
        parts(24) == 0x100_0000,
        parts(53) == 0x20_0000_0000_0000,
{
    lemma2_to64();
    lemma2_to64_rest();
    lemma_pow2_pos(1074);
    size_by_bits(0x3ff0_0000_0000_0000, 1023, 0, 53);
    size_by_bits(0x4000_0000_0000_0000, 1024, 0, 53);
    size_by_bits(0x4030_0000_0000_0000, 1027, 0, 53);
    lemma_pow2_adds(52, 1022);
    lemma_pow2_adds(52, 1023);
    lemma_pow2_adds(52, 1026);
    lemma_pow2_unfold(1075);
    lemma_pow2_adds(4, 1074);
}

// ---------------------------------------------------------------------------
// The display
// ---------------------------------------------------------------------------

/// Where a pixel is shown, counted from zero at the top left: columns from the left, rows from the
/// bottom up, unless they are mirrored.
pub open spec fn display_place(x: int, y: int, w: int, h: int, o: Orientation) -> (int, int) {
    match o {
        Orientation::Identity => (x - 1, h - y),
        Orientation::FlipH => (w - x, h - y),
        Orientation::FlipV => (x - 1, y - 1),
        Orientation::Rot180 => (w - x, y - 1),
    }
}

/// A pixel is shown at its place on the display, and what lies at that place of the display is the
/// pixel.
pub proof fn pixels_are_found_where_they_are_shown(f: Frame, x: int, y: int, px: Double, py: Double)
    requires
        f.fits.wf(),
        1 <= x <= f.fits.width <= 0x100_0000,
        1 <= y <= f.fits.height <= 0x100_0000,
        fine_is(px, x),
        fine_is(py, y),
    ensures
        ({
            let (w, h) = (f.fits.width as int, f.fits.height as int);
            let (sx, sy) = frame_place(f, px, py);
            let (dx, dy) = display_place(x, y, w, h, f.orientation);
            &&& coarse_is(sx, dx)
            &&& coarse_is(sy, dy)
            &&& 0 <= dx < w
            &&& 0 <= dy < h
        }),
{
    small_numbers();
    let (w, h) = (f.fits.width as int, f.fits.height as int);
    let u = Double { bits: 0x3ff0_0000_0000_0000 };
    fine_whole_minus(px, u, x, 1);
    fine_whole_narrow(px.minus(u), x - 1);
    coarse_whole_int(h);
    fine_whole_narrow(py, y);
    coarse_whole_minus(Single::from_int_spec(h), py.narrow(), h, y);
    let (a, b) = (px.minus(u).narrow(), Single::from_int_spec(h).minus(py.narrow()));
    coarse_whole_widen(a, x - 1);
    coarse_whole_widen(b, h - y);
    fine_whole_int(w);
    fine_whole_int(h);
    let (fw, fh) = (Double::from_int_spec(w), Double::from_int_spec(h));
    fine_whole_minus(fw, u, w, 1);
    fine_whole_minus(fh, u, h, 1);
    fine_whole_minus(fw.minus(u), a.widen(), w - 1, x - 1);
    fine_whole_minus(fh.minus(u), b.widen(), h - 1, h - y);
    let (ox, oy) = f.orientation.display_spec(a.widen(), b.widen(), fw, fh);
    let (dx, dy) = display_place(x, y, w, h, f.orientation);
    assert(fine_is(ox, dx) && fine_is(oy, dy));
    fine_whole_narrow(ox, dx);
    fine_whole_narrow(oy, dy);
}

/// The way back from the display to the pixel, and the value found there.
pub proof fn places_lead_back_to_their_pixels(f: Frame, x: int, y: int, dx: Double, dy: Double)
    requires
        f.fits.wf(),
        1 <= x <= f.fits.width <= 0x100_0000,
        1 <= y <= f.fits.height <= 0x100_0000,
        ({
            let d = display_place(
                x,
                y,
                f.fits.width as int,
                f.fits.height as int,
                f.orientation,
            );
            fine_is(dx, d.0) && fine_is(dy, d.1)
        }),
    ensures
        fine_is(display_to_fits_spec(dx, dy, f).0, x),
        fine_is(display_to_fits_spec(dx, dy, f).1, y),
        shown_value(f, dx, dy) == Some(f.fits.data@[(y - 1) * f.fits.width + (x - 1)]),
{
    small_numbers();
    let (w, h) = (f.fits.width as int, f.fits.height as int);
    let u = Double { bits: 0x3ff0_0000_0000_0000 };
    fine_whole_int(w);
    fine_whole_int(h);
    let (fw, fh) = (Double::from_int_spec(w), Double::from_int_spec(h));
    fine_whole_minus(fw, u, w, 1);
    fine_whole_minus(fh, u, h, 1);
    let d = display_place(x, y, w, h, f.orientation);
    fine_whole_minus(fw.minus(u), dx, w - 1, d.0);
    fine_whole_minus(fh.minus(u), dy, h - 1, d.1);
    let (ux, uy) = f.orientation.display_spec(dx, dy, fw, fh);
    assert(fine_is(ux, x - 1) && fine_is(uy, h - y));
    fine_whole_plus(ux, u, x - 1, 1);
    fine_whole_minus(fh, uy, h, h - y);
    let (fx, fy) = display_to_fits_spec(dx, dy, f);
    whole_pixel(fx, x);
    whole_pixel(fy, y);
}

/// The place in the data of a whole position.
proof fn whole_pixel(x: Double, n: int)
    requires
        fine_is(x, n),
        1 <= n <= 0x100_0000,
    ensures
        pixel_of(x) == n - 1,
{
    small_numbers();
    let u = Double { bits: 0x3ff0_0000_0000_0000 };
    fine_whole_minus(x, u, n, 1);
    fine_whole_cut(x.minus(u), n - 1, crate::arith::Whole::Round, i32::MIN as int, i32::MAX as int);
}

// ---------------------------------------------------------------------------
// Near a point
// ---------------------------------------------------------------------------

/// Whether two points are such that the square of their distance can be held.
pub open spec fn are_plain(ax: Double, ay: Double, bx: Double, by: Double) -> bool {
    &&& ax.is_finite()
    &&& ay.is_finite()
    &&& bx.is_finite()
    &&& by.is_finite()
    &&& is_plain_offset(offset(ax, bx))
    &&& is_plain_offset(offset(ay, by))
}

/// The exact square of the distance of two points, in units squared.
pub open spec fn exact_distance2(ax: Double, ay: Double, bx: Double, by: Double) -> int {
    offset(ax, bx) * offset(ax, bx) + offset(ay, by) * offset(ay, by)
}

/// The square of a distance is the sum of the squares along both axes, to a few roundings.
pub proof fn distances_are_those_of_the_plane(ax: Double, ay: Double, bx: Double, by: Double)
    requires
        are_plain(ax, ay, bx, by),
    ensures
        ({
            let d = distance2(ax, ay, bx, by);
            &&& d.is_finite()
            &&& !d.raw().neg
            &&& alike(fine(d) * one(53), exact_distance2(ax, ay, bx, by), 11, parts(53))
        }),
{
    let (o, b) = (one(53), parts(53));
    let (x, y) = (offset(ax, bx), offset(ay, by));
    let (p, q) = (ax.minus(bx).times(ax.minus(bx)), ay.minus(by).times(ay.minus(by)));
    squared_offset(ax, bx);
    squared_offset(ay, by);
    small_numbers();
    lemma_pow2_unfold(1476);
    lemma_pow2_strictly_increases(1476, 2000);
    powers_grow(673, 1475);
    fine_plus(p, q);
    let (fp, fq, ft) = (fine(p), fine(q), fine(p.plus(q)));
    alike_sum(fp * o, x * x, fq * o, y * y, 8, b);
    assert((fp + fq) * o == fp * o + fq * o) by (nonlinear_arith);
    alike_times(ft, fp + fq, o, 2, b);
    alike_chain(ft * o, (fp + fq) * o, x * x + y * y, 2, 8, b);
}

/// The row found is one within reach, and no other row is nearer; where none is found, none is
/// within reach.
pub proof fn no_row_is_nearer(xy: Seq<(Double, Double)>, fx: Double, fy: Double, tol2: Double)
    ensures
        match nearest_spec(xy, fx, fy, tol2) {
            Some((i, d)) => {
                &&& 0 <= i < xy.len()
                &&& d == distance2(xy[i].0, xy[i].1, fx, fy)
                &&& d.le(tol2)
                &&& forall|j: int|
                    0 <= j < xy.len() ==> !distance2((#[trigger] xy[j]).0, xy[j].1, fx, fy).lt(d)
            },
            None => forall|j: int|
                0 <= j < xy.len() ==> !distance2((#[trigger] xy[j]).0, xy[j].1, fx, fy).le(tol2),
        },
    decreases xy.len(),
{
    if xy.len() > 0 {
        let t = xy.drop_last();
        no_row_is_nearer(t, fx, fy, tol2);
        let n = xy.len() - 1;
        let e = distance2(xy[n].0, xy[n].1, fx, fy);
        match nearest_spec(xy, fx, fy, tol2) {
            Some((i, d)) => {
                assert forall|j: int| 0 <= j < xy.len() implies !distance2(
                    (#[trigger] xy[j]).0,
                    xy[j].1,
                    fx,
                    fy,
                ).lt(d) by {
                    if j < n {
                        assert(t[j] == xy[j]);
                    }
                }
                if i < n {
                    assert(t[i] == xy[i]);
                }
            },
            None => {
                assert forall|j: int| 0 <= j < xy.len() implies !distance2(
                    (#[trigger] xy[j]).0,
                    xy[j].1,
                    fx,
                    fy,
                ).le(tol2) by {
                    if j < n {
                        assert(t[j] == xy[j]);
                    }
                }
            },
        }
    }
}

// ---------------------------------------------------------------------------
// Inside a region
// ---------------------------------------------------------------------------

/// Whether a number is positive and neither tiny nor huge.
pub open spec fn is_plain_size(r: Double) -> bool {
    r.is_finite() && !r.raw().neg && in_range(fine(r), 874, 1274)
}

/// Whether a comparison of squares holds, to a few roundings.
pub open spec fn is_within(inside: bool, x: int, y: int) -> bool {
    &&& inside ==> x * parts(53) <= y * (parts(53) + 40)
    &&& !inside ==> y * parts(53) <= x * (parts(53) + 40)
}

/// A comparison of numbers that are alike to others.
pub proof fn compared(d: Double, r: Double, m: int, n: int, k: int, j: int)
    requires
        d.is_finite(),
        r.is_finite(),
        !d.raw().neg,
        !r.raw().neg,
        alike(fine(d) * one(53), m, k, parts(53)),
        alike(fine(r) * one(53), n, j, parts(53)),
        0 <= k <= 19,
        0 <= j <= 19,
    ensures
        is_within(d.le(r), m, n),
{
    fine_order(d, r);
    small_numbers();
    let (o, b) = (one(53), parts(53));
    let (p, q) = (fine(d) * o, fine(r) * o);
    let inside = d.le(r);
    if inside {
        assert(p <= q) by (nonlinear_arith)
            requires
                p == fine(d) * o,
                q == fine(r) * o,
                fine(d) <= fine(r),
                o > 0,
        ;
        ordered(m, p, q, n, k, j, b);
    } else {
        assert(q <= p) by (nonlinear_arith)
            requires
                p == fine(d) * o,
                q == fine(r) * o,
                fine(r) <= fine(d),
                o > 0,
        ;
        ordered(n, q, p, m, j, k, b);
    }
}

/// `m` is alike to `p`, which is no more than `q`, which is alike to `n`.
proof fn ordered(m: int, p: int, q: int, n: int, k: int, j: int, b: int)
    requires
        alike(p, m, k, b),
        alike(q, n, j, b),
        p <= q,
        0 <= k <= 19,
        0 <= j <= 19,
        b >= 1_000_000,
    ensures
        m * b <= n * (b + 40),
{
    assert((m * b) * b <= (p * (b + k)) * b) by (nonlinear_arith)
        requires
            m * b <= p * (b + k),
            b > 0,
    ;
    assert(p * (b + k) * b <= (q * b) * (b + k)) by (nonlinear_arith)
        requires
            p <= q,
            b > 0,
            k >= 0,
    ;
    assert((q * b) * (b + k) <= (n * (b + j)) * (b + k)) by (nonlinear_arith)
        requires
            q * b <= n * (b + j),
            b > 0,
            k >= 0,
    ;
    let s = (b + j) * (b + k);
    assert(s <= b * (b + 40)) by (nonlinear_arith)
        requires
            s == (b + j) * (b + k),
            0 <= j <= 19,
            0 <= k <= 19,
            b >= 1_000_000,
    ;
    assert((n * (b + j)) * (b + k) == n * s) by (nonlinear_arith)
        requires
            s == (b + j) * (b + k),
    ;
    assert(n * s <= n * (b * (b + 40))) by (nonlinear_arith)
        requires
            s <= b * (b + 40),
            n >= 0,
    ;
    assert(n * (b * (b + 40)) == (n * (b + 40)) * b) by (nonlinear_arith);
    assert(m * b <= n * (b + 40)) by (nonlinear_arith)
        requires
            (m * b) * b <= (n * (b + 40)) * b,
            b > 0,
    ;
}

/// A point is inside a circle where it is no further from the centre than the radius; in an annulus
/// the outer one counts, and a point is hit within four pixels.
pub proof fn circles_hold_what_is_within_their_radius(center: PixelPos, r: Double, x: Double, y: Double)
    requires
        are_plain(x, y, center.x, center.y),
        is_plain_size(r),
    ensures
        ({
            let d = exact_distance2(x, y, center.x, center.y);
            let (v, o) = (fine(r), one(53));
            &&& is_within(inside_spec(Shape::Circle { center, r }, x, y), d, v * v)
            &&& forall|i: Double|
                is_within(
                    #[trigger] inside_spec(
                        Shape::Annulus { center, r_inner: i, r_outer: r },
                        x,
                        y,
                    ),
                    d,
                    v * v,
                )
            &&& is_within(inside_spec(Shape::Point { center }, x, y), d, (4 * o) * (4 * o))
        }),
{
    distances_are_those_of_the_plane(x, y, center.x, center.y);
    small_numbers();
    let (o, b) = (one(53), parts(53));
    let v = fine(r);
    range_product(v, v, 874, 1274, 874, 1274);
    range_ample(v * v, o, 1748, 2548, 1074, 1074, 53);
    fine_times(r, r);
    let d = distance2(x, y, center.x, center.y);
    let m = exact_distance2(x, y, center.x, center.y);
    compared(d, r.times(r), m, v * v, 11, 2);
    let c = Double { bits: 0x4030_0000_0000_0000 };
    assert(fine(c) == 16 * o);
    assert(fine(c) * o == (4 * o) * (4 * o)) by (nonlinear_arith)
        requires
            fine(c) == 16 * o,
    ;
    let z = (4 * o) * (4 * o);
    assert(z >= 0) by (nonlinear_arith)
        requires
            z == (4 * o) * (4 * o),
    ;
    crate::exact::alike_self(z, 2, b);
    compared(d, c, m, z, 11, 2);
}

/// A point is inside a box where it is no further from the middle than half its width along the
/// first axis and half its height along the second.
pub proof fn boxes_hold_what_is_within_half_their_sides(
    center: PixelPos,
    w: Double,
    h: Double,
    theta_deg: Double,
    x: Double,
    y: Double,
)
    requires
        are_plain(x, y, center.x, center.y),
        is_plain_size(w),
        is_plain_size(h),
    ensures
        exists|p: bool, q: bool|
            #![trigger is_within(p, 2 * offset(x, center.x), fine(w)), is_within(q, 2 * offset(y, center.y), fine(h))]
            is_within(p, 2 * offset(x, center.x), fine(w)) && is_within(
                q,
                2 * offset(y, center.y),
                fine(h),
            ) && inside_spec(Shape::Box { center, w, h, theta_deg }, x, y) == (p && q),
{
    let two = Double { bits: 0x4000_0000_0000_0000 };
    let p = x.minus(center.x).abs().le(w.over(two));
    let q = y.minus(center.y).abs().le(h.over(two));
    half_side(x, center.x, w);
    half_side(y, center.y, h);
    assert(is_within(p, 2 * offset(x, center.x), fine(w)));
    assert(is_within(q, 2 * offset(y, center.y), fine(h)));
}

proof fn half_side(x: Double, c: Double, w: Double)
    requires
        x.is_finite(),
        c.is_finite(),
        is_plain_offset(offset(x, c)),
        is_plain_size(w),
    ensures
        is_within(
            x.minus(c).abs().le(w.over(Double { bits: 0x4000_0000_0000_0000 })),
            2 * offset(x, c),
            fine(w),
        ),
{
    small_numbers();
    let (o, b) = (one(53), parts(53));
    let two = Double { bits: 0x4000_0000_0000_0000 };
    let n = offset(x, c);
    powers_grow(1273, 2000);
    if n > 0 {
        lemma_pow2_strictly_increases(1273, 2000);
    } else {
        lemma_pow2_pos(2000);
    }
    crate::exact::fine_minus(x, c);
    let d = x.minus(c).abs();
    assert(d.raw().mag == x.minus(c).raw().mag && !d.raw().neg);
    let v = fine(w);
    lemma_pow2_unfold(1075);
    range_product(v, o, 874, 1274, 1074, 1074);
    assert(in_range(2 * o, 1075, 1075));
    range_ample(v * o, 2 * o, 1948, 2348, 1075, 1075, 53);
    fine_over(w, two);
    let r = w.over(two);
    let h = fine(r);
    // 2 * h is alike to v.
    assert(h * (2 * o) == (2 * h) * o) by (nonlinear_arith);
    alike_cancel(2 * h, v, o, 2, b);
    fine_order(d, r);
    let f = fine(d);
    alike_times(f, n, 2, 2, b);
    if d.le(r) {
        ordered(2 * n, f * 2, 2 * h, v, 2, 2, b);
    } else {
        ordered(v, 2 * h, f * 2, 2 * n, 2, 2, b);
    }
}

/// A point is inside an ellipse where the squares of its offsets, as shares of the half axes, come
/// to no more than one.
pub proof fn ellipses_hold_what_is_within_their_axes(
    center: PixelPos,
    a: Double,
    b: Double,
    theta_deg: Double,
    x: Double,
    y: Double,
)
    requires
        are_plain(x, y, center.x, center.y),
        is_plain_size(a),
        is_plain_size(b),
    ensures
        ({
            let (p, q) = (offset(x, center.x), offset(y, center.y));
            let (v, w) = (fine(a), fine(b));
            is_within(
                inside_spec(Shape::Ellipse { center, a, b, theta_deg }, x, y),
                (p * w) * (p * w) + (q * v) * (q * v),
                (v * w) * (v * w),
            )
        }),
{
    small_numbers();
    let (o, k) = (one(53), parts(53));
    let (p, q) = (offset(x, center.x), offset(y, center.y));
    let (v, w) = (fine(a), fine(b));
    share_squared(x, center.x, a);
    share_squared(y, center.y, b);
    let dx = x.minus(center.x).over(a);
    let dy = y.minus(center.y).over(b);
    let (s, t) = (dx.times(dx), dy.times(dy));
    let (fs, ft) = (fine(s), fine(t));
    lemma_pow2_unfold(1878);
    lemma_pow2_strictly_increases(1878, 2000);
    powers_grow(270, 1877);
    fine_plus(s, t);
    let e = s.plus(t);
    let fe = fine(e);
    // fs * o * v * v is alike to p * p * o * o; so for the other axis.
    let (vv, ww) = (v * v, w * w);
    assert(vv >= 0 && ww >= 0) by (nonlinear_arith)
        requires
            vv == v * v,
            ww == w * w,
    ;
    alike_times((fs * o) * vv, (p * p) * (o * o), ww, 14, k);
    alike_times((ft * o) * ww, (q * q) * (o * o), vv, 14, k);
    alike_sum(
        ((fs * o) * vv) * ww,
        ((p * p) * (o * o)) * ww,
        ((ft * o) * ww) * vv,
        ((q * q) * (o * o)) * vv,
        14,
        k,
    );
    let m = (p * w) * (p * w) + (q * v) * (q * v);
    let n = (v * w) * (v * w);
    let oo = o * o;
    let (pw, qv) = ((p * p) * ww, (q * q) * vv);
    assert(pw == (p * w) * (p * w) && qv == (q * v) * (q * v)) by (nonlinear_arith)
        requires
            pw == (p * p) * ww,
            qv == (q * q) * vv,
            vv == v * v,
            ww == w * w,
    ;
    assert(((p * p) * oo) * ww == pw * oo && ((q * q) * oo) * vv == qv * oo) by (nonlinear_arith)
        requires
            pw == (p * p) * ww,
            qv == (q * q) * vv,
    ;
    assert(pw * oo + qv * oo == (pw + qv) * oo) by (nonlinear_arith);
    assert(n == vv * ww) by (nonlinear_arith)
        requires
            n == (v * w) * (v * w),
            vv == v * v,
            ww == w * w,
    ;
    let (os, ot) = (fs * o, ft * o);
    assert((os * vv) * ww == os * (vv * ww) && (ot * ww) * vv == ot * (vv * ww))
        by (nonlinear_arith);
    assert(os * n + ot * n == (os + ot) * n) by (nonlinear_arith);
    assert(os + ot == (fs + ft) * o) by (nonlinear_arith)
        requires
            os == fs * o,
            ot == ft * o,
    ;
    assert(n >= 0) by (nonlinear_arith)
        requires
            n == (v * w) * (v * w),
    ;
    let on = o * n;
    assert(on >= 0) by (nonlinear_arith)
        requires
            on == o * n,
            o > 0,
            n >= 0,
    ;
    alike_times(fe, fs + ft, on, 2, k);
    assert(((fs + ft) * o) * n == (fs + ft) * on) by (nonlinear_arith)
        requires
            on == o * n,
    ;
    alike_chain(fe * on, (fs + ft) * on, m * oo, 2, 14, k);
    // fe * o * n is alike to m * o * o; compare with o * o * n.
    let unit = Double { bits: 0x3ff0_0000_0000_0000 };
    assert(fine(unit) == o);
    fine_order(e, unit);
    let z = n * oo;
    assert(z == o * on) by (nonlinear_arith)
        requires
            z == n * oo,
            oo == o * o,
            on == o * n,
    ;
    assert(m >= 0) by (nonlinear_arith)
        requires
            m == (p * w) * (p * w) + (q * v) * (q * v),
    ;
    assert(oo > 0) by (nonlinear_arith)
        requires
            oo == o * o,
            o > 0,
    ;
    assert(z >= 0) by (nonlinear_arith)
        requires
            z == n * oo,
            n >= 0,
            oo > 0,
    ;
    crate::exact::alike_self(z, 2, k);
    let inside = e.le(unit);
    if inside {
        assert(fe * on <= o * on) by (nonlinear_arith)
            requires
                fe <= o,
                on >= 0,
        ;
        ordered(m * oo, fe * on, z, z, 17, 2, k);
        assert((m * oo) * k == (m * k) * oo && (n * oo) * (k + 40) == (n * (k + 40)) * oo)
            by (nonlinear_arith);
        assert(m * k <= n * (k + 40)) by (nonlinear_arith)
            requires
                (m * k) * oo <= (n * (k + 40)) * oo,
                oo > 0,
        ;
    } else {
        assert(o * on <= fe * on) by (nonlinear_arith)
            requires
                o <= fe,
                on >= 0,
        ;
        ordered(z, z, fe * on, m * oo, 2, 17, k);
        assert((n * oo) * k == (n * k) * oo && (m * oo) * (k + 40) == (m * (k + 40)) * oo)
            by (nonlinear_arith);
        assert(n * k <= m * (k + 40)) by (nonlinear_arith)
            requires
                (n * k) * oo <= (m * (k + 40)) * oo,
                oo > 0,
        ;
    }
}

/// The square of an offset as a share of a size.
proof fn share_squared(x: Double, c: Double, a: Double)
    requires
        x.is_finite(),
        c.is_finite(),
        is_plain_offset(offset(x, c)),
        is_plain_size(a),
    ensures
        ({
            let q = x.minus(c).over(a);
            let r = q.times(q);
            let (n, v, o) = (offset(x, c), fine(a), one(53));
            &&& r.is_finite()
            &&& !r.raw().neg
            &&& alike((fine(r) * o) * (v * v), (n * n) * (o * o), 14, parts(53))
            &&& fine(r) == 0 || in_range(fine(r), 270, 1877)
        }),
{
    small_numbers();
    let (o, b) = (one(53), parts(53));
    let (n, v) = (offset(x, c), fine(a));
    powers_grow(1273, 2000);
    powers_grow(874, 874);
    if n > 0 {
        lemma_pow2_strictly_increases(1273, 2000);
    } else {
        lemma_pow2_pos(2000);
    }
    crate::exact::fine_minus(x, c);
    let d = x.minus(c);
    let f = fine(d);
    if n == 0 {
        alike_nothing(f, 2, b);
        assert(0 * o == 0 && 0 * 0 == 0) by (nonlinear_arith);
        nothing_is_ample(v, 53);
        fine_over(d, a);
        let q = d.over(a);
        let g = fine(q);
        alike_nothing(g * v, 2, b);
        assert(g == 0) by (nonlinear_arith)
            requires
                g * v == 0,
                v > 0,
        ;
        assert(g * g == 0) by (nonlinear_arith)
            requires
                g == 0,
        ;
        nothing_is_ample(o, 53);
        fine_times(q, q);
        let r = fine(q.times(q));
        alike_nothing(r * o, 2, b);
        assert(r == 0) by (nonlinear_arith)
            requires
                r * o == 0,
                o > 0,
        ;
        assert((0 * o) * (v * v) == 0 && (0 * 0) * (o * o) == 0) by (nonlinear_arith);
        crate::exact::alike_self(0, 14, b);
    } else {
        lemma2_to64();
        assert(f * 1 == f);
        range_quotient(f, 1, n, 875, 1273, 0, 0, 2, b);
        range_product(f, o, 874, 1274, 1074, 1074);
        range_ample(f * o, v, 1948, 2348, 874, 1274, 53);
        fine_over(d, a);
        let q = d.over(a);
        let g = fine(q);
        range_quotient(g, v, f * o, 1948, 2348, 874, 1274, 2, b);
        range_product(g, g, 673, 1475, 673, 1475);
        range_ample(g * g, o, 1346, 2950, 1074, 1074, 53);
        fine_times(q, q);
        let r = fine(q.times(q));
        range_quotient(r, o, g * g, 1346, 2950, 1074, 1074, 2, b);
        powers_grow(270, 271);
        // g * v is alike to n * o.
        alike_times(f, n, o, 2, b);
        alike_chain(g * v, f * o, n * o, 2, 2, b);
        alike_product(g * v, n * o, 5, g * v, n * o, 5, b);
        let vv = v * v;
        assert(vv >= 0) by (nonlinear_arith)
            requires
                vv == v * v,
        ;
        alike_times(r * o, g * g, vv, 2, b);
        assert((g * g) * vv == (g * v) * (g * v) && (n * o) * (n * o) == (n * n) * (o * o))
            by (nonlinear_arith)
            requires
                vv == v * v,
        ;
        alike_chain((r * o) * vv, (g * v) * (g * v), (n * n) * (o * o), 2, 11, b);
    }
}

// ---------------------------------------------------------------------------
// Moving
// ---------------------------------------------------------------------------

/// The positions of a shape.
pub open spec fn positions(s: ShapeView) -> Seq<PixelPos> {
    match s {
        ShapeView::Circle { center, .. } => seq![center],
        ShapeView::Ellipse { center, .. } => seq![center],
        ShapeView::Box { center, .. } => seq![center],
        ShapeView::Annulus { center, .. } => seq![center],
        ShapeView::Polygon { points } => points,
        ShapeView::Point { center } => seq![center],
        ShapeView::Line { from, to } => seq![from, to],
        ShapeView::Compass { center, .. } => seq![center],
        ShapeView::Text { center, .. } => seq![center],
    }
}

/// Whether two shapes differ in their positions alone.
pub open spec fn has_same_form(s: ShapeView, t: ShapeView) -> bool {
    match (s, t) {
        (ShapeView::Circle { r: a, .. }, ShapeView::Circle { r: b, .. }) => a == b,
        (
            ShapeView::Ellipse { a, b, theta_deg: c, .. },
            ShapeView::Ellipse { a: d, b: e, theta_deg: f, .. },
        ) => a == d && b == e && c == f,
        (
            ShapeView::Box { w: a, h: b, theta_deg: c, .. },
            ShapeView::Box { w: d, h: e, theta_deg: f, .. },
        ) => a == d && b == e && c == f,
        (
            ShapeView::Annulus { r_inner: a, r_outer: b, .. },
            ShapeView::Annulus { r_inner: c, r_outer: d, .. },
        ) => a == c && b == d,
        (ShapeView::Polygon { .. }, ShapeView::Polygon { .. }) => true,
        (ShapeView::Point { .. }, ShapeView::Point { .. }) => true,
        (ShapeView::Line { .. }, ShapeView::Line { .. }) => true,
        (ShapeView::Compass { len: a, .. }, ShapeView::Compass { len: b, .. }) => a == b,
        (ShapeView::Text { body: a, .. }, ShapeView::Text { body: b, .. }) => a == b,
        _ => false,
    }
}

/// Moving a region moves each of its positions by the same steps and keeps its form: a position on
/// the pixel `(x, y)` is then on `(x + m, y + n)`.
pub proof fn moving_keeps_the_form(
    s: ShapeView,
    dx: Double,
    dy: Double,
    i: int,
    x: int,
    y: int,
    m: int,
    n: int,
)
    requires
        0 <= i < positions(s).len(),
        fine_is(positions(s)[i].x, x),
        fine_is(positions(s)[i].y, y),
        fine_is(dx, m),
        fine_is(dy, n),
        -0x10_0000_0000_0000 <= x <= 0x10_0000_0000_0000,
        -0x10_0000_0000_0000 <= y <= 0x10_0000_0000_0000,
        -0x10_0000_0000_0000 <= m <= 0x10_0000_0000_0000,
        -0x10_0000_0000_0000 <= n <= 0x10_0000_0000_0000,
    ensures
        ({
            let t = moved_shape(s, dx, dy);
            &&& has_same_form(s, t)
            &&& positions(t).len() == positions(s).len()
            &&& fine_is(positions(t)[i].x, x + m)
            &&& fine_is(positions(t)[i].y, y + n)
        }),
{
    small_numbers();
    let p = positions(s)[i];
    fine_whole_plus(p.x, dx, x, m);
    fine_whole_plus(p.y, dy, y, n);
    assert(positions(moved_shape(s, dx, dy))[i] == moved(p, dx, dy));
}

// ---------------------------------------------------------------------------
// Mosaics
// ---------------------------------------------------------------------------

/// A mosaic keeps the sky where it is: the place that is the first pixel of the mosaic is as far
/// from its reference pixel as it was from that of the frame, along each axis.
pub proof fn mosaics_keep_the_sky_in_place(w: WcsNumbers, b: Bounds, c1: int, c2: int, x: int, y: int)
    requires
        fine_is(w.crpix1, c1),
        fine_is(w.crpix2, c2),
        fine_is(b.min_x, x),
        fine_is(b.min_y, y),
        -0x10_0000_0000_0000 < c1 < 0x10_0000_0000_0000,
        -0x10_0000_0000_0000 < c2 < 0x10_0000_0000_0000,
        -0x10_0000_0000_0000 < x < 0x10_0000_0000_0000,
        -0x10_0000_0000_0000 < y < 0x10_0000_0000_0000,
    ensures
        ({
            let m = moved_wcs(w, b);
            let u = Double { bits: 0x3ff0_0000_0000_0000 };
            // The first pixel of the mosaic and the place it stands for.
            &&& fine_is(u.minus(m.crpix1), x - c1)
            &&& fine_is(b.min_x.minus(w.crpix1), x - c1)
            &&& fine_is(u.minus(m.crpix2), y - c2)
            &&& fine_is(b.min_y.minus(w.crpix2), y - c2)
            &&& (m.crval1, m.crval2) == (w.crval1, w.crval2)
            &&& (m.cd11, m.cd12, m.cd21, m.cd22) == (w.cd11, w.cd12, w.cd21, w.cd22)
        }),
{
    small_numbers();
    let u = Double { bits: 0x3ff0_0000_0000_0000 };
    fine_whole_minus(w.crpix1, b.min_x, c1, x);
    fine_whole_minus(w.crpix2, b.min_y, c2, y);
    fine_whole_plus(w.crpix1.minus(b.min_x), u, c1 - x, 1);
    fine_whole_plus(w.crpix2.minus(b.min_y), u, c2 - y, 1);
    let m = moved_wcs(w, b);
    fine_whole_minus(u, m.crpix1, 1, c1 - x + 1);
    fine_whole_minus(u, m.crpix2, 1, c2 - y + 1);
    fine_whole_minus(b.min_x, w.crpix1, x, c1);
    fine_whole_minus(b.min_y, w.crpix2, y, c2);
}

/// A composite of three pictures in shades of grey has the first as its red, the second as its
/// green and the third as its blue.
pub proof fn composites_take_a_colour_from_each(r: Seq<u8>, g: Seq<u8>, b: Seq<u8>, p: int)
    requires
        0 <= p,
        4 * p + 3 < r.len(),
        g.len() == r.len(),
        b.len() == r.len(),
        g[4 * p] == g[4 * p + 1],
        b[4 * p] == b[4 * p + 2],
    ensures
        composite_spec(r, g, b)[4 * p] == r[4 * p],
        composite_spec(r, g, b)[4 * p + 1] == g[4 * p],
        composite_spec(r, g, b)[4 * p + 2] == b[4 * p],
        composite_spec(r, g, b)[4 * p + 3] == 255,
{
    assert((4 * p) / 4 == p && (4 * p + 1) / 4 == p && (4 * p + 2) / 4 == p);
}

} // verus!
