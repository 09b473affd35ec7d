//! Where pictures, tiles and bytes go.

use crate::arith::{root, root_bounds, Whole};
use crate::color::{mix_spec, pixel_place, resampled, source_byte};
use crate::exact::{
    alike, coarse, coarse_exact_integer, coarse_is, coarse_order, coarse_over, coarse_whole_cut,
    coarse_whole_int, coarse_whole_minus, coarse_whole_order, coarse_whole_plus, coarse_whole_times,
    coarse_whole_widen, fine, fine_is, fine_over, fine_whole_cut, fine_whole_int, fine_whole_minus,
    fine_whole_narrow, fine_whole_over, fine_whole_times, half_of_even, in_range, one, parts,
    range_ample, range_product, size_by_bits,
};
use crate::export::{hex_lines, nib_spec, rgb_spec, tiff_offsets, tiff_spec};
use crate::fits::{greatest, least, minmax_spec, FitsImage};
use crate::frame::{fit_zoom_spec, Frame};
use crate::image::{flipped, index_spec, rgba_spec, shown_level, Curve, Limits};
use crate::marker::{new_marker, shape_spec, PixelPos};
use crate::mosaic::nearest_pixel;
use crate::num::{Double, Single};
use crate::panels::centred_spec;
use crate::place_laws::display_place;
use crate::props::hex_value;
use crate::rounding::units;
use crate::show::{picture_spec, table_spec};
use crate::sky::{is_complete, placed_spec, SkyKind, SkyView};
use crate::tile::{columns_spec, rows_spec, tile_hit_spec};
use vstd::arithmetic::div_mod::*;
use vstd::arithmetic::power2::*;
use vstd::prelude::*;

verus! {

proof fn bounds()
    ensures
        parts(24) == 0x100_0000,
        parts(53) == 0x20_0000_0000_0000,
        one(24) > 0,
        one(53) > 0,
        in_range(one(24), 149, 149),
        in_range(one(53), 1074, 1074),
        coarse_is(Single { bits: 0 }, 0),
        fine_is(Double { bits: 0 }, 0),
{
    lemma_pow2_pos(149);
    lemma_pow2_pos(1074);
    assert(units(0, 53) == 0 && units(0, 24) == 0);
    assert(0 * one(53) == 0 && 0 * one(24) == 0) by (nonlinear_arith);
}

// ---------------------------------------------------------------------------
// Pictures
// ---------------------------------------------------------------------------

/// The picture of a frame shows each pixel at its place on the display, in its colour.
pub proof fn pictures_show_pixels_in_their_places(
    f: Frame,
    img: FitsImage,
    lim: Limits,
    c: Curve,
    x: int,
    y: int,
)
    requires
        1 <= x <= img.width,
        1 <= y <= img.height,
    ensures
        ({
            let (w, h) = (img.width as int, img.height as int);
            let (dx, dy) = display_place(x, y, w, h, f.orientation);
            let at = 4 * (dy * w + dx);
            let from = (y - 1) * w + (x - 1);
            let color = table_spec(f)[index_spec(shown_level(img, lim, f.stretch, c, from))];
            let shown = picture_spec(f, img, lim, c);
            &&& 0 <= at <= shown.len() - 4
            &&& shown[at] == color.0
            &&& shown[at + 1] == color.1
            &&& shown[at + 2] == color.2
            &&& shown[at + 3] == 255
        }),
{
    let (w, h) = (img.width as int, img.height as int);
    let (dx, dy) = display_place(x, y, w, h, f.orientation);
    let p = dy * w + dx;
    pixel_place(dx, dy, w, h);
    let (sx, sy) = (x - 1, h - y);
    pixel_place(sx, sy, w, h);
    let q = sy * w + sx;
    assert(w * h * 4 == 4 * (w * h)) by (nonlinear_arith);
    assert((4 * p) / 4 == p && (4 * p + 1) / 4 == p && (4 * p + 2) / 4 == p && (4 * p + 3) / 4 == p);
    assert((4 * q) / 4 == q && (4 * q + 1) / 4 == q && (4 * q + 2) / 4 == q && (4 * q + 3) / 4 == q);
    assert(source_byte(4 * p, w, h, f.orientation) == 4 * q);
    assert(source_byte(4 * p + 1, w, h, f.orientation) == 4 * q + 1);
    assert(source_byte(4 * p + 2, w, h, f.orientation) == 4 * q + 2);
    assert(source_byte(4 * p + 3, w, h, f.orientation) == 4 * q + 3);
    assert(flipped(q, w, h) == (y - 1) * w + (x - 1));
    let r = rgba_spec(img, lim, f.stretch, c, table_spec(f));
    assert(r.len() == w * h * 4) by {
        assert(w * h >= 0) by (nonlinear_arith)
            requires
                w >= 0,
                h >= 0,
        ;
    }
}

/// The least and the greatest pixel are pixels, and all finite pixels lie between them.
pub proof fn all_pixels_lie_between_the_extremes(v: Seq<Single>)
    requires
        exists|i: int| 0 <= i < v.len() && (#[trigger] v[i]).is_finite(),
    ensures
        ({
            let (lo, hi) = minmax_spec(v);
            &&& v.contains(lo)
            &&& v.contains(hi)
            &&& lo.is_finite()
            &&& hi.is_finite()
            &&& forall|i: int|
                0 <= i < v.len() && (#[trigger] v[i]).is_finite() ==> lo.le(v[i]) && v[i].le(hi)
        }),
{
    extremes(v);
}

proof fn extremes(v: Seq<Single>)
    ensures
        least(v) is Some <==> exists|i: int| 0 <= i < v.len() && (#[trigger] v[i]).is_finite(),
        greatest(v) is Some <==> exists|i: int| 0 <= i < v.len() && (#[trigger] v[i]).is_finite(),
        least(v) matches Some(m) ==> v.contains(m) && m.is_finite() && forall|i: int|
            0 <= i < v.len() && (#[trigger] v[i]).is_finite() ==> m.le(v[i]),
        greatest(v) matches Some(m) ==> v.contains(m) && m.is_finite() && forall|i: int|
            0 <= i < v.len() && (#[trigger] v[i]).is_finite() ==> v[i].le(m),
    decreases v.len(),
{
    if v.len() > 0 {
        let t = v.drop_last();
        extremes(t);
        let n = v.len() - 1;
        assert(v[n] == v.last());
        assert forall|i: int| 0 <= i < n implies #[trigger] v[i] == t[i] by {}
        if let Some(m) = least(t) {
            let k = choose|k: int| 0 <= k < t.len() && t[k] == m;
            assert(v[k] == m);
            assert(v[k].is_finite());
        }
        if let Some(m) = greatest(t) {
            let k = choose|k: int| 0 <= k < t.len() && t[k] == m;
            assert(v[k] == m);
            assert(v[k].is_finite());
        }
        if v.last().is_finite() {
            assert(v[n].is_finite());
        }
        if exists|i: int| 0 <= i < v.len() && (#[trigger] v[i]).is_finite() {
            let i = choose|i: int| 0 <= i < v.len() && (#[trigger] v[i]).is_finite();
            if i < n {
                assert(t[i].is_finite());
            }
        }
        assert forall|i: int| 0 <= i < v.len() && (#[trigger] v[i]).is_finite() implies ({
            &&& least(v) matches Some(m) ==> m.le(v[i])
            &&& greatest(v) matches Some(m) ==> v[i].le(m)
        }) by {
            if i < n {
                assert(t[i].is_finite());
            }
        }
    }
}

// ---------------------------------------------------------------------------
// Tiles
// ---------------------------------------------------------------------------

/// Tiles fill a grid as square as can be: the columns are the fewest whose square holds all tiles,
/// the rows the fewest that do with as many columns.
pub proof fn tiles_fill_a_square_grid(n: nat)
    requires
        n > 0,
    ensures
        ({
            let (c, r) = (columns_spec(n) as int, rows_spec(n) as int);
            &&& c >= 1
            &&& (c - 1) * (c - 1) < n <= c * c
            &&& (r - 1) * c < n <= r * c
        }),
{
    root_bounds(n);
    let q = root(n) as int;
    let c = columns_spec(n) as int;
    assert(c >= 1) by (nonlinear_arith)
        requires
            n > 0,
            q * q <= n < (q + 1) * (q + 1),
            q >= 0,
            c == q && q * q == n || c == q + 1,
    ;
    if c == q {
        assert((q - 1) * (q - 1) < q * q) by (nonlinear_arith)
            requires
                q >= 1,
        ;
    }
    let m = n + c - 1;
    lemma_fundamental_div_mod(m, c);
    let r = rows_spec(n) as int;
    assert(r == m / c) by {
        lemma_div_pos_is_pos(m, c);
    }
    assert(c * r == r * c && (r - 1) * c == r * c - c) by (nonlinear_arith);
}

/// A whole number divided by another, cut off.
proof fn whole_share(x: int, c: int, p: Double)
    requires
        fine_is(p, x),
        0 <= x <= 0x1_0000_0000_0000,
        0 < c <= 0x1_0000_0000_0000,
    ensures
        p.over(Double::from_int_spec(c)).whole_spec(Whole::Floor, i64::MIN as int, i64::MAX as int)
            == x / c,
{
    bounds();
    let (o, b) = (one(53), parts(53));
    let d = Double::from_int_spec(c);
    fine_whole_int(c);
    let q = x / c;
    lemma_fundamental_div_mod(x, c);
    lemma_div_pos_is_pos(x, c);
    let z = p.over(d);
    if x == 0 {
        assert(0 * c == 0);
        assert(q == 0) by {
            lemma_div_basics_1(c);
        }
        fine_whole_over(p, d, 0, c);
        fine_whole_cut(z, 0, Whole::Floor, i64::MIN as int, i64::MAX as int);
    } else {
        lemma2_to64();
        lemma2_to64_rest();
        assert(in_range(x, 0, 48));
        assert(in_range(c, 0, 48));
        assert(fine(p) == x * o && fine(d) == c * o) by {
            assert(x * o > 0 && c * o > 0) by (nonlinear_arith)
                requires
                    x > 0,
                    c > 0,
                    o > 0,
            ;
        }
        range_product(x, o, 0, 48, 1074, 1074);
        range_product(c, o, 0, 48, 1074, 1074);
        range_product(x * o, o, 1074, 1122, 1074, 1074);
        range_ample((x * o) * o, c * o, 2148, 2196, 1074, 1122, 53);
        assert(c * o > 0) by (nonlinear_arith)
            requires
                c > 0,
                o > 0,
        ;
        fine_over(p, d);
        let v = fine(z);
        assert(!p.raw().neg && !d.raw().neg) by {
            assert(x * o > 0) by (nonlinear_arith)
                requires
                    x > 0,
                    o > 0,
            ;
        }
        // v * c is alike to x * o.
        assert(v * (c * o) == (v * c) * o) by (nonlinear_arith);
        assert(v * c >= 0 && x * o >= 0) by (nonlinear_arith)
            requires
                v >= 0,
                c > 0,
                x > 0,
                o > 0,
        ;
        crate::exact::alike_cancel(v * c, x * o, o, 2, b);
        // At least q.
        at_least(p, d, x, c, q);
        // Below q + 1.
        assert((q + 1) * c == c * q + c) by (nonlinear_arith);
        assert(v < (q + 1) * o) by (nonlinear_arith)
            requires
                (v * c) * b <= (x * o) * (b + 2),
                x <= (q + 1) * c - 1,
                0 < x <= 0x1_0000_0000_0000,
                b == 0x20_0000_0000_0000,
                o > 0,
                c > 0,
        ;
        reveal(Double::whole_spec);
        assert((q + 1) * o == q * o + o) by (nonlinear_arith);
        lemma_fundamental_div_mod_converse(v, o, q, v - q * o);
        assert(q <= x) by (nonlinear_arith)
            requires
                x == c * q + x % c,
                x % c >= 0,
                c >= 1,
                q >= 0,
        ;
    }
}

/// A quotient is not rounded below the whole number that it reaches.
proof fn at_least(p: Double, d: Double, x: int, c: int, q: int)
    requires
        p.is_finite(),
        d.is_finite(),
        fine(p) == x * one(53),
        fine(d) == c * one(53),
        0 < x <= 0x1_0000_0000_0000,
        0 < c <= 0x1_0000_0000_0000,
        q == x / c,
        p.over(d).is_finite(),
    ensures
        fine(p.over(d)) >= q * one(53),
{
    bounds();
    reveal(Double::over_spec);
    let o = one(53);
    lemma_fundamental_div_mod(x, c);
    lemma_div_pos_is_pos(x, c);
    assert(q <= x) by (nonlinear_arith)
        requires
            x == c * q + x % c,
            x % c >= 0,
            c >= 1,
            q >= 0,
    ;
    fine_whole_int(q);
    let g = Double::from_int_spec(q);
    let m = g.raw().mag as nat;
    let (a, b) = (units(p.raw().mag as nat, 53), units(d.raw().mag as nat, 53));
    assert(fine(g) == q * o) by {
        assert(q * o >= 0) by (nonlinear_arith)
            requires
                q >= 0,
                o > 0,
        ;
    }
    assert(a * o >= (q * o) * b) by (nonlinear_arith)
        requires
            a == x * o,
            b == c * o,
            x == c * q + x % c,
            x % c >= 0,
            o > 0,
    ;
    let n = (a * pow2(1074)) as nat;
    assert(b > 0) by (nonlinear_arith)
        requires
            b == c * o,
            c > 0,
            o > 0,
    ;
    crate::exact::round_at_least(n, b, m, 53);
    let r = p.over(d).raw().mag as nat;
    crate::exact::fine_of(crate::arith::quotient_spec(p.raw(), d.raw(), 53));
    if m < r {
        crate::arith::units_increase(m, r, 53);
    }
}

/// A click picks the tile that it lies in: tiles stand in rows from the left, and the rows from the
/// top, each as wide and as high as the view shared among them.
pub proof fn clicks_pick_the_tile_they_lie_in(n: nat, w: int, h: int, i: int, x: int, y: int, cx: Double, cy: Double)
    requires
        0 < n,
        0 <= i < n,
        0 < w <= 0x1_0000_0000_0000,
        0 < h <= 0x1_0000_0000_0000,
        fine_is(cx, x),
        fine_is(cy, y),
        ({
            let (cols, rows) = (columns_spec(n) as int, rows_spec(n) as int);
            let (cw, ch) = (w / cols, h / rows);
            &&& (i % cols) * cw <= x < (i % cols + 1) * cw
            &&& (i / cols) * ch <= y < (i / cols + 1) * ch
        }),
    ensures
        tile_hit_spec(n, w, h, cx, cy) == Some(i),
{
    tiles_fill_a_square_grid(n);
    let (cols, rows) = (columns_spec(n) as int, rows_spec(n) as int);
    assert(rows >= 1) by (nonlinear_arith)
        requires
            n > 0,
            n <= rows * cols,
            cols >= 1,
    ;
    let (cw, ch) = (w / cols, h / rows);
    let (c, r) = (i % cols, i / cols);
    lemma_fundamental_div_mod(i, cols);
    lemma_div_pos_is_pos(i, cols);
    lemma_div_pos_is_pos(w, cols);
    lemma_div_pos_is_pos(h, rows);
    assert((c + 1) * cw == c * cw + cw && (r + 1) * ch == r * ch + ch) by (nonlinear_arith);
    assert(cw > 0 && ch > 0);
    lemma_fundamental_div_mod(w, cols);
    lemma_fundamental_div_mod(h, rows);
    assert(cw <= w && ch <= h) by (nonlinear_arith)
        requires
            w == cols * cw + w % cols,
            h == rows * ch + h % rows,
            w % cols >= 0,
            h % rows >= 0,
            cols >= 1,
            rows >= 1,
            cw >= 0,
            ch >= 0,
    ;
    assert(0 <= x <= w) by (nonlinear_arith)
        requires
            c * cw <= x < (c + 1) * cw,
            0 <= c < cols,
            w == cols * cw + w % cols,
            w % cols >= 0,
            cw > 0,
    ;
    assert(r < rows) by (nonlinear_arith)
        requires
            i == cols * r + c,
            0 <= c,
            i < n,
            n <= rows * cols,
            cols >= 1,
    ;
    assert(0 <= y <= h) by (nonlinear_arith)
        requires
            r * ch <= y < (r + 1) * ch,
            0 <= r < rows,
            h == rows * ch + h % rows,
            h % rows >= 0,
            ch > 0,
    ;
    whole_share(x, cw, cx);
    whole_share(y, ch, cy);
    lemma_fundamental_div_mod_converse(x, cw, c, x - c * cw);
    lemma_fundamental_div_mod_converse(y, ch, r, y - r * ch);
    assert(r * cols == cols * r) by (nonlinear_arith);
}

// ---------------------------------------------------------------------------
// Views
// ---------------------------------------------------------------------------

/// The zoom that fits an image makes it no wider than 800 and no higher than 600, and one of them
/// just so, unless it would be below a twentieth or above 32.
pub proof fn fitted_images_fill_the_canvas(w: int, h: int)
    requires
        1 <= w <= 0x100_0000,
        1 <= h <= 0x100_0000,
    ensures
        ({
            let z = fit_zoom_spec(w, h);
            let (v, o, b) = (coarse(z), one(24), parts(24));
            let (lo, hi) = (Single { bits: 0x3d4c_cccd }, Single { bits: 0x4200_0000 });
            &&& z.is_finite()
            &&& lo.le(z)
            &&& z.le(hi)
            &&& lo.lt(z) ==> v * w * b <= 800 * o * (b + 2) && v * h * b <= 600 * o * (b + 2)
            &&& z.lt(hi) ==> 800 * o * b <= v * w * (b + 2) || 600 * o * b <= v * h * (b + 2)
        }),
{
    bounds();
    let (o, b) = (one(24), parts(24));
    lemma2_to64();
    size_by_bits(0x4448_0000, 136, 0x48_0000, 24);
    size_by_bits(0x4416_0000, 136, 0x16_0000, 24);
    lemma_pow2_adds(14, 135);
    let q = pow2(135) as int;
    assert(0xc8_0000 * q == 800 * (0x4000 * q) && 0x96_0000 * q == 600 * (0x4000 * q))
        by (nonlinear_arith);
    filled(w, Single { bits: 0x4448_0000 }, 800);
    filled(h, Single { bits: 0x4416_0000 }, 600);
    let unit = Single { bits: 0x3f80_0000 };
    let zw = (Single { bits: 0x4448_0000 }).over(Single::from_int_spec(w).max(unit));
    let zh = (Single { bits: 0x4416_0000 }).over(Single::from_int_spec(h).max(unit));
    let m = zw.min(zh);
    let (lo, hi) = (Single { bits: 0x3d4c_cccd }, Single { bits: 0x4200_0000 });
    coarse_order(zw, zh);
    coarse_order(zh, zw);
    coarse_order(m, lo);
    coarse_order(hi, m);
    coarse_order(lo, hi);
    let z = fit_zoom_spec(w, h);
    coarse_order(lo, z);
    coarse_order(z, hi);
    let v = coarse(z);
    if lo.lt(z) {
        assert(v <= coarse(zw) && v <= coarse(zh));
        assert(v * w * b <= (coarse(zw) * w) * b && v * h * b <= (coarse(zh) * h) * b)
            by (nonlinear_arith)
            requires
                v <= coarse(zw),
                v <= coarse(zh),
                w > 0,
                h > 0,
                b > 0,
        ;
    }
    if z.lt(hi) {
        assert(v >= coarse(zw) || v >= coarse(zh));
        if v >= coarse(zw) {
            assert((coarse(zw) * w) * (b + 2) <= v * w * (b + 2)) by (nonlinear_arith)
                requires
                    coarse(zw) <= v,
                    w > 0,
                    b > 0,
            ;
        } else {
            assert((coarse(zh) * h) * (b + 2) <= v * h * (b + 2)) by (nonlinear_arith)
                requires
                    coarse(zh) <= v,
                    h > 0,
                    b > 0,
            ;
        }
    }
}

/// A length over a whole number.
proof fn filled(n: int, c: Single, k: int)
    requires
        1 <= n <= 0x100_0000,
        c.is_finite(),
        !c.raw().neg,
        coarse(c) == k * one(24),
        500 <= k <= 1000,
    ensures
        ({
            let z = c.over(Single::from_int_spec(n).max(Single { bits: 0x3f80_0000 }));
            &&& z.is_finite()
            &&& !z.raw().neg
            &&& alike(coarse(z) * n, k * one(24), 2, parts(24))
        }),
{
    bounds();
    let (o, b) = (one(24), parts(24));
    coarse_exact_integer(n);
    crate::filter_laws::small_numbers();
    let d = Single::from_int_spec(n);
    let unit = Single { bits: 0x3f80_0000 };
    coarse_order(d, unit);
    assert(n * o >= o) by (nonlinear_arith)
        requires
            n >= 1,
            o > 0,
    ;
    assert(d.max(unit) == d);
    lemma2_to64();
    assert(in_range(n, 0, 24));
    assert(in_range(k, 8, 10));
    range_product(n, o, 0, 24, 149, 149);
    range_product(k, o, 8, 10, 149, 149);
    range_product(k * o, o, 157, 159, 149, 149);
    range_ample((k * o) * o, n * o, 306, 308, 149, 173, 24);
    coarse_over(c, d);
    let v = coarse(c.over(d));
    assert(v * (n * o) == (v * n) * o) by (nonlinear_arith);
    assert(v * n >= 0 && k * o >= 0) by (nonlinear_arith)
        requires
            v >= 0,
            n > 0,
            k > 0,
            o > 0,
    ;
    crate::exact::alike_cancel(v * n, k * o, o, 2, b);
}

/// A place that the view is centred on is shown in the middle of the canvas: its distance from the
/// edge of the image, zoomed, and the pan come to half the size.
pub proof fn centred_places_are_in_the_middle(size: Single, at: Double, zoom: Single, s: int, a: int, z: int)
    requires
        coarse_is(size, 2 * s),
        fine_is(at, a),
        coarse_is(zoom, z),
        0 <= 2 * s <= 0x100_0000,
        0 <= a * z <= 0x80_0000,
        0 <= z <= 0x100_0000,
    ensures
        coarse_is(centred_spec(size, at, zoom), s - a * z),
{
    bounds();
    coarse_whole_widen(size, 2 * s);
    coarse_whole_widen(zoom, z);
    half_of_even(size.widen(), s);
    fine_whole_times(at, zoom.widen(), a, z);
    let h = size.widen().times(Double { bits: 0x3fe0_0000_0000_0000 });
    fine_whole_minus(h, at.times(zoom.widen()), s, a * z);
    fine_whole_narrow(h.minus(at.times(zoom.widen())), s - a * z);
}

// ---------------------------------------------------------------------------
// Regions from the sky
// ---------------------------------------------------------------------------

/// The name of a kind in a region file.
pub open spec fn kind_name(k: SkyKind) -> Seq<char> {
    match k {
        SkyKind::Circle => "circle"@,
        SkyKind::Ellipse => "ellipse"@,
        SkyKind::Box => "box"@,
        SkyKind::Annulus => "annulus"@,
        SkyKind::Polygon => "polygon"@,
        SkyKind::Point => "point"@,
        SkyKind::Line => "line"@,
    }
}

/// The arguments that a region on the image has in a region file: its positions, sizes and angle.
pub open spec fn arguments(m: SkyView, places: Seq<Option<(Double, Double)>>) -> Seq<Double> {
    let n = places.len();
    let at = Seq::new(
        2 * n,
        |i: int|
            if i % 2 == 0 {
                (places[i / 2]->0).0
            } else {
                (places[i / 2]->0).1
            },
    );
    match m.kind {
        SkyKind::Circle => at + seq![m.sizes[0]],
        SkyKind::Ellipse | SkyKind::Box => at + seq![m.sizes[0], m.sizes[1], m.angle],
        SkyKind::Annulus => at + seq![m.sizes[0], m.sizes[1]],
        _ => at,
    }
}

/// At a scale of one pixel for a second of arc, a sky region becomes the region that its places,
/// sizes and angle give in image coordinates.
pub proof fn sky_regions_become_image_regions(m: SkyView, places: Seq<Option<(Double, Double)>>)
    requires
        is_complete(m),
        places.len() == m.positions.len(),
        forall|i: int| 0 <= i < places.len() ==> (#[trigger] places[i]) is Some,
        forall|i: int| 0 <= i < m.sizes.len() ==> (#[trigger] m.sizes[i]).is_finite(),
    ensures
        ({
            let r = placed_spec(m, places, Double { bits: 0x3ff0_0000_0000_0000 });
            let s = shape_spec(kind_name(m.kind), arguments(m, places));
            r is Some && s is Some && r == Some(new_marker(s->0))
        }),
{
    crate::region_laws::kinds_differ();
    let v = arguments(m, places);
    let n = places.len() as int;
    if m.sizes.len() > 0 {
        crate::wcs_laws::times_one(m.sizes[0]);
    }
    if m.sizes.len() > 1 {
        crate::wcs_laws::times_one(m.sizes[1]);
    }
    assert forall|i: int| 0 <= i < n implies v[2 * i] == (places[i]->0).0 && v[2 * i + 1] == (
    places[i]->0).1 by {
        assert((2 * i) / 2 == i && (2 * i + 1) / 2 == i);
        assert((2 * i) % 2 == 0 && (2 * i + 1) % 2 == 1);
    }
    assert(places[0] is Some);
    assert(v[0] == (places[0]->0).0 && v[1] == (places[0]->0).1);
    if m.kind == SkyKind::Line {
        assert(v[2] == (places[1]->0).0 && v[3] == (places[1]->0).1);
    }
    if m.kind == SkyKind::Polygon {
        let p = |i: int| PixelPos { x: (places[i]->0).0, y: (places[i]->0).1 };
        assert(v.len() == 2 * n);
        assert(crate::marker::corners_spec(v) =~= Seq::new(places.len(), |i: int| p(i))) by {
            assert forall|i: int| 0 <= i < n implies crate::marker::corners_spec(v)[i] == p(i) by {
                assert(v[2 * i] == (places[i]->0).0 && v[2 * i + 1] == (places[i]->0).1);
            }
        }
    }
}

// ---------------------------------------------------------------------------
// Mosaics
// ---------------------------------------------------------------------------

/// The pixel nearest to a whole position is the one there, counted from one.
pub proof fn whole_positions_have_their_pixel(img: FitsImage, fx: Double, fy: Double, x: int, y: int)
    requires
        fine_is(fx, x),
        fine_is(fy, y),
        1 <= x <= img.width <= 0x100_0000,
        1 <= y <= img.height <= 0x100_0000,
        img.data@[(y - 1) * img.width + (x - 1)].is_finite(),
    ensures
        nearest_pixel(img, Some((fx, fy))) == Some(img.data@[(y - 1) * img.width + (x - 1)]),
{
    fine_whole_cut(fx, x, Whole::Round, i64::MIN as int, i64::MAX as int);
    fine_whole_cut(fy, y, Whole::Round, i64::MIN as int, i64::MAX as int);
}

// ---------------------------------------------------------------------------
// Files
// ---------------------------------------------------------------------------

/// Behind its first 164 bytes a TIFF file holds the red, the green and the blue of each pixel, one
/// pixel after the other.
pub proof fn tiff_pixels_stand_in_order(rgba: Seq<u8>, w: u32, h: u32, p: int)
    requires
        rgba.len() == 4 * (w * h),
        0 <= p < w * h,
    ensures
        ({
            let t = tiff_spec(rgba, w, h).skip(164);
            &&& t[3 * p] == rgba[4 * p]
            &&& t[3 * p + 1] == rgba[4 * p + 1]
            &&& t[3 * p + 2] == rgba[4 * p + 2]
        }),
{
    tiff_offsets(rgba, w, h);
    colours_in_order(tiff_spec(rgba, w, h).skip(164), rgba, p);
}

proof fn colours_in_order(t: Seq<u8>, rgba: Seq<u8>, p: int)
    requires
        t == rgb_spec(rgba),
        0 <= 4 * p < rgba.len(),
        rgba.len() % 4 == 0,
    ensures
        t[3 * p] == rgba[4 * p],
        t[3 * p + 1] == rgba[4 * p + 1],
        t[3 * p + 2] == rgba[4 * p + 2],
{
    assert((3 * p) / 3 == p && (3 * p + 1) / 3 == p && (3 * p + 2) / 3 == p);
    assert((3 * p) % 3 == 0 && (3 * p + 1) % 3 == 1 && (3 * p + 2) % 3 == 2);
}

/// The bytes of a picture are written by two hexadecimal digits each, the higher one first, thirty
/// bytes to a line.
pub proof fn hexadecimal_bytes_are_read_back(b: Seq<u8>, i: int)
    requires
        0 <= i < b.len(),
    ensures
        ({
            let t = hex_lines(b);
            let at = 2 * i + i / 30;
            &&& t.len() == 2 * b.len() + b.len() / 30
            &&& 0 <= at < t.len() - 1
            &&& hex_value(t[at]) matches Some(high) && hex_value(t[at + 1]) matches Some(low) && 16 * high
                + low == b[i]
        }),
    decreases b.len(),
{
    let c = b.drop_last();
    let n = b.len() as int;
    hex_length(c);
    hex_length(b);
    let last = b.last() as int;
    assert(n / 30 == (n - 1) / 30 + if n % 30 == 0 { 1int } else { 0 });
    digit(last / 16);
    digit(last % 16);
    if i == n - 1 {
        assert(b[i] == b.last());
    } else {
        hexadecimal_bytes_are_read_back(c, i);
        assert(c[i] == b[i]);
        let at = 2 * i + i / 30;
        assert(hex_lines(b)[at] == hex_lines(c)[at]);
        assert(hex_lines(b)[at + 1] == hex_lines(c)[at + 1]);
    }
}

proof fn hex_length(b: Seq<u8>)
    ensures
        hex_lines(b).len() == 2 * b.len() + b.len() / 30,
    decreases b.len(),
{
    if b.len() > 0 {
        hex_length(b.drop_last());
        let n = b.len() as int;
        assert(n / 30 == (n - 1) / 30 + if n % 30 == 0 { 1int } else { 0 });
    }
}

proof fn digit(n: int)
    requires
        0 <= n < 16,
    ensures
        hex_value(nib_spec(n) as char) matches Some(v) && v == n,
{
}

// ---------------------------------------------------------------------------
// Colour tables from files
// ---------------------------------------------------------------------------

/// A table made of given colours starts with the first and ends with the last of them.
pub proof fn tables_go_from_the_first_to_the_last_colour(stops: Seq<(u8, u8, u8)>)
    requires
        0 < stops.len() <= 0x100_0000,
    ensures
        resampled(stops, 0) == stops[0],
        resampled(stops, 255) == stops.last(),
{
    bounds();
    let n = stops.len() as int - 1;
    let full = Double { bits: 0x406f_e000_0000_0000 };
    lemma2_to64();
    lemma2_to64_rest();
    size_by_bits(0x406f_e000_0000_0000, 1030, 0xf_e000_0000_0000, 53);
    lemma_pow2_adds(45, 1029);
    let q = pow2(1029) as int;
    assert(0x1f_e000_0000_0000 * q == 255 * (0x2000_0000_0000 * q)) by (nonlinear_arith);
    assert(fine_is(full, 255));
    fine_whole_int(0);
    fine_whole_int(255);
    fine_whole_int(n);
    let c = Double::from_int_spec(n);
    assert(0 * 255 == 0 && 1 * 255 == 255);
    fine_whole_over(Double::from_int_spec(0), full, 0, 255);
    fine_whole_over(Double::from_int_spec(255), full, 1, 255);
    assert(0 * n == 0 && 1 * n == n);
    let (a, z) = (
        Double::from_int_spec(0).over(full).times(c),
        Double::from_int_spec(255).over(full).times(c),
    );
    fine_whole_times(Double::from_int_spec(0).over(full), c, 0, n);
    fine_whole_times(Double::from_int_spec(255).over(full), c, 1, n);
    fine_whole_cut(a, 0, Whole::Floor, 0, usize::MAX as int);
    let top = usize::MAX as int;
    fine_whole_cut(z, n, Whole::Floor, 0, top);
    fine_whole_minus(a, Double::from_int_spec(0), 0, 0);
    fine_whole_minus(z, c, n, n);
    fine_whole_narrow(a.minus(Double::from_int_spec(0)), 0);
    fine_whole_narrow(z.minus(c), 0);
    let (f, g) = (a.minus(Double::from_int_spec(0)).narrow(), z.minus(c).narrow());
    let hi = if 1 < stops.len() {
        1int
    } else {
        0
    };
    let (s, t, e) = (stops[0], stops[hi], stops[n]);
    unmixed(s.0, t.0, f);
    unmixed(s.1, t.1, f);
    unmixed(s.2, t.2, f);
    unmixed(e.0, e.0, g);
    unmixed(e.1, e.1, g);
    unmixed(e.2, e.2, g);
}

/// At no share of the way the colour is the first one.
proof fn unmixed(a: u8, b: u8, f: Single)
    requires
        coarse_is(f, 0),
    ensures
        mix_spec(a, b, f) == a,
{
    mixed_by_whole(a, b, f, 0);
}

/// At none and at all of the way the colour is the first and the second one.
proof fn mixed_by_whole(a: u8, b: u8, f: Single, k: int)
    requires
        coarse_is(f, k),
        k == 0 || k == 1,
    ensures
        mix_spec(a, b, f) == if k == 0 {
            a
        } else {
            b
        },
{
    bounds();
    lemma2_to64();
    let (m, n) = (a as int, b as int);
    coarse_whole_int(m);
    coarse_whole_int(n);
    let (x, y) = (Single::from_int_spec(m), Single::from_int_spec(n));
    coarse_whole_minus(y, x, n, m);
    let d = (n - m) * k;
    assert(d == if k == 0 { 0 } else { n - m }) by (nonlinear_arith)
        requires
            d == (n - m) * k,
            k == 0 || k == 1,
    ;
    coarse_whole_times(y.minus(x), f, n - m, k);
    coarse_whole_plus(x, y.minus(x).times(f), m, d);
    let r = x.plus(y.minus(x).times(f));
    let top = Single { bits: 0x437f_0000 };
    size_by_bits(0x437f_0000, 134, 0x7f_0000, 24);
    lemma_pow2_adds(16, 133);
    let q = pow2(133) as int;
    assert(0xff_0000 * q == 255 * (0x1_0000 * q)) by (nonlinear_arith);
    assert(coarse_is(top, 255));
    coarse_whole_order(r, Single { bits: 0 }, m + d, 0);
    coarse_whole_order(top, r, 255, m + d);
    coarse_whole_cut(r, m + d, Whole::Trunc, 0, 255);
}

} // verus!
