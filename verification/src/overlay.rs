//! Overlays: lines and polygons, contours, and the grid of sky coordinates.

use crate::arith::Whole;
use crate::color::{apply_orientation_rgba, oriented, pixel_place};
use crate::draw::{bytes_spec, line_keeps_size, line_spec, Canvas, CanvasView, Line, Rgba};
use crate::filters::pixel;
use crate::fits::{wrapped, wrapped_spec};
use crate::frame::Frame;
use crate::image::Limits;
use crate::marker::{Marker, PixelPos, Shape};
use crate::num::{Double, Single};
use crate::show::{fits_to_display_oriented, frame_place};
use vstd::prelude::*;

verus! {

/// Nothing.
pub open spec fn clear() -> Rgba {
    Rgba { r: 0, g: 0, b: 0, a: 0 }
}

/// The most steps of a line on a picture of the given size.
pub open spec fn cap_spec(w: int, h: int) -> int {
    if (w + h) * 4 < u64::MAX {
        (w + h) * 4
    } else {
        u64::MAX as int
    }
}

fn step_cap(w: usize, h: usize) -> (r: u64)
    ensures
        r == cap_spec(w as int, h as int),
{
    let n: u128 = (w as u128 + h as u128) * 4;
    if n < u64::MAX as u128 {
        n as u64
    } else {
        u64::MAX
    }
}

// ---------------------------------------------------------------------------
// Lines, polygons and compasses
// ---------------------------------------------------------------------------

/// A number rounded to an integer of 32 bits.
pub open spec fn round32(x: Single) -> int {
    x.whole_spec(Whole::Round, i32::MIN as int, i32::MAX as int)
}

/// A number rounded to an integer of 32 bits.
pub open spec fn round_double32(x: Double) -> int {
    x.whole_spec(Whole::Round, i32::MIN as int, i32::MAX as int)
}

fn rounded(x: Single) -> (r: i64)
    ensures
        r == round32(x),
        i32::MIN <= r <= i32::MAX,
{
    x.whole(Whole::Round, i32::MIN as i128, i32::MAX as i128) as i64
}

fn rounded_double(x: Double) -> (r: i64)
    ensures
        r == round_double32(x),
        i32::MIN <= r <= i32::MAX,
{
    x.whole(Whole::Round, i32::MIN as i128, i32::MAX as i128) as i64
}

/// The pixel of a frame's display at an image position.
pub open spec fn pixel_at(f: Frame, p: PixelPos) -> (int, int) {
    let (x, y) = frame_place(f, p.x, p.y);
    (round32(x), round32(y))
}

fn place(f: &Frame, p: PixelPos) -> (r: (i64, i64))
    ensures
        (r.0 as int, r.1 as int) == pixel_at(*f, p),
        i32::MIN <= r.0 <= i32::MAX,
        i32::MIN <= r.1 <= i32::MAX,
{
    let (x, y): (Single, Single) = fits_to_display_oriented(p.x, p.y, f);
    (rounded(x), rounded(y))
}

/// A line on a frame's display.
pub open spec fn frame_line(f: Frame, c: CanvasView, a: (int, int), b: (int, int), color: Rgba) -> CanvasView {
    line_spec(
        c,
        Line {
            x0: a.0,
            y0: a.1,
            x1: b.0,
            y1: b.1,
            color,
            cap: cap_spec(f.fits.width as int, f.fits.height as int),
        },
    )
}

/// The end of a stroke of an arrow's head: nine pixels back from the tip along the arrow,
/// and four tenths of that to the side.
pub open spec fn head_spec(b: (int, int), u: (Double, Double), off: (Double, Double)) -> (int, int) {
    let head = Double { bits: 0x4022_0000_0000_0000 };
    (
        round_double32(
            Double::from_int_spec(b.0).minus(u.0.times(head)).plus(
                off.0.times(head).times(Double { bits: 0x3fd9_9999_9999_999a }),
            ),
        ),
        round_double32(
            Double::from_int_spec(b.1).minus(u.1.times(head)).plus(
                off.1.times(head).times(Double { bits: 0x3fd9_9999_9999_999a }),
            ),
        ),
    )
}

/// The direction from one pixel to another, of length one unless they are the same.
pub open spec fn direction_spec(a: (int, int), b: (int, int)) -> (Double, Double) {
    let dx = Double::from_int_spec(b.0 - a.0);
    let dy = Double::from_int_spec(b.1 - a.1);
    let len = dx.times(dx).plus(dy.times(dy)).sqrt().max(Double { bits: 0x3ff0_0000_0000_0000 });
    (dx.over(len), dy.over(len))
}

/// An arrow: its shaft and the two strokes of its head.
pub open spec fn arrow_spec(f: Frame, c: CanvasView, a: (int, int), b: (int, int), color: Rgba) -> CanvasView {
    let u = direction_spec(a, b);
    let left = head_spec(b, u, (u.1.negate(), u.0));
    let right = head_spec(b, u, (u.1, u.0.negate()));
    frame_line(f, frame_line(f, frame_line(f, c, a, b, color), b, left, color), b, right, color)
}

/// The first `n` sides of an open polygon.
pub open spec fn sides_spec(f: Frame, c: CanvasView, points: Seq<PixelPos>, n: nat, color: Rgba) -> CanvasView
    decreases n,
{
    if n == 0 {
        c
    } else {
        frame_line(
            f,
            sides_spec(f, c, points, (n - 1) as nat, color),
            pixel_at(f, points[n - 1]),
            pixel_at(f, points[n as int]),
            color,
        )
    }
}

/// A number cut off to an integer of 32 bits.
pub open spec fn cut32(x: Double) -> int {
    x.whole_spec(Whole::Trunc, i32::MIN as int, i32::MAX as int)
}

/// The colour of a region, as a pixel.
pub open spec fn stroke_spec(m: Marker) -> Rgba {
    Rgba { r: m.color@[0], g: m.color@[1], b: m.color@[2], a: m.color@[3] }
}

/// Whether a region is drawn with lines.
pub open spec fn is_stroked(m: Marker) -> bool {
    match m.shape {
        Shape::Line { .. } => true,
        Shape::Polygon { points } => points@.len() >= 2,
        Shape::Compass { .. } => true,
        _ => false,
    }
}

/// The picture with a region's lines: an arrow for a line, a closed outline for a polygon,
/// two arms to the east and to the north for a compass.
pub open spec fn stroked(f: Frame, c: CanvasView, m: Marker) -> CanvasView {
    let color = stroke_spec(m);
    match m.shape {
        Shape::Line { from, to } => arrow_spec(f, c, pixel_at(f, from), pixel_at(f, to), color),
        Shape::Polygon { points } => if points@.len() >= 2 {
            frame_line(
                f,
                sides_spec(f, c, points@, (points@.len() - 1) as nat, color),
                pixel_at(f, points@[points@.len() - 1]),
                pixel_at(f, points@[0]),
                color,
            )
        } else {
            c
        },
        Shape::Compass { center, len } => {
            let p = pixel_at(f, center);
            let l = cut32(len);
            frame_line(
                f,
                frame_line(f, c, p, (p.0 + l, p.1), color),
                p,
                (p.0, p.1 - l),
                color,
            )
        },
        _ => c,
    }
}

/// The picture with the lines of the first `n` regions.
pub open spec fn stroked_all(f: Frame, n: nat) -> CanvasView
    decreases n,
{
    if n == 0 {
        CanvasView::blank(f.fits.width as int, f.fits.height as int, clear())
    } else {
        stroked(f, stroked_all(f, (n - 1) as nat), f.markers@[n - 1])
    }
}

fn head(b: (i64, i64), u: (Double, Double), off: (Double, Double)) -> (r: (i64, i64))
    ensures
        (r.0 as int, r.1 as int) == head_spec((b.0 as int, b.1 as int), u, off),
        i32::MIN <= r.0 <= i32::MAX,
        i32::MIN <= r.1 <= i32::MAX,
{
    let head = Double { bits: 0x4022_0000_0000_0000 };
    let x: Double = Double::from_int(b.0).minus(u.0.times(head)).plus(
        off.0.times(head).times(Double { bits: 0x3fd9_9999_9999_999a }),
    );
    let y: Double = Double::from_int(b.1).minus(u.1.times(head)).plus(
        off.1.times(head).times(Double { bits: 0x3fd9_9999_9999_999a }),
    );
    (rounded_double(x), rounded_double(y))
}

fn draw_arrow(f: &Frame, canvas: &mut Canvas, a: (i64, i64), b: (i64, i64), color: Rgba)
    requires
        old(canvas)@.wf(),
        i32::MIN <= a.0 <= i32::MAX,
        i32::MIN <= a.1 <= i32::MAX,
        i32::MIN <= b.0 <= i32::MAX,
        i32::MIN <= b.1 <= i32::MAX,
    ensures
        final(canvas)@ == arrow_spec(
            *f,
            old(canvas)@,
            (a.0 as int, a.1 as int),
            (b.0 as int, b.1 as int),
            color,
        ),
        final(canvas)@.wf(),
{
    let cap: u64 = step_cap(f.fits.width, f.fits.height);
    canvas.draw_line(a.0, a.1, b.0, b.1, color, cap);
    let dx: Double = Double::from_int(b.0 - a.0);
    let dy: Double = Double::from_int(b.1 - a.1);
    let len: Double = dx.times(dx).plus(dy.times(dy)).sqrt().max(Double { bits: 0x3ff0_0000_0000_0000 });
    let u: (Double, Double) = (dx.over(len), dy.over(len));
    let left: (i64, i64) = head(b, u, (u.1.negate(), u.0));
    canvas.draw_line(b.0, b.1, left.0, left.1, color, cap);
    let right: (i64, i64) = head(b, u, (u.1, u.0.negate()));
    canvas.draw_line(b.0, b.1, right.0, right.1, color, cap);
}

fn draw_polygon(f: &Frame, canvas: &mut Canvas, points: &Vec<PixelPos>, color: Rgba)
    requires
        old(canvas)@.wf(),
        points@.len() >= 2,
    ensures
        final(canvas)@ == frame_line(
            *f,
            sides_spec(*f, old(canvas)@, points@, (points@.len() - 1) as nat, color),
            pixel_at(*f, points@[points@.len() - 1]),
            pixel_at(*f, points@[0]),
            color,
        ),
        final(canvas)@.wf(),
{
    let cap: u64 = step_cap(f.fits.width, f.fits.height);
    let n: usize = points.len();
    let ghost c0 = canvas@;
    for i in 0..n - 1
        invariant
            n == points@.len() >= 2,
            cap == cap_spec(f.fits.width as int, f.fits.height as int),
            canvas@.wf(),
            canvas@ == sides_spec(*f, c0, points@, i as nat, color),
    {
        let a: (i64, i64) = place(f, points[i]);
        let b: (i64, i64) = place(f, points[i + 1]);
        canvas.draw_line(a.0, a.1, b.0, b.1, color, cap);
    }
    let a: (i64, i64) = place(f, points[n - 1]);
    let b: (i64, i64) = place(f, points[0]);
    canvas.draw_line(a.0, a.1, b.0, b.1, color, cap);
}

/// The lines, polygons and compasses among a frame's regions, on a picture of the size of
/// its image; nothing where there are none or the image is empty.
pub fn render_line_overlay(f: &Frame) -> (r: Option<Canvas>)
    requires
        f.wf(),
    ensures
        ({
            let some = f.fits.width > 0 && f.fits.height > 0 && exists|i: int|
                0 <= i < f.markers@.len() && is_stroked(#[trigger] f.markers@[i]);
            match r {
                Some(c) => some && c@ == stroked_all(*f, f.markers@.len()) && c@.wf(),
                None => !some,
            }
        }),
{
    let (w, h): (usize, usize) = (f.fits.width, f.fits.height);
    if w == 0 || h == 0 {
        return None;
    }
    assert(w * h <= w * h * 4) by (nonlinear_arith)
        requires
            w * h >= 0,
    ;
    let mut canvas = Canvas::new(w, h, Rgba { r: 0, g: 0, b: 0, a: 0 });
    let cap: u64 = step_cap(w, h);
    let mut any: bool = false;
    for i in 0..f.markers.len()
        invariant
            w == f.fits.width,
            h == f.fits.height,
            cap == cap_spec(w as int, h as int),
            canvas@.wf(),
            canvas@ == stroked_all(*f, i as nat),
            any <==> exists|k: int| 0 <= k < i && is_stroked(#[trigger] f.markers@[k]),
    {
        let m = &f.markers[i];
        let color = Rgba { r: m.color[0], g: m.color[1], b: m.color[2], a: m.color[3] };
        assert(is_stroked(f.markers@[i as int]) ==> exists|k: int|
            0 <= k < i + 1 && is_stroked(#[trigger] f.markers@[k]));
        match &m.shape {
            Shape::Line { from, to } => {
                let a: (i64, i64) = place(f, *from);
                let b: (i64, i64) = place(f, *to);
                draw_arrow(f, &mut canvas, a, b, color);
                any = true;
            },
            Shape::Polygon { points } => {
                if points.len() >= 2 {
                    draw_polygon(f, &mut canvas, points, color);
                    any = true;
                }
            },
            Shape::Compass { center, len } => {
                let p: (i64, i64) = place(f, *center);
                let l: i64 = len.whole(Whole::Trunc, i32::MIN as i128, i32::MAX as i128) as i64;
                canvas.draw_line(p.0, p.1, p.0 + l, p.1, color, cap);
                canvas.draw_line(p.0, p.1, p.0, p.1 - l, color, cap);
                any = true;
            },
            _ => {},
        }
    }
    if any {
        Some(canvas)
    } else {
        None
    }
}

// ---------------------------------------------------------------------------
// Contours
// ---------------------------------------------------------------------------

/// The value of the contour `k` of five between the limits.
pub open spec fn level_spec(lim: Limits, k: int) -> Double {
    let lo = lim.low.widen();
    let span = lim.high.widen().minus(lo);
    lo.plus(span.times(Double::from_int_spec(k + 1)).over(Double { bits: 0x4018_0000_0000_0000 }))
}

/// The colour of the contour `k` of five.
pub open spec fn contour_color(k: int) -> Rgba {
    if k == 0 {
        Rgba { r: 0x38, g: 0x98, b: 0xec, a: 0xe0 }
    } else if k == 1 {
        Rgba { r: 0x4e, g: 0xc9, b: 0xb0, a: 0xe0 }
    } else if k == 2 {
        Rgba { r: 0xff, g: 0xc1, b: 0x07, a: 0xe0 }
    } else if k == 3 {
        Rgba { r: 0xd9, g: 0x77, b: 0x57, a: 0xe0 }
    } else {
        Rgba { r: 0xff, g: 0x6b, b: 0x9d, a: 0xe0 }
    }
}

fn color_of(k: usize) -> (r: Rgba)
    ensures
        r == contour_color(k as int),
{
    if k == 0 {
        Rgba { r: 0x38, g: 0x98, b: 0xec, a: 0xe0 }
    } else if k == 1 {
        Rgba { r: 0x4e, g: 0xc9, b: 0xb0, a: 0xe0 }
    } else if k == 2 {
        Rgba { r: 0xff, g: 0xc1, b: 0x07, a: 0xe0 }
    } else if k == 3 {
        Rgba { r: 0xd9, g: 0x77, b: 0x57, a: 0xe0 }
    } else {
        Rgba { r: 0xff, g: 0x6b, b: 0x9d, a: 0xe0 }
    }
}

/// Whether a level lies strictly between two values.
pub open spec fn crosses(a: Double, b: Double, level: Double) -> bool {
    a.minus(level).times(b.minus(level)).lt(Double { bits: 0 })
}

/// Whether a level lies between a pixel and one of its neighbours, where that is there and
/// finite.
pub open spec fn is_hit(v: Double, right: Option<Double>, down: Option<Double>, level: Double) -> bool {
    ||| right matches Some(r) && r.is_finite() && crosses(v, r, level)
    ||| down matches Some(d) && d.is_finite() && crosses(v, d, level)
}

/// The first contour from `k` on that passes between a pixel and its neighbours.
pub open spec fn first_hit(
    lim: Limits,
    v: Double,
    right: Option<Double>,
    down: Option<Double>,
    k: int,
) -> Option<int>
    decreases 5 - k,
{
    if k < 0 || k >= 5 {
        None
    } else if is_hit(v, right, down, level_spec(lim, k)) {
        Some(k)
    } else {
        first_hit(lim, v, right, down, k + 1)
    }
}

/// The colour of the contours at the pixel `(x, y)` of the data.
pub open spec fn contour_pixel(f: Frame, lim: Limits, x: int, y: int) -> Rgba {
    let (w, h) = (f.fits.width as int, f.fits.height as int);
    let v = f.fits.data@[y * w + x].widen();
    let right = if x + 1 < w {
        Some(f.fits.data@[y * w + x + 1].widen())
    } else {
        None
    };
    let down = if y + 1 < h {
        Some(f.fits.data@[(y + 1) * w + x].widen())
    } else {
        None
    };
    if !v.is_finite() {
        clear()
    } else {
        match first_hit(lim, v, right, down, 0) {
            Some(k) => contour_color(k),
            None => clear(),
        }
    }
}

/// The contours of a frame's image, rows from the top down.
pub open spec fn contour_pixels(f: Frame, lim: Limits) -> Seq<Rgba> {
    let (w, h) = (f.fits.width as int, f.fits.height as int);
    Seq::new((w * h) as nat, |p: int| contour_pixel(f, lim, p % w, h - 1 - p / w))
}

fn is_crossed(v: Double, right: Option<Double>, down: Option<Double>, level: Double) -> (r: bool)
    ensures
        r == is_hit(v, right, down, level),
{
    if let Some(x) = right {
        if x.is_finite() && v.minus(level).times(x.minus(level)).lt(Double { bits: 0 }) {
            return true;
        }
    }
    if let Some(x) = down {
        if x.is_finite() && v.minus(level).times(x.minus(level)).lt(Double { bits: 0 }) {
            return true;
        }
    }
    false
}

fn first_crossed(
    lim: Limits,
    levels: &Vec<Double>,
    v: Double,
    right: Option<Double>,
    down: Option<Double>,
) -> (r: Option<usize>)
    requires
        levels@.len() == 5,
        forall|k: int| 0 <= k < 5 ==> #[trigger] levels@[k] == level_spec(lim, k),
    ensures
        match first_hit(lim, v, right, down, 0) {
            Some(k) => r is Some && r->0 == k,
            None => r is None,
        },
{
    let mut k: usize = 0;
    while k < 5
        invariant
            k <= 5,
            levels@.len() == 5,
            forall|i: int| 0 <= i < 5 ==> #[trigger] levels@[i] == level_spec(lim, i),
            first_hit(lim, v, right, down, 0) == first_hit(lim, v, right, down, k as int),
        decreases 5 - k,
    {
        if is_crossed(v, right, down, levels[k]) {
            return Some(k);
        }
        k = k + 1;
    }
    None
}

fn contour_of(f: &Frame, lim: Limits, levels: &Vec<Double>, x: usize, y: usize) -> (r: Rgba)
    requires
        f.wf(),
        x < f.fits.width,
        y < f.fits.height,
        levels@.len() == 5,
        forall|k: int| 0 <= k < 5 ==> #[trigger] levels@[k] == level_spec(lim, k),
    ensures
        r == contour_pixel(*f, lim, x as int, y as int),
{
    let (w, h): (usize, usize) = (f.fits.width, f.fits.height);
    let v: Double = pixel(&f.fits.data, w, h, x, y).widen();
    if !v.is_finite() {
        return Rgba { r: 0, g: 0, b: 0, a: 0 };
    }
    let right: Option<Double> = if x + 1 < w {
        Some(pixel(&f.fits.data, w, h, x + 1, y).widen())
    } else {
        None
    };
    let down: Option<Double> = if y + 1 < h {
        Some(pixel(&f.fits.data, w, h, x, y + 1).widen())
    } else {
        None
    };
    match first_crossed(lim, levels, v, right, down) {
        Some(k) => color_of(k),
        None => Rgba { r: 0, g: 0, b: 0, a: 0 },
    }
}

/// Five contours of a frame's image between its limits, one pixel for each place where a
/// contour passes to the right or upwards; the bytes of a picture in the frame's
/// orientation.
pub fn render_contour_overlay(f: &Frame) -> (r: Vec<u8>)
    requires
        f.wf(),
    ensures
        exists|lim: Limits| #[trigger]
            Frame::has_limits(f.limits_mode, f.fits, lim) && r@ == oriented(
                bytes_spec(contour_pixels(*f, lim)),
                f.fits.width as int,
                f.fits.height as int,
                f.orientation,
            ),
{
    let lim: Limits = f.limits();
    let (w, h): (usize, usize) = (f.fits.width, f.fits.height);
    let lo: Double = lim.low.widen();
    let span: Double = lim.high.widen().minus(lo);
    let mut levels: Vec<Double> = Vec::new();
    for k in 0..5i64
        invariant
            lo == lim.low.widen(),
            span == lim.high.widen().minus(lo),
            levels@.len() == k,
            forall|i: int| 0 <= i < k ==> #[trigger] levels@[i] == level_spec(lim, i),
    {
        levels.push(lo.plus(span.times(Double::from_int(k + 1)).over(Double { bits: 0x4018_0000_0000_0000 })));
    }
    let ghost want = contour_pixels(*f, lim);
    assert(w * h <= w * h * 4) by (nonlinear_arith)
        requires
            w * h >= 0,
    ;
    let mut pixels: Vec<Rgba> = Vec::new();
    assert(0 * w == 0) by (nonlinear_arith);
    for y in 0..h
        invariant
            f.wf(),
            w == f.fits.width,
            h == f.fits.height,
            levels@.len() == 5,
            forall|k: int| 0 <= k < 5 ==> #[trigger] levels@[k] == level_spec(lim, k),
            want == contour_pixels(*f, lim),
            y * w <= w * h,
            pixels@ =~= want.take(y * w),
    {
        for x in 0..w
            invariant
                f.wf(),
                w == f.fits.width,
                h == f.fits.height,
                y < h,
                levels@.len() == 5,
                forall|k: int| 0 <= k < 5 ==> #[trigger] levels@[k] == level_spec(lim, k),
                want == contour_pixels(*f, lim),
                y * w + x <= w * h,
                pixels@ =~= want.take(y * w + x),
        {
            proof {
                pixel_place(x as int, y as int, w as int, h as int);
            }
            let ghost before = pixels@;
            pixels.push(contour_of(f, lim, &levels, x, h - 1 - y));
            assert(pixels@ =~= before.push(want[y * w + x]));
        }
        proof {
            assert((y + 1) * w == y * w + w) by (nonlinear_arith);
            assert((y + 1) * w <= w * h) by (nonlinear_arith)
                requires
                    y + 1 <= h,
                    w >= 0,
            ;
        }
    }
    assert(h * w == w * h) by (nonlinear_arith);
    assert(pixels@ =~= want);
    let canvas = Canvas { width: w, height: h, pixels };
    let mut bytes = canvas.bytes();
    assert(w * h * 4 == 4 * (w * h)) by (nonlinear_arith);
    apply_orientation_rgba(&mut bytes, w, h, f.orientation);
    assert(Frame::has_limits(f.limits_mode, f.fits, lim));
    bytes
}

// ---------------------------------------------------------------------------
// Grid
// ---------------------------------------------------------------------------

/// The point `i` of 68 on the edges of an image, whose sky positions bracket the grid: at
/// each of 17 even distances one on the lower, the upper, the left and the right edge.
pub open spec fn edge_point(w: int, h: int, i: int) -> (Double, Double) {
    let t = Double::from_int_spec(i / 4).over(Double { bits: 0x4030_0000_0000_0000 });
    let fw = Double::from_int_spec(w);
    let fh = Double::from_int_spec(h);
    let xs = Double { bits: 0x3ff0_0000_0000_0000 }.plus(t.times(fw.minus(Double { bits: 0x3ff0_0000_0000_0000 })));
    let ys = Double { bits: 0x3ff0_0000_0000_0000 }.plus(t.times(fh.minus(Double { bits: 0x3ff0_0000_0000_0000 })));
    if i % 4 == 0 {
        (xs, Double { bits: 0x3ff0_0000_0000_0000 })
    } else if i % 4 == 1 {
        (xs, fh)
    } else if i % 4 == 2 {
        (Double { bits: 0x3ff0_0000_0000_0000 }, ys)
    } else {
        (fw, ys)
    }
}

/// The points on the edges of an image whose sky positions bracket the grid.
pub fn edge_points(w: usize, h: usize) -> (r: Vec<(Double, Double)>)
    ensures
        r@ == Seq::new(68, |i: int| edge_point(w as int, h as int, i)),
{
    let mut r: Vec<(Double, Double)> = Vec::new();
    let one = Double { bits: 0x3ff0_0000_0000_0000 };
    let fw: Double = Double::from_nat(w as u64);
    let fh: Double = Double::from_nat(h as u64);
    for i in 0..17usize
        invariant
            one == (Double { bits: 0x3ff0_0000_0000_0000 }),
            fw == Double::from_int_spec(w as int),
            fh == Double::from_int_spec(h as int),
            r@ =~= Seq::new((4 * i) as nat, |k: int| edge_point(w as int, h as int, k)),
    {
        let t: Double = Double::from_int(i as i64).over(Double { bits: 0x4030_0000_0000_0000 });
        let xs: Double = one.plus(t.times(fw.minus(one)));
        let ys: Double = one.plus(t.times(fh.minus(one)));
        r.push((xs, one));
        r.push((xs, fh));
        r.push((one, ys));
        r.push((fw, ys));
        assert(r@ =~= Seq::new((4 * (i + 1)) as nat, |k: int| edge_point(w as int, h as int, k)));
    }
    r
}

/// The least of the numbers, from infinity down.
pub open spec fn fold_min(v: Seq<Double>) -> Double
    decreases v.len(),
{
    if v.len() == 0 {
        Double { bits: 0x7ff0_0000_0000_0000 }
    } else {
        fold_min(v.drop_last()).min(v.last())
    }
}

/// The greatest of the numbers, from minus infinity up.
pub open spec fn fold_max(v: Seq<Double>) -> Double
    decreases v.len(),
{
    if v.len() == 0 {
        Double { bits: 0xfff0_0000_0000_0000 }
    } else {
        fold_max(v.drop_last()).max(v.last())
    }
}

fn extremes(v: &Vec<Double>) -> (r: (Double, Double))
    ensures
        r == (fold_min(v@), fold_max(v@)),
{
    let mut lo = Double { bits: 0x7ff0_0000_0000_0000 };
    let mut hi = Double { bits: 0xfff0_0000_0000_0000 };
    assert(v@.take(0) =~= Seq::empty());
    for i in 0..v.len()
        invariant
            lo == fold_min(v@.take(i as int)),
            hi == fold_max(v@.take(i as int)),
    {
        assert(v@.take(i + 1).drop_last() =~= v@.take(i as int));
        lo = lo.min(v[i]);
        hi = hi.max(v[i]);
    }
    assert(v@.take(v@.len() as int) =~= v@);
    (lo, hi)
}

/// Right ascensions with those below half a turn moved up by a turn.
pub open spec fn unwrapped(ras: Seq<Double>) -> Seq<Double> {
    Seq::new(
        ras.len(),
        |i: int|
            if ras[i].lt(Double { bits: 0x4066_8000_0000_0000 }) {
                ras[i].plus(Double { bits: 0x4076_8000_0000_0000 })
            } else {
                ras[i]
            },
    )
}

/// The range of the right ascensions; where they seem to span more than half a turn, they
/// lie on either side of zero.
pub open spec fn ra_range(ras: Seq<Double>) -> (Double, Double) {
    if (Double { bits: 0x4066_8000_0000_0000 }).lt(fold_max(ras).minus(fold_min(ras))) {
        (fold_min(unwrapped(ras)), fold_max(unwrapped(ras)))
    } else {
        (fold_min(ras), fold_max(ras))
    }
}

/// The distances between grid lines to choose from, in degrees.
pub open spec fn grid_steps() -> Seq<Double> {
    let sixty = Double { bits: 0x404e_0000_0000_0000 };
    let hour = Double { bits: 0x40ac_2000_0000_0000 };
    seq![
        Double { bits: 0x403e_0000_0000_0000 },
        Double { bits: 0x402e_0000_0000_0000 },
        Double { bits: 0x4024_0000_0000_0000 },
        Double { bits: 0x4014_0000_0000_0000 },
        Double { bits: 0x4000_0000_0000_0000 },
        Double { bits: 0x3ff0_0000_0000_0000 },
        Double { bits: 0x3fe0_0000_0000_0000 },
        Double { bits: 0x403e_0000_0000_0000 }.over(sixty),
        Double { bits: 0x402e_0000_0000_0000 }.over(sixty),
        Double { bits: 0x4024_0000_0000_0000 }.over(sixty),
        Double { bits: 0x4014_0000_0000_0000 }.over(sixty),
        Double { bits: 0x4000_0000_0000_0000 }.over(sixty),
        Double { bits: 0x3ff0_0000_0000_0000 }.over(sixty),
        Double { bits: 0x403e_0000_0000_0000 }.over(hour),
        Double { bits: 0x402e_0000_0000_0000 }.over(hour),
        Double { bits: 0x4024_0000_0000_0000 }.over(hour),
        Double { bits: 0x4014_0000_0000_0000 }.over(hour),
        Double { bits: 0x4000_0000_0000_0000 }.over(hour),
        Double { bits: 0x3ff0_0000_0000_0000 }.over(hour),
    ]
}

/// The first distance from the place `k` on that gives two to eight lines; the last one
/// where none does.
pub open spec fn step_from(span: Double, k: int) -> Double
    decreases 19 - k,
{
    let n = span.over(grid_steps()[k]);
    if k < 0 || k >= 19 {
        grid_steps()[18]
    } else if n.le(Double { bits: 0x4020_0000_0000_0000 }) && (Double { bits: 0x4000_0000_0000_0000 }).le(n) {
        grid_steps()[k]
    } else {
        step_from(span, k + 1)
    }
}

/// The distance between grid lines over a span in degrees.
pub fn nice_step(span: Double) -> (r: Double)
    ensures
        r == step_from(span, 0),
{
    let sixty = Double { bits: 0x404e_0000_0000_0000 };
    let hour = Double { bits: 0x40ac_2000_0000_0000 };
    let mut steps: Vec<Double> = Vec::new();
    steps.push(Double { bits: 0x403e_0000_0000_0000 });
    steps.push(Double { bits: 0x402e_0000_0000_0000 });
    steps.push(Double { bits: 0x4024_0000_0000_0000 });
    steps.push(Double { bits: 0x4014_0000_0000_0000 });
    steps.push(Double { bits: 0x4000_0000_0000_0000 });
    steps.push(Double { bits: 0x3ff0_0000_0000_0000 });
    steps.push(Double { bits: 0x3fe0_0000_0000_0000 });
    steps.push((Double { bits: 0x403e_0000_0000_0000 }).over(sixty));
    steps.push((Double { bits: 0x402e_0000_0000_0000 }).over(sixty));
    steps.push((Double { bits: 0x4024_0000_0000_0000 }).over(sixty));
    steps.push((Double { bits: 0x4014_0000_0000_0000 }).over(sixty));
    steps.push((Double { bits: 0x4000_0000_0000_0000 }).over(sixty));
    steps.push((Double { bits: 0x3ff0_0000_0000_0000 }).over(sixty));
    steps.push((Double { bits: 0x403e_0000_0000_0000 }).over(hour));
    steps.push((Double { bits: 0x402e_0000_0000_0000 }).over(hour));
    steps.push((Double { bits: 0x4024_0000_0000_0000 }).over(hour));
    steps.push((Double { bits: 0x4014_0000_0000_0000 }).over(hour));
    steps.push((Double { bits: 0x4000_0000_0000_0000 }).over(hour));
    steps.push((Double { bits: 0x3ff0_0000_0000_0000 }).over(hour));
    assert(steps@ =~= grid_steps());
    let mut k: usize = 0;
    while k < 19
        invariant
            k <= 19,
            steps@ == grid_steps(),
            steps@.len() == 19,
            step_from(span, 0) == step_from(span, k as int),
        decreases 19 - k,
    {
        let n: Double = span.over(steps[k]);
        if n.le(Double { bits: 0x4020_0000_0000_0000 }) && (Double { bits: 0x4000_0000_0000_0000 }).le(n) {
            return steps[k];
        }
        k = k + 1;
    }
    steps[18]
}

/// The grid lines of one kind: lines at multiples of a step over a range, each sampled over
/// the range of the other coordinate.
pub struct Sweep {
    pub lo: Double,
    pub hi: Double,
    pub step: Double,
    pub other_lo: Double,
    pub other_hi: Double,
}

impl Sweep {
    /// The coordinate of the line `k`.
    pub open spec fn line(self, k: int) -> Double {
        self.first().plus(Double::from_int_spec(k).times(self.step))
    }

    /// The coordinate of the first line: the multiple of the step below the range.
    pub open spec fn first(self) -> Double {
        floor_spec(self.lo.over(self.step)).times(self.step)
    }

    /// The number of lines to try.
    pub open spec fn count(self) -> int {
        self.hi.minus(self.first()).over(self.step).whole_spec(
            Whole::Ceil,
            i32::MIN as int,
            i32::MAX as int,
        ) + 1
    }

    /// Whether the line `k` lies within half a step of the range.
    pub open spec fn in_range(self, k: int) -> bool {
        let half = Double { bits: 0x3fe0_0000_0000_0000 }.times(self.step);
        !self.line(k).lt(self.lo.minus(half)) && !self.hi.plus(half).lt(self.line(k))
    }

    /// The other coordinate at the sample `j` of 201.
    pub open spec fn sample(self, j: int) -> Double {
        self.other_lo.plus(
            Double::from_int_spec(j).over(Double { bits: 0x4069_0000_0000_0000 }).times(self.other_hi.minus(self.other_lo)),
        )
    }
}

/// A number rounded down, as a number. Past 2^52 every number is whole.
pub open spec fn floor_spec(x: Double) -> Double {
    if x.raw().mag > 0 && x.abs().lt(Double { bits: 0x4330_0000_0000_0000 }) {
        Double::from_int_spec(x.whole_spec(Whole::Floor, i64::MIN as int, i64::MAX as int))
    } else {
        x
    }
}

/// A number rounded down, as a number.
pub fn floor(x: Double) -> (r: Double)
    ensures
        r == floor_spec(x),
{
    if x.raw().mag > 0 && x.abs().lt(Double { bits: 0x4330_0000_0000_0000 }) {
        Double::from_int(x.whole(Whole::Floor, i64::MIN as i128, i64::MAX as i128) as i64)
    } else {
        x
    }
}

/// The sky positions of the samples of a line of constant declination.
pub open spec fn dec_line(s: Sweep, k: int) -> Seq<(Double, Double)> {
    Seq::new(201, |j: int| (wrapped_spec(s.sample(j), Double { bits: 0x4076_8000_0000_0000 }), s.line(k)))
}

/// The sky positions of the samples of a line of constant right ascension.
pub open spec fn ra_line(s: Sweep, k: int) -> Seq<(Double, Double)> {
    Seq::new(201, |j: int| (wrapped_spec(s.line(k), Double { bits: 0x4076_8000_0000_0000 }), s.sample(j)))
}

/// The lines of constant declination before the line `n`.
pub open spec fn dec_lines(s: Sweep, n: int) -> Seq<Seq<(Double, Double)>>
    decreases n,
{
    if n <= 0 {
        Seq::empty()
    } else if s.in_range(n - 1) {
        dec_lines(s, n - 1).push(dec_line(s, n - 1))
    } else {
        dec_lines(s, n - 1)
    }
}

/// The lines of constant right ascension before the line `n`.
pub open spec fn ra_lines(s: Sweep, n: int) -> Seq<Seq<(Double, Double)>>
    decreases n,
{
    if n <= 0 {
        Seq::empty()
    } else if s.in_range(n - 1) {
        ra_lines(s, n - 1).push(ra_line(s, n - 1))
    } else {
        ra_lines(s, n - 1)
    }
}

/// The lines of constant declination over the ranges of the given sky positions.
pub open spec fn dec_sweep(ras: Seq<Double>, decs: Seq<Double>) -> Sweep {
    let (lo, hi) = (fold_min(decs), fold_max(decs));
    let (other_lo, other_hi) = ra_range(ras);
    Sweep { lo, hi, step: step_from(hi.minus(lo), 0), other_lo, other_hi }
}

/// The lines of constant right ascension over the ranges of the given sky positions.
pub open spec fn ra_sweep(ras: Seq<Double>, decs: Seq<Double>) -> Sweep {
    let (lo, hi) = ra_range(ras);
    Sweep {
        lo,
        hi,
        step: step_from(hi.minus(lo), 0),
        other_lo: fold_min(decs),
        other_hi: fold_max(decs),
    }
}

/// The lines of the grid over the ranges of the given sky positions: those of constant
/// declination and then those of constant right ascension. None where the declinations
/// are not finite.
pub open spec fn grid_lines_spec(ras: Seq<Double>, decs: Seq<Double>) -> Option<
    Seq<Seq<(Double, Double)>>,
> {
    let d = dec_sweep(ras, decs);
    let r = ra_sweep(ras, decs);
    if !d.lo.is_finite() || !d.hi.is_finite() {
        None
    } else {
        Some(dec_lines(d, d.count()) + ra_lines(r, r.count()))
    }
}

/// The contents of a list of lines.
pub open spec fn line_views(v: Seq<Vec<(Double, Double)>>) -> Seq<Seq<(Double, Double)>> {
    Seq::new(v.len(), |i: int| v[i]@)
}

fn put_sweep(out: &mut Vec<Vec<(Double, Double)>>, s: Sweep, of_dec: bool)
    ensures
        line_views(final(out)@) == line_views(old(out)@) + if of_dec {
            dec_lines(s, s.count())
        } else {
            ra_lines(s, s.count())
        },
{
    let ghost before = line_views(out@);
    let turn = Double { bits: 0x4076_8000_0000_0000 };
    let first: Double = floor(s.lo.over(s.step)).times(s.step);
    let count: i64 = s.hi.minus(first).over(s.step).whole(
        Whole::Ceil,
        i32::MIN as i128,
        i32::MAX as i128,
    ) as i64 + 1;
    let half: Double = (Double { bits: 0x3fe0_0000_0000_0000 }).times(s.step);
    let mut k: i64 = 0;
    assert(line_views(out@) =~= before + Seq::empty());
    while k < count
        invariant
            turn == (Double { bits: 0x4076_8000_0000_0000 }),
            first == s.first(),
            count == s.count(),
            half == (Double { bits: 0x3fe0_0000_0000_0000 }).times(s.step),
            0 <= k,
            k <= count || k == 0,
            line_views(out@) == before + if of_dec {
                dec_lines(s, k as int)
            } else {
                ra_lines(s, k as int)
            },
        decreases count - k,
    {
        let at: Double = first.plus(Double::from_int(k).times(s.step));
        if !at.lt(s.lo.minus(half)) && !s.hi.plus(half).lt(at) {
            let mut line: Vec<(Double, Double)> = Vec::new();
            for j in 0..201i64
                invariant
                    turn == (Double { bits: 0x4076_8000_0000_0000 }),
                    at == s.line(k as int),
                    of_dec ==> line@ =~= dec_line(s, k as int).take(j as int),
                    !of_dec ==> line@ =~= ra_line(s, k as int).take(j as int),
            {
                let other: Double = s.other_lo.plus(
                    Double::from_int(j).over(Double { bits: 0x4069_0000_0000_0000 }).times(s.other_hi.minus(s.other_lo)),
                );
                if of_dec {
                    line.push((wrapped(other, turn), at));
                } else {
                    line.push((wrapped(at, turn), other));
                }
            }
            assert(of_dec ==> line@ =~= dec_line(s, k as int));
            assert(!of_dec ==> line@ =~= ra_line(s, k as int));
            let ghost lines0 = line_views(out@);
            out.push(line);
            assert(line_views(out@) =~= lines0.push(line@));
            assert(line_views(out@) =~= before + if of_dec {
                dec_lines(s, k + 1)
            } else {
                ra_lines(s, k + 1)
            });
        }
        k = k + 1;
    }
    assert(count <= 0 ==> dec_lines(s, count as int) == dec_lines(s, 0) && ra_lines(s, count as int)
        == ra_lines(s, 0));
}

/// The lines of the grid, as sky positions, over the ranges of the sky positions of the
/// [`edge_points`].
pub fn grid_lines(ras: &Vec<Double>, decs: &Vec<Double>) -> (r: Option<Vec<Vec<(Double, Double)>>>)
    ensures
        match r {
            Some(v) => grid_lines_spec(ras@, decs@) == Some(line_views(v@)),
            None => grid_lines_spec(ras@, decs@) is None,
        },
{
    let (dec_min, dec_max): (Double, Double) = extremes(decs);
    if !dec_min.is_finite() || !dec_max.is_finite() {
        return None;
    }
    let (ra_lo, ra_hi): (Double, Double) = extremes(ras);
    let (ra_min, ra_max): (Double, Double) = if (Double { bits: 0x4066_8000_0000_0000 }).lt(ra_hi.minus(ra_lo)) {
        let mut shifted: Vec<Double> = Vec::new();
        for i in 0..ras.len()
            invariant
                shifted@ =~= unwrapped(ras@).take(i as int),
        {
            if ras[i].lt(Double { bits: 0x4066_8000_0000_0000 }) {
                shifted.push(ras[i].plus(Double { bits: 0x4076_8000_0000_0000 }));
            } else {
                shifted.push(ras[i]);
            }
        }
        assert(shifted@ =~= unwrapped(ras@));
        extremes(&shifted)
    } else {
        (ra_lo, ra_hi)
    };
    let ra_step: Double = nice_step(ra_max.minus(ra_min));
    let dec_step: Double = nice_step(dec_max.minus(dec_min));
    let mut out: Vec<Vec<(Double, Double)>> = Vec::new();
    assert(line_views(out@) =~= Seq::empty());
    put_sweep(
        &mut out,
        Sweep { lo: dec_min, hi: dec_max, step: dec_step, other_lo: ra_min, other_hi: ra_max },
        true,
    );
    put_sweep(
        &mut out,
        Sweep { lo: ra_min, hi: ra_max, step: ra_step, other_lo: dec_min, other_hi: dec_max },
        false,
    );
    assert(line_views(out@) =~= grid_lines_spec(ras@, decs@)->0);
    Some(out)
}

/// The pixel of the display, before any orientation, at an image position.
pub open spec fn grid_pixel(p: (Double, Double), h: int) -> (int, int) {
    (round_double32(p.0.minus(Double { bits: 0x3ff0_0000_0000_0000 })), round_double32(Double::from_int_spec(h).minus(p.1)))
}

/// The colour of the grid.
pub open spec fn grid_color() -> Rgba {
    Rgba { r: 0x4e, g: 0xc9, b: 0xb0, a: 0x90 }
}

/// The picture with the first `n` points of a line joined. A point that has no image
/// position breaks the line.
pub open spec fn joined(c: CanvasView, pts: Seq<Option<(Double, Double)>>, n: nat) -> CanvasView
    decreases n,
{
    if n == 0 {
        c
    } else {
        let before = joined(c, pts, (n - 1) as nat);
        if n >= 2 && pts[n - 1] is Some && pts[n - 2] is Some {
            let a = grid_pixel(pts[n - 2]->0, c.height);
            let b = grid_pixel(pts[n - 1]->0, c.height);
            line_spec(
                before,
                Line {
                    x0: a.0,
                    y0: a.1,
                    x1: b.0,
                    y1: b.1,
                    color: grid_color(),
                    cap: cap_spec(c.width, c.height),
                },
            )
        } else {
            before
        }
    }
}

/// The picture with the first `n` lines.
pub open spec fn joined_all(
    c: CanvasView,
    lines: Seq<Vec<Option<(Double, Double)>>>,
    n: nat,
) -> CanvasView
    decreases n,
{
    if n == 0 {
        c
    } else {
        joined(joined_all(c, lines, (n - 1) as nat), lines[n - 1]@, lines[n - 1]@.len())
    }
}

/// Drawing changes no size.
proof fn joined_keeps_size(c: CanvasView, pts: Seq<Option<(Double, Double)>>, n: nat)
    ensures
        joined(c, pts, n).width == c.width,
        joined(c, pts, n).height == c.height,
    decreases n,
{
    if n > 0 {
        joined_keeps_size(c, pts, (n - 1) as nat);
        if n >= 2 && pts[n - 1] is Some && pts[n - 2] is Some {
            let a = grid_pixel(pts[n - 2]->0, c.height);
            let b = grid_pixel(pts[n - 1]->0, c.height);
            line_keeps_size(
                joined(c, pts, (n - 1) as nat),
                Line {
                    x0: a.0,
                    y0: a.1,
                    x1: b.0,
                    y1: b.1,
                    color: grid_color(),
                    cap: cap_spec(c.width, c.height),
                },
                0,
                0,
                0,
            );
        }
    }
}

fn join(canvas: &mut Canvas, pts: &Vec<Option<(Double, Double)>>)
    requires
        old(canvas)@.wf(),
    ensures
        final(canvas)@ == joined(old(canvas)@, pts@, pts@.len()),
        final(canvas)@.wf(),
        final(canvas)@.width == old(canvas)@.width,
        final(canvas)@.height == old(canvas)@.height,
{
    let ghost c0 = canvas@;
    let cap: u64 = step_cap(canvas.width, canvas.height);
    let fh: Double = Double::from_nat(canvas.height as u64);
    let mut prev: Option<(i64, i64)> = None;
    for i in 0..pts.len()
        invariant
            canvas@.wf(),
            canvas@ == joined(c0, pts@, i as nat),
            cap == cap_spec(c0.width, c0.height),
            fh == Double::from_int_spec(c0.height),
            match prev {
                Some(p) => i > 0 && pts@[i - 1] is Some && (p.0 as int, p.1 as int) == grid_pixel(
                    pts@[i - 1]->0,
                    c0.height,
                ) && i32::MIN <= p.0 <= i32::MAX && i32::MIN <= p.1 <= i32::MAX,
                None => i == 0 || pts@[i - 1] is None,
            },
    {
        match pts[i] {
            Some(q) => {
                let p: (i64, i64) = (
                    rounded_double(q.0.minus(Double { bits: 0x3ff0_0000_0000_0000 })),
                    rounded_double(fh.minus(q.1)),
                );
                if let Some(a) = prev {
                    canvas.draw_line(
                        a.0,
                        a.1,
                        p.0,
                        p.1,
                        Rgba { r: 0x4e, g: 0xc9, b: 0xb0, a: 0x90 },
                        cap,
                    );
                }
                prev = Some(p);
            },
            None => {
                prev = None;
            },
        }
    }
    proof {
        joined_keeps_size(c0, pts@, pts@.len());
    }
}

/// Whether a sample of a line has an image position.
pub open spec fn has_place(lines: Seq<Vec<Option<(Double, Double)>>>, i: int, j: int) -> bool {
    0 <= i < lines.len() && 0 <= j < lines[i]@.len() && lines[i]@[j] is Some
}

fn any_place(lines: &Vec<Vec<Option<(Double, Double)>>>) -> (r: bool)
    ensures
        r == exists|i: int, j: int| has_place(lines@, i, j),
{
    for i in 0..lines.len()
        invariant
            forall|a: int, b: int| a < i ==> !has_place(lines@, a, b),
    {
        let k: usize = lines[i].len();
        for j in 0..k
            invariant
                i < lines@.len(),
                k == lines@[i as int]@.len(),
                forall|a: int, b: int| a < i ==> !has_place(lines@, a, b),
                forall|b: int| b < j ==> !has_place(lines@, i as int, b),
        {
            if lines[i][j].is_some() {
                assert(has_place(lines@, i as int, j as int));
                return true;
            }
        }
        assert forall|a: int, b: int| a < i + 1 implies !has_place(lines@, a, b) by {
            if a == i {
                assert(!has_place(lines@, i as int, b));
            }
        }
    }
    false
}

/// The grid, from the image positions of its lines' samples: the bytes of a picture in the
/// frame's orientation. There is none for an image without pixels, nor where no sample has an
/// image position.
pub fn draw_grid(f: &Frame, lines: &Vec<Vec<Option<(Double, Double)>>>) -> (r: Option<Vec<u8>>)
    requires
        f.wf(),
    ensures
        r is None <==> (f.fits.width == 0 || f.fits.height == 0 || !exists|i: int, j: int|
            has_place(lines@, i, j)),
        r matches Some(b) ==> b@ == oriented(
            bytes_spec(
                joined_all(
                    CanvasView::blank(f.fits.width as int, f.fits.height as int, clear()),
                    lines@,
                    lines@.len(),
                ).pixels,
            ),
            f.fits.width as int,
            f.fits.height as int,
            f.orientation,
        ),
{
    let (w, h): (usize, usize) = (f.fits.width, f.fits.height);
    if w == 0 || h == 0 || !any_place(lines) {
        return None;
    }
    assert(w * h <= w * h * 4) by (nonlinear_arith)
        requires
            w * h >= 0,
    ;
    let mut canvas = Canvas::new(w, h, Rgba { r: 0, g: 0, b: 0, a: 0 });
    let ghost c0 = canvas@;
    for i in 0..lines.len()
        invariant
            canvas@.wf(),
            canvas@.width == w,
            canvas@.height == h,
            canvas@ == joined_all(c0, lines@, i as nat),
    {
        join(&mut canvas, &lines[i]);
    }
    let mut bytes = canvas.bytes();
    assert(w * h * 4 == 4 * (w * h)) by (nonlinear_arith);
    apply_orientation_rgba(&mut bytes, w, h, f.orientation);
    Some(bytes)
}

} // verus!
