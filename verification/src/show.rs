//! How a frame is shown: the image in colours, the marks on it, the rows of the catalog.

use crate::catalog::{
    cell_number, cell_number_of, cells, col_spec, first_col, names, positions, Catalog,
};
use crate::color::{apply_orientation_rgba, oriented, Orientation};
use crate::filters::{
    bin, binned, is_median, radius_spec, smooth_boxcar, smooth_gaussian, smooth_median, smoothed,
    smooths, LineFilter,
};
use crate::fits::{minmax_spec, FitsImage};
use crate::frame::{limits_of, Frame, SmoothKind};
use crate::image::{
    arguments_spec, clone_image, curve_arguments, normal_spec, render_rgba_flipped, render_rgba_flipped_with_lut,
    rgba_spec, same_wcs, Curve, Limits,
};
use crate::marker::{Marker, MarkerView, PixelPos, Shape, ShapeView};
use crate::num::{Double, Single};
use crate::text::{chars_of, nat_text, put_chars, put_nat, put_text, string_of};
use vstd::prelude::*;

verus! {

// ---------------------------------------------------------------------------
// The image
// ---------------------------------------------------------------------------

/// The pixels of a frame's image after the binning.
pub open spec fn binned_data(f: Frame) -> Seq<Single> {
    if f.bin_factor > 1 {
        binned(
            f.fits.data@,
            f.fits.width as int,
            f.fits.height as int,
            f.bin_factor as int,
            f.bin_mode,
        )
    } else {
        f.fits.data@
    }
}

/// Whether the smoothing of a frame changes its image.
pub open spec fn is_smoothed(f: Frame) -> bool {
    match f.smooth_kind {
        SmoothKind::Gaussian { sigma } => (Single { bits: 0 }).lt(sigma) && smooths(sigma),
        SmoothKind::Boxcar { n } => n > 1,
        SmoothKind::Median { n } => n > 1,
    }
}

/// Whether `data` are the pixels of a frame's image after the binning and the smoothing,
/// with the given kernel where the smoothing is Gaussian.
pub open spec fn is_shown_data(f: Frame, kernel: Vec<Single>, data: Seq<Single>) -> bool {
    let (w, h) = (f.fits.width as int, f.fits.height as int);
    let before = binned_data(f);
    if !is_smoothed(f) {
        data == before
    } else {
        match f.smooth_kind {
            SmoothKind::Gaussian { sigma } => data == smoothed(
                before,
                w,
                h,
                LineFilter::Weighted(kernel),
            ),
            SmoothKind::Boxcar { n } => data == smoothed(before, w, h, LineFilter::Mean(n)),
            SmoothKind::Median { n } => data.len() == before.len() && forall|i: int|
                0 <= i < data.len() ==> is_median(before, w, h, n as int, i, #[trigger] data[i]),
        }
    }
}

/// Whether `img` is a frame's image after the binning and the smoothing.
pub open spec fn is_shown_image(f: Frame, kernel: Vec<Single>, img: FitsImage) -> bool {
    &&& img.width == f.fits.width
    &&& img.height == f.fits.height
    &&& is_shown_data(f, kernel, img.data@)
    &&& (img.min, img.max) == if f.bin_factor > 1 || is_smoothed(f) {
        minmax_spec(img.data@)
    } else {
        (f.fits.min, f.fits.max)
    }
    &&& same_wcs(img.wcs, f.fits.wcs)
}

/// The width of the Gaussian whose kernel [`shown_image`] takes, if it takes one.
pub fn kernel_width(f: &Frame) -> (r: Option<Single>)
    ensures
        r == match f.smooth_kind {
            SmoothKind::Gaussian { sigma } if is_smoothed(*f) => Some(sigma),
            _ => None,
        },
{
    match f.smooth_kind {
        SmoothKind::Gaussian { sigma } => {
            if (Single { bits: 0 }).lt(sigma) && !sigma.le(Single { bits: 0 }) && sigma.is_finite() {
                Some(sigma)
            } else {
                None
            }
        },
        _ => None,
    }
}

/// A frame's image after the binning and the smoothing. `kernel` has the weights of the
/// Gaussian of the [`kernel_width`].
pub fn shown_image(f: &Frame, kernel: Vec<Single>) -> (r: FitsImage)
    requires
        f.wf(),
        f.smooth_kind matches SmoothKind::Gaussian { sigma } ==> is_smoothed(*f) ==> kernel@.len()
            == 2 * radius_spec(sigma) + 1,
    ensures
        is_shown_image(*f, kernel, r),
        r.wf(),
{
    let first: FitsImage = if f.bin_factor > 1 {
        bin(&f.fits, f.bin_factor, f.bin_mode)
    } else {
        clone_image(&f.fits)
    };
    assert(first.data@ == binned_data(*f));
    match f.smooth_kind {
        SmoothKind::Gaussian { sigma } => {
            if (Single { bits: 0 }).lt(sigma) {
                smooth_gaussian(&first, sigma, kernel)
            } else {
                first
            }
        },
        SmoothKind::Boxcar { n } => {
            if n > 1 {
                smooth_boxcar(&first, n)
            } else {
                first
            }
        },
        SmoothKind::Median { n } => {
            if n > 1 {
                smooth_median(&first, n)
            } else {
                first
            }
        },
    }
}

/// The colour table of a frame.
pub open spec fn table_spec(f: Frame) -> Seq<(u8, u8, u8)> {
    match f.custom_lut {
        Some(t) => t@,
        None => f.cmap.lut_spec(),
    }
}

/// The bytes of a frame's picture, four for each pixel, from the image as it is shown,
/// the limits and the values of the stretch.
pub open spec fn picture_spec(f: Frame, img: FitsImage, lim: Limits, curve: Curve) -> Seq<u8> {
    oriented(
        rgba_spec(img, lim, f.stretch, curve, table_spec(f)),
        img.width as int,
        img.height as int,
        f.orientation,
    )
}

/// A frame's image ready to be coloured.
pub struct Prepared {
    /// The image after the binning and the smoothing.
    pub img: FitsImage,
    pub limits: Limits,
    /// The arguments of the function that the stretch is made with.
    pub arguments: Vec<Single>,
}

/// Whether `p` is a frame's image ready to be coloured.
pub open spec fn is_prepared(f: Frame, kernel: Vec<Single>, p: Prepared) -> bool {
    &&& is_shown_image(f, kernel, p.img)
    &&& p.img.wf()
    &&& Frame::has_limits(f.limits_mode, p.img, p.limits)
    &&& p.arguments@ == arguments_spec(p.img, p.limits, f.stretch)
}

/// A frame's image ready to be coloured: filtered, with its limits.
pub fn prepare(f: &Frame, kernel: Vec<Single>) -> (r: Prepared)
    requires
        f.wf(),
        f.smooth_kind matches SmoothKind::Gaussian { sigma } ==> is_smoothed(*f) ==> kernel@.len()
            == 2 * radius_spec(sigma) + 1,
    ensures
        is_prepared(*f, kernel, r),
{
    let img = shown_image(f, kernel);
    let limits = limits_of(f.limits_mode, &img);
    let arguments = curve_arguments(&img, limits, f.stretch);
    Prepared { img, limits, arguments }
}

/// The bytes of a frame's picture, four for each pixel. `curve` has the values of the
/// function that the stretch is made with.
pub fn render_rgba_for_frame(f: &Frame, p: &Prepared, curve: &Curve) -> (r: Vec<u8>)
    requires
        f.wf(),
        p.img.wf(),
        p.img.width == f.fits.width,
        p.img.height == f.fits.height,
        f.stretch.is_curved() ==> curve.values@.len() == p.img.data@.len(),
    ensures
        r@ == picture_spec(*f, p.img, p.limits, *curve),
        r@.len() == f.fits.width * f.fits.height * 4,
{
    let mut rgba: Vec<u8> = match &f.custom_lut {
        Some(t) => render_rgba_flipped_with_lut(&p.img, p.limits, f.stretch, curve, t),
        None => render_rgba_flipped(&p.img, p.limits, f.stretch, curve, f.cmap),
    };
    apply_orientation_rgba(&mut rgba, p.img.width, p.img.height, f.orientation);
    rgba
}

// ---------------------------------------------------------------------------
// Places
// ---------------------------------------------------------------------------

/// The place on the display, counted from zero at the top left, of an image position
/// counted from one at the bottom left.
pub open spec fn fits_to_display_spec(cx: Double, cy: Double, h: int) -> (Single, Single) {
    (cx.minus(Double { bits: 0x3ff0_0000_0000_0000 }).narrow(), Single::from_int_spec(h).minus(cy.narrow()))
}

/// The place on the display of an image position, without the orientation.
pub fn fits_to_display(cx: Double, cy: Double, h: usize) -> (r: (Single, Single))
    ensures
        r == fits_to_display_spec(cx, cy, h as int),
{
    (cx.minus(Double { bits: 0x3ff0_0000_0000_0000 }).narrow(), Single::from_nat(h as u64).minus(cy.narrow()))
}

/// The place on the display of an image position, in the orientation of a frame.
pub open spec fn place_spec(p: PixelPos, w: int, h: int, o: Orientation) -> (Single, Single) {
    let (dx, dy) = fits_to_display_spec(p.x, p.y, h);
    let (ox, oy) = o.display_spec(
        dx.widen(),
        dy.widen(),
        Double::from_int_spec(w),
        Double::from_int_spec(h),
    );
    (ox.narrow(), oy.narrow())
}

/// The place on a frame's display of an image position.
pub open spec fn frame_place(f: Frame, x: Double, y: Double) -> (Single, Single) {
    place_spec(PixelPos { x, y }, f.fits.width as int, f.fits.height as int, f.orientation)
}

/// The place on a frame's display of an image position.
pub fn fits_to_display_oriented(cx: Double, cy: Double, f: &Frame) -> (r: (Single, Single))
    ensures
        r == frame_place(*f, cx, cy),
{
    let (dx, dy): (Single, Single) = fits_to_display(cx, cy, f.fits.height);
    let w: Double = Double::from_nat(f.fits.width as u64);
    let h: Double = Double::from_nat(f.fits.height as u64);
    let (ox, oy): (Double, Double) = f.orientation.apply_display(dx.widen(), dy.widen(), w, h);
    (ox.narrow(), oy.narrow())
}

/// The image position, counted from one, of a place on a frame's display.
pub open spec fn display_to_fits_spec(dx: Double, dy: Double, f: Frame) -> (Double, Double) {
    let w = Double::from_int_spec(f.fits.width as int);
    let h = Double::from_int_spec(f.fits.height as int);
    let (ux, uy) = f.orientation.display_spec(dx, dy, w, h);
    (ux.plus(Double { bits: 0x3ff0_0000_0000_0000 }), h.minus(uy))
}

/// The image position, counted from one, of a place on a frame's display.
pub fn display_to_fits(dx: Double, dy: Double, f: &Frame) -> (r: (Double, Double))
    ensures
        r == display_to_fits_spec(dx, dy, *f),
{
    let w: Double = Double::from_nat(f.fits.width as u64);
    let h: Double = Double::from_nat(f.fits.height as u64);
    let (ux, uy): (Double, Double) = f.orientation.invert_display(dx, dy, w, h);
    (ux.plus(Double { bits: 0x3ff0_0000_0000_0000 }), h.minus(uy))
}

// ---------------------------------------------------------------------------
// Marks
// ---------------------------------------------------------------------------

/// A colour with its opacity.
#[derive(Clone, Copy, Debug, PartialEq, Eq, Structural)]
pub struct Argb {
    pub a: u8,
    pub r: u8,
    pub g: u8,
    pub b: u8,
}

/// A mark on the display: an ellipse or a rectangle.
#[derive(Clone, Copy, Debug, PartialEq, Eq, Structural)]
pub struct Mark {
    /// Zero for an ellipse, one for a rectangle.
    pub kind: i32,
    pub cx: Single,
    pub cy: Single,
    /// Half the width and half the height.
    pub rx: Single,
    pub ry: Single,
    pub color: Argb,
    pub selected: bool,
}

/// The colour of a region.
pub open spec fn marker_color_spec(c: Seq<u8>) -> Argb {
    Argb { a: c[3], r: c[0], g: c[1], b: c[2] }
}

/// The colour of a region.
pub fn marker_color(m: &Marker) -> (r: Argb)
    ensures
        r == marker_color_spec(m.color@),
{
    Argb { a: m.color[3], r: m.color[0], g: m.color[1], b: m.color[2] }
}

/// The most catalog rows that are shown.
pub open spec fn shown_rows(n: nat) -> nat {
    if n < 5000 {
        n
    } else {
        5000
    }
}

/// The mark of a catalog position: an amber circle, twice as large where it is selected.
pub open spec fn catalog_mark(f: Frame, i: int, p: (Double, Double)) -> Mark {
    let (cx, cy) = frame_place(f, p.0, p.1);
    let selected = f.selected_catalog == Some(i as usize);
    let r = if selected {
        Single { bits: 0x4100_0000 }
    } else {
        Single { bits: 0x4080_0000 }
    };
    Mark {
        kind: 0,
        cx,
        cy,
        rx: r,
        ry: r,
        color: Argb { a: 0xff, r: 0xff, g: 0xc1, b: 0x07 },
        selected,
    }
}

/// The positions of a catalog's rows.
pub open spec fn xy_of(c: Catalog) -> Seq<(Double, Double)> {
    match Catalog::xy_spec(c@.columns) {
        Some(p) => positions(c@.rows, p.0, p.1),
        None => Seq::empty(),
    }
}

/// The marks of a frame's catalog.
pub open spec fn catalog_marks(f: Frame) -> Seq<Mark> {
    match f.catalog {
        Some(c) => Seq::new(shown_rows(xy_of(c).len()), |i: int| catalog_mark(f, i, xy_of(c)[i])),
        None => Seq::empty(),
    }
}

/// The mark of a region, if it has one: lines, polygons, compasses and texts have none.
pub open spec fn marker_mark(f: Frame, i: int) -> Option<Mark> {
    let m = f.markers@[i];
    let color = marker_color_spec(m.color@);
    let selected = f.selected_marker == Some(i as usize);
    let half = |x: Double| x.narrow().over(Single { bits: 0x4000_0000 });
    match m.shape {
        Shape::Circle { center, r } => {
            let (cx, cy) = frame_place(f, center.x, center.y);
            Some(Mark { kind: 0, cx, cy, rx: r.narrow(), ry: r.narrow(), color, selected })
        },
        Shape::Box { center, w, h, .. } => {
            let (cx, cy) = frame_place(f, center.x, center.y);
            Some(Mark { kind: 1, cx, cy, rx: half(w), ry: half(h), color, selected })
        },
        Shape::Ellipse { center, a, b, .. } => {
            let (cx, cy) = frame_place(f, center.x, center.y);
            Some(Mark { kind: 0, cx, cy, rx: a.narrow(), ry: b.narrow(), color, selected })
        },
        Shape::Annulus { center, r_outer, .. } => {
            let (cx, cy) = frame_place(f, center.x, center.y);
            Some(
                Mark {
                    kind: 0,
                    cx,
                    cy,
                    rx: r_outer.narrow(),
                    ry: r_outer.narrow(),
                    color,
                    selected,
                },
            )
        },
        Shape::Point { center } => {
            let (cx, cy) = frame_place(f, center.x, center.y);
            Some(Mark { kind: 1, cx, cy, rx: Single { bits: 0x4000_0000 }, ry: Single { bits: 0x4000_0000 }, color, selected })
        },
        _ => None,
    }
}

/// The marks of the first `n` regions of a frame.
pub open spec fn marker_marks(f: Frame, n: nat) -> Seq<Mark>
    decreases n,
{
    if n == 0 {
        Seq::empty()
    } else {
        match marker_mark(f, n - 1) {
            Some(m) => marker_marks(f, (n - 1) as nat).push(m),
            None => marker_marks(f, (n - 1) as nat),
        }
    }
}

fn mark_of(f: &Frame, i: usize) -> (r: Option<Mark>)
    requires
        i < f.markers@.len(),
    ensures
        r == marker_mark(*f, i as int),
{
    let m = &f.markers[i];
    let color = marker_color(m);
    let selected: bool = match f.selected_marker {
        Some(k) => k == i,
        None => false,
    };
    match &m.shape {
        Shape::Circle { center, r } => {
            let (cx, cy): (Single, Single) = fits_to_display_oriented(center.x, center.y, f);
            Some(Mark { kind: 0, cx, cy, rx: r.narrow(), ry: r.narrow(), color, selected })
        },
        Shape::Box { center, w, h, theta_deg } => {
            let (cx, cy): (Single, Single) = fits_to_display_oriented(center.x, center.y, f);
            Some(
                Mark {
                    kind: 1,
                    cx,
                    cy,
                    rx: w.narrow().over(Single { bits: 0x4000_0000 }),
                    ry: h.narrow().over(Single { bits: 0x4000_0000 }),
                    color,
                    selected,
                },
            )
        },
        Shape::Ellipse { center, a, b, theta_deg } => {
            let (cx, cy): (Single, Single) = fits_to_display_oriented(center.x, center.y, f);
            Some(Mark { kind: 0, cx, cy, rx: a.narrow(), ry: b.narrow(), color, selected })
        },
        Shape::Annulus { center, r_inner, r_outer } => {
            let (cx, cy): (Single, Single) = fits_to_display_oriented(center.x, center.y, f);
            Some(
                Mark {
                    kind: 0,
                    cx,
                    cy,
                    rx: r_outer.narrow(),
                    ry: r_outer.narrow(),
                    color,
                    selected,
                },
            )
        },
        Shape::Point { center } => {
            let (cx, cy): (Single, Single) = fits_to_display_oriented(center.x, center.y, f);
            Some(Mark { kind: 1, cx, cy, rx: Single { bits: 0x4000_0000 }, ry: Single { bits: 0x4000_0000 }, color, selected })
        },
        _ => None,
    }
}

/// The marks of a frame: those of the catalog first, so that the regions lie on top.
pub fn build_mark_model(f: &Frame) -> (r: Vec<Mark>)
    ensures
        r@ == catalog_marks(*f) + marker_marks(*f, f.markers@.len()),
{
    let mut out: Vec<Mark> = Vec::new();
    if let Some(cat) = &f.catalog {
        let xy = cat.xy_iter();
        let n: usize = if xy.len() < 5000 {
            xy.len()
        } else {
            5000
        };
        assert(xy@ == xy_of(*cat));
        for i in 0..n
            invariant
                f.catalog == Some(*cat),
                xy@ == xy_of(*cat),
                n == shown_rows(xy@.len()),
                out@ =~= catalog_marks(*f).take(i as int),
        {
            let (cx, cy): (Single, Single) = fits_to_display_oriented(xy[i].0, xy[i].1, f);
            let selected: bool = match f.selected_catalog {
                Some(k) => k == i,
                None => false,
            };
            let r: Single = if selected {
                Single { bits: 0x4100_0000 }
            } else {
                Single { bits: 0x4080_0000 }
            };
            let mark = Mark {
                kind: 0,
                cx,
                cy,
                rx: r,
                ry: r,
                color: Argb { a: 0xff, r: 0xff, g: 0xc1, b: 0x07 },
                selected,
            };
            assert(mark == catalog_mark(*f, i as int, xy@[i as int]));
            out.push(mark);
        }
    }
    assert(out@ =~= catalog_marks(*f));
    for i in 0..f.markers.len()
        invariant
            out@ == catalog_marks(*f) + marker_marks(*f, i as nat),
    {
        if let Some(m) = mark_of(f, i) {
            let ghost before = out@;
            out.push(m);
            assert(out@ =~= catalog_marks(*f) + marker_marks(*f, (i + 1) as nat));
        }
    }
    out
}

/// A text on the display.
#[derive(Clone, Debug)]
pub struct TextMark {
    pub x: Single,
    pub y: Single,
    pub body: String,
    pub color: Argb,
}

/// A text on the display by its contents.
pub struct TextMarkView {
    pub x: Single,
    pub y: Single,
    pub body: Seq<char>,
    pub color: Argb,
}

impl View for TextMark {
    type V = TextMarkView;

    open spec fn view(&self) -> TextMarkView {
        TextMarkView { x: self.x, y: self.y, body: self.body@, color: self.color }
    }
}

/// The texts among the first `n` regions of a frame.
pub open spec fn text_marks(f: Frame, n: nat) -> Seq<TextMarkView>
    decreases n,
{
    if n == 0 {
        Seq::empty()
    } else {
        let front = text_marks(f, (n - 1) as nat);
        let m = f.markers@[n - 1];
        match m.shape {
            Shape::Text { center, body } => {
                let (x, y) = frame_place(f, center.x, center.y);
                front.push(
                    TextMarkView { x, y, body: body@, color: marker_color_spec(m.color@) },
                )
            },
            _ => front,
        }
    }
}

/// The texts among the regions of a frame.
pub fn build_text_marks(f: &Frame) -> (r: Vec<TextMark>)
    ensures
        Seq::new(r@.len(), |i: int| r@[i]@) == text_marks(*f, f.markers@.len()),
{
    let mut out: Vec<TextMark> = Vec::new();
    assert(Seq::new(out@.len(), |i: int| out@[i]@) =~= text_marks(*f, 0));
    for i in 0..f.markers.len()
        invariant
            Seq::new(out@.len(), |k: int| out@[k]@) == text_marks(*f, i as nat),
    {
        let ghost before = Seq::new(out@.len(), |k: int| out@[k]@);
        if let Shape::Text { center, body } = &f.markers[i].shape {
            let (x, y): (Single, Single) = fits_to_display_oriented(center.x, center.y, f);
            let chars = chars_of(body.as_str());
            let mark = TextMark {
                x,
                y,
                body: string_of(&chars),
                color: marker_color(&f.markers[i]),
            };
            out.push(mark);
            assert(Seq::new(out@.len(), |k: int| out@[k]@) =~= before.push(mark@));
        }
    }
    out
}

// ---------------------------------------------------------------------------
// Picking
// ---------------------------------------------------------------------------

/// The square of the distance between two points.
pub open spec fn distance2(ax: Double, ay: Double, bx: Double, by: Double) -> Double {
    let dx = ax.minus(bx);
    let dy = ay.minus(by);
    dx.times(dx).plus(dy.times(dy))
}

/// Whether a point lies in a shape, its rotation apart. A point has a reach of four
/// pixels; lines, polygons, compasses and texts cannot be hit.
pub open spec fn inside_spec(s: Shape, x: Double, y: Double) -> bool {
    match s {
        Shape::Circle { center, r } => distance2(x, y, center.x, center.y).le(r.times(r)),
        Shape::Box { center, w, h, .. } => x.minus(center.x).abs().le(w.over(Double { bits: 0x4000_0000_0000_0000 }))
            && y.minus(center.y).abs().le(h.over(Double { bits: 0x4000_0000_0000_0000 })),
        Shape::Ellipse { center, a, b, .. } => {
            let dx = x.minus(center.x).over(a);
            let dy = y.minus(center.y).over(b);
            dx.times(dx).plus(dy.times(dy)).le(Double { bits: 0x3ff0_0000_0000_0000 })
        },
        Shape::Annulus { center, r_outer, .. } => distance2(x, y, center.x, center.y).le(
            r_outer.times(r_outer),
        ),
        Shape::Point { center } => distance2(x, y, center.x, center.y).le(Double { bits: 0x4030_0000_0000_0000 }),
        _ => false,
    }
}

fn inside(s: &Shape, x: Double, y: Double) -> (r: bool)
    ensures
        r == inside_spec(*s, x, y),
{
    match s {
        Shape::Circle { center, r } => {
            let dx: Double = x.minus(center.x);
            let dy: Double = y.minus(center.y);
            dx.times(dx).plus(dy.times(dy)).le(r.times(*r))
        },
        Shape::Box { center, w, h, theta_deg } => x.minus(center.x).abs().le(w.over(Double { bits: 0x4000_0000_0000_0000 }))
            && y.minus(center.y).abs().le(h.over(Double { bits: 0x4000_0000_0000_0000 })),
        Shape::Ellipse { center, a, b, theta_deg } => {
            let dx: Double = x.minus(center.x).over(*a);
            let dy: Double = y.minus(center.y).over(*b);
            dx.times(dx).plus(dy.times(dy)).le(Double { bits: 0x3ff0_0000_0000_0000 })
        },
        Shape::Annulus { center, r_inner, r_outer } => {
            let dx: Double = x.minus(center.x);
            let dy: Double = y.minus(center.y);
            dx.times(dx).plus(dy.times(dy)).le(r_outer.times(*r_outer))
        },
        Shape::Point { center } => {
            let dx: Double = x.minus(center.x);
            let dy: Double = y.minus(center.y);
            dx.times(dx).plus(dy.times(dy)).le(Double { bits: 0x4030_0000_0000_0000 })
        },
        _ => false,
    }
}

/// The region that a point hits: the last one that it lies in, which is drawn on top.
pub fn hit_test_markers(markers: &Vec<Marker>, fx: Double, fy: Double) -> (r: Option<usize>)
    ensures
        match r {
            Some(i) => i < markers@.len() && inside_spec(markers@[i as int].shape, fx, fy)
                && forall|j: int|
                i < j < markers@.len() ==> !inside_spec((#[trigger] markers@[j]).shape, fx, fy),
            None => forall|j: int|
                0 <= j < markers@.len() ==> !inside_spec((#[trigger] markers@[j]).shape, fx, fy),
        },
{
    let mut i: usize = markers.len();
    while i > 0
        invariant
            i <= markers@.len(),
            forall|j: int|
                i <= j < markers@.len() ==> !inside_spec((#[trigger] markers@[j]).shape, fx, fy),
        decreases i,
    {
        i = i - 1;
        if inside(&markers[i].shape, fx, fy) {
            return Some(i);
        }
    }
    None
}

/// A position moved.
pub open spec fn moved(p: PixelPos, dx: Double, dy: Double) -> PixelPos {
    PixelPos { x: p.x.plus(dx), y: p.y.plus(dy) }
}

/// A shape moved.
pub open spec fn moved_shape(s: ShapeView, dx: Double, dy: Double) -> ShapeView {
    match s {
        ShapeView::Circle { center, r } => ShapeView::Circle { center: moved(center, dx, dy), r },
        ShapeView::Ellipse { center, a, b, theta_deg } => ShapeView::Ellipse {
            center: moved(center, dx, dy),
            a,
            b,
            theta_deg,
        },
        ShapeView::Box { center, w, h, theta_deg } => ShapeView::Box {
            center: moved(center, dx, dy),
            w,
            h,
            theta_deg,
        },
        ShapeView::Annulus { center, r_inner, r_outer } => ShapeView::Annulus {
            center: moved(center, dx, dy),
            r_inner,
            r_outer,
        },
        ShapeView::Polygon { points } => ShapeView::Polygon {
            points: Seq::new(points.len(), |i: int| moved(points[i], dx, dy)),
        },
        ShapeView::Point { center } => ShapeView::Point { center: moved(center, dx, dy) },
        ShapeView::Line { from, to } => ShapeView::Line {
            from: moved(from, dx, dy),
            to: moved(to, dx, dy),
        },
        ShapeView::Compass { center, len } => ShapeView::Compass {
            center: moved(center, dx, dy),
            len,
        },
        ShapeView::Text { center, body } => ShapeView::Text { center: moved(center, dx, dy), body },
    }
}

fn shift(p: PixelPos, dx: Double, dy: Double) -> (r: PixelPos)
    ensures
        r == moved(p, dx, dy),
{
    PixelPos { x: p.x.plus(dx), y: p.y.plus(dy) }
}

fn shifted(s: &Shape, dx: Double, dy: Double) -> (r: Shape)
    ensures
        r@ == moved_shape(s@, dx, dy),
{
    match s {
        Shape::Circle { center, r } => Shape::Circle { center: shift(*center, dx, dy), r: *r },
        Shape::Ellipse { center, a, b, theta_deg } => Shape::Ellipse {
            center: shift(*center, dx, dy),
            a: *a,
            b: *b,
            theta_deg: *theta_deg,
        },
        Shape::Box { center, w, h, theta_deg } => Shape::Box {
            center: shift(*center, dx, dy),
            w: *w,
            h: *h,
            theta_deg: *theta_deg,
        },
        Shape::Annulus { center, r_inner, r_outer } => Shape::Annulus {
            center: shift(*center, dx, dy),
            r_inner: *r_inner,
            r_outer: *r_outer,
        },
        Shape::Polygon { points } => {
            let mut out: Vec<PixelPos> = Vec::new();
            for i in 0..points.len()
                invariant
                    out@ =~= Seq::new(i as nat, |k: int| moved(points@[k], dx, dy)),
            {
                out.push(shift(points[i], dx, dy));
            }
            Shape::Polygon { points: out }
        },
        Shape::Point { center } => Shape::Point { center: shift(*center, dx, dy) },
        Shape::Line { from, to } => Shape::Line {
            from: shift(*from, dx, dy),
            to: shift(*to, dx, dy),
        },
        Shape::Compass { center, len } => Shape::Compass {
            center: shift(*center, dx, dy),
            len: *len,
        },
        Shape::Text { center, body } => {
            let chars = chars_of(body.as_str());
            Shape::Text { center: shift(*center, dx, dy), body: string_of(&chars) }
        },
    }
}

/// Moves a region by a distance in pixels.
pub fn translate_marker(m: &mut Marker, dx: Double, dy: Double)
    ensures
        final(m)@ == (MarkerView { shape: moved_shape(old(m)@.shape, dx, dy), ..old(m)@ }),
{
    m.shape = shifted(&m.shape, dx, dy);
}

/// The points of a shape's outline, for its bounding box. `circle` has the cosines and
/// sines of the angles around a full turn, `turn` those of the shape's rotation.
pub open spec fn outline_spec(
    s: ShapeView,
    circle: Seq<(Double, Double)>,
    turn: (Double, Double),
) -> Seq<(Double, Double)> {
    let (c, s0) = turn;
    let turned = |center: PixelPos, lx: Double, ly: Double|
        (
            center.x.plus(lx.times(c)).minus(ly.times(s0)),
            center.y.plus(lx.times(s0)).plus(ly.times(c)),
        );
    match s {
        ShapeView::Circle { center, r } => Seq::new(
            circle.len(),
            |k: int| (center.x.plus(r.times(circle[k].0)), center.y.plus(r.times(circle[k].1))),
        ),
        ShapeView::Annulus { center, r_outer, .. } => Seq::new(
            circle.len(),
            |k: int|
                (
                    center.x.plus(r_outer.times(circle[k].0)),
                    center.y.plus(r_outer.times(circle[k].1)),
                ),
        ),
        ShapeView::Box { center, w, h, .. } => {
            let hw = w.times(Double { bits: 0x3fe0_0000_0000_0000 });
            let hh = h.times(Double { bits: 0x3fe0_0000_0000_0000 });
            let (m, p) = (Double { bits: 0xbff0_0000_0000_0000 }, Double { bits: 0x3ff0_0000_0000_0000 });
            seq![
                turned(center, m.times(hw), m.times(hh)),
                turned(center, p.times(hw), m.times(hh)),
                turned(center, p.times(hw), p.times(hh)),
                turned(center, m.times(hw), p.times(hh)),
            ]
        },
        ShapeView::Ellipse { center, a, b, .. } => Seq::new(
            circle.len(),
            |k: int| turned(center, a.times(circle[k].0), b.times(circle[k].1)),
        ),
        ShapeView::Polygon { points } => Seq::new(
            points.len(),
            |k: int| (points[k].x, points[k].y),
        ),
        ShapeView::Line { from, to } => seq![(from.x, from.y), (to.x, to.y)],
        ShapeView::Point { center } => surround_spec(center),
        ShapeView::Compass { center, .. } => surround_spec(center),
        ShapeView::Text { center, .. } => surround_spec(center),
    }
}

/// Four points around a position.
pub open spec fn surround_spec(p: PixelPos) -> Seq<(Double, Double)> {
    let (m, q) = (Double { bits: 0xc000_0000_0000_0000 }, Double { bits: 0x4000_0000_0000_0000 });
    seq![
        (p.x.plus(m), p.y.plus(m)),
        (p.x.plus(q), p.y.plus(m)),
        (p.x.plus(q), p.y.plus(q)),
        (p.x.plus(m), p.y.plus(q)),
    ]
}

fn surround(p: PixelPos) -> (r: Vec<(Double, Double)>)
    ensures
        r@ == surround_spec(p),
{
    let (m, q): (Double, Double) = (Double { bits: 0xc000_0000_0000_0000 }, Double { bits: 0x4000_0000_0000_0000 });
    let mut r: Vec<(Double, Double)> = Vec::new();
    r.push((p.x.plus(m), p.y.plus(m)));
    r.push((p.x.plus(q), p.y.plus(m)));
    r.push((p.x.plus(q), p.y.plus(q)));
    r.push((p.x.plus(m), p.y.plus(q)));
    assert(r@ =~= surround_spec(p));
    r
}

fn turned(center: PixelPos, lx: Double, ly: Double, turn: (Double, Double)) -> (r: (Double, Double))
    ensures
        r.0 == center.x.plus(lx.times(turn.0)).minus(ly.times(turn.1)),
        r.1 == center.y.plus(lx.times(turn.1)).plus(ly.times(turn.0)),
{
    (
        center.x.plus(lx.times(turn.0)).minus(ly.times(turn.1)),
        center.y.plus(lx.times(turn.1)).plus(ly.times(turn.0)),
    )
}

/// The rotation of a shape in degrees; zero for one that has none.
pub fn rotation_deg(s: &Shape) -> (r: Double)
    ensures
        r == match s@ {
            ShapeView::Box { theta_deg, .. } => theta_deg,
            ShapeView::Ellipse { theta_deg, .. } => theta_deg,
            _ => Double { bits: 0 },
        },
{
    match s {
        Shape::Box { center, w, h, theta_deg } => *theta_deg,
        Shape::Ellipse { center, a, b, theta_deg } => *theta_deg,
        _ => Double { bits: 0 },
    }
}

/// The points of a shape's outline, for its bounding box.
pub fn outline(s: &Shape, circle: &Vec<(Double, Double)>, turn: (Double, Double)) -> (r: Vec<
    (Double, Double),
>)
    ensures
        r@ == outline_spec(s@, circle@, turn),
{
    let ghost want = outline_spec(s@, circle@, turn);
    let mut out: Vec<(Double, Double)> = Vec::new();
    match s {
        Shape::Circle { center, r } => {
            for k in 0..circle.len()
                invariant
                    want == outline_spec(s@, circle@, turn),
                    s@ == (ShapeView::Circle { center: *center, r: *r }),
                    out@ =~= want.take(k as int),
            {
                out.push(
                    (center.x.plus(r.times(circle[k].0)), center.y.plus(r.times(circle[k].1))),
                );
            }
        },
        Shape::Annulus { center, r_inner, r_outer } => {
            for k in 0..circle.len()
                invariant
                    want == outline_spec(s@, circle@, turn),
                    s@ == (ShapeView::Annulus {
                        center: *center,
                        r_inner: *r_inner,
                        r_outer: *r_outer,
                    }),
                    out@ =~= want.take(k as int),
            {
                out.push(
                    (
                        center.x.plus(r_outer.times(circle[k].0)),
                        center.y.plus(r_outer.times(circle[k].1)),
                    ),
                );
            }
        },
        Shape::Box { center, w, h, theta_deg } => {
            let hw: Double = w.times(Double { bits: 0x3fe0_0000_0000_0000 });
            let hh: Double = h.times(Double { bits: 0x3fe0_0000_0000_0000 });
            let (m, p): (Double, Double) = (Double { bits: 0xbff0_0000_0000_0000 }, Double { bits: 0x3ff0_0000_0000_0000 });
            out.push(turned(*center, m.times(hw), m.times(hh), turn));
            out.push(turned(*center, p.times(hw), m.times(hh), turn));
            out.push(turned(*center, p.times(hw), p.times(hh), turn));
            out.push(turned(*center, m.times(hw), p.times(hh), turn));
        },
        Shape::Ellipse { center, a, b, theta_deg } => {
            for k in 0..circle.len()
                invariant
                    want == outline_spec(s@, circle@, turn),
                    s@ == (ShapeView::Ellipse {
                        center: *center,
                        a: *a,
                        b: *b,
                        theta_deg: *theta_deg,
                    }),
                    out@ =~= want.take(k as int),
            {
                out.push(turned(*center, a.times(circle[k].0), b.times(circle[k].1), turn));
            }
        },
        Shape::Polygon { points } => {
            for k in 0..points.len()
                invariant
                    want == outline_spec(s@, circle@, turn),
                    s@ == (ShapeView::Polygon { points: points@ }),
                    out@ =~= want.take(k as int),
            {
                out.push((points[k].x, points[k].y));
            }
        },
        Shape::Line { from, to } => {
            out.push((from.x, from.y));
            out.push((to.x, to.y));
        },
        Shape::Point { center } => {
            out = surround(*center);
        },
        Shape::Compass { center, len } => {
            out = surround(*center);
        },
        Shape::Text { center, body } => {
            out = surround(*center);
        },
    }
    assert(out@ =~= want);
    out
}

/// The box around the places of the points on a frame's display: the least and the
/// greatest coordinates, or an empty box where there are no points.
pub open spec fn bbox_spec(f: Frame, pts: Seq<(Double, Double)>) -> (Double, Double, Double, Double)
    decreases pts.len(),
{
    if pts.len() == 0 {
        (
            Double { bits: 0x7ff0_0000_0000_0000 },
            Double { bits: 0x7ff0_0000_0000_0000 },
            Double { bits: 0xfff0_0000_0000_0000 },
            Double { bits: 0xfff0_0000_0000_0000 },
        )
    } else {
        let b = bbox_spec(f, pts.drop_last());
        let (sx, sy) = frame_place(f, pts.last().0, pts.last().1);
        let (x, y) = (sx.widen(), sy.widen());
        (
            if x.lt(b.0) {
                x
            } else {
                b.0
            },
            if y.lt(b.1) {
                y
            } else {
                b.1
            },
            if b.2.lt(x) {
                x
            } else {
                b.2
            },
            if b.3.lt(y) {
                y
            } else {
                b.3
            },
        )
    }
}

/// The box around a region on a frame's display: the least and the greatest coordinates.
pub fn marker_display_bbox(
    m: &Marker,
    f: &Frame,
    circle: &Vec<(Double, Double)>,
    turn: (Double, Double),
) -> (r: (Double, Double, Double, Double))
    ensures
        r == bbox_spec(*f, outline_spec(m.shape@, circle@, turn)),
{
    let pts = outline(&m.shape, circle, turn);
    let mut b: (Double, Double, Double, Double) = (
        Double { bits: 0x7ff0_0000_0000_0000 },
        Double { bits: 0x7ff0_0000_0000_0000 },
        Double { bits: 0xfff0_0000_0000_0000 },
        Double { bits: 0xfff0_0000_0000_0000 },
    );
    assert(pts@.take(0) =~= Seq::empty());
    for i in 0..pts.len()
        invariant
            b == bbox_spec(*f, pts@.take(i as int)),
    {
        assert(pts@.take(i + 1).drop_last() =~= pts@.take(i as int));
        let (sx, sy): (Single, Single) = fits_to_display_oriented(pts[i].0, pts[i].1, f);
        let (x, y): (Double, Double) = (sx.widen(), sy.widen());
        b = (
            if x.lt(b.0) {
                x
            } else {
                b.0
            },
            if y.lt(b.1) {
                y
            } else {
                b.1
            },
            if b.2.lt(x) {
                x
            } else {
                b.2
            },
            if b.3.lt(y) {
                y
            } else {
                b.3
            },
        );
    }
    assert(pts@.take(pts@.len() as int) =~= pts@);
    b
}

// ---------------------------------------------------------------------------
// Catalog rows
// ---------------------------------------------------------------------------

/// The column names that hold magnitudes, the first of them preferred.
pub open spec fn mag_names() -> Seq<Seq<char>> {
    seq!["MAG_AUTO"@, "MAG_BEST"@, "MAG_APER"@, "MAG_PSF"@, "MAG"@, "mag"@]
}

/// The place of the column that holds magnitudes.
pub fn mag_column(cat: &Catalog) -> (r: Option<usize>)
    ensures
        match r {
            Some(i) => first_col(cat@.columns, mag_names()) == Some(i as nat),
            None => first_col(cat@.columns, mag_names()) is None,
        },
{
    cat.first_column("MAG_AUTO", "MAG_BEST", "MAG_APER", "MAG_PSF", "MAG", "mag")
}

/// A row of the catalog as it is listed.
#[derive(Clone, Debug)]
pub struct CatRow {
    pub id: String,
    pub x: Single,
    pub y: Single,
    pub mag: String,
}

/// A row of the catalog as it is listed, by its contents.
pub struct CatRowView {
    pub id: Seq<char>,
    pub x: Single,
    pub y: Single,
    pub mag: Seq<char>,
}

impl View for CatRow {
    type V = CatRowView;

    open spec fn view(&self) -> CatRowView {
        CatRowView { id: self.id@, x: self.x, y: self.y, mag: self.mag@ }
    }
}

/// `s` with spaces in front, so that it has at least `n` characters.
pub open spec fn right_aligned(s: Seq<char>, n: nat) -> Seq<char> {
    if s.len() >= n {
        s
    } else {
        Seq::new((n - s.len()) as nat, |i: int| ' ') + s
    }
}

/// Appends `s` with spaces in front, so that it has at least `n` characters.
pub fn put_right(out: &mut Vec<char>, s: &Vec<char>, n: usize)
    ensures
        final(out)@ == old(out)@ + right_aligned(s@, n as nat),
{
    let ghost before = out@;
    let k: usize = if s.len() < n {
        n - s.len()
    } else {
        0
    };
    for i in 0..k
        invariant
            out@ =~= before + Seq::new(i as nat, |j: int| ' '),
    {
        out.push(' ');
    }
    put_chars(out, s);
    assert(out@ =~= before + right_aligned(s@, n as nat));
}

/// The identifier of a row: the cell of the given column, or the row's number.
pub open spec fn id_spec(row: Seq<Seq<char>>, col: Option<nat>, i: int) -> Seq<char> {
    match col {
        Some(c) if c < row.len() => row[c as int],
        _ => nat_text((i + 1) as nat),
    }
}

/// The magnitude of a row to two decimals, or a dash.
pub open spec fn mag_spec(row: Seq<Seq<char>>, col: Option<nat>) -> Seq<char> {
    match col {
        Some(c) => match cell_number(row, c) {
            Some(v) => right_aligned(v.fixed_spec(2), 6),
            None => "—"@,
        },
        None => "—"@,
    }
}

/// The columns that a listing takes its cells from.
pub struct RowColumns {
    pub id: Option<nat>,
    pub x: nat,
    pub y: nat,
    pub mag: Option<nat>,
}

/// The listing of the rows: those with a position, 5000 of them at most.
pub open spec fn listing(rows: Seq<Seq<Seq<char>>>, c: RowColumns) -> Seq<CatRowView>
    decreases rows.len(),
{
    if rows.len() == 0 {
        Seq::empty()
    } else {
        let front = listing(rows.drop_last(), c);
        let row = rows.last();
        match (cell_number(row, c.x), cell_number(row, c.y)) {
            (Some(x), Some(y)) if front.len() < 5000 => front.push(
                CatRowView {
                    id: id_spec(row, c.id, rows.len() - 1),
                    x: x.narrow(),
                    y: y.narrow(),
                    mag: mag_spec(row, c.mag),
                },
            ),
            _ => front,
        }
    }
}

/// The identifier column of a catalog: `NUMBER` or `ID`.
pub open spec fn id_column_spec(columns: Seq<Seq<char>>) -> Option<nat> {
    match col_spec(columns, "NUMBER"@) {
        Some(i) => Some(i),
        None => col_spec(columns, "ID"@),
    }
}

/// The listing of a frame's catalog; empty where there is none or no column holds
/// positions.
pub open spec fn catalog_listing(f: Frame) -> Seq<CatRowView> {
    match f.catalog {
        Some(cat) => match Catalog::xy_spec(cat@.columns) {
            Some((x, y)) => listing(
                cat@.rows,
                RowColumns {
                    id: id_column_spec(cat@.columns),
                    x,
                    y,
                    mag: first_col(cat@.columns, mag_names()),
                },
            ),
            None => Seq::empty(),
        },
        None => Seq::empty(),
    }
}

/// The contents of a listing.
pub open spec fn row_views(v: Seq<CatRow>) -> Seq<CatRowView> {
    Seq::new(v.len(), |i: int| v[i]@)
}

spec fn as_nat(c: Option<usize>) -> Option<nat> {
    match c {
        Some(i) => Some(i as nat),
        None => None,
    }
}

fn row_id(row: &Vec<String>, col: Option<usize>, i: usize) -> (r: String)
    ensures
        r@ == id_spec(names(row@), as_nat(col), i as int),
{
    if let Some(c) = col {
        if c < row.len() {
            let t = chars_of(row[c].as_str());
            return string_of(&t);
        }
    }
    let mut v: Vec<char> = Vec::new();
    put_nat(&mut v, i as u128 + 1);
    assert(v@ =~= nat_text((i + 1) as nat));
    string_of(&v)
}

fn row_mag(row: &Vec<String>, col: Option<usize>) -> (r: String)
    ensures
        r@ == mag_spec(names(row@), as_nat(col)),
{
    let mut v: Vec<char> = Vec::new();
    if let Some(c) = col {
        if let Some(x) = cell_number_of(row, c) {
            let t = x.fixed(2);
            put_right(&mut v, &t, 6);
            assert(v@ =~= right_aligned(x.fixed_spec(2), 6));
            return string_of(&v);
        }
    }
    put_text(&mut v, "—");
    assert(v@ =~= "—"@);
    string_of(&v)
}

/// The listing of a frame's catalog.
pub fn build_catalog_model(f: &Frame) -> (r: Vec<CatRow>)
    ensures
        row_views(r@) == catalog_listing(*f),
{
    let mut out: Vec<CatRow> = Vec::new();
    assert(row_views(out@) =~= Seq::empty());
    let cat: &Catalog = match &f.catalog {
        Some(c) => c,
        None => {
            return out;
        },
    };
    let (xi, yi): (usize, usize) = match cat.xy_columns() {
        Some(p) => p,
        None => {
            return out;
        },
    };
    let id: Option<usize> = match cat.col_index("NUMBER") {
        Some(i) => Some(i),
        None => cat.col_index("ID"),
    };
    let mag: Option<usize> = mag_column(cat);
    let ghost c = RowColumns {
        id: id_column_spec(cat@.columns),
        x: xi as nat,
        y: yi as nat,
        mag: first_col(cat@.columns, mag_names()),
    };
    let ghost all = cat@.rows;
    assert(all.take(0) =~= Seq::empty());
    for i in 0..cat.rows.len()
        invariant
            all == cells(cat.rows@),
            c.x == xi,
            c.y == yi,
            c.id == as_nat(id),
            c.mag == as_nat(mag),
            row_views(out@) == listing(all.take(i as int), c),
    {
        assert(all.take(i + 1).drop_last() =~= all.take(i as int));
        assert(all.take(i + 1).last() == names(cat.rows@[i as int]@));
        let row = &cat.rows[i];
        let x: Option<Double> = cell_number_of(row, xi);
        let y: Option<Double> = cell_number_of(row, yi);
        if let (Some(x), Some(y)) = (x, y) {
            if out.len() < 5000 {
                let ghost before = row_views(out@);
                let line = CatRow {
                    id: row_id(row, id, i),
                    x: x.narrow(),
                    y: y.narrow(),
                    mag: row_mag(row, mag),
                };
                out.push(line);
                assert(row_views(out@) =~= before.push(line@));
            }
        }
    }
    assert(all.take(all.len() as int) =~= all);
    out
}

/// The nearest of the positions to a point, and the square of its distance, if that is
/// no more than `tol2`; of equal ones the first.
pub open spec fn nearest_spec(
    xy: Seq<(Double, Double)>,
    fx: Double,
    fy: Double,
    tol2: Double,
) -> Option<(int, Double)>
    decreases xy.len(),
{
    if xy.len() == 0 {
        None
    } else {
        let best = nearest_spec(xy.drop_last(), fx, fy, tol2);
        let d2 = distance2(xy.last().0, xy.last().1, fx, fy);
        let closer = match best {
            Some((_, b)) => d2.lt(b),
            None => true,
        };
        if d2.le(tol2) && closer {
            Some((xy.len() - 1, d2))
        } else {
            best
        }
    }
}

/// The row of a catalog nearest to a point and no more than `tol_px` pixels from it,
/// counted among the rows with a position.
pub fn nearest_catalog_index(cat: &Catalog, fx: Double, fy: Double, tol_px: Double) -> (r: Option<
    usize,
>)
    ensures
        match nearest_spec(xy_of(*cat), fx, fy, tol_px.times(tol_px)) {
            Some((i, _)) => r is Some && r->0 == i,
            None => r is None,
        },
{
    let tol2: Double = tol_px.times(tol_px);
    let xy = cat.xy_iter();
    let mut best: Option<(usize, Double)> = None;
    assert(xy@.take(0) =~= Seq::empty());
    for i in 0..xy.len()
        invariant
            match nearest_spec(xy@.take(i as int), fx, fy, tol2) {
                Some((k, d)) => best matches Some(b) && b.0 == k && b.1 == d,
                None => best is None,
            },
    {
        assert(xy@.take(i + 1).drop_last() =~= xy@.take(i as int));
        let dx: Double = xy[i].0.minus(fx);
        let dy: Double = xy[i].1.minus(fy);
        let d2: Double = dx.times(dx).plus(dy.times(dy));
        let closer: bool = match best {
            Some((_, b)) => d2.lt(b),
            None => true,
        };
        if d2.le(tol2) && closer {
            best = Some((i, d2));
        }
    }
    assert(xy@.take(xy@.len() as int) =~= xy@);
    match best {
        Some((i, _)) => Some(i),
        None => None,
    }
}

} // verus!
