//! The panels that measure regions, and the view of a region.

use crate::analysis::{
    compute_radial_profile, is_measured, marker_aperture, measured_region, profile_spec,
    Aperture,
};
use crate::draw::Canvas;
use crate::fits::FitsImage;
use crate::frame::{Frame, State, StateView};
use crate::image::{finite_of, finite_values};
use crate::marker::{Marker, Shape};
use crate::num::{Double, Single};
use crate::plot::{line_plot_spec, render_line_plot, sample_line, Section};
use crate::run::{region_circle, zoom_spec, zoom_within};
use crate::session::ViewPort;
use crate::text::{chars_of, nat_text, put_chars, put_nat, put_text, string_of};
use crate::ui::{count_chars, count_text, Ui, UiView};
use vstd::prelude::*;

verus! {

/// A plot with what is written above it.
pub struct Plot {
    pub canvas: Canvas,
    pub caption: String,
}

// ---------------------------------------------------------------------------
// Values along a line
// ---------------------------------------------------------------------------

/// Whether a region is a line.
pub open spec fn is_line(m: Marker) -> bool {
    m.shape is Line
}

/// The first line at or behind a place.
pub open spec fn line_from(ms: Seq<Marker>, i: int) -> Option<int>
    decreases ms.len() - i,
{
    if i >= ms.len() {
        None
    } else if is_line(ms[i]) {
        Some(i)
    } else {
        line_from(ms, i + 1)
    }
}

/// The line to sample: the selected region if it is one, else the first line.
pub open spec fn line_of(f: Frame) -> Option<int> {
    match f.selected_marker {
        Some(i) if i < f.markers@.len() && is_line(f.markers@[i as int]) => Some(i as int),
        _ => line_from(f.markers@, 0),
    }
}

/// The ends of a line.
pub open spec fn section_of(m: Marker) -> Section {
    match m.shape {
        Shape::Line { from, to } => Section { x0: from.x, y0: from.y, x1: to.x, y1: to.y },
        _ => Section { x0: Double { bits: 0 }, y0: Double { bits: 0 }, x1: Double { bits: 0 }, y1: Double { bits: 0 } },
    }
}

fn section(m: &Marker) -> (r: Option<Section>)
    ensures
        match r {
            Some(s) => is_line(*m) && s == section_of(*m),
            None => !is_line(*m),
        },
{
    match &m.shape {
        Shape::Line { from, to } => Some(Section { x0: from.x, y0: from.y, x1: to.x, y1: to.y }),
        _ => None,
    }
}

/// The line to sample.
pub fn picked_line(f: &Frame) -> (r: Option<Section>)
    ensures
        match line_of(*f) {
            Some(i) => 0 <= i < f.markers@.len() && r == Some(section_of(f.markers@[i])),
            None => r is None,
        },
{
    if let Some(i) = f.selected_marker {
        if i < f.markers.len() {
            let s: Option<Section> = section(&f.markers[i]);
            if s.is_some() {
                return s;
            }
        }
    }
    let n: usize = f.markers.len();
    for i in 0..n
        invariant
            n == f.markers@.len(),
            line_of(*f) == line_from(f.markers@, i as int),
    {
        let s: Option<Section> = section(&f.markers[i]);
        if s.is_some() {
            return s;
        }
    }
    None
}

/// The samples along a line.
pub open spec fn samples_of(img: FitsImage, s: Section) -> Seq<Single> {
    s.samples(img)
}

/// What is written above the plot of the values along a line.
pub open spec fn projection_caption(samples: Seq<Single>, len: Double) -> Seq<char> {
    "PROJECTION  len="@ + len.fixed_spec(1) + " px  n="@ + nat_text(finite_values(samples).len())
        + "/"@ + nat_text(samples.len())
}

/// What is said when the plot of the values along a line is shown or hidden.
pub open spec fn projection_text(on: bool, n: nat, len: Double) -> Seq<char> {
    if on {
        count_text("projection: "@, n, " samples along "@) + len.fixed_spec(1) + " px"@
    } else {
        "projection: hidden"@
    }
}

fn projection_title(samples: &Vec<Single>, len: Double) -> (r: String)
    ensures
        r@ == projection_caption(samples@, len),
{
    let finite = finite_of(samples);
    let mut c = chars_of("PROJECTION  len=");
    put_chars(&mut c, &len.fixed(1));
    put_text(&mut c, " px  n=");
    put_nat(&mut c, finite.len() as u128);
    put_text(&mut c, "/");
    put_nat(&mut c, samples.len() as u128);
    string_of(&c)
}

fn projection_words(on: bool, n: usize, len: Double) -> (r: Vec<char>)
    ensures
        r@ == projection_text(on, n as nat, len),
{
    if on {
        let mut v = count_chars("projection: ", n as u128, " samples along ");
        put_chars(&mut v, &len.fixed(1));
        put_text(&mut v, " px");
        v
    } else {
        chars_of("projection: hidden")
    }
}

/// Draws the values along a line of the active frame, and shows or hides the plot.
pub fn show_projection(st: &State, ui: &mut Ui) -> (r: Option<Plot>)
    requires
        st@.wf(),
    ensures
        if st@.has_active() && line_of(st@.frame()) is Some {
            let s = section_of(st@.frame().markers@[line_of(st@.frame())->0]);
            let samples = samples_of(st@.frame().fits, s);
            &&& r matches Some(p) && p.canvas@ == line_plot_spec(samples, 760, 420) && p.caption@
                == projection_caption(samples, s.length())
            &&& final(ui)@ == (UiView { projection: !old(ui)@.projection, ..old(ui)@ }).said(
                projection_text(!old(ui)@.projection, samples.len(), s.length()),
            )
        } else {
            &&& r is None
            &&& final(ui)@ == old(ui)@.said(
                "projection: load or draw a Line region first (use Region ▸ Load…)"@,
            )
        },
{
    let found: Option<Section> = if st.has_frame() {
        picked_line(&st.frames[st.active])
    } else {
        None
    };
    let s: Section = match found {
        Some(s) => s,
        None => {
            ui.tell("projection: load or draw a Line region first (use Region ▸ Load…)");
            return None;
        },
    };
    assert(st@.frame().wf());
    let (samples, len): (Vec<Single>, Double) = sample_line(&st.frames[st.active].fits, s);
    assert(samples@ == samples_of(st@.frame().fits, s));
    let canvas = render_line_plot(&samples, 760, 420);
    let caption: String = projection_title(&samples, len);
    ui.projection = !ui.projection;
    let v = projection_words(ui.projection, samples.len(), len);
    ui.say(&v);
    Some(Plot { canvas, caption })
}

// ---------------------------------------------------------------------------
// Radial profile
// ---------------------------------------------------------------------------

/// The number of rings of a profile.
pub const RINGS: usize = 40;

/// The means of the rings in a circle.
pub open spec fn profile_of(img: FitsImage, a: Aperture) -> Seq<Single> {
    profile_spec(img, a, RINGS as int)
}

/// What is written above the plot of a profile.
pub open spec fn profile_caption(a: Aperture) -> Seq<char> {
    "RADIAL PROFILE  ("@ + a.x.fixed_spec(1) + ", "@ + a.y.fixed_spec(1) + ")  r≤"@
        + a.r.fixed_spec(1) + "  "@ + nat_text(RINGS as nat) + " bins"@
}

/// What is said when the plot of a profile is shown or hidden.
pub open spec fn profile_text(on: bool, a: Aperture) -> Seq<char> {
    if on {
        "radial profile: 40 bins, r≤"@ + a.r.fixed_spec(1) + " px"@
    } else {
        "radial profile: hidden"@
    }
}

fn profile_title(a: Aperture) -> (r: String)
    ensures
        r@ == profile_caption(a),
{
    let mut c = chars_of("RADIAL PROFILE  (");
    put_chars(&mut c, &a.x.fixed(1));
    put_text(&mut c, ", ");
    put_chars(&mut c, &a.y.fixed(1));
    put_text(&mut c, ")  r≤");
    put_chars(&mut c, &a.r.fixed(1));
    put_text(&mut c, "  ");
    put_nat(&mut c, RINGS as u128);
    put_text(&mut c, " bins");
    string_of(&c)
}

fn profile_words(on: bool, a: Aperture) -> (r: Vec<char>)
    ensures
        r@ == profile_text(on, a),
{
    if on {
        let mut v = chars_of("radial profile: 40 bins, r≤");
        put_chars(&mut v, &a.r.fixed(1));
        put_text(&mut v, " px");
        v
    } else {
        chars_of("radial profile: hidden")
    }
}

/// Whether the result is the profile of the region at a place.
pub open spec fn is_profile(s: StateView, i: usize, r: Option<Plot>) -> bool {
    let a = region_circle(s, i);
    r matches Some(p) && p.canvas@ == line_plot_spec(profile_of(s.frame().fits, a), 760, 420)
        && p.caption@ == profile_caption(a)
}

/// Draws the radial profile of a region of the active frame, and shows or hides the plot.
pub fn show_profile(st: &State, ui: &mut Ui) -> (r: Option<Plot>)
    requires
        st@.wf(),
    ensures
        if !st@.has_active() || is_measured(st@.frame(), None) {
            &&& r is None
            &&& final(ui)@ == old(ui)@.said(
                "radial profile: select a Circle / Ellipse / Annulus region first"@,
            )
        } else {
            exists|i: usize| #[trigger]
                is_measured(st@.frame(), Some(i)) && is_profile(st@, i, r) && final(ui)@ == (
                UiView { profile: !old(ui)@.profile, ..old(ui)@ }).said(
                    profile_text(!old(ui)@.profile, region_circle(st@, i)),
                )
        },
{
    let found: Option<usize> = if st.has_frame() {
        measured_region(&st.frames[st.active])
    } else {
        None
    };
    let i: usize = match found {
        Some(i) => i,
        None => {
            ui.tell("radial profile: select a Circle / Ellipse / Annulus region first");
            return None;
        },
    };
    assert(is_measured(st@.frame(), Some(i)));
    let a: Aperture = match marker_aperture(&st.frames[st.active].markers[i]) {
        Some(a) => a,
        None => Aperture { x: Double { bits: 0 }, y: Double { bits: 0 }, r: Double { bits: 0 } },
    };
    assert(a == region_circle(st@, i));
    assert(st@.frame().wf());
    let p = compute_radial_profile(&st.frames[st.active].fits, a, RINGS);
    assert(p@ =~= profile_of(st@.frame().fits, a));
    let canvas = render_line_plot(&p, 760, 420);
    let caption: String = profile_title(a);
    ui.profile = !ui.profile;
    let v = profile_words(ui.profile, a);
    ui.say(&v);
    let r = Some(Plot { canvas, caption });
    assert(is_profile(st@, i, r));
    r
}

// ---------------------------------------------------------------------------
// Crop
// ---------------------------------------------------------------------------

/// A rectangle on the displayed image, by its least and greatest coordinates.
#[derive(Clone, Copy, Debug, PartialEq, Eq, Structural)]
pub struct Rect {
    pub x0: Double,
    pub y0: Double,
    pub x1: Double,
    pub y1: Double,
}

/// The regions to crop to: the selected one, else all of them.
pub open spec fn crop_list(f: Frame) -> Seq<usize> {
    match f.selected_marker {
        Some(i) if i < f.markers@.len() => seq![i],
        _ => Seq::new(f.markers@.len(), |i: int| i as usize),
    }
}

/// The regions to crop to.
pub fn crop_regions(f: &Frame) -> (r: Vec<usize>)
    ensures
        r@ == crop_list(*f),
{
    let mut v: Vec<usize> = Vec::new();
    if let Some(i) = f.selected_marker {
        if i < f.markers.len() {
            v.push(i);
            assert(v@ =~= crop_list(*f));
            return v;
        }
    }
    let n: usize = f.markers.len();
    for i in 0..n
        invariant
            n == f.markers@.len(),
            crop_list(*f) == Seq::new(n as nat, |k: int| k as usize),
            v@ =~= crop_list(*f).take(i as int),
    {
        v.push(i);
    }
    assert(v@ =~= crop_list(*f));
    v
}

/// The rectangle around rectangles.
pub open spec fn around(v: Seq<Rect>) -> Rect
    decreases v.len(),
{
    if v.len() <= 1 {
        v[0]
    } else {
        let a = around(v.drop_last());
        let b = v.last();
        Rect { x0: a.x0.min(b.x0), y0: a.y0.min(b.y0), x1: a.x1.max(b.x1), y1: a.y1.max(b.y1) }
    }
}

/// A side of a rectangle: at least one pixel.
pub open spec fn side_spec(lo: Double, hi: Double) -> Double {
    hi.minus(lo).max(Double { bits: 0x3ff0_0000_0000_0000 })
}

/// The view in which a rectangle fills a canvas.
pub open spec fn crop_view(b: Rect, cw: Single, ch: Single) -> ViewPort {
    let w = side_spec(b.x0, b.x1);
    let h = side_spec(b.y0, b.y1);
    let zoom = zoom_spec(cw.widen().over(w).min(ch.widen().over(h)).narrow());
    ViewPort { zoom, pan_x: pan_spec(cw, b.x0, b.x1, zoom), pan_y: pan_spec(ch, b.y0, b.y1, zoom) }
}

/// The pan at which the middle of an interval stands in the middle of the canvas.
pub open spec fn pan_spec(size: Single, lo: Double, hi: Double, zoom: Single) -> Single {
    centred_spec(size, Double { bits: 0x3fe0_0000_0000_0000 }.times(lo.plus(hi)), zoom)
}

/// The pan at which a place stands in the middle of the canvas.
pub open spec fn centred_spec(size: Single, at: Double, zoom: Single) -> Single {
    size.widen().times(Double { bits: 0x3fe0_0000_0000_0000 }).minus(at.times(zoom.widen())).narrow()
}

/// The pan at which a place stands in the middle of the canvas.
pub fn centred(size: Single, at: Double, zoom: Single) -> (r: Single)
    ensures
        r == centred_spec(size, at, zoom),
{
    size.widen().times(Double { bits: 0x3fe0_0000_0000_0000 }).minus(at.times(zoom.widen())).narrow()
}

/// What is said of a crop.
pub open spec fn crop_text(b: Rect, zoom: Single) -> Seq<char> {
    "crop: "@ + side_spec(b.x0, b.x1).fixed_spec(0) + "×"@ + side_spec(b.y0, b.y1).fixed_spec(0)
        + " px → zoom "@ + zoom.fixed_spec(2) + "×"@
}

/// Zooms to the rectangle around the given ones.
pub fn crop_to(ui: &mut Ui, boxes: &Vec<Rect>)
    requires
        boxes@.len() > 0,
    ensures
        ({
            let b = around(boxes@);
            let v = crop_view(b, old(ui)@.canvas_w, old(ui)@.canvas_h);
            final(ui)@ == (UiView { view: v, ..old(ui)@ }).said(crop_text(b, v.zoom))
        }),
{
    let n: usize = boxes.len();
    let mut b: Rect = boxes[0];
    assert(boxes@.take(1)[0] == boxes@[0]);
    for i in 1..n
        invariant
            n == boxes@.len(),
            b == around(boxes@.take(i as int)),
    {
        let c: Rect = boxes[i];
        assert(boxes@.take(i + 1).drop_last() =~= boxes@.take(i as int));
        b = Rect {
            x0: b.x0.min(c.x0),
            y0: b.y0.min(c.y0),
            x1: b.x1.max(c.x1),
            y1: b.y1.max(c.y1),
        };
    }
    assert(boxes@.take(n as int) =~= boxes@);
    let w: Double = b.x1.minus(b.x0).max(Double { bits: 0x3ff0_0000_0000_0000 });
    let h: Double = b.y1.minus(b.y0).max(Double { bits: 0x3ff0_0000_0000_0000 });
    let zoom: Single = zoom_within(
        ui.canvas_w.widen().over(w).min(ui.canvas_h.widen().over(h)).narrow(),
    );
    let pan_x: Single = centred(ui.canvas_w, (Double { bits: 0x3fe0_0000_0000_0000 }).times(b.x0.plus(b.x1)), zoom);
    let pan_y: Single = centred(ui.canvas_h, (Double { bits: 0x3fe0_0000_0000_0000 }).times(b.y0.plus(b.y1)), zoom);
    ui.view = ViewPort { zoom, pan_x, pan_y };
    let mut v = chars_of("crop: ");
    put_chars(&mut v, &w.fixed(0));
    put_text(&mut v, "×");
    put_chars(&mut v, &h.fixed(0));
    put_text(&mut v, " px → zoom ");
    put_chars(&mut v, &zoom.fixed(2));
    put_text(&mut v, "×");
    ui.say(&v);
}

} // verus!
