//! The pointer on the canvas, and the crosshair.

use crate::arith::Whole;
use crate::edits::moved_region;
use crate::fits::{format_sexagesimal, sexagesimal_spec, FitsImage};
use crate::frame::{Crosshair, Frame, State, StateView};
use crate::marker::{new_marker, PixelPos, ShapeView};
use crate::num::{Double, Single};
use crate::panels::{centred, centred_spec};
use crate::session::ViewPort;
use crate::show::{
    display_to_fits, display_to_fits_spec, fits_to_display_oriented, frame_place, hit_test_markers,
    inside_spec, nearest_catalog_index, nearest_spec, put_right, right_aligned, xy_of,
};
use crate::text::{
    chars_of, lowercase, lowercase_spec, nat_text, put_chars, put_nat, put_text, same_text,
    string_of,
};
use crate::tile::{tile_hit, tile_hit_spec};
use crate::ui::{
    ask, asking, be_calm, calm, count_chars, count_text, counts_chars, counts_text, draw_again,
    drawing, turn_page, turning, Next, Outcome, Request, Ui, UiView,
};
use vstd::prelude::*;

verus! {

/// A position between brackets, to one decimal.
pub open spec fn position_text(x: Double, y: Double) -> Seq<char> {
    "("@ + x.fixed_spec(1) + ", "@ + y.fixed_spec(1) + ")"@
}

fn put_position(v: &mut Vec<char>, x: Double, y: Double)
    ensures
        final(v)@ == old(v)@ + position_text(x, y),
{
    let ghost before = v@;
    put_text(v, "(");
    put_chars(v, &x.fixed(1));
    put_text(v, ", ");
    put_chars(v, &y.fixed(1));
    put_text(v, ")");
    assert(v@ =~= before + position_text(x, y));
}

// ---------------------------------------------------------------------------
// Crosshair
// ---------------------------------------------------------------------------

/// The image position of a point of the active frame's display.
pub fn image_point(st: &State, dx: Double, dy: Double) -> (r: Option<(Double, Double)>)
    ensures
        r == if st@.has_active() {
            Some(display_to_fits_spec(dx, dy, st@.frame()))
        } else {
            None
        },
{
    if st.has_frame() {
        Some(display_to_fits(dx, dy, &st.frames[st.active]))
    } else {
        None
    }
}

/// What is said of a crosshair.
pub open spec fn crosshair_text(x: Double, y: Double, world: Option<(Double, Double)>) -> Seq<char> {
    "crosshair: "@ + position_text(x, y) + match world {
        Some((ra, dec)) => "  α="@ + ra.fixed_spec(6) + "°  δ="@ + dec.fixed_spec(6) + "°"@,
        None => "  [no WCS]"@,
    }
}

fn crosshair_chars(x: Double, y: Double, world: Option<(Double, Double)>) -> (r: Vec<char>)
    ensures
        r@ == crosshair_text(x, y, world),
{
    let mut v = chars_of("crosshair: ");
    put_position(&mut v, x, y);
    let ghost head = v@;
    match world {
        Some((ra, dec)) => {
            put_text(&mut v, "  α=");
            put_chars(&mut v, &ra.fixed(6));
            put_text(&mut v, "°  δ=");
            put_chars(&mut v, &dec.fixed(6));
            put_text(&mut v, "°");
            assert(v@ =~= head + ("  α="@ + ra.fixed_spec(6) + "°  δ="@ + dec.fixed_spec(6)
                + "°"@));
        },
        None => {
            put_text(&mut v, "  [no WCS]");
        },
    }
    v
}

/// Puts the crosshair at a point of the active frame's display. `world` is the sky position of
/// that point, if the frame has sky coordinates.
pub fn set_crosshair_at_display(
    st: &mut State,
    ui: &mut Ui,
    dx: Double,
    dy: Double,
    world: Option<(Double, Double)>,
) -> (next: Next)
    ensures
        ({
            let s = old(st)@;
            let (x, y) = display_to_fits_spec(dx, dy, s.frame());
            if s.has_active() {
                &&& final(st)@ == (StateView {
                    crosshair: Some(Crosshair { world, frame: s.active as usize, x, y }),
                    ..s
                })
                &&& final(ui)@ == old(ui)@.said(crosshair_text(x, y, world))
                &&& next == (Next { crosshair: true, ..calm() })
            } else {
                final(st)@ == s && final(ui)@ == old(ui)@ && next == calm()
            }
        }),
        old(st)@.wf() ==> final(st)@.wf(),
{
    if !st.has_frame() {
        return be_calm();
    }
    let (x, y): (Double, Double) = display_to_fits(dx, dy, &st.frames[st.active]);
    st.crosshair = Some(Crosshair { world, frame: st.active, x, y });
    let v = crosshair_chars(x, y, world);
    ui.say(&v);
    Next { show: false, refresh: false, crosshair: true, request: Request::Nothing }
}

/// The sky position of the crosshair, if it is to be looked for in the active frame by that:
/// where both have sky coordinates.
pub fn crosshair_sky(st: &State) -> (r: Option<(Double, Double)>)
    ensures
        r == if st@.has_active() && st@.frame().fits.wcs is Some && st@.crosshair is Some {
            st@.crosshair->0.world
        } else {
            None
        },
{
    if st.has_frame() && st.frames[st.active].fits.wcs.is_some() {
        match &st.crosshair {
            Some(c) => c.world,
            None => None,
        }
    } else {
        None
    }
}

/// Where the crosshair stands on the active frame's display: at the place of its sky position,
/// if it has one there; else at its pixel, if it was put into this frame.
pub open spec fn crosshair_place(s: StateView, place: Option<(Double, Double)>) -> Option<
    (Single, Single),
> {
    if s.has_active() && s.crosshair is Some {
        let c = s.crosshair->0;
        if c.world is Some && s.frame().fits.wcs is Some && place is Some {
            Some(frame_place(s.frame(), (place->0).0, (place->0).1))
        } else if c.frame == s.active {
            Some(frame_place(s.frame(), c.x, c.y))
        } else {
            None
        }
    } else {
        None
    }
}

/// Where the crosshair stands on the active frame's display. `place` is the pixel of its sky
/// position, if it has one in the active frame.
pub fn project_crosshair(st: &State, place: Option<(Double, Double)>) -> (r: Option<
    (Single, Single),
>)
    ensures
        r == crosshair_place(st@, place),
{
    if !st.has_frame() {
        return None;
    }
    let f: &Frame = &st.frames[st.active];
    match &st.crosshair {
        None => None,
        Some(c) => {
            if c.world.is_some() && f.fits.wcs.is_some() {
                if let Some((x, y)) = place {
                    return Some(fits_to_display_oriented(x, y, f));
                }
            }
            if c.frame == st.active {
                Some(fits_to_display_oriented(c.x, c.y, f))
            } else {
                None
            }
        },
    }
}

// ---------------------------------------------------------------------------
// Moving
// ---------------------------------------------------------------------------

/// What is said of a region that is dragged.
pub open spec fn drag_text(i: nat, dx: Double, dy: Double) -> Seq<char> {
    count_text("drag region #"@, i + 1, "  Δ=("@) + dx.signed_spec(1) + ", "@ + dy.signed_spec(1)
        + ")"@
}

fn drag_chars(i: usize, dx: Double, dy: Double) -> (r: Vec<char>)
    ensures
        r@ == drag_text(i as nat, dx, dy),
{
    let mut v = count_chars("drag region #", i as u128 + 1, "  Δ=(");
    put_chars(&mut v, &dx.signed(1));
    put_text(&mut v, ", ");
    put_chars(&mut v, &dy.signed(1));
    put_text(&mut v, ")");
    v
}

/// Whether a move of the pointer drags a region of the active frame.
pub open spec fn drags(s: StateView) -> bool {
    &&& s.has_active()
    &&& s.last_drag_fits is Some
    &&& s.dragging_marker matches Some(i) && i < s.regions().len()
}

/// Moves the dragged region with the pointer. Whether there is one.
pub fn drag(st: &mut State, ui: &mut Ui, x: Single, y: Single) -> (r: bool)
    ensures
        ({
            let s = old(st)@;
            let t = final(st)@;
            let p = display_to_fits_spec(x.widen(), y.widen(), s.frame());
            &&& r == drags(s)
            &&& if drags(s) {
                let i = s.dragging_marker->0;
                let dx = p.0.minus((s.last_drag_fits->0).0);
                let dy = p.1.minus((s.last_drag_fits->0).1);
                &&& (StateView { last_drag_fits: Some(p), ..s }).has_regions(
                    t,
                    s.regions().update(i as int, moved_region(s.regions()[i as int], dx, dy)),
                    s.frame().selected_marker,
                )
                &&& final(ui)@ == old(ui)@.said(drag_text(i as nat, dx, dy))
            } else {
                t == s && final(ui)@ == old(ui)@
            }
        }),
        old(st)@.wf() ==> final(st)@.wf(),
{
    if !st.has_frame() {
        return false;
    }
    let (px, py): (Double, Double) = display_to_fits(
        x.widen(),
        y.widen(),
        &st.frames[st.active],
    );
    let i: usize = match st.dragging_marker {
        Some(i) => i,
        None => {
            return false;
        },
    };
    let (lx, ly): (Double, Double) = match st.last_drag_fits {
        Some(p) => p,
        None => {
            return false;
        },
    };
    assert(st@.regions().len() == st@.frame().markers@.len());
    if i >= st.frames[st.active].markers.len() {
        return false;
    }
    let dx: Double = px.minus(lx);
    let dy: Double = py.minus(ly);
    let moved: bool = st.move_region(i, dx, dy);
    st.last_drag_fits = Some((px, py));
    let v = drag_chars(i, dx, dy);
    ui.say(&v);
    true
}

/// What is shown of the place of the pointer.
pub struct Readout {
    pub coords: String,
    pub value: String,
    pub wcs: String,
}

/// The text of a position.
pub open spec fn coords_text(x: Double, y: Double) -> Seq<char> {
    "x: "@ + right_aligned(x.fixed_spec(1), 7) + "    y: "@ + right_aligned(y.fixed_spec(1), 7)
}

/// The pixel that holds an image coordinate.
pub open spec fn pixel_of(x: Double) -> int {
    x.minus(Double { bits: 0x3ff0_0000_0000_0000 }).whole_spec(Whole::Round, i32::MIN as int, i32::MAX as int)
}

/// The pixel of an image at a position, if it is there.
pub open spec fn pixel_value(img: FitsImage, x: Double, y: Double) -> Option<Single> {
    let (i, j) = (pixel_of(x), pixel_of(y));
    if 0 <= i < img.width && 0 <= j < img.height {
        Some(img.data@[j * img.width + i])
    } else {
        None
    }
}

fn value_at(img: &FitsImage, x: Double, y: Double) -> (r: Option<Single>)
    requires
        img.wf(),
    ensures
        r == pixel_value(*img, x, y),
{
    let one = Double { bits: 0x3ff0_0000_0000_0000 };
    let i: i128 = x.minus(one).whole(Whole::Round, i32::MIN as i128, i32::MAX as i128);
    let j: i128 = y.minus(one).whole(Whole::Round, i32::MIN as i128, i32::MAX as i128);
    if i >= 0 && j >= 0 && i < img.width as i128 && j < img.height as i128 {
        Some(
            crate::filters::pixel(&img.data, img.width, img.height, i as usize, j as usize),
        )
    } else {
        None
    }
}

/// The pixel that is shown at a point of a frame's display, if there is one.
pub open spec fn shown_value(f: Frame, dx: Double, dy: Double) -> Option<Single> {
    let p = display_to_fits_spec(dx, dy, f);
    pixel_value(f.fits, p.0, p.1)
}

/// The pixel that is shown at a point of a frame's display, if there is one.
pub fn value_shown(f: &Frame, dx: Double, dy: Double) -> (r: Option<Single>)
    requires
        f.wf(),
    ensures
        r == shown_value(*f, dx, dy),
{
    let (x, y): (Double, Double) = display_to_fits(dx, dy, f);
    value_at(&f.fits, x, y)
}

/// The text of the pixel at a position.
pub open spec fn value_text(img: FitsImage, x: Double, y: Double) -> Seq<char> {
    match pixel_value(img, x, y) {
        Some(v) => "value: "@ + right_aligned(v.fixed_spec(4), 10),
        None => "value: ——"@,
    }
}

fn value_of(img: &FitsImage, x: Double, y: Double) -> (r: String)
    requires
        img.wf(),
    ensures
        r@ == value_text(*img, x, y),
{
    match value_at(img, x, y) {
        Some(value) => {
            let mut v = chars_of("value: ");
            put_right(&mut v, &value.fixed(4), 10);
            string_of(&v)
        },
        None => string_of(&chars_of("value: ——")),
    }
}

/// The text of a sky position in an image's coordinates.
pub open spec fn sky_text(img: FitsImage, sky: Option<(Double, Double)>) -> Seq<char> {
    match (img.wcs, sky) {
        (Some(w), Some((ra, dec))) => lowercase_spec(w.radesys@) + " "@ + sexagesimal_spec(ra, dec),
        _ => "wcs: ——"@,
    }
}

/// The text of a sky position in an image's coordinates.
pub fn sky_of(img: &FitsImage, sky: Option<(Double, Double)>) -> (r: String)
    ensures
        r@ == sky_text(*img, sky),
{
    match (&img.wcs, sky) {
        (Some(w), Some((ra, dec))) => {
            let mut v = lowercase(&chars_of(w.radesys.as_str()));
            put_text(&mut v, " ");
            put_text(&mut v, format_sexagesimal(ra, dec).as_str());
            string_of(&v)
        },
        _ => string_of(&chars_of("wcs: ——")),
    }
}

/// What is shown of the place of the pointer: its position, the pixel there, and the sky
/// position `sky` that belongs to it.
pub fn readout(st: &State, x: Single, y: Single, sky: Option<(Double, Double)>) -> (r: Readout)
    requires
        st@.wf(),
    ensures
        if st@.has_active() {
            let p = display_to_fits_spec(x.widen(), y.widen(), st@.frame());
            &&& r.coords@ == coords_text(p.0, p.1)
            &&& r.value@ == value_text(st@.frame().fits, p.0, p.1)
            &&& r.wcs@ == sky_text(st@.frame().fits, sky)
        } else {
            &&& r.coords@ == "x: ——      y: ——"@
            &&& r.value@ == "value: ——"@
            &&& r.wcs@ == "wcs: ——"@
        },
{
    if !st.has_frame() {
        return Readout {
            coords: string_of(&chars_of("x: ——      y: ——")),
            value: string_of(&chars_of("value: ——")),
            wcs: string_of(&chars_of("wcs: ——")),
        };
    }
    assert(st@.frame().wf());
    let f: &Frame = &st.frames[st.active];
    let (px, py): (Double, Double) = display_to_fits(x.widen(), y.widen(), f);
    let mut v = chars_of("x: ");
    put_right(&mut v, &px.fixed(1), 7);
    put_text(&mut v, "    y: ");
    put_right(&mut v, &py.fixed(1), 7);
    Readout { coords: string_of(&v), value: value_of(&f.fits, px, py), wcs: sky_of(&f.fits, sky) }
}

/// The image position whose sky position is shown with a frame: its middle.
pub fn middle(img: &FitsImage) -> (r: (Double, Double))
    ensures
        r == (
            Double::from_int_spec(img.width as int).over(Double { bits: 0x4000_0000_0000_0000 }),
            Double::from_int_spec(img.height as int).over(Double { bits: 0x4000_0000_0000_0000 }),
        ),
{
    (
        Double::from_nat(img.width as u64).over(Double { bits: 0x4000_0000_0000_0000 }),
        Double::from_nat(img.height as u64).over(Double { bits: 0x4000_0000_0000_0000 }),
    )
}

// ---------------------------------------------------------------------------
// Clicking
// ---------------------------------------------------------------------------

/// A side of the canvas in pixels: at least 64.
pub open spec fn canvas_side(x: Single) -> int {
    let n = x.whole_spec(Whole::Trunc, i32::MIN as int, i32::MAX as int);
    if n > 64 {
        n
    } else {
        64
    }
}

/// A side of the canvas in pixels: at least 64.
pub fn side_of(x: Single) -> (r: usize)
    ensures
        r == canvas_side(x),
        64 <= r <= i32::MAX,
{
    let n: i128 = x.whole(Whole::Trunc, i32::MIN as i128, i32::MAX as i128);
    if n > 64 {
        n as usize
    } else {
        64
    }
}

/// What a click on the frames side by side leads to: the frame under the pointer is shown alone.
pub open spec fn tile_clicked(s: StateView, u: UiView, x: Single, y: Single) -> Outcome {
    match tile_hit_spec(
        s.frames.len(),
        canvas_side(u.canvas_w),
        canvas_side(u.canvas_h),
        x.widen(),
        y.widen(),
    ) {
        Some(i) => {
            let t = StateView { tile_mode: false, active: i, ..s };
            Outcome {
                state: t,
                ui: u.showing(t).said(
                    counts_text(
                        "tile: selected frame "@,
                        (i + 1) as nat,
                        " (was "@,
                        (s.active + 1) as nat,
                        ")"@,
                    ),
                ),
                next: turning(),
            }
        },
        None => Outcome { state: s, ui: u, next: calm() },
    }
}

fn click_tile(st: &mut State, ui: &mut Ui, x: Single, y: Single) -> (next: Next)
    requires
        old(st)@.wf(),
    ensures
        (Outcome { state: final(st)@, ui: final(ui)@, next }) == tile_clicked(
            old(st)@,
            old(ui)@,
            x,
            y,
        ),
        final(st)@.wf(),
{
    match tile_hit(
        st.frames.len(),
        side_of(ui.canvas_w),
        side_of(ui.canvas_h),
        x.widen(),
        y.widen(),
    ) {
        Some(i) => {
            let was: u128 = st.active as u128 + 1;
            st.tile_mode = false;
            st.active = i;
            ui.push_view_to_window(st);
            let v = counts_chars("tile: selected frame ", i as u128 + 1, " (was ", was, ")");
            ui.say(&v);
            turn_page()
        },
        None => be_calm(),
    }
}

/// What is said of a click that meets nothing.
pub open spec fn click_text(x: Single, y: Single) -> Seq<char> {
    "click @ image ("@ + x.fixed_spec(1) + ", "@ + y.fixed_spec(1) + ")"@
}

fn click_chars(x: Single, y: Single) -> (r: Vec<char>)
    ensures
        r@ == click_text(x, y),
{
    let mut v = chars_of("click @ image (");
    put_chars(&mut v, &x.fixed(1));
    put_text(&mut v, ", ");
    put_chars(&mut v, &y.fixed(1));
    put_text(&mut v, ")");
    v
}

/// The radius of a region that a click draws.
pub open spec fn click_radius() -> Double {
    Double { bits: 0x4018_0000_0000_0000 }
}

/// Whether an outcome is that of a click that draws a circle.
pub open spec fn circle_clicked(s: StateView, u: UiView, x: Single, y: Single, o: Outcome) -> bool {
    let (px, py) = display_to_fits_spec(x.widen(), y.widen(), s.frame());
    &&& s.has_regions(
        o.state,
        s.regions().push(
            new_marker(
                ShapeView::Circle { center: PixelPos { x: px, y: py }, r: click_radius() },
            ),
        ),
        s.frame().selected_marker,
    )
    &&& o.ui == u.said("region @ "@ + position_text(px, py) + "  r="@ + click_radius().fixed_spec(1))
    &&& o.next == drawing()
}

fn click_edit(st: &mut State, ui: &mut Ui, x: Single, y: Single) -> (next: Next)
    requires
        old(st)@.has_active(),
    ensures
        circle_clicked(
            old(st)@,
            old(ui)@,
            x,
            y,
            Outcome { state: final(st)@, ui: final(ui)@, next },
        ),
        old(st)@.wf() ==> final(st)@.wf(),
{
    let (px, py): (Double, Double) = display_to_fits(
        x.widen(),
        y.widen(),
        &st.frames[st.active],
    );
    let r = Double { bits: 0x4018_0000_0000_0000 };
    st.add_circle(px, py, r);
    let mut v = chars_of("region @ ");
    put_position(&mut v, px, py);
    put_text(&mut v, "  r=");
    put_chars(&mut v, &r.fixed(1));
    ui.say(&v);
    draw_again()
}

/// The row of the active frame's catalog within eight pixels of a position, if there is one.
pub open spec fn row_near(f: Frame, x: Double, y: Double) -> Option<int> {
    match f.catalog {
        Some(c) => match nearest_spec(xy_of(c), x, y, Double { bits: 0x4020_0000_0000_0000 }.times(Double { bits: 0x4020_0000_0000_0000 })) {
            Some((i, _)) => Some(i as int),
            None => None,
        },
        None => None,
    }
}

/// What a click that looks for a row of the catalog leads to.
pub open spec fn row_clicked(s: StateView, u: UiView, x: Single, y: Single) -> Outcome {
    let (px, py) = display_to_fits_spec(x.widen(), y.widen(), s.frame());
    match row_near(s.frame(), px, py) {
        Some(i) => Outcome {
            state: s.on_frame(|f: Frame| Frame { selected_catalog: Some(i as usize), ..f }),
            ui: u.said(
                count_text("selected catalog row "@, (i + 1) as nat, " @ "@) + position_text(px, py),
            ),
            next: drawing(),
        },
        None => Outcome { state: s, ui: u.said(click_text(x, y)), next: calm() },
    }
}

fn click_row(st: &mut State, ui: &mut Ui, x: Single, y: Single) -> (next: Next)
    requires
        old(st)@.has_active(),
    ensures
        (Outcome { state: final(st)@, ui: final(ui)@, next }) == row_clicked(
            old(st)@,
            old(ui)@,
            x,
            y,
        ),
        old(st)@.wf() ==> final(st)@.wf(),
{
    let (px, py): (Double, Double) = display_to_fits(
        x.widen(),
        y.widen(),
        &st.frames[st.active],
    );
    let hit: Option<usize> = match &st.frames[st.active].catalog {
        Some(c) => nearest_catalog_index(c, px, py, Double { bits: 0x4020_0000_0000_0000 }),
        None => None,
    };
    match hit {
        Some(i) => {
            st.select_row(i);
            let mut v = count_chars("selected catalog row ", i as u128 + 1, " @ ");
            put_position(&mut v, px, py);
            ui.say(&v);
            draw_again()
        },
        None => {
            let v = click_chars(x, y);
            ui.say(&v);
            be_calm()
        },
    }
}

/// Whether an outcome is that of a click at a point of the display: it picks a frame from those
/// side by side, puts the crosshair or draws a circle by the mode, or picks a row of the catalog.
pub open spec fn clicked(s: StateView, u: UiView, x: Single, y: Single, o: Outcome) -> bool {
    if s.tile_mode {
        o == tile_clicked(s, u, x, y)
    } else if !s.has_active() {
        o == (Outcome { state: s, ui: u.said(click_text(x, y)), next: calm() })
    } else if u.mode == "crosshair"@ {
        o == (Outcome { state: s, ui: u, next: asking(Request::MarkCrosshair) })
    } else if u.mode == "edit"@ {
        circle_clicked(s, u, x, y, o)
    } else {
        o == row_clicked(s, u, x, y)
    }
}

/// Does what a click at a point of the display stands for.
pub fn click(st: &mut State, ui: &mut Ui, x: Single, y: Single) -> (next: Next)
    requires
        old(st)@.wf(),
    ensures
        clicked(
            old(st)@,
            old(ui)@,
            x,
            y,
            Outcome { state: final(st)@, ui: final(ui)@, next },
        ),
        final(st)@.wf(),
{
    if st.tile_mode {
        return click_tile(st, ui, x, y);
    }
    if !st.has_frame() {
        let v = click_chars(x, y);
        ui.say(&v);
        return be_calm();
    }
    let mode = chars_of(ui.mode.as_str());
    if same_text(&mode, "crosshair") {
        return ask(Request::MarkCrosshair);
    }
    if same_text(&mode, "edit") {
        return click_edit(st, ui, x, y);
    }
    click_row(st, ui, x, y)
}

/// What the choice of a row of the catalog's table leads to, if the row has a position: it is
/// selected.
pub open spec fn row_picked(s: StateView, u: UiView, i: int) -> Outcome {
    let p = xy_of(s.frame().catalog->0)[i];
    Outcome {
        state: s.on_frame(|f: Frame| Frame { selected_catalog: Some(i as usize), ..f }),
        ui: u.said(count_text("row "@, (i + 1) as nat, " @ "@) + position_text(p.0, p.1)),
        next: drawing(),
    }
}

/// Whether a row of the active frame's catalog has a position.
pub open spec fn has_row(s: StateView, i: int) -> bool {
    &&& s.has_active()
    &&& s.frame().catalog matches Some(c) && i < xy_of(c).len()
}

/// Selects a row of the catalog by its place in the table: the point of the display to go to.
pub fn pick_row(st: &mut State, ui: &mut Ui, i: usize) -> (r: (Option<(Single, Single)>, Next))
    ensures
        if has_row(old(st)@, i as int) {
            let p = xy_of(old(st)@.frame().catalog->0)[i as int];
            &&& r.0 == Some(frame_place(old(st)@.frame(), p.0, p.1))
            &&& (Outcome { state: final(st)@, ui: final(ui)@, next: r.1 }) == row_picked(
                old(st)@,
                old(ui)@,
                i as int,
            )
        } else {
            &&& r.0 is None
            &&& (Outcome { state: final(st)@, ui: final(ui)@, next: r.1 }) == (Outcome {
                state: old(st)@,
                ui: old(ui)@,
                next: calm(),
            })
        },
        old(st)@.wf() ==> final(st)@.wf(),
{
    if !st.has_frame() {
        return (None, be_calm());
    }
    let all: Vec<(Double, Double)> = match &st.frames[st.active].catalog {
        Some(c) => c.xy_iter(),
        None => {
            return (None, be_calm());
        },
    };
    assert(all@ == xy_of(st@.frame().catalog->0));
    if i >= all.len() {
        return (None, be_calm());
    }
    let (x, y): (Double, Double) = all[i];
    let place: (Single, Single) = fits_to_display_oriented(x, y, &st.frames[st.active]);
    st.select_row(i);
    let mut v = count_chars("row ", i as u128 + 1, " @ ");
    put_position(&mut v, x, y);
    ui.say(&v);
    (Some(place), draw_again())
}

// ---------------------------------------------------------------------------
// Pressing
// ---------------------------------------------------------------------------

/// Whether the region at a place is the last drawn of those under a position.
pub open spec fn is_hit(s: StateView, x: Double, y: Double, r: Option<usize>) -> bool {
    let ms = s.frame().markers@;
    match r {
        Some(i) => i < ms.len() && inside_spec(ms[i as int].shape, x, y) && forall|j: int|
            i < j < ms.len() ==> !inside_spec((#[trigger] ms[j]).shape, x, y),
        None => forall|j: int| 0 <= j < ms.len() ==> !inside_spec((#[trigger] ms[j]).shape, x, y),
    }
}

/// What is said of a pressed region.
pub open spec fn press_text(edit: bool, i: nat) -> Seq<char> {
    if edit {
        "drag region #"@ + nat_text(i + 1)
    } else {
        "select region #"@ + nat_text(i + 1)
    }
}

fn press_chars(edit: bool, i: usize) -> (r: Vec<char>)
    ensures
        r@ == press_text(edit, i as nat),
{
    let mut v = if edit {
        chars_of("drag region #")
    } else {
        chars_of("select region #")
    };
    put_nat(&mut v, i as u128 + 1);
    v
}

/// What a press leads to that meets the given region, or none, at an image position: the region
/// is selected, and in edit mode it follows the pointer.
pub open spec fn press_spec(s: StateView, u: UiView, p: (Double, Double), hit: Option<usize>) -> Outcome {
    match hit {
        Some(i) => {
            let edit = u.mode == "edit"@;
            let t = s.on_frame(|f: Frame| Frame { selected_marker: Some(i), ..f });
            Outcome {
                state: if edit {
                    StateView { dragging_marker: Some(i), last_drag_fits: Some(p), ..t }
                } else {
                    t
                },
                ui: (UiView { marker_drag: true, ..u }).said(press_text(edit, i as nat)),
                next: drawing(),
            }
        },
        None => Outcome {
            state: StateView { dragging_marker: None, last_drag_fits: None, ..s },
            ui: UiView { marker_drag: false, ..u },
            next: calm(),
        },
    }
}

fn press_on(st: &mut State, ui: &mut Ui, p: (Double, Double), i: usize) -> (next: Next)
    ensures
        (Outcome { state: final(st)@, ui: final(ui)@, next }) == press_spec(
            old(st)@,
            old(ui)@,
            p,
            Some(i),
        ),
        old(st)@.wf() ==> final(st)@.wf(),
{
    st.select_region(i);
    let mode = chars_of(ui.mode.as_str());
    let edit: bool = same_text(&mode, "edit");
    ui.marker_drag = true;
    if edit {
        st.dragging_marker = Some(i);
        st.last_drag_fits = Some(p);
    }
    let v = press_chars(edit, i);
    ui.say(&v);
    draw_again()
}

fn press_off(st: &mut State, ui: &mut Ui, p: (Double, Double)) -> (next: Next)
    ensures
        (Outcome { state: final(st)@, ui: final(ui)@, next }) == press_spec(
            old(st)@,
            old(ui)@,
            p,
            None,
        ),
        old(st)@.wf() ==> final(st)@.wf(),
{
    st.dragging_marker = None;
    st.last_drag_fits = None;
    ui.marker_drag = false;
    be_calm()
}

/// The last drawn region under a position.
fn region_at(st: &State, p: (Double, Double)) -> (r: Option<usize>)
    requires
        st@.has_active(),
    ensures
        is_hit(st@, p.0, p.1, r),
{
    hit_test_markers(&st.frames[st.active].markers, p.0, p.1)
}

/// Whether an outcome is that of a press at a point of the display.
pub open spec fn pressed(s: StateView, u: UiView, x: Single, y: Single, o: Outcome) -> bool {
    if s.has_active() {
        let p = display_to_fits_spec(x.widen(), y.widen(), s.frame());
        exists|hit: Option<usize>| #[trigger]
            is_hit(s, p.0, p.1, hit) && o == press_spec(s, u, p, hit)
    } else {
        o == (Outcome { state: s, ui: UiView { marker_drag: false, ..u }, next: calm() })
    }
}

/// Selects the region under a pressed pointer; in edit mode it follows the pointer from then on.
pub fn press(st: &mut State, ui: &mut Ui, x: Single, y: Single) -> (next: Next)
    ensures
        pressed(
            old(st)@,
            old(ui)@,
            x,
            y,
            Outcome { state: final(st)@, ui: final(ui)@, next },
        ),
        old(st)@.wf() ==> final(st)@.wf(),
{
    if !st.has_frame() {
        ui.marker_drag = false;
        return be_calm();
    }
    let p: (Double, Double) = display_to_fits(x.widen(), y.widen(), &st.frames[st.active]);
    let hit: Option<usize> = region_at(st, p);
    match hit {
        Some(i) => press_on(st, ui, p, i),
        None => press_off(st, ui, p),
    }
}

/// Lets go of the region that follows the pointer.
pub fn release(st: &mut State, ui: &mut Ui)
    ensures
        final(st)@ == (StateView { dragging_marker: None, last_drag_fits: None, ..old(st)@ }),
        final(ui)@ == (UiView { marker_drag: false, ..old(ui)@ }),
        old(st)@.wf() ==> final(st)@.wf(),
{
    st.dragging_marker = None;
    st.last_drag_fits = None;
    ui.marker_drag = false;
}

/// Sets what the pointer does.
pub fn set_mode(ui: &mut Ui, mode: &str)
    ensures
        final(ui)@ == (UiView { mode: mode@, ..old(ui)@ }).said("mode: "@ + mode@),
{
    let v = chars_of(mode);
    ui.mode = string_of(&v);
    let mut t = chars_of("mode: ");
    put_chars(&mut t, &v);
    ui.say(&t);
}

/// The view with a point of the display in the middle of the canvas.
pub open spec fn pointed(u: UiView, p: (Single, Single)) -> ViewPort {
    ViewPort {
        pan_x: centred_spec(u.canvas_w, p.0.widen(), u.view.zoom),
        pan_y: centred_spec(u.canvas_h, p.1.widen(), u.view.zoom),
        ..u.view
    }
}

/// Puts a point of the display in the middle of the canvas.
pub fn point_view(ui: &mut Ui, p: (Single, Single))
    ensures
        final(ui)@ == (UiView { view: pointed(old(ui)@, p), ..old(ui)@ }),
{
    let v: ViewPort = ui.view;
    ui.view = ViewPort {
        zoom: v.zoom,
        pan_x: centred(ui.canvas_w, p.0.widen(), v.zoom),
        pan_y: centred(ui.canvas_h, p.1.widen(), v.zoom),
    };
}

} // verus!
