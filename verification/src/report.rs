//! What the window shows of the session.

use crate::color::{strip_spec, Colormap};
use crate::draw::Canvas;
use crate::frame::{Frame, State, StateView};
use crate::num::Single;
use crate::overlay::{is_stroked, render_line_overlay, stroked_all};
use crate::pointer::{canvas_side, side_of};
use crate::session::ViewPort;
use crate::show::{
    build_catalog_model, build_mark_model, build_text_marks, catalog_listing, catalog_marks,
    marker_marks, row_views, text_marks, CatRow, Mark, TextMark, TextMarkView,
};
use crate::text::{chars_of, string_of};
use crate::ui::{count_chars, count_text, counts_chars, counts_text, Ui, UiView};
use vstd::prelude::*;

verus! {

/// What the canvas shows.
#[derive(Clone, Copy, Debug, PartialEq, Eq, Structural)]
pub enum Scene {
    /// There are no frames.
    Empty,
    /// All frames side by side.
    Tiles,
    /// The active frame.
    Frame,
}

/// What the window shows of the session. In an empty scene the texts on the image and the lines
/// stay as they were.
pub struct Report {
    pub scene: Scene,
    /// Which of the frames is active.
    pub counter: String,
    pub filename: String,
    pub stretch: &'static str,
    pub limits: &'static str,
    pub cmap: &'static str,
    /// The pixels of the colour bar.
    pub strip: Vec<u8>,
    pub marks: Vec<Mark>,
    pub texts: Vec<TextMark>,
    pub rows: Vec<CatRow>,
    pub selected: Option<usize>,
    pub width: usize,
    pub height: usize,
    /// The picture of the lines over the image, if there are any.
    pub lines: Option<Canvas>,
}

/// The contents of a list of texts.
pub open spec fn text_views(v: Seq<TextMark>) -> Seq<TextMarkView> {
    Seq::new(v.len(), |i: int| v[i]@)
}

/// Which of the frames is active.
pub open spec fn counter_text(s: StateView) -> Seq<char> {
    if s.frames.len() == 0 {
        "0/0"@
    } else {
        counts_text(""@, (s.active + 1) as nat, "/"@, s.frames.len(), ""@)
    }
}

fn counter_of(st: &State) -> (r: String)
    ensures
        r@ == counter_text(st@),
{
    let v = if st.frames.len() == 0 {
        chars_of("0/0")
    } else {
        counts_chars("", st.active as u128 + 1, "/", st.frames.len() as u128, "")
    };
    string_of(&v)
}

/// Whether a report is that of a session without frames.
pub open spec fn is_empty_report(r: Report) -> bool {
    &&& r.scene == Scene::Empty
    &&& r.filename@ == "—"@
    &&& r.stretch@ == "linear"@
    &&& r.limits@ == "zscale"@
    &&& r.cmap@ == "grey"@
    &&& r.strip@ == strip_spec(Colormap::Grey, 256)
    &&& r.marks@.len() == 0
    &&& r.texts@.len() == 0
    &&& r.rows@.len() == 0
    &&& r.selected is None
    &&& r.width == 0
    &&& r.height == 0
    &&& r.lines is None
}

/// Whether a report has the choices of a frame.
pub open spec fn has_choices(r: Report, f: Frame) -> bool {
    &&& r.stretch@ == f.stretch_label_spec()
    &&& r.limits@ == f.limits_label_spec()
    &&& r.cmap@ == f.cmap.name_spec()
    &&& r.strip@ == strip_spec(f.cmap, 256)
    &&& row_views(r.rows@) == catalog_listing(f)
}

/// Whether a report is that of all frames side by side: as large as the canvas, without what
/// belongs to a single frame.
pub open spec fn is_tile_report(r: Report, s: StateView, u: UiView) -> bool {
    &&& r.scene == Scene::Tiles
    &&& has_choices(r, s.frame())
    &&& r.filename@ == count_text("[tile] "@, s.frames.len(), " frames"@)
    &&& r.marks@.len() == 0
    &&& r.texts@.len() == 0
    &&& r.selected is None
    &&& r.width == canvas_side(u.canvas_w)
    &&& r.height == canvas_side(u.canvas_h)
    &&& r.lines is None
}

/// Whether a report is that of a frame.
pub open spec fn is_frame_report(r: Report, f: Frame) -> bool {
    &&& r.scene == Scene::Frame
    &&& has_choices(r, f)
    &&& r.filename@ == f.name@
    &&& r.marks@ == catalog_marks(f) + marker_marks(f, f.markers@.len())
    &&& text_views(r.texts@) == text_marks(f, f.markers@.len())
    &&& r.selected == f.selected_catalog
    &&& r.width == f.fits.width
    &&& r.height == f.fits.height
    &&& has_lines(f, r.lines)
}

/// Whether a picture is that of a frame's lines; there is none where no region is drawn by
/// lines.
pub open spec fn has_lines(f: Frame, r: Option<Canvas>) -> bool {
    let some = f.fits.width > 0 && f.fits.height > 0 && exists|i: int|
        0 <= i < f.markers@.len() && is_stroked(#[trigger] f.markers@[i]);
    match r {
        Some(c) => some && c@ == stroked_all(f, f.markers@.len()) && c@.wf(),
        None => !some,
    }
}

fn empty_report(counter: String) -> (r: Report)
    ensures
        is_empty_report(r),
        r.counter == counter,
{
    Report {
        scene: Scene::Empty,
        counter,
        filename: string_of(&chars_of("—")),
        stretch: "linear",
        limits: "zscale",
        cmap: "grey",
        strip: Colormap::Grey.rgba_strip(),
        marks: Vec::new(),
        texts: Vec::new(),
        rows: Vec::new(),
        selected: None,
        width: 0,
        height: 0,
        lines: None,
    }
}

fn tile_report(counter: String, f: &Frame, n: usize, w: usize, h: usize) -> (r: Report)
    ensures
        r.counter == counter,
        r.scene == Scene::Tiles,
        has_choices(r, *f),
        r.filename@ == count_text("[tile] "@, n as nat, " frames"@),
        r.marks@.len() == 0,
        r.texts@.len() == 0,
        r.selected is None,
        r.width == w,
        r.height == h,
        r.lines is None,
{
    Report {
        scene: Scene::Tiles,
        counter,
        filename: string_of(&count_chars("[tile] ", n as u128, " frames")),
        stretch: f.stretch_label(),
        limits: f.limits_label(),
        cmap: f.cmap.name(),
        strip: f.cmap.rgba_strip(),
        marks: Vec::new(),
        texts: Vec::new(),
        rows: build_catalog_model(f),
        selected: None,
        width: w,
        height: h,
        lines: None,
    }
}

fn frame_report(counter: String, f: &Frame) -> (r: Report)
    requires
        f.wf(),
    ensures
        r.counter == counter,
        is_frame_report(r, *f),
{
    Report {
        scene: Scene::Frame,
        counter,
        filename: string_of(&chars_of(f.name.as_str())),
        stretch: f.stretch_label(),
        limits: f.limits_label(),
        cmap: f.cmap.name(),
        strip: f.cmap.rgba_strip(),
        marks: build_mark_model(f),
        texts: build_text_marks(f),
        rows: build_catalog_model(f),
        selected: f.selected_catalog,
        width: f.fits.width,
        height: f.fits.height,
        lines: render_line_overlay(f),
    }
}

/// What the window shows of the session. Frames side by side are shown at their own size, and
/// without a grid.
pub fn refresh_view(st: &State, ui: &mut Ui) -> (r: Report)
    requires
        st@.wf(),
    ensures
        r.counter@ == counter_text(st@),
        if st@.frames.len() == 0 {
            is_empty_report(r) && final(ui)@ == old(ui)@
        } else if st@.tile_mode {
            is_tile_report(r, st@, old(ui)@) && final(ui)@ == (UiView {
                view: ViewPort { zoom: Single { bits: 0x3f80_0000 }, pan_x: Single { bits: 0 }, pan_y: Single { bits: 0 } },
                grid: false,
                ..old(ui)@
            })
        } else {
            is_frame_report(r, st@.frame()) && final(ui)@ == old(ui)@
        },
{
    let counter = counter_of(st);
    if !st.has_frame() {
        return empty_report(counter);
    }
    if st.tile_mode {
        let w: usize = side_of(ui.canvas_w);
        let h: usize = side_of(ui.canvas_h);
        ui.view = ViewPort { zoom: Single { bits: 0x3f80_0000 }, pan_x: Single { bits: 0 }, pan_y: Single { bits: 0 } };
        ui.grid = false;
        return tile_report(counter, &st.frames[st.active], st.frames.len(), w, h);
    }
    assert(st@.frame().wf());
    frame_report(counter, &st.frames[st.active])
}

} // verus!
