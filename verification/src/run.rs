//! What the entries of the menus do.

use crate::analysis::{
    aperture_spec, compute_centroid, image_stats, is_centroid, is_measured, is_stats_of,
    marker_aperture, measured_region, pixel_table, table_rows, Aperture, Stats,
};
use crate::arith::Whole;
use crate::catalog::Catalog;
use crate::color::Orientation;
use crate::command::{
    menu_command, menu_spec, AnalysisItem, BinItem, CatalogItem, ColorItem, Command, EditItem,
    FileItem, FrameItem, RegionItem, ScaleItem, ViewItem, ZoomItem,
};
use crate::edits::moved_region;
use crate::fits::{int_chars, int_text};
use crate::frame::{fit_zoom, fit_zoom_spec, Frame, SmoothKind, State, StateView};
use crate::image::{finite_of, finite_values};
use crate::marker::new_marker;
use crate::mosaic::{composable, same_size};
use crate::num::{Double, Single};
use crate::session::{next_smooth, with_cmap, with_smooth, Lock, ViewPort};
use crate::text::{chars_of, nat_text, put_chars, put_nat, put_text};
use crate::ui::{
    ask, asking, be_calm, calm, count_chars, count_text, counts_chars, counts_text, draw_again,
    drawing, turn_page, turning, Next, Outcome, Request, Ui, UiView,
};
use vstd::prelude::*;

verus! {

// ---------------------------------------------------------------------------
// File
// ---------------------------------------------------------------------------

/// What a command leads to that needs a frame: the request, or a complaint.
pub open spec fn needs_frame(s: StateView, u: UiView, r: Request, complaint: Seq<char>) -> Outcome {
    if s.has_active() {
        Outcome { state: s, ui: u, next: asking(r) }
    } else {
        Outcome { state: s, ui: u.said(complaint), next: calm() }
    }
}

fn need_frame(st: &State, ui: &mut Ui, r: Request, complaint: &str) -> (next: Next)
    ensures
        (Outcome { state: st@, ui: final(ui)@, next }) == needs_frame(st@, old(ui)@, r, complaint@),
{
    if st.has_frame() {
        ask(r)
    } else {
        ui.tell(complaint);
        be_calm()
    }
}

/// What an entry of the file menu leads to.
pub open spec fn file_spec(s: StateView, u: UiView, i: FileItem) -> Outcome {
    match i {
        FileItem::Open => Outcome { state: s, ui: u, next: asking(Request::OpenFile) },
        FileItem::SavePng => needs_frame(s, u, Request::SavePng, "save image: no active frame"@),
        FileItem::SaveFits => needs_frame(s, u, Request::SaveFits, "save fits: no active frame"@),
        FileItem::SaveTiff => needs_frame(s, u, Request::SaveTiff, "save tiff: no active frame"@),
        FileItem::SaveJpeg => Outcome {
            state: s,
            ui: u.said(
                "JPEG export not built in — use 'Save Image…' (PNG) or 'Save TIFF…' for now"@,
            ),
            next: calm(),
        },
        FileItem::SavePostscript => needs_frame(
            s,
            u,
            Request::SavePostscript,
            "save ps: no active frame"@,
        ),
        FileItem::HduNavigator => if u.units {
            Outcome {
                state: s,
                ui: (UiView { units: false, ..u }).said("HDU navigator: hidden"@),
                next: calm(),
            }
        } else {
            Outcome { state: s, ui: u, next: asking(Request::ListUnits) }
        },
        FileItem::NextHdu => Outcome { state: s, ui: u, next: asking(Request::NextUnit) },
        FileItem::Print => needs_frame(s, u, Request::Print, "print: no active frame"@),
        FileItem::SampImage => Outcome { state: s, ui: u, next: asking(Request::SampImage) },
        FileItem::SampVotable => Outcome { state: s, ui: u, next: asking(Request::SampVotable) },
        FileItem::Quit => Outcome { state: s, ui: u, next: asking(Request::Quit) },
    }
}

fn run_file(st: &State, ui: &mut Ui, i: FileItem) -> (next: Next)
    ensures
        (Outcome { state: st@, ui: final(ui)@, next }) == file_spec(st@, old(ui)@, i),
{
    match i {
        FileItem::Open => ask(Request::OpenFile),
        FileItem::SavePng => need_frame(st, ui, Request::SavePng, "save image: no active frame"),
        FileItem::SaveFits => need_frame(st, ui, Request::SaveFits, "save fits: no active frame"),
        FileItem::SaveTiff => need_frame(st, ui, Request::SaveTiff, "save tiff: no active frame"),
        FileItem::SaveJpeg => {
            ui.tell("JPEG export not built in — use 'Save Image…' (PNG) or 'Save TIFF…' for now");
            be_calm()
        },
        FileItem::SavePostscript => need_frame(
            st,
            ui,
            Request::SavePostscript,
            "save ps: no active frame",
        ),
        FileItem::HduNavigator => if ui.units {
            ui.units = false;
            ui.tell("HDU navigator: hidden");
            be_calm()
        } else {
            ask(Request::ListUnits)
        },
        FileItem::NextHdu => ask(Request::NextUnit),
        FileItem::Print => need_frame(st, ui, Request::Print, "print: no active frame"),
        FileItem::SampImage => ask(Request::SampImage),
        FileItem::SampVotable => ask(Request::SampVotable),
        FileItem::Quit => ask(Request::Quit),
    }
}

// ---------------------------------------------------------------------------
// View
// ---------------------------------------------------------------------------

/// One of two texts.
pub open spec fn either(on: bool, a: Seq<char>, b: Seq<char>) -> Seq<char> {
    if on {
        a
    } else {
        b
    }
}

/// One of two texts.
pub fn pick<'a>(on: bool, a: &'a str, b: &'a str) -> (r: &'a str)
    ensures
        r@ == either(on, a@, b@),
{
    if on {
        a
    } else {
        b
    }
}

/// The panner is shown or hidden.
pub open spec fn toggle_panner_spec(s: StateView, u: UiView) -> Outcome {
    Outcome {
        state: s,
        ui: (UiView { panner: !u.panner, ..u }).said(
            either(!u.panner, "panner: shown"@, "panner: hidden"@),
        ),
        next: calm(),
    }
}

/// The magnifier is shown or hidden.
pub open spec fn toggle_magnifier_spec(s: StateView, u: UiView) -> Outcome {
    Outcome {
        state: s,
        ui: (UiView { magnifier: !u.magnifier, ..u }).said(
            either(!u.magnifier, "magnifier: shown"@, "magnifier: hidden"@),
        ),
        next: calm(),
    }
}

/// The grid is asked for or hidden; it needs a frame with sky coordinates.
pub open spec fn toggle_grid_spec(s: StateView, u: UiView) -> Outcome {
    if !s.has_active() {
        Outcome { state: s, ui: u.said("grid: no active frame"@), next: calm() }
    } else if s.frame().fits.wcs is None {
        Outcome { state: s, ui: u.said("grid: active frame has no WCS"@), next: calm() }
    } else if u.grid {
        Outcome {
            state: s,
            ui: (UiView { grid: false, ..u }).said("grid: hidden"@),
            next: calm(),
        }
    } else {
        Outcome { state: s, ui: u, next: asking(Request::DrawGrid) }
    }
}

/// The crosshair is asked for, or taken away where there is one.
pub open spec fn toggle_crosshair_spec(s: StateView, u: UiView) -> Outcome {
    if s.crosshair is Some {
        Outcome {
            state: StateView { crosshair: None, ..s },
            ui: u.said("crosshair: cleared"@),
            next: Next { crosshair: true, ..calm() },
        }
    } else {
        Outcome { state: s, ui: u, next: asking(Request::PlaceCrosshair) }
    }
}

/// What an entry of the view menu leads to. The grid needs a frame with sky coordinates; a
/// crosshair that is there is taken away.
pub open spec fn view_spec(s: StateView, u: UiView, i: ViewItem) -> Outcome {
    match i {
        ViewItem::Panner => toggle_panner_spec(s, u),
        ViewItem::Magnifier => toggle_magnifier_spec(s, u),
        ViewItem::Grid => toggle_grid_spec(s, u),
        ViewItem::Crosshair => toggle_crosshair_spec(s, u),
    }
}

fn toggle_panner(st: &mut State, ui: &mut Ui) -> (next: Next)
    ensures
        (Outcome { state: final(st)@, ui: final(ui)@, next }) == toggle_panner_spec(old(st)@, old(ui)@),
        old(st)@.wf() ==> final(st)@.wf(),
{
    ui.panner = !ui.panner;
    ui.tell(pick(ui.panner, "panner: shown", "panner: hidden"));
    be_calm()
}

fn toggle_magnifier(st: &mut State, ui: &mut Ui) -> (next: Next)
    ensures
        (Outcome { state: final(st)@, ui: final(ui)@, next }) == toggle_magnifier_spec(old(st)@, old(ui)@),
        old(st)@.wf() ==> final(st)@.wf(),
{
    ui.magnifier = !ui.magnifier;
    ui.tell(pick(ui.magnifier, "magnifier: shown", "magnifier: hidden"));
    be_calm()
}

fn toggle_grid(st: &mut State, ui: &mut Ui) -> (next: Next)
    ensures
        (Outcome { state: final(st)@, ui: final(ui)@, next }) == toggle_grid_spec(old(st)@, old(ui)@),
        old(st)@.wf() ==> final(st)@.wf(),
{
    if !st.has_frame() {
        ui.tell("grid: no active frame");
        be_calm()
    } else if st.frames[st.active].fits.wcs.is_none() {
        ui.tell("grid: active frame has no WCS");
        be_calm()
    } else if ui.grid {
        ui.grid = false;
        ui.tell("grid: hidden");
        be_calm()
    } else {
        ask(Request::DrawGrid)
    }
}

fn toggle_crosshair(st: &mut State, ui: &mut Ui) -> (next: Next)
    ensures
        (Outcome { state: final(st)@, ui: final(ui)@, next }) == toggle_crosshair_spec(old(st)@, old(ui)@),
        old(st)@.wf() ==> final(st)@.wf(),
{
    if st.crosshair.is_some() {
        st.crosshair = None;
        ui.tell("crosshair: cleared");
        Next { show: false, refresh: false, crosshair: true, request: Request::Nothing }
    } else {
        ask(Request::PlaceCrosshair)
    }
}

fn run_view(st: &mut State, ui: &mut Ui, i: ViewItem) -> (next: Next)
    ensures
        (Outcome { state: final(st)@, ui: final(ui)@, next }) == view_spec(
            old(st)@,
            old(ui)@,
            i,
        ),
        old(st)@.wf() ==> final(st)@.wf(),
{
    match i {
        ViewItem::Panner => toggle_panner(st, ui),
        ViewItem::Magnifier => toggle_magnifier(st, ui),
        ViewItem::Grid => toggle_grid(st, ui),
        ViewItem::Crosshair => toggle_crosshair(st, ui),
    }
}

/// Says whether the grid that was asked for is drawn.
pub fn grid_drawn(ui: &mut Ui, drawn: bool)
    ensures
        final(ui)@ == if drawn {
            (UiView { grid: true, ..old(ui)@ }).said("grid: shown"@)
        } else {
            old(ui)@.said("grid: WCS projection failed"@)
        },
{
    if drawn {
        ui.grid = true;
        ui.tell("grid: shown");
    } else {
        ui.tell("grid: WCS projection failed");
    }
}

// ---------------------------------------------------------------------------
// Frame
// ---------------------------------------------------------------------------

/// The place and the name of the active frame.
pub open spec fn frame_text(s: StateView) -> Seq<char> {
    counts_text(
        "frame "@,
        (s.active + 1) as nat,
        "/"@,
        s.frames.len(),
        " — "@,
    ) + s.frame().name@
}

/// What a change to another frame leads to; there is none where the frame is not there or is
/// active.
pub open spec fn switch_spec(s: StateView, u: UiView, target: int) -> Outcome {
    if target >= s.frames.len() || target == s.active {
        Outcome { state: s, ui: u, next: calm() }
    } else {
        let t = s.switched(target, u.view);
        Outcome { state: t, ui: u.showing(t).said(frame_text(t)), next: turning() }
    }
}

/// Makes another frame active and shows it in the view it had.
pub fn switch_frame(st: &mut State, ui: &mut Ui, target: usize) -> (next: Next)
    ensures
        (Outcome { state: final(st)@, ui: final(ui)@, next }) == switch_spec(
            old(st)@,
            old(ui)@,
            target as int,
        ),
        old(st)@.wf() ==> final(st)@.wf(),
{
    if st.switch_frame(target, ui.view) {
        ui.push_view_to_window(st);
        let mut v = counts_chars(
            "frame ",
            st.active as u128 + 1,
            "/",
            st.frames.len() as u128,
            " — ",
        );
        put_text(&mut v, st.frames[st.active].name.as_str());
        ui.say(&v);
        turn_page()
    } else {
        be_calm()
    }
}

/// The frame behind the active one, and the first behind the last.
pub open spec fn next_frame(s: StateView) -> int {
    if s.active + 1 < s.frames.len() {
        s.active + 1
    } else {
        0
    }
}

/// The frame before the active one, and the last before the first.
pub open spec fn previous_frame(s: StateView) -> int {
    if s.active > 0 {
        s.active - 1
    } else {
        s.frames.len() - 1
    }
}

/// The name of a lock.
pub open spec fn lock_text(lock: Lock) -> Seq<char> {
    match lock {
        Lock::Zoom => "lock zoom: "@,
        Lock::Pan => "lock pan: "@,
        Lock::Color => "lock color: "@,
        Lock::Scale => "lock scale: "@,
    }
}

fn lock_name(lock: Lock) -> (r: &'static str)
    ensures
        r@ == lock_text(lock),
{
    match lock {
        Lock::Zoom => "lock zoom: ",
        Lock::Pan => "lock pan: ",
        Lock::Color => "lock color: ",
        Lock::Scale => "lock scale: ",
    }
}

/// The active frame goes, and the one before it is shown.
pub open spec fn delete_active_spec(s: StateView, u: UiView) -> Outcome {
    if s.frames.len() == 0 {
        Outcome { state: s, ui: u.said("no frames to delete"@), next: calm() }
    } else {
        let t = s.frame_deleted();
        Outcome {
            state: t,
            ui: u.showing(t).said(
                counts_text(
                    "deleted frame "@,
                    (s.active + 1) as nat,
                    " ("@,
                    t.frames.len(),
                    " remaining)"@,
                ),
            ),
            next: turning(),
        }
    }
}

/// The next frame is shown, if there is another.
pub open spec fn go_on_spec(s: StateView, u: UiView) -> Outcome {
    if s.frames.len() == 0 {
        Outcome { state: s, ui: u, next: calm() }
    } else {
        switch_spec(s, u, next_frame(s))
    }
}

/// The previous frame is shown, if there is another.
pub open spec fn go_back_spec(s: StateView, u: UiView) -> Outcome {
    if s.frames.len() == 0 {
        Outcome { state: s, ui: u, next: calm() }
    } else {
        switch_spec(s, u, previous_frame(s))
    }
}

/// All frames get the active frame's view.
pub open spec fn match_all_spec(s: StateView, u: UiView) -> Outcome {
    if s.has_active() {
        Outcome {
            state: s.matched(),
            ui: u.said(
                count_text("matched view of "@, s.frames.len(), " frames to active"@),
            ),
            next: calm(),
        }
    } else {
        Outcome { state: s, ui: u.said("match: no active frame"@), next: calm() }
    }
}

/// The frames take turns, or no more.
pub open spec fn toggle_blink_spec(s: StateView, u: UiView) -> Outcome {
    Outcome {
        state: s,
        ui: (UiView { blink: !u.blink, ..u }).said(
            either(!u.blink, "blink: on (cycling every 500 ms)"@, "blink: off"@),
        ),
        next: calm(),
    }
}

/// The units of the file take turns, or no more.
pub open spec fn toggle_movie_spec(s: StateView, u: UiView) -> Outcome {
    Outcome {
        state: s,
        ui: (UiView { movie: !u.movie, ..u }).said(
            either(!u.movie, "HDU movie: on (cycling every 800 ms)"@, "HDU movie: off"@),
        ),
        next: calm(),
    }
}

/// The active frame is shown in another orientation.
pub open spec fn orient_spec(s: StateView, u: UiView, o: Orientation) -> Outcome {
    Outcome {
        state: s.on_frame(|f: Frame| Frame { orientation: o, ..f }),
        ui: u.said("orientation: "@ + o.name_spec()),
        next: drawing(),
    }
}

/// A lock goes on or off.
pub open spec fn hold_spec(s: StateView, u: UiView, lock: Lock) -> Outcome {
    Outcome {
        state: s.lock_toggled(lock),
        ui: u.said(lock_text(lock) + either(!s.is_locked(lock), "on"@, "off"@)),
        next: calm(),
    }
}

/// A composite of the first three frames is asked for; they must have one size.
pub open spec fn compose_spec(s: StateView, u: UiView) -> Outcome {
    if s.frames.len() < 3 {
        Outcome { state: s, ui: u.said("RGB: need at least 3 frames loaded"@), next: calm() }
    } else if same_size(s.frames[0], s.frames[1]) && same_size(s.frames[0], s.frames[2]) {
        Outcome {
            state: s,
            ui: u.said(
                counts_text(
                    "RGB composite from frames 1-3 ("@,
                    s.frames[0].fits.width as nat,
                    "×"@,
                    s.frames[0].fits.height as nat,
                    ")"@,
                ),
            ),
            next: asking(Request::Composite),
        }
    } else {
        Outcome {
            state: s,
            ui: u.said("RGB: frames 1-3 must share the same dimensions"@),
            next: calm(),
        }
    }
}

/// All frames are shown side by side, or the active one alone.
pub open spec fn toggle_tiles_spec(s: StateView, u: UiView) -> Outcome {
    if s.tile_mode {
        let t = StateView { tile_mode: false, ..s };
        Outcome { state: t, ui: u.showing(t).said("tile: off"@), next: turning() }
    } else if s.frames.len() < 2 {
        Outcome { state: s, ui: u.said("tile: load 2+ frames first"@), next: calm() }
    } else {
        Outcome {
            state: StateView { tile_mode: true, ..s },
            ui: u.said(
                count_text(
                    "tile: showing "@,
                    s.frames.len(),
                    " frames (click a tile to select)"@,
                ),
            ),
            next: drawing(),
        }
    }
}

/// What an entry of the frame menu leads to.
pub open spec fn frame_spec(s: StateView, u: UiView, i: FrameItem) -> Outcome {
    match i {
        FrameItem::New => Outcome { state: s, ui: u, next: asking(Request::OpenFile) },
        FrameItem::Delete => delete_active_spec(s, u),
        FrameItem::Next => go_on_spec(s, u),
        FrameItem::Previous => go_back_spec(s, u),
        FrameItem::Match => match_all_spec(s, u),
        FrameItem::Blink => toggle_blink_spec(s, u),
        FrameItem::Movie => toggle_movie_spec(s, u),
        FrameItem::Orient(o) => orient_spec(s, u, o),
        FrameItem::Hold(lock) => hold_spec(s, u, lock),
        FrameItem::Composite => compose_spec(s, u),
        FrameItem::Tile => toggle_tiles_spec(s, u),
        FrameItem::Mosaic => Outcome { state: s, ui: u, next: asking(Request::Mosaic) },
    }
}

fn delete_active(st: &mut State, ui: &mut Ui) -> (next: Next)
    requires
        old(st)@.wf(),
    ensures
        (Outcome { state: final(st)@, ui: final(ui)@, next }) == delete_active_spec(old(st)@, old(ui)@),
        final(st)@.wf(),
{
    let n: usize = st.frames.len();
    if n == 0 {
        ui.tell("no frames to delete");
        be_calm()
    } else {
        let removed: u128 = st.active as u128 + 1;
        let gone: bool = st.delete_frame();
        ui.push_view_to_window(st);
        let v = counts_chars(
            "deleted frame ",
            removed,
            " (",
            st.frames.len() as u128,
            " remaining)",
        );
        ui.say(&v);
        turn_page()
    }
}

fn go_on(st: &mut State, ui: &mut Ui) -> (next: Next)
    requires
        old(st)@.wf(),
    ensures
        (Outcome { state: final(st)@, ui: final(ui)@, next }) == go_on_spec(old(st)@, old(ui)@),
        final(st)@.wf(),
{
    let n: usize = st.frames.len();
    if n == 0 {
        be_calm()
    } else {
        let target: usize = if st.active < n - 1 {
            st.active + 1
        } else {
            0
        };
        switch_frame(st, ui, target)
    }
}

fn go_back(st: &mut State, ui: &mut Ui) -> (next: Next)
    requires
        old(st)@.wf(),
    ensures
        (Outcome { state: final(st)@, ui: final(ui)@, next }) == go_back_spec(old(st)@, old(ui)@),
        final(st)@.wf(),
{
    let n: usize = st.frames.len();
    if n == 0 {
        be_calm()
    } else {
        let target: usize = if st.active > 0 {
            st.active - 1
        } else {
            n - 1
        };
        switch_frame(st, ui, target)
    }
}

fn match_all(st: &mut State, ui: &mut Ui) -> (next: Next)
    requires
        old(st)@.wf(),
    ensures
        (Outcome { state: final(st)@, ui: final(ui)@, next }) == match_all_spec(old(st)@, old(ui)@),
        final(st)@.wf(),
{
    let n: usize = st.frames.len();
    if st.has_frame() {
        st.match_views();
        let v = count_chars("matched view of ", n as u128, " frames to active");
        ui.say(&v);
    } else {
        ui.tell("match: no active frame");
    }
    be_calm()
}

fn toggle_blink(st: &mut State, ui: &mut Ui) -> (next: Next)
    requires
        old(st)@.wf(),
    ensures
        (Outcome { state: final(st)@, ui: final(ui)@, next }) == toggle_blink_spec(old(st)@, old(ui)@),
        final(st)@.wf(),
{
    ui.blink = !ui.blink;
    ui.tell(pick(ui.blink, "blink: on (cycling every 500 ms)", "blink: off"));
    be_calm()
}

fn toggle_movie(st: &mut State, ui: &mut Ui) -> (next: Next)
    requires
        old(st)@.wf(),
    ensures
        (Outcome { state: final(st)@, ui: final(ui)@, next }) == toggle_movie_spec(old(st)@, old(ui)@),
        final(st)@.wf(),
{
    ui.movie = !ui.movie;
    ui.tell(pick(ui.movie, "HDU movie: on (cycling every 800 ms)", "HDU movie: off"));
    be_calm()
}

fn orient(st: &mut State, ui: &mut Ui, o: Orientation) -> (next: Next)
    requires
        old(st)@.wf(),
    ensures
        (Outcome { state: final(st)@, ui: final(ui)@, next }) == orient_spec(old(st)@, old(ui)@, o),
        final(st)@.wf(),
{
    st.set_orientation(o);
    let mut v = chars_of("orientation: ");
    put_text(&mut v, o.name());
    ui.say(&v);
    draw_again()
}

fn hold(st: &mut State, ui: &mut Ui, lock: Lock) -> (next: Next)
    requires
        old(st)@.wf(),
    ensures
        (Outcome { state: final(st)@, ui: final(ui)@, next }) == hold_spec(old(st)@, old(ui)@, lock),
        final(st)@.wf(),
{
    let on: bool = st.toggle_lock(lock);
    let mut v = chars_of(lock_name(lock));
    put_text(&mut v, pick(on, "on", "off"));
    ui.say(&v);
    be_calm()
}

fn compose(st: &mut State, ui: &mut Ui) -> (next: Next)
    requires
        old(st)@.wf(),
    ensures
        (Outcome { state: final(st)@, ui: final(ui)@, next }) == compose_spec(old(st)@, old(ui)@),
        final(st)@.wf(),
{
    let n: usize = st.frames.len();
    if n < 3 {
        ui.tell("RGB: need at least 3 frames loaded");
        be_calm()
    } else if composable(&st.frames[0], &st.frames[1], &st.frames[2]) {
        let v = counts_chars(
            "RGB composite from frames 1-3 (",
            st.frames[0].fits.width as u128,
            "×",
            st.frames[0].fits.height as u128,
            ")",
        );
        ui.say(&v);
        ask(Request::Composite)
    } else {
        ui.tell("RGB: frames 1-3 must share the same dimensions");
        be_calm()
    }
}

fn toggle_tiles(st: &mut State, ui: &mut Ui) -> (next: Next)
    requires
        old(st)@.wf(),
    ensures
        (Outcome { state: final(st)@, ui: final(ui)@, next }) == toggle_tiles_spec(old(st)@, old(ui)@),
        final(st)@.wf(),
{
    let n: usize = st.frames.len();
    if st.tile_mode {
        st.tile_mode = false;
        ui.push_view_to_window(st);
        ui.tell("tile: off");
        turn_page()
    } else if n < 2 {
        ui.tell("tile: load 2+ frames first");
        be_calm()
    } else {
        st.tile_mode = true;
        let v = count_chars(
            "tile: showing ",
            n as u128,
            " frames (click a tile to select)",
        );
        ui.say(&v);
        draw_again()
    }
}

fn run_frame(st: &mut State, ui: &mut Ui, i: FrameItem) -> (next: Next)
    requires
        old(st)@.wf(),
    ensures
        (Outcome { state: final(st)@, ui: final(ui)@, next }) == frame_spec(
            old(st)@,
            old(ui)@,
            i,
        ),
        final(st)@.wf(),
{
    match i {
        FrameItem::New => ask(Request::OpenFile),
        FrameItem::Delete => delete_active(st, ui),
        FrameItem::Next => go_on(st, ui),
        FrameItem::Previous => go_back(st, ui),
        FrameItem::Match => match_all(st, ui),
        FrameItem::Blink => toggle_blink(st, ui),
        FrameItem::Movie => toggle_movie(st, ui),
        FrameItem::Orient(o) => orient(st, ui, o),
        FrameItem::Hold(lock) => hold(st, ui, lock),
        FrameItem::Composite => compose(st, ui),
        FrameItem::Tile => toggle_tiles(st, ui),
        FrameItem::Mosaic => ask(Request::Mosaic),
    }
}

// ---------------------------------------------------------------------------
// Scale, bin and colour
// ---------------------------------------------------------------------------

/// What an entry of the scale menu leads to.
pub open spec fn scale_spec(s: StateView, u: UiView, i: ScaleItem) -> Outcome {
    Outcome {
        state: match i {
            ScaleItem::Stretched(x) => s.on_frame(|f: Frame| Frame { stretch: x, ..f }),
            ScaleItem::Limited(x) => s.on_frame(|f: Frame| Frame { limits_mode: x, ..f }),
        },
        ui: u,
        next: drawing(),
    }
}

fn run_scale(st: &mut State, i: ScaleItem) -> (next: Next)
    ensures
        forall|u: UiView|
            (Outcome { state: final(st)@, ui: u, next }) == #[trigger] scale_spec(old(st)@, u, i),
        old(st)@.wf() ==> final(st)@.wf(),
{
    match i {
        ScaleItem::Stretched(x) => st.set_stretch(x),
        ScaleItem::Limited(x) => st.set_limits(x),
    }
    draw_again()
}

/// What an entry of the bin menu, with the given words, leads to.
pub open spec fn bin_spec(s: StateView, u: UiView, i: BinItem, item: Seq<char>) -> Outcome {
    match i {
        BinItem::Mode(m) => Outcome {
            state: s.on_frame(|f: Frame| Frame { bin_mode: m, ..f }),
            ui: u.said("bin mode: "@ + m.label_spec()),
            next: drawing(),
        },
        BinItem::Factor(n) => Outcome {
            state: s.on_frame(
                |f: Frame|
                    Frame {
                        bin_factor: if n > 1 {
                            n
                        } else {
                            1
                        },
                        ..f
                    },
            ),
            ui: u.said("bin: "@ + item + "×"@ + item),
            next: drawing(),
        },
        BinItem::Nothing => Outcome { state: s, ui: u, next: calm() },
    }
}

fn run_bin(st: &mut State, ui: &mut Ui, i: BinItem, item: &Vec<char>) -> (next: Next)
    ensures
        (Outcome { state: final(st)@, ui: final(ui)@, next }) == bin_spec(
            old(st)@,
            old(ui)@,
            i,
            item@,
        ),
        old(st)@.wf() ==> final(st)@.wf(),
{
    match i {
        BinItem::Mode(m) => {
            st.set_bin_mode(m);
            let mut v = chars_of("bin mode: ");
            put_text(&mut v, m.label());
            ui.say(&v);
            draw_again()
        },
        BinItem::Factor(n) => {
            st.set_bin_factor(n);
            let mut v = chars_of("bin: ");
            put_chars(&mut v, item);
            put_text(&mut v, "×");
            put_chars(&mut v, item);
            ui.say(&v);
            draw_again()
        },
        BinItem::Nothing => be_calm(),
    }
}

/// What an entry of the colour menu leads to.
pub open spec fn color_spec(s: StateView, u: UiView, i: ColorItem) -> Outcome {
    match i {
        ColorItem::Load => Outcome { state: s, ui: u, next: asking(Request::LoadColors) },
        ColorItem::Clear => Outcome {
            state: s.on_frame(|f: Frame| Frame { custom_lut: None, ..f }),
            ui: u.said("custom colormap cleared"@),
            next: drawing(),
        },
        ColorItem::Named(c) => {
            let t = s.on_frame(|f: Frame| with_cmap(f, c));
            Outcome {
                state: if s.lock_cmap {
                    t.cmap_broadcast()
                } else {
                    t
                },
                ui: u,
                next: drawing(),
            }
        },
        ColorItem::Nothing => Outcome { state: s, ui: u, next: calm() },
    }
}

fn run_color(st: &mut State, ui: &mut Ui, i: ColorItem) -> (next: Next)
    ensures
        (Outcome { state: final(st)@, ui: final(ui)@, next }) == color_spec(
            old(st)@,
            old(ui)@,
            i,
        ),
        old(st)@.wf() ==> final(st)@.wf(),
{
    match i {
        ColorItem::Load => ask(Request::LoadColors),
        ColorItem::Clear => {
            st.set_custom_lut(None);
            ui.tell("custom colormap cleared");
            draw_again()
        },
        ColorItem::Named(c) => {
            st.set_cmap(c);
            draw_again()
        },
        ColorItem::Nothing => be_calm(),
    }
}

// ---------------------------------------------------------------------------
// Region
// ---------------------------------------------------------------------------

/// How many regions there are, and which is selected.
pub open spec fn regions_text(s: StateView) -> Seq<char> {
    if !s.has_active() {
        "no active frame"@
    } else {
        match s.frame().selected_marker {
            Some(i) => counts_text(
                "regions: "@,
                s.frame().markers@.len(),
                "  (selected #"@,
                (i + 1) as nat,
                ")"@,
            ),
            None => "regions: "@ + nat_text(s.frame().markers@.len()),
        }
    }
}

fn regions_chars(st: &State) -> (r: Vec<char>)
    ensures
        r@ == regions_text(st@),
{
    if !st.has_frame() {
        return chars_of("no active frame");
    }
    let n: usize = st.frames[st.active].markers.len();
    match st.frames[st.active].selected_marker {
        Some(i) => counts_chars("regions: ", n as u128, "  (selected #", i as u128 + 1, ")"),
        None => {
            let mut v = chars_of("regions: ");
            put_nat(&mut v, n as u128);
            v
        },
    }
}

/// Where a centroid was, where it is, and the way between.
pub open spec fn centroid_text(a: Aperture, x: Double, y: Double) -> Seq<char> {
    "centroid: ("@ + a.x.fixed_spec(2) + ", "@ + a.y.fixed_spec(2) + ") → ("@ + x.fixed_spec(2)
        + ", "@ + y.fixed_spec(2) + ") Δ=("@ + x.minus(a.x).signed_spec(2) + ", "@ + y.minus(
        a.y,
    ).signed_spec(2) + ")"@
}

fn centroid_chars(a: Aperture, x: Double, y: Double) -> (r: Vec<char>)
    ensures
        r@ == centroid_text(a, x, y),
{
    let mut v = chars_of("centroid: (");
    put_chars(&mut v, &a.x.fixed(2));
    put_text(&mut v, ", ");
    put_chars(&mut v, &a.y.fixed(2));
    put_text(&mut v, ") → (");
    put_chars(&mut v, &x.fixed(2));
    put_text(&mut v, ", ");
    put_chars(&mut v, &y.fixed(2));
    put_text(&mut v, ") Δ=(");
    put_chars(&mut v, &x.minus(a.x).signed(2));
    put_text(&mut v, ", ");
    put_chars(&mut v, &y.minus(a.y).signed(2));
    put_text(&mut v, ")");
    v
}

/// The circle of a region of the active frame.
pub open spec fn region_circle(s: StateView, i: usize) -> Aperture {
    aperture_spec(s.frame().markers@[i as int].shape)->0
}

/// Whether an outcome is that of centring a region: the region to measure goes to the centroid
/// of its pixels and is selected, or a complaint says what was missing.
pub open spec fn is_centred(s: StateView, u: UiView, o: Outcome) -> bool {
    if !s.has_active() || is_measured(s.frame(), None) {
        o == (Outcome {
            state: s,
            ui: u.said("centroid: select a Circle / Box / Ellipse / Annulus region first"@),
            next: calm(),
        })
    } else {
        exists|i: usize, c: Option<(Double, Double)>|
            #![trigger is_measured(s.frame(), Some(i)), is_centroid(s.frame().fits, region_circle(s, i), c)]
            {
                let a = region_circle(s, i);
                &&& is_measured(s.frame(), Some(i))
                &&& is_centroid(s.frame().fits, a, c)
                &&& match c {
                    None => o == (Outcome {
                        state: s,
                        ui: u.said("centroid: not enough flux above local background"@),
                        next: calm(),
                    }),
                    Some((x, y)) => {
                        &&& s.has_regions(
                            o.state,
                            s.regions().update(
                                i as int,
                                moved_region(s.regions()[i as int], x.minus(a.x), y.minus(a.y)),
                            ),
                            Some(i),
                        )
                        &&& o.ui == u.said(centroid_text(a, x, y))
                        &&& o.next == drawing()
                    },
                }
            }
    }
}

fn run_centroid(st: &mut State, ui: &mut Ui) -> (next: Next)
    requires
        old(st)@.wf(),
    ensures
        is_centred(
            old(st)@,
            old(ui)@,
            Outcome { state: final(st)@, ui: final(ui)@, next },
        ),
        final(st)@.wf(),
{
    let ghost before = st@;
    let found: Option<usize> = if st.has_frame() {
        measured_region(&st.frames[st.active])
    } else {
        None
    };
    let i: usize = match found {
        Some(i) => i,
        None => {
            ui.tell("centroid: select a Circle / Box / Ellipse / Annulus region first");
            return be_calm();
        },
    };
    assert(is_measured(before.frame(), Some(i)));
    let a: Aperture = match marker_aperture(&st.frames[st.active].markers[i]) {
        Some(a) => a,
        None => Aperture { x: Double { bits: 0 }, y: Double { bits: 0 }, r: Double { bits: 0 } },
    };
    assert(before.frame().wf());
    let c: Option<(Double, Double)> = compute_centroid(&st.frames[st.active].fits, a);
    assert(is_centroid(before.frame().fits, region_circle(before, i), c));
    match c {
        None => {
            ui.tell("centroid: not enough flux above local background");
            be_calm()
        },
        Some((x, y)) => {
            let moved: bool = st.move_region(i, x.minus(a.x), y.minus(a.y));
            let ghost mid = st@;
            st.select_region(i);
            assert(st@.regions() == mid.regions());
            assert(st@.frames =~= before.frames.update(before.active, st@.frame()));
            let v = centroid_chars(a, x, y);
            ui.say(&v);
            draw_again()
        },
    }
}

/// A circle is drawn in the middle of the image.
pub open spec fn add_sample_ran(s: StateView, u: UiView, o: Outcome) -> bool {
    {
        &&& if s.has_active() {
            s.has_regions(
                o.state,
                s.regions().push(
                    new_marker(
                        crate::edits::sample_region(
                            s.frame().fits.width,
                            s.frame().fits.height,
                        ),
                    ),
                ),
                s.frame().selected_marker,
            )
        } else {
            o.state == s
        }
        &&& o.ui == u
        &&& o.next == drawing()
    }
}

/// The selected region goes.
pub open spec fn drop_selected_ran(s: StateView, u: UiView, o: Outcome) -> bool {
    if !s.has_active() {
        o == (Outcome { state: s, ui: u.said("no region selected"@), next: calm() })
    } else {
        match s.frame().selected_marker {
            Some(k) if k < s.regions().len() => {
                &&& s.has_regions(o.state, s.regions().remove(k as int), None)
                &&& o.ui == u.said(
                    counts_text(
                        "deleted region "@,
                        (k + 1) as nat,
                        " (now "@,
                        (s.regions().len() - 1) as nat,
                        " regions)"@,
                    ),
                )
                &&& o.next == drawing()
            },
            _ => {
                &&& s.has_regions(o.state, s.regions(), None)
                &&& o.ui == u.said("no region selected"@)
                &&& o.next == calm()
            },
        }
    }
}

/// All regions go.
pub open spec fn drop_all_ran(s: StateView, u: UiView, o: Outcome) -> bool {
    if s.has_active() {
        &&& s.has_regions(o.state, Seq::empty(), None)
        &&& o.ui == u.said(count_text("cleared "@, s.regions().len(), " regions"@))
        &&& o.next == drawing()
    } else {
        o == (Outcome { state: s, ui: u, next: calm() })
    }
}

/// The properties of the selected region are shown or hidden.
pub open spec fn toggle_props_ran(s: StateView, u: UiView, o: Outcome) -> bool {
    o == if u.props {
        Outcome {
            state: s,
            ui: (UiView { props: false, ..u }).said("region properties: hidden"@),
            next: calm(),
        }
    } else {
        Outcome {
            state: s,
            ui: (UiView { props: true, ..u }).said("region properties: shown"@),
            next: asking(Request::ShowProperties),
        }
    }
}

/// The regions are counted.
pub open spec fn count_regions_ran(s: StateView, u: UiView, o: Outcome) -> bool {
    o == (Outcome {
        state: s,
        ui: u.said(regions_text(s)),
        next: calm(),
    })
}

/// Whether an outcome is that of an entry of the region menu.
pub open spec fn region_ran(s: StateView, u: UiView, i: RegionItem, o: Outcome) -> bool {
    match i {
        RegionItem::New => add_sample_ran(s, u, o),
        RegionItem::Load => o == (Outcome {
            state: s,
            ui: u,
            next: asking(Request::LoadRegions),
        }),
        RegionItem::Save => o == (Outcome {
            state: s,
            ui: u,
            next: asking(Request::SaveRegions),
        }),
        RegionItem::Delete => drop_selected_ran(s, u, o),
        RegionItem::DeleteAll => drop_all_ran(s, u, o),
        RegionItem::Projection => o == (Outcome {
            state: s,
            ui: u,
            next: asking(Request::Projection),
        }),
        RegionItem::Properties => toggle_props_ran(s, u, o),
        RegionItem::Centroid => is_centred(s, u, o),
        RegionItem::Profile => o == (Outcome { state: s, ui: u, next: asking(Request::Profile) }),
        RegionItem::Info => count_regions_ran(s, u, o),
    }
}

fn add_sample(st: &mut State, ui: &mut Ui) -> (next: Next)
    requires
        old(st)@.wf(),
    ensures
        add_sample_ran(old(st)@, old(ui)@, Outcome { state: final(st)@, ui: final(ui)@, next }),
        final(st)@.wf(),
{
    st.region_new_sample();
    draw_again()
}

fn drop_selected(st: &mut State, ui: &mut Ui) -> (next: Next)
    requires
        old(st)@.wf(),
    ensures
        drop_selected_ran(old(st)@, old(ui)@, Outcome { state: final(st)@, ui: final(ui)@, next }),
        final(st)@.wf(),
{
    let ghost before = st@;
    match st.delete_selected() {
        Some(k) => {
            assert(st@.regions().len() == st@.frame().markers@.len());
            assert(before.regions().len() == st@.regions().len() + 1);
            let v = counts_chars(
                "deleted region ",
                k as u128 + 1,
                " (now ",
                st.frames[st.active].markers.len() as u128,
                " regions)",
            );
            ui.say(&v);
            draw_again()
        },
        None => {
            ui.tell("no region selected");
            be_calm()
        },
    }
}

fn drop_all(st: &mut State, ui: &mut Ui) -> (next: Next)
    requires
        old(st)@.wf(),
    ensures
        drop_all_ran(old(st)@, old(ui)@, Outcome { state: final(st)@, ui: final(ui)@, next }),
        final(st)@.wf(),
{
    match st.delete_regions() {
        Some(n) => {
            let v = count_chars("cleared ", n as u128, " regions");
            ui.say(&v);
            draw_again()
        },
        None => be_calm(),
    }
}

fn toggle_props(st: &mut State, ui: &mut Ui) -> (next: Next)
    requires
        old(st)@.wf(),
    ensures
        toggle_props_ran(old(st)@, old(ui)@, Outcome { state: final(st)@, ui: final(ui)@, next }),
        final(st)@.wf(),
{
    if ui.props {
        ui.props = false;
        ui.tell("region properties: hidden");
        be_calm()
    } else {
        ui.props = true;
        ui.tell("region properties: shown");
        ask(Request::ShowProperties)
    }
}

fn count_regions(st: &mut State, ui: &mut Ui) -> (next: Next)
    requires
        old(st)@.wf(),
    ensures
        count_regions_ran(old(st)@, old(ui)@, Outcome { state: final(st)@, ui: final(ui)@, next }),
        final(st)@.wf(),
{
    let v = regions_chars(st);
    ui.say(&v);
    be_calm()
}

fn run_region(st: &mut State, ui: &mut Ui, i: RegionItem) -> (next: Next)
    requires
        old(st)@.wf(),
    ensures
        region_ran(
            old(st)@,
            old(ui)@,
            i,
            Outcome { state: final(st)@, ui: final(ui)@, next },
        ),
        final(st)@.wf(),
{
    match i {
        RegionItem::New => add_sample(st, ui),
        RegionItem::Load => ask(Request::LoadRegions),
        RegionItem::Save => ask(Request::SaveRegions),
        RegionItem::Delete => drop_selected(st, ui),
        RegionItem::DeleteAll => drop_all(st, ui),
        RegionItem::Projection => ask(Request::Projection),
        RegionItem::Properties => toggle_props(st, ui),
        RegionItem::Centroid => run_centroid(st, ui),
        RegionItem::Profile => ask(Request::Profile),
        RegionItem::Info => count_regions(st, ui),
    }
}

// ---------------------------------------------------------------------------
// Catalog
// ---------------------------------------------------------------------------

/// A text in double quotes, with the escapes of Rust's debugging output.
pub uninterp spec fn quoted(s: Seq<char>) -> Seq<char>;

/// The standard library's `Debug` output of a `str`, by `format!` with `{:?}`: the text between
/// double quotes, with escapes that depend on the text alone. What the escapes are is left
/// unsaid.
#[verifier::external_body]
fn quote(s: &str) -> (r: String)
    ensures
        r@ == quoted(s@),
{
    format!("{:?}", s)
}

/// The size of a catalog and its position columns, which are given in quotes.
pub open spec fn catalog_text(rows: nat, columns: nat, xy: Option<(Seq<char>, Seq<char>)>) -> Seq<char> {
    counts_text("catalog: "@, rows, " rows, "@, columns, " cols  →  X/Y = "@) + match xy {
        Some((x, y)) => "Some(("@ + x + ", "@ + y + "))"@,
        None => "None"@,
    }
}

/// The size of a catalog and its position columns, which are given in quotes.
pub fn catalog_chars(rows: usize, columns: usize, xy: Option<(&str, &str)>) -> (r: Vec<char>)
    ensures
        r@ == catalog_text(
            rows as nat,
            columns as nat,
            match xy {
                Some((x, y)) => Some((x@, y@)),
                None => None,
            },
        ),
{
    let mut v = counts_chars(
        "catalog: ",
        rows as u128,
        " rows, ",
        columns as u128,
        " cols  →  X/Y = ",
    );
    let ghost head = v@;
    match xy {
        Some((x, y)) => {
            put_text(&mut v, "Some((");
            put_text(&mut v, x);
            put_text(&mut v, ", ");
            put_text(&mut v, y);
            put_text(&mut v, "))");
            assert(v@ =~= head + ("Some(("@ + x@ + ", "@ + y@ + "))"@));
        },
        None => {
            put_text(&mut v, "None");
        },
    }
    v
}

/// What is known of the active frame's catalog.
pub open spec fn catalog_info(s: StateView) -> Seq<char> {
    if s.has_active() && s.frame().catalog is Some {
        let c = s.frame().catalog->0@;
        catalog_text(
            c.rows.len(),
            c.columns.len(),
            match Catalog::xy_spec(c.columns) {
                Some((x, y)) => Some((quoted(c.columns[x as int]), quoted(c.columns[y as int]))),
                None => None,
            },
        )
    } else {
        "no catalog loaded"@
    }
}

fn catalog_info_chars(st: &State) -> (r: Vec<char>)
    ensures
        r@ == catalog_info(st@),
{
    if st.has_frame() {
        if let Some(c) = &st.frames[st.active].catalog {
            return match c.xy_columns() {
                Some((x, y)) => {
                    let a: String = quote(c.columns[x].as_str());
                    let b: String = quote(c.columns[y].as_str());
                    catalog_chars(c.len(), c.columns.len(), Some((a.as_str(), b.as_str())))
                },
                None => catalog_chars(c.len(), c.columns.len(), None),
            };
        }
    }
    chars_of("no catalog loaded")
}

/// What an entry of the catalog menu leads to.
pub open spec fn catalog_menu_spec(s: StateView, u: UiView, i: CatalogItem) -> Outcome {
    match i {
        CatalogItem::Load => Outcome { state: s, ui: u, next: asking(Request::LoadCatalog) },
        CatalogItem::Clear => Outcome {
            state: s.on_frame(|f: Frame| Frame { catalog: None, selected_catalog: None, ..f }),
            ui: u.said("catalog cleared"@),
            next: drawing(),
        },
        CatalogItem::Extract => extract_spec(s, u),
        CatalogItem::Query => Outcome {
            state: s,
            ui: (UiView { query: !u.query, ..u }).said(
                either(!u.query, "online catalog query: shown"@, "online catalog query: hidden"@),
            ),
            next: calm(),
        },
        CatalogItem::Info => Outcome { state: s, ui: u.said(catalog_info(s)), next: calm() },
    }
}

/// What the search for sources leads to: it needs a frame that came from a file.
pub open spec fn extract_spec(s: StateView, u: UiView) -> Outcome {
    if !s.has_active() {
        Outcome { state: s, ui: u.said("sextractor: no active frame"@), next: calm() }
    } else if s.frame().source_path is None {
        Outcome {
            state: s,
            ui: u.said("sextractor: active frame has no on-disk path (RGB / synthetic)"@),
            next: calm(),
        }
    } else {
        Outcome { state: s, ui: u, next: asking(Request::Extract) }
    }
}

/// Asks for a search for sources in the active frame's file.
pub fn run_extract(st: &State, ui: &mut Ui) -> (next: Next)
    ensures
        (Outcome { state: st@, ui: final(ui)@, next }) == extract_spec(st@, old(ui)@),
{
    if !st.has_frame() {
        ui.tell("sextractor: no active frame");
        be_calm()
    } else if st.frames[st.active].source_path.is_none() {
        ui.tell("sextractor: active frame has no on-disk path (RGB / synthetic)");
        be_calm()
    } else {
        ask(Request::Extract)
    }
}

fn run_catalog(st: &mut State, ui: &mut Ui, i: CatalogItem) -> (next: Next)
    ensures
        (Outcome { state: final(st)@, ui: final(ui)@, next }) == catalog_menu_spec(
            old(st)@,
            old(ui)@,
            i,
        ),
        old(st)@.wf() ==> final(st)@.wf(),
{
    match i {
        CatalogItem::Load => ask(Request::LoadCatalog),
        CatalogItem::Clear => {
            st.clear_catalog();
            ui.tell("catalog cleared");
            draw_again()
        },
        CatalogItem::Extract => run_extract(st, ui),
        CatalogItem::Query => {
            ui.query = !ui.query;
            ui.tell(
                pick(ui.query, "online catalog query: shown", "online catalog query: hidden"),
            );
            be_calm()
        },
        CatalogItem::Info => {
            let v = catalog_info_chars(st);
            ui.say(&v);
            be_calm()
        },
    }
}

// ---------------------------------------------------------------------------
// Analysis
// ---------------------------------------------------------------------------

/// The statistics of the finite pixels of an image in words: how many there are, and what holds
/// of them.
pub open spec fn stats_text(n: nat, r: Option<Stats>) -> Seq<char> {
    match r {
        Some(t) => count_text("stats: n="@, n, "  min="@) + t.min.fixed_spec(4) + "  max="@
            + t.max.fixed_spec(4) + "  mean="@ + t.mean.fixed_spec(4) + "  median="@
            + t.median.fixed_spec(4) + "  σ="@ + t.std.fixed_spec(4),
        None => "stats: no finite samples"@,
    }
}

/// The statistics of an image in words.
pub fn stats_chars(n: usize, r: Option<Stats>) -> (v: Vec<char>)
    ensures
        v@ == stats_text(n as nat, r),
{
    match r {
        Some(t) => {
            let mut v = count_chars("stats: n=", n as u128, "  min=");
            put_chars(&mut v, &t.min.fixed(4));
            put_text(&mut v, "  max=");
            put_chars(&mut v, &t.max.fixed(4));
            put_text(&mut v, "  mean=");
            put_chars(&mut v, &t.mean.fixed(4));
            put_text(&mut v, "  median=");
            put_chars(&mut v, &t.median.fixed(4));
            put_text(&mut v, "  σ=");
            put_chars(&mut v, &t.std.fixed(4));
            v
        },
        None => chars_of("stats: no finite samples"),
    }
}

/// The pointer's pixel.
pub open spec fn cursor_spec(x: Single) -> int {
    x.whole_spec(Whole::Trunc, i32::MIN as int, i32::MAX as int)
}

/// The pointer's pixel.
pub fn cursor_of(x: Single) -> (r: i64)
    ensures
        r == cursor_spec(x),
        i32::MIN <= r <= i32::MAX,
{
    x.whole(Whole::Trunc, i32::MIN as i128, i32::MAX as i128) as i64
}

/// The pixels around the pointer in words.
pub open spec fn table_text(s: StateView, u: UiView) -> Seq<char> {
    let (x, y) = (cursor_spec(u.cursor_x), cursor_spec(u.cursor_y));
    "5×5 around ("@ + int_text(x) + ","@ + int_text(y) + "):  "@ + table_rows(
        s.frame(),
        u.cursor_x.widen(),
        u.cursor_y.widen(),
        5,
    )
}

/// The active frame goes on to the next strength of its kernel.
pub open spec fn step_smooth_ran(s: StateView, u: UiView, o: Outcome) -> bool {
    o == if s.has_active() {
        let t = s.on_frame(|f: Frame| with_smooth(f, next_smooth(f.smooth_kind)));
        Outcome {
            state: t,
            ui: u.said("smooth: "@ + t.frame().smooth_kind.label_spec()),
            next: drawing(),
        }
    } else {
        Outcome { state: s, ui: u, next: calm() }
    }
}

/// The histogram is drawn, and shown or hidden.
pub open spec fn toggle_histogram_ran(s: StateView, u: UiView, o: Outcome) -> bool {
    o == if s.has_active() {
        Outcome {
            state: s,
            ui: (UiView { histogram: !u.histogram, ..u }).said(
                either(!u.histogram, "histogram: shown"@, "histogram: hidden"@),
            ),
            next: asking(Request::DrawHistogram),
        }
    } else {
        Outcome { state: s, ui: u.said("histogram: no image loaded"@), next: calm() }
    }
}

/// The contours are drawn, and shown or hidden.
pub open spec fn toggle_contours_ran(s: StateView, u: UiView, o: Outcome) -> bool {
    o == if s.has_active() {
        Outcome {
            state: s,
            ui: (UiView { contours: !u.contours, ..u }).said(
                either(!u.contours, "contours: shown (5 levels)"@, "contours: hidden"@),
            ),
            next: asking(Request::DrawContours),
        }
    } else {
        Outcome { state: s, ui: u.said("contour: no image loaded"@), next: calm() }
    }
}

/// The statistics of the image are told.
pub open spec fn tell_stats_ran(s: StateView, u: UiView, o: Outcome) -> bool {
    if s.has_active() {
        exists|r: Option<Stats>| #[trigger]
            is_stats_of(s.frame().fits, r) && o == (Outcome {
                state: s,
                ui: u.said(stats_text(finite_values(s.frame().fits.data@).len(), r)),
                next: calm(),
            })
    } else {
        o == (Outcome { state: s, ui: u.said("stats: no image loaded"@), next: calm() })
    }
}

/// The pixels around the pointer are told.
pub open spec fn tell_pixels_ran(s: StateView, u: UiView, o: Outcome) -> bool {
    o == if s.has_active() {
        Outcome { state: s, ui: u.said(table_text(s, u)), next: calm() }
    } else {
        Outcome { state: s, ui: u.said("pixel table: no image loaded"@), next: calm() }
    }
}

/// Whether an outcome is that of an entry of the analysis menu.
pub open spec fn analysis_ran(s: StateView, u: UiView, i: AnalysisItem, o: Outcome) -> bool {
    match i {
        AnalysisItem::CycleSmooth => step_smooth_ran(s, u, o),
        AnalysisItem::SmoothOff => o == smoothing(
            s,
            u,
            SmoothKind::Gaussian { sigma: Single { bits: 0 } },
            "smooth: off"@,
        ),
        AnalysisItem::SmoothGaussian => o == smoothing(
            s,
            u,
            SmoothKind::Gaussian { sigma: Single { bits: 0x4000_0000 } },
            "smooth: gaussian σ=2"@,
        ),
        AnalysisItem::SmoothBoxcar => o == smoothing(
            s,
            u,
            SmoothKind::Boxcar { n: 3 },
            "smooth: boxcar 3×3"@,
        ),
        AnalysisItem::SmoothMedian => o == smoothing(
            s,
            u,
            SmoothKind::Median { n: 3 },
            "smooth: median 3×3"@,
        ),
        AnalysisItem::Histogram => toggle_histogram_ran(s, u, o),
        AnalysisItem::Contours => toggle_contours_ran(s, u, o),
        AnalysisItem::Statistics => tell_stats_ran(s, u, o),
        AnalysisItem::PixelTable => tell_pixels_ran(s, u, o),
    }
}

/// What the choice of a smoothing kernel leads to.
pub open spec fn smoothing(s: StateView, u: UiView, k: SmoothKind, text: Seq<char>) -> Outcome {
    Outcome {
        state: s.on_frame(|f: Frame| with_smooth(f, k)),
        ui: u.said(text),
        next: drawing(),
    }
}

fn smooth_by(st: &mut State, ui: &mut Ui, k: SmoothKind, text: &str) -> (next: Next)
    ensures
        (Outcome { state: final(st)@, ui: final(ui)@, next }) == smoothing(
            old(st)@,
            old(ui)@,
            k,
            text@,
        ),
        old(st)@.wf() ==> final(st)@.wf(),
{
    st.set_smooth(k);
    ui.tell(text);
    draw_again()
}

fn step_smooth(st: &mut State, ui: &mut Ui) -> (next: Next)
    requires
        old(st)@.wf(),
    ensures
        step_smooth_ran(old(st)@, old(ui)@, Outcome { state: final(st)@, ui: final(ui)@, next }),
        final(st)@.wf(),
{
    let on: bool = st.has_frame();
    if !on {
        return be_calm();
    }
    st.cycle_smooth();
    let mut v = chars_of("smooth: ");
    put_text(&mut v, st.frames[st.active].smooth_kind.label().as_str());
    ui.say(&v);
    draw_again()
}

fn toggle_histogram(st: &mut State, ui: &mut Ui) -> (next: Next)
    requires
        old(st)@.wf(),
    ensures
        toggle_histogram_ran(old(st)@, old(ui)@, Outcome { state: final(st)@, ui: final(ui)@, next }),
        final(st)@.wf(),
{
    let on: bool = st.has_frame();
    if on {
        ui.histogram = !ui.histogram;
        ui.tell(pick(ui.histogram, "histogram: shown", "histogram: hidden"));
        ask(Request::DrawHistogram)
    } else {
        ui.tell("histogram: no image loaded");
        be_calm()
    }
}

fn toggle_contours(st: &mut State, ui: &mut Ui) -> (next: Next)
    requires
        old(st)@.wf(),
    ensures
        toggle_contours_ran(old(st)@, old(ui)@, Outcome { state: final(st)@, ui: final(ui)@, next }),
        final(st)@.wf(),
{
    let on: bool = st.has_frame();
    if on {
        ui.contours = !ui.contours;
        ui.tell(pick(ui.contours, "contours: shown (5 levels)", "contours: hidden"));
        ask(Request::DrawContours)
    } else {
        ui.tell("contour: no image loaded");
        be_calm()
    }
}

fn tell_stats(st: &mut State, ui: &mut Ui) -> (next: Next)
    requires
        old(st)@.wf(),
    ensures
        tell_stats_ran(old(st)@, old(ui)@, Outcome { state: final(st)@, ui: final(ui)@, next }),
        final(st)@.wf(),
{
    let on: bool = st.has_frame();
    if on {
        let r: Option<Stats> = image_stats(&st.frames[st.active].fits);
        let n: usize = finite_of(&st.frames[st.active].fits.data).len();
        let v = stats_chars(n, r);
        ui.say(&v);
    } else {
        ui.tell("stats: no image loaded");
    }
    be_calm()
}

fn tell_pixels(st: &mut State, ui: &mut Ui) -> (next: Next)
    requires
        old(st)@.wf(),
    ensures
        tell_pixels_ran(old(st)@, old(ui)@, Outcome { state: final(st)@, ui: final(ui)@, next }),
        final(st)@.wf(),
{
    let on: bool = st.has_frame();
    if on {
        assert(st@.frame().wf());
        let x: i64 = cursor_of(ui.cursor_x);
        let y: i64 = cursor_of(ui.cursor_y);
        let mut v = chars_of("5×5 around (");
        put_chars(&mut v, &int_chars(x));
        put_text(&mut v, ",");
        put_chars(&mut v, &int_chars(y));
        put_text(&mut v, "):  ");
        let table = pixel_table(
            &st.frames[st.active],
            ui.cursor_x.widen(),
            ui.cursor_y.widen(),
        );
        put_chars(&mut v, &table);
        ui.say(&v);
    } else {
        ui.tell("pixel table: no image loaded");
    }
    be_calm()
}

fn run_analysis(st: &mut State, ui: &mut Ui, i: AnalysisItem) -> (next: Next)
    requires
        old(st)@.wf(),
    ensures
        analysis_ran(
            old(st)@,
            old(ui)@,
            i,
            Outcome { state: final(st)@, ui: final(ui)@, next },
        ),
        final(st)@.wf(),
{
    match i {
        AnalysisItem::CycleSmooth => step_smooth(st, ui),
        AnalysisItem::SmoothOff => smooth_by(
            st,
            ui,
            SmoothKind::Gaussian { sigma: Single { bits: 0 } },
            "smooth: off",
        ),
        AnalysisItem::SmoothGaussian => smooth_by(
            st,
            ui,
            SmoothKind::Gaussian { sigma: Single { bits: 0x4000_0000 } },
            "smooth: gaussian σ=2",
        ),
        AnalysisItem::SmoothBoxcar => smooth_by(
            st,
            ui,
            SmoothKind::Boxcar { n: 3 },
            "smooth: boxcar 3×3",
        ),
        AnalysisItem::SmoothMedian => smooth_by(
            st,
            ui,
            SmoothKind::Median { n: 3 },
            "smooth: median 3×3",
        ),
        AnalysisItem::Histogram => toggle_histogram(st, ui),
        AnalysisItem::Contours => toggle_contours(st, ui),
        AnalysisItem::Statistics => tell_stats(st, ui),
        AnalysisItem::PixelTable => tell_pixels(st, ui),
    }
}

// ---------------------------------------------------------------------------
// Zoom and edit
// ---------------------------------------------------------------------------

/// A zoom between a fiftieth and 64.
pub open spec fn zoom_spec(z: Single) -> Single {
    z.clamp(Single { bits: 0x3ca3_d70a }, Single { bits: 0x4280_0000 })
}

/// A zoom between a fiftieth and 64.
pub fn zoom_within(z: Single) -> (r: Single)
    ensures
        r == zoom_spec(z),
{
    z.clamp(Single { bits: 0x3ca3_d70a }, Single { bits: 0x4280_0000 })
}

/// The view after an entry of the zoom menu.
pub open spec fn zoomed(s: StateView, v: ViewPort, i: ZoomItem) -> ViewPort {
    match i {
        ZoomItem::In => ViewPort { zoom: zoom_spec(v.zoom.times(Single { bits: 0x3fc0_0000 })), ..v },
        ZoomItem::Out => ViewPort { zoom: zoom_spec(v.zoom.over(Single { bits: 0x3fc0_0000 })), ..v },
        ZoomItem::Fit => if s.has_active() {
            ViewPort {
                zoom: fit_zoom_spec(s.frame().fits.width as int, s.frame().fits.height as int),
                pan_x: Single { bits: 0 },
                pan_y: Single { bits: 0 },
            }
        } else {
            v
        },
        ZoomItem::Reset => ViewPort { zoom: Single { bits: 0x3f80_0000 }, pan_x: Single { bits: 0 }, pan_y: Single { bits: 0 } },
        ZoomItem::To(z) => ViewPort { zoom: zoom_spec(z), ..v },
        ZoomItem::Nothing => v,
    }
}

fn run_zoom(st: &State, ui: &mut Ui, i: ZoomItem)
    ensures
        final(ui)@ == (UiView { view: zoomed(st@, old(ui)@.view, i), ..old(ui)@ }),
{
    let v: ViewPort = ui.view;
    ui.view = match i {
        ZoomItem::In => ViewPort { zoom: zoom_within(v.zoom.times(Single { bits: 0x3fc0_0000 })), ..v },
        ZoomItem::Out => ViewPort { zoom: zoom_within(v.zoom.over(Single { bits: 0x3fc0_0000 })), ..v },
        ZoomItem::Fit => if st.has_frame() {
            let f: &Frame = &st.frames[st.active];
            ViewPort { zoom: fit_zoom(f.fits.width, f.fits.height), pan_x: Single { bits: 0 }, pan_y: Single { bits: 0 } }
        } else {
            v
        },
        ZoomItem::Reset => ViewPort { zoom: Single { bits: 0x3f80_0000 }, pan_x: Single { bits: 0 }, pan_y: Single { bits: 0 } },
        ZoomItem::To(z) => ViewPort { zoom: zoom_within(z), ..v },
        ZoomItem::Nothing => v,
    };
}

/// What an entry of the edit menu leads to. A crop needs a frame with a region.
pub open spec fn edit_spec(s: StateView, u: UiView, i: EditItem) -> Outcome {
    match i {
        EditItem::Crop => if !s.has_active() {
            Outcome { state: s, ui: u.said("crop: no active frame"@), next: calm() }
        } else if s.frame().markers@.len() == 0 {
            Outcome {
                state: s,
                ui: u.said("crop: select a region first (or load some — Region ▸ Load…)"@),
                next: calm(),
            }
        } else {
            Outcome { state: s, ui: u, next: asking(Request::Crop) }
        },
        EditItem::ResetCrop => Outcome {
            state: s,
            ui: UiView { view: zoomed(s, u.view, ZoomItem::Reset), ..u },
            next: calm(),
        },
        EditItem::Preferences => if u.prefs {
            Outcome {
                state: s,
                ui: (UiView { prefs: false, ..u }).said("preferences: hidden"@),
                next: calm(),
            }
        } else {
            Outcome {
                state: s,
                ui: (UiView { prefs: true, ..u }).said("preferences: shown"@),
                next: asking(Request::ShowPreferences),
            }
        },
    }
}

fn run_edit(st: &State, ui: &mut Ui, i: EditItem) -> (next: Next)
    ensures
        (Outcome { state: st@, ui: final(ui)@, next }) == edit_spec(st@, old(ui)@, i),
{
    match i {
        EditItem::Crop => {
            if !st.has_frame() {
                ui.tell("crop: no active frame");
                be_calm()
            } else if st.frames[st.active].markers.len() == 0 {
                ui.tell("crop: select a region first (or load some — Region ▸ Load…)");
                be_calm()
            } else {
                ask(Request::Crop)
            }
        },
        EditItem::ResetCrop => {
            run_zoom(st, ui, ZoomItem::Reset);
            be_calm()
        },
        EditItem::Preferences => {
            if ui.prefs {
                ui.prefs = false;
                ui.tell("preferences: hidden");
                be_calm()
            } else {
                ui.prefs = true;
                ui.tell("preferences: shown");
                ask(Request::ShowPreferences)
            }
        },
    }
}

// ---------------------------------------------------------------------------
// The menu bar
// ---------------------------------------------------------------------------

/// What is said of an entry that stands for nothing.
pub open spec fn unknown_text(menu: Seq<char>, item: Seq<char>) -> Seq<char> {
    menu + " ▸ "@ + item + " — not implemented yet"@
}

/// What is said of the program.
pub open spec fn about_text() -> Seq<char> {
    "ds9-rust 0.1 — slint port of SAOImage DS9 (Smithsonian Astrophysical Observatory)"@
}

/// Whether an outcome is that of an entry of a menu.
pub open spec fn handled(
    s: StateView,
    u: UiView,
    menu: Seq<char>,
    item: Seq<char>,
    o: Outcome,
) -> bool {
    match menu_spec(menu, item) {
        Command::File(i) => o == file_spec(s, u, i),
        Command::View(i) => o == view_spec(s, u, i),
        Command::Frame(i) => o == frame_spec(s, u, i),
        Command::Scale(i) => o == scale_spec(s, u, i),
        Command::Bin(i) => o == bin_spec(s, u, i, item),
        Command::Color(i) => o == color_spec(s, u, i),
        Command::Region(i) => region_ran(s, u, i, o),
        Command::Catalog(i) => o == catalog_menu_spec(s, u, i),
        Command::Analysis(i) => analysis_ran(s, u, i, o),
        Command::Zoom(i) => o == (Outcome {
            state: s,
            ui: UiView { view: zoomed(s, u.view, i), ..u },
            next: calm(),
        }),
        Command::Edit(i) => o == edit_spec(s, u, i),
        Command::About => o == (Outcome { state: s, ui: u.said(about_text()), next: calm() }),
        Command::Unknown => o == (Outcome {
            state: s,
            ui: u.said(unknown_text(menu, item)),
            next: calm(),
        }),
    }
}

/// Does what an entry of a menu stands for.
pub fn handle_menu(st: &mut State, ui: &mut Ui, menu: &Vec<char>, item: &Vec<char>) -> (next: Next)
    requires
        old(st)@.wf(),
    ensures
        handled(
            old(st)@,
            old(ui)@,
            menu@,
            item@,
            Outcome { state: final(st)@, ui: final(ui)@, next },
        ),
        final(st)@.wf(),
{
    match menu_command(menu, item) {
        Command::File(i) => run_file(st, ui, i),
        Command::View(i) => run_view(st, ui, i),
        Command::Frame(i) => run_frame(st, ui, i),
        Command::Scale(i) => {
            let next: Next = run_scale(st, i);
            assert(scale_spec(old(st)@, ui@, i).next == next);
            next
        },
        Command::Bin(i) => run_bin(st, ui, i, item),
        Command::Color(i) => run_color(st, ui, i),
        Command::Region(i) => run_region(st, ui, i),
        Command::Catalog(i) => run_catalog(st, ui, i),
        Command::Analysis(i) => run_analysis(st, ui, i),
        Command::Zoom(i) => {
            run_zoom(st, ui, i);
            be_calm()
        },
        Command::Edit(i) => run_edit(st, ui, i),
        Command::About => {
            ui.tell(
                "ds9-rust 0.1 — slint port of SAOImage DS9 (Smithsonian Astrophysical Observatory)",
            );
            be_calm()
        },
        Command::Unknown => {
            let mut v: Vec<char> = Vec::new();
            put_chars(&mut v, menu);
            put_text(&mut v, " ▸ ");
            put_chars(&mut v, item);
            put_text(&mut v, " — not implemented yet");
            assert(v@ =~= unknown_text(menu@, item@));
            ui.say(&v);
            be_calm()
        },
    }
}

} // verus!
