//! The window: what it shows, and what is left to do after a command.

use crate::frame::{Frame, State, StateView};
use crate::num::Single;
use crate::session::{view_of, ViewPort};
use crate::text::{chars_of, nat_text, put_nat, put_text, string_of};
use vstd::prelude::*;

verus! {

/// What the window shows besides the frame itself.
pub struct Ui {
    /// The pan and zoom of the canvas.
    pub view: ViewPort,
    /// The pointer on the image, counted from zero, from the top.
    pub cursor_x: Single,
    pub cursor_y: Single,
    /// The size of the canvas.
    pub canvas_w: Single,
    pub canvas_h: Single,
    /// What the pointer does: "pan", "edit", "region" or "crosshair".
    pub mode: String,
    /// The line at the bottom.
    pub status: String,
    /// Whether the panner is shown.
    pub panner: bool,
    /// Whether the magnifier is shown.
    pub magnifier: bool,
    /// Whether the coordinate grid is drawn.
    pub grid: bool,
    /// Whether the frames take turns.
    pub blink: bool,
    /// Whether the units of the file take turns.
    pub movie: bool,
    /// Whether the panel for online queries is shown.
    pub query: bool,
    /// Whether the list of the units of the file is shown.
    pub units: bool,
    /// Whether the properties of the selected region are shown.
    pub props: bool,
    /// Whether the preferences are shown.
    pub prefs: bool,
    /// Whether the values along a line are shown.
    pub projection: bool,
    /// Whether the radial profile is shown.
    pub profile: bool,
    /// Whether the histogram is shown.
    pub histogram: bool,
    /// Whether the contours are drawn.
    pub contours: bool,
    /// Whether a pressed pointer holds a region.
    pub marker_drag: bool,
}

/// The window by its contents.
#[verifier::ext_equal]
pub struct UiView {
    pub view: ViewPort,
    pub cursor_x: Single,
    pub cursor_y: Single,
    pub canvas_w: Single,
    pub canvas_h: Single,
    pub mode: Seq<char>,
    pub status: Seq<char>,
    pub panner: bool,
    pub magnifier: bool,
    pub grid: bool,
    pub blink: bool,
    pub movie: bool,
    pub query: bool,
    pub units: bool,
    pub props: bool,
    pub prefs: bool,
    pub projection: bool,
    pub profile: bool,
    pub histogram: bool,
    pub contours: bool,
    pub marker_drag: bool,
}

impl View for Ui {
    type V = UiView;

    open spec fn view(&self) -> UiView {
        UiView {
            view: self.view,
            cursor_x: self.cursor_x,
            cursor_y: self.cursor_y,
            canvas_w: self.canvas_w,
            canvas_h: self.canvas_h,
            mode: self.mode@,
            status: self.status@,
            panner: self.panner,
            magnifier: self.magnifier,
            grid: self.grid,
            blink: self.blink,
            movie: self.movie,
            query: self.query,
            units: self.units,
            props: self.props,
            prefs: self.prefs,
            projection: self.projection,
            profile: self.profile,
            histogram: self.histogram,
            contours: self.contours,
            marker_drag: self.marker_drag,
        }
    }
}

impl UiView {
    /// The window with another status line.
    pub open spec fn said(self, text: Seq<char>) -> UiView {
        UiView { status: text, ..self }
    }

    /// The window with the view of the active frame, and the pointer in the middle of its
    /// image.
    pub open spec fn showing(self, s: StateView) -> UiView {
        if s.has_active() {
            UiView {
                view: view_of(s.frame()),
                cursor_x: Single::from_int_spec(s.frame().fits.width as int / 2),
                cursor_y: Single::from_int_spec(s.frame().fits.height as int / 2),
                ..self
            }
        } else {
            self
        }
    }
}

impl Ui {
    /// Sets the status line.
    pub fn say(&mut self, text: &Vec<char>)
        ensures
            final(self)@ == old(self)@.said(text@),
    {
        self.status = string_of(text);
    }

    /// Sets the status line.
    pub fn tell(&mut self, text: &str)
        ensures
            final(self)@ == old(self)@.said(text@),
    {
        let v = chars_of(text);
        self.say(&v);
    }

    /// Takes over the view of the active frame, and puts the pointer in the middle of its
    /// image.
    pub fn push_view_to_window(&mut self, st: &State)
        ensures
            final(self)@ == old(self)@.showing(st@),
    {
        if st.active < st.frames.len() {
            let f: &Frame = &st.frames[st.active];
            self.view = ViewPort { zoom: f.view_zoom, pan_x: f.view_pan_x, pan_y: f.view_pan_y };
            self.cursor_x = Single::from_nat((f.fits.width / 2) as u64);
            self.cursor_y = Single::from_nat((f.fits.height / 2) as u64);
        }
    }
}

/// Work that a command asks for beyond the session and the window.
#[derive(Clone, Copy, Debug, PartialEq, Eq, Structural)]
pub enum Request {
    Nothing,
    OpenFile,
    SavePng,
    SaveFits,
    SaveTiff,
    SavePostscript,
    ListUnits,
    NextUnit,
    Print,
    SampImage,
    SampVotable,
    Quit,
    DrawGrid,
    PlaceCrosshair,
    MarkCrosshair,
    Composite,
    Mosaic,
    LoadColors,
    LoadRegions,
    SaveRegions,
    Projection,
    Profile,
    ShowProperties,
    LoadCatalog,
    Extract,
    DrawHistogram,
    DrawContours,
    Crop,
    ShowPreferences,
    RegionsFrom,
    RegionsTo,
    OpenPath,
    PngTo,
    FitsTo,
    TiffTo,
    PostscriptTo,
    VotableFrom,
    LoadUnit,
    TellUnits,
}

/// What is left to do after a command.
#[derive(Clone, Copy, Debug, PartialEq, Eq, Structural)]
pub struct Next {
    /// The sky position of the image's middle is to be shown.
    pub show: bool,
    /// The frame is to be drawn again.
    pub refresh: bool,
    /// The crosshair is to be drawn again.
    pub crosshair: bool,
    pub request: Request,
}

/// Nothing is left to do.
pub open spec fn calm() -> Next {
    Next { show: false, refresh: false, crosshair: false, request: Request::Nothing }
}

/// The frame is to be drawn again.
pub open spec fn drawing() -> Next {
    Next { refresh: true, ..calm() }
}

/// Another frame is to be shown.
pub open spec fn turning() -> Next {
    Next { show: true, refresh: true, ..calm() }
}

/// A piece of work is asked for.
pub open spec fn asking(r: Request) -> Next {
    Next { request: r, ..calm() }
}

/// Nothing is left to do.
pub fn be_calm() -> (r: Next)
    ensures
        r == calm(),
{
    Next { show: false, refresh: false, crosshair: false, request: Request::Nothing }
}

/// The frame is to be drawn again.
pub fn draw_again() -> (r: Next)
    ensures
        r == drawing(),
{
    Next { show: false, refresh: true, crosshair: false, request: Request::Nothing }
}

/// Another frame is to be shown.
pub fn turn_page() -> (r: Next)
    ensures
        r == turning(),
{
    Next { show: true, refresh: true, crosshair: false, request: Request::Nothing }
}

/// A piece of work is asked for.
pub fn ask(request: Request) -> (r: Next)
    ensures
        r == asking(request),
{
    Next { show: false, refresh: false, crosshair: false, request }
}

/// What a command leads to.
pub struct Outcome {
    pub state: StateView,
    pub ui: UiView,
    pub next: Next,
}

/// A number between two texts.
pub open spec fn count_text(a: Seq<char>, n: nat, b: Seq<char>) -> Seq<char> {
    a + nat_text(n) + b
}

/// A number between two texts.
pub fn count_chars(a: &str, n: u128, b: &str) -> (r: Vec<char>)
    ensures
        r@ == count_text(a@, n as nat, b@),
{
    let mut v = chars_of(a);
    put_nat(&mut v, n);
    put_text(&mut v, b);
    v
}

/// Two numbers between three texts.
pub open spec fn counts_text(a: Seq<char>, n: nat, b: Seq<char>, m: nat, c: Seq<char>) -> Seq<char> {
    a + nat_text(n) + b + nat_text(m) + c
}

/// Two numbers between three texts.
pub fn counts_chars(a: &str, n: u128, b: &str, m: u128, c: &str) -> (r: Vec<char>)
    ensures
        r@ == counts_text(a@, n as nat, b@, m as nat, c@),
{
    let mut v = count_chars(a, n, b);
    put_nat(&mut v, m);
    put_text(&mut v, c);
    v
}

} // verus!
