//! The line protocol: one command a line, one answer for each.

use crate::frame::{Frame, LimitsMode, State, StateView};
use crate::num::{Double, Single};
use crate::pointer::{point_view, pointed, shown_value, value_shown};
use crate::run::{
    extract_spec, handle_menu, handled, run_extract, switch_frame,
    switch_spec, zoom_spec, zoom_within,
};
use crate::session::ViewPort;
use crate::show::{fits_to_display_oriented, frame_place, table_spec};
use crate::text::{
    chars_of, find, find_spec, nat_spec, parse_nat, piece, put_chars, put_text, same_text,
    string_of, texts, trim, trim_spec,
};
use crate::ui::{
    ask, asking, be_calm, calm, count_chars, count_text, draw_again, drawing, Next, Outcome,
    Request, Ui, UiView,
};
use vstd::prelude::*;

verus! {

// ---------------------------------------------------------------------------
// Words
// ---------------------------------------------------------------------------

/// The pieces of a text between single spaces, at most `n` of them: the last holds the rest.
pub open spec fn pieces_spec(s: Seq<char>, n: nat) -> Seq<Seq<char>>
    decreases n,
{
    let i = find_spec(s, ' ', ' ');
    if n <= 1 || i >= s.len() {
        seq![s]
    } else {
        seq![s.take(i)] + pieces_spec(s.skip(i + 1), (n - 1) as nat)
    }
}

fn pieces(s: &Vec<char>, n: usize) -> (r: Vec<Vec<char>>)
    ensures
        texts(r@) == pieces_spec(s@, n as nat),
        r@.len() >= 1,
{
    let mut rest = piece(s, 0, s.len());
    assert(rest@ =~= s@);
    let mut out: Vec<Vec<char>> = Vec::new();
    let mut left: usize = n;
    assert(texts(out@) + pieces_spec(rest@, left as nat) =~= pieces_spec(s@, n as nat));
    loop
        invariant
            texts(out@) + pieces_spec(rest@, left as nat) == pieces_spec(s@, n as nat),
        decreases left,
    {
        let ghost before = texts(out@);
        let i: usize = find(&rest, ' ', ' ');
        if left <= 1 || i >= rest.len() {
            let ghost last = rest@;
            out.push(rest);
            assert(texts(out@) =~= before + seq![last]);
            return out;
        }
        let word = piece(&rest, 0, i);
        let tail = piece(&rest, i + 1, rest.len());
        assert(word@ =~= rest@.take(i as int));
        assert(tail@ =~= rest@.skip(i + 1));
        out.push(word);
        assert(texts(out@) =~= before.push(word@));
        assert(before.push(word@) + pieces_spec(tail@, (left - 1) as nat) =~= before + (
        seq![word@] + pieces_spec(tail@, (left - 1) as nat)));
        rest = tail;
        left = left - 1;
    }
}

fn copy_of(v: &Vec<char>) -> (r: Vec<char>)
    ensures
        r@ == v@,
{
    let r = piece(v, 0, v.len());
    assert(r@ =~= v@);
    r
}

/// The number that a text stands for, if it is one of the machine's size.
pub open spec fn place_in(s: Seq<char>) -> Option<usize> {
    match nat_spec(s) {
        Some(n) if n <= usize::MAX => Some(n as usize),
        _ => None,
    }
}

fn place_of(v: &Vec<char>) -> (r: Option<usize>)
    ensures
        r == place_in(v@),
{
    match parse_nat(v, usize::MAX as u64) {
        Some(n) => Some(n as usize),
        None => None,
    }
}

/// The two numbers that two texts stand for.
pub open spec fn pair_in(a: Seq<char>, b: Seq<char>) -> Option<(Double, Double)> {
    match (Double::parse_spec(a), Double::parse_spec(b)) {
        (Some(x), Some(y)) => Some((x, y)),
        _ => None,
    }
}

fn pair_of(a: &Vec<char>, b: &Vec<char>) -> (r: Option<(Double, Double)>)
    ensures
        r == pair_in(a@, b@),
{
    match (Double::parse(a), Double::parse(b)) {
        (Some(x), Some(y)) => Some((x, y)),
        _ => None,
    }
}

/// The limits that two texts stand for: the second number must be the greater.
pub open spec fn limits_in(a: Seq<char>, b: Seq<char>) -> Option<(Single, Single)> {
    match (Single::parse_spec(a), Single::parse_spec(b)) {
        (Some(x), Some(y)) if x.lt(y) => Some((x, y)),
        _ => None,
    }
}

fn limits_of(a: &Vec<char>, b: &Vec<char>) -> (r: Option<(Single, Single)>)
    ensures
        r == limits_in(a@, b@),
{
    match (Single::parse(a), Single::parse(b)) {
        (Some(x), Some(y)) => if x.lt(y) {
            Some((x, y))
        } else {
            None
        },
        _ => None,
    }
}

// ---------------------------------------------------------------------------
// Verbs
// ---------------------------------------------------------------------------

/// What a line asks for. A number or a pair that cannot be read is left out.
pub enum Verb {
    Quit,
    Access,
    Version,
    Help,
    Value,
    Extract,
    /// What the pointer does.
    Mode(Vec<char>),
    /// An entry of a menu.
    Menu(&'static str, Vec<char>),
    ClearFrame,
    /// A frame by its place, from one.
    Frame(Option<usize>),
    Pan(Option<(Double, Double)>),
    ClearCrosshair,
    Crosshair(Option<(Double, Double)>),
    Limits(Option<(Single, Single)>),
    InvertColors,
    /// A region by its place, from one.
    DeleteRegion(Option<usize>),
    Zoom(Option<Single>),
    NextUnit,
    ListUnits,
    Unit(Option<usize>),
    Movie(bool),
    /// Work on a file.
    File(Request, Vec<char>),
    Unknown,
}

/// What a line asks for, by its contents.
pub enum VerbView {
    Quit,
    Access,
    Version,
    Help,
    Value,
    Extract,
    Mode(Seq<char>),
    Menu(Seq<char>, Seq<char>),
    ClearFrame,
    Frame(Option<usize>),
    Pan(Option<(Double, Double)>),
    ClearCrosshair,
    Crosshair(Option<(Double, Double)>),
    Limits(Option<(Single, Single)>),
    InvertColors,
    DeleteRegion(Option<usize>),
    Zoom(Option<Single>),
    NextUnit,
    ListUnits,
    Unit(Option<usize>),
    Movie(bool),
    File(Request, Seq<char>),
    Unknown,
}

impl View for Verb {
    type V = VerbView;

    open spec fn view(&self) -> VerbView {
        match *self {
            Verb::Quit => VerbView::Quit,
            Verb::Access => VerbView::Access,
            Verb::Version => VerbView::Version,
            Verb::Help => VerbView::Help,
            Verb::Value => VerbView::Value,
            Verb::Extract => VerbView::Extract,
            Verb::Mode(m) => VerbView::Mode(m@),
            Verb::Menu(m, i) => VerbView::Menu(m@, i@),
            Verb::ClearFrame => VerbView::ClearFrame,
            Verb::Frame(n) => VerbView::Frame(n),
            Verb::Pan(p) => VerbView::Pan(p),
            Verb::ClearCrosshair => VerbView::ClearCrosshair,
            Verb::Crosshair(p) => VerbView::Crosshair(p),
            Verb::Limits(p) => VerbView::Limits(p),
            Verb::InvertColors => VerbView::InvertColors,
            Verb::DeleteRegion(n) => VerbView::DeleteRegion(n),
            Verb::Zoom(z) => VerbView::Zoom(z),
            Verb::NextUnit => VerbView::NextUnit,
            Verb::ListUnits => VerbView::ListUnits,
            Verb::Unit(n) => VerbView::Unit(n),
            Verb::Movie(on) => VerbView::Movie(on),
            Verb::File(r, p) => VerbView::File(r, p@),
            Verb::Unknown => VerbView::Unknown,
        }
    }
}

/// What a line of one word asks for.
pub open spec fn verb_one(a: Seq<char>) -> VerbView {
    if a == "quit"@ {
        VerbView::Quit
    } else if a == "exit"@ {
        VerbView::Quit
    } else if a == "xpaaccess"@ {
        VerbView::Access
    } else if a == "version"@ {
        VerbView::Version
    } else if a == "crosshair"@ {
        VerbView::ClearCrosshair
    } else if a == "sextractor"@ {
        VerbView::Extract
    } else if a == "crop"@ {
        VerbView::Menu("Edit"@, "Crop to Selected"@)
    } else if a == "projection"@ {
        VerbView::Menu("Region"@, "Projection…"@)
    } else if a == "centroid"@ {
        VerbView::Menu("Region"@, "Centroid"@)
    } else if a == "radial"@ {
        VerbView::Menu("Region"@, "Radial Profile…"@)
    } else if a == "value"@ {
        VerbView::Value
    } else if a == "help"@ {
        VerbView::Help
    } else {
        VerbView::Unknown
    }
}

fn verb_one_of(a: &Vec<char>) -> (r: Verb)
    ensures
        r@ == verb_one(a@),
{
    if same_text(a, "quit") {
        Verb::Quit
    } else if same_text(a, "exit") {
        Verb::Quit
    } else if same_text(a, "xpaaccess") {
        Verb::Access
    } else if same_text(a, "version") {
        Verb::Version
    } else if same_text(a, "crosshair") {
        Verb::ClearCrosshair
    } else if same_text(a, "sextractor") {
        Verb::Extract
    } else if same_text(a, "crop") {
        Verb::Menu("Edit", chars_of("Crop to Selected"))
    } else if same_text(a, "projection") {
        Verb::Menu("Region", chars_of("Projection…"))
    } else if same_text(a, "centroid") {
        Verb::Menu("Region", chars_of("Centroid"))
    } else if same_text(a, "radial") {
        Verb::Menu("Region", chars_of("Radial Profile…"))
    } else if same_text(a, "value") {
        Verb::Value
    } else if same_text(a, "help") {
        Verb::Help
    } else {
        Verb::Unknown
    }
}

/// What a line with `frame` and a word asks for.
pub open spec fn frame_verb(b: Seq<char>) -> VerbView {
    if b == "mosaic"@ {
        VerbView::Menu("Frame"@, "Mosaic WCS"@)
    } else if b == "tile"@ {
        VerbView::Menu("Frame"@, "Tile Frames"@)
    } else if b == "new"@ {
        VerbView::Menu("Frame"@, "New Frame"@)
    } else if b == "delete"@ {
        VerbView::Menu("Frame"@, "Delete Frame"@)
    } else if b == "next"@ {
        VerbView::Menu("Frame"@, "Next"@)
    } else if b == "previous"@ {
        VerbView::Menu("Frame"@, "Previous"@)
    } else if b == "prev"@ {
        VerbView::Menu("Frame"@, "Previous"@)
    } else if b == "clear"@ {
        VerbView::ClearFrame
    } else {
        VerbView::Frame(place_in(b))
    }
}

/// What a line with `samp` and a word asks for.
pub open spec fn samp_verb(b: Seq<char>) -> VerbView {
    if b == "image"@ {
        VerbView::Menu("File"@, "SAMP Send Image"@)
    } else if b == "votable"@ {
        VerbView::Menu("File"@, "SAMP Send VOTable…"@)
    } else {
        VerbView::Unknown
    }
}

/// What a line with `scale` and a word asks for.
pub open spec fn scale_verb(b: Seq<char>) -> VerbView {
    VerbView::Menu("Scale"@, b)
}

/// What a line with `cmap` and a word asks for.
pub open spec fn cmap_verb(b: Seq<char>) -> VerbView {
    if b == "invert"@ {
        VerbView::InvertColors
    } else {
        VerbView::Menu("Color"@, b)
    }
}

/// What a line with `bin` and a word asks for.
pub open spec fn bin_verb(b: Seq<char>) -> VerbView {
    VerbView::Menu("Bin"@, b)
}

/// What a line with `zoom` and a word asks for.
pub open spec fn zoom_verb(b: Seq<char>) -> VerbView {
    if b == "in"@ {
        VerbView::Menu("Zoom"@, "Zoom In"@)
    } else if b == "out"@ {
        VerbView::Menu("Zoom"@, "Zoom Out"@)
    } else if b == "fit"@ {
        VerbView::Menu("Zoom"@, "Fit"@)
    } else if b == "reset"@ {
        VerbView::Menu("Zoom"@, "Reset"@)
    } else {
        VerbView::Zoom(Single::parse_spec(b))
    }
}

/// What a line with `crop` and a word asks for.
pub open spec fn crop_verb(b: Seq<char>) -> VerbView {
    if b == "reset"@ {
        VerbView::Menu("Edit"@, "Reset Crop"@)
    } else {
        VerbView::Unknown
    }
}

/// What a line with `hdu` and a word asks for.
pub open spec fn hdu_verb(b: Seq<char>) -> VerbView {
    if b == "next"@ {
        VerbView::NextUnit
    } else if b == "list"@ {
        VerbView::ListUnits
    } else {
        VerbView::Unit(place_in(b))
    }
}

/// What a line with `movie` and a word asks for.
pub open spec fn movie_verb(b: Seq<char>) -> VerbView {
    if b == "on"@ {
        VerbView::Movie(true)
    } else if b == "off"@ {
        VerbView::Movie(false)
    } else {
        VerbView::Unknown
    }
}

/// What a line with `crosshair` and a word asks for.
pub open spec fn crosshair_verb(b: Seq<char>) -> VerbView {
    if b == "clear"@ {
        VerbView::ClearCrosshair
    } else {
        VerbView::Unknown
    }
}

/// What a line with `mode` and a word asks for.
pub open spec fn mode_verb(b: Seq<char>) -> VerbView {
    VerbView::Mode(b)
}

fn frame_verb_of(b: &Vec<char>) -> (r: Verb)
    ensures
        r@ == frame_verb(b@),
{
    if same_text(b, "mosaic") {
        Verb::Menu("Frame", chars_of("Mosaic WCS"))
    } else if same_text(b, "tile") {
        Verb::Menu("Frame", chars_of("Tile Frames"))
    } else if same_text(b, "new") {
        Verb::Menu("Frame", chars_of("New Frame"))
    } else if same_text(b, "delete") {
        Verb::Menu("Frame", chars_of("Delete Frame"))
    } else if same_text(b, "next") {
        Verb::Menu("Frame", chars_of("Next"))
    } else if same_text(b, "previous") {
        Verb::Menu("Frame", chars_of("Previous"))
    } else if same_text(b, "prev") {
        Verb::Menu("Frame", chars_of("Previous"))
    } else if same_text(b, "clear") {
        Verb::ClearFrame
    } else {
        Verb::Frame(place_of(b))
    }
}

fn samp_verb_of(b: &Vec<char>) -> (r: Verb)
    ensures
        r@ == samp_verb(b@),
{
    if same_text(b, "image") {
        Verb::Menu("File", chars_of("SAMP Send Image"))
    } else if same_text(b, "votable") {
        Verb::Menu("File", chars_of("SAMP Send VOTable…"))
    } else {
        Verb::Unknown
    }
}

fn scale_verb_of(b: &Vec<char>) -> (r: Verb)
    ensures
        r@ == scale_verb(b@),
{
    Verb::Menu("Scale", copy_of(b))
}

fn cmap_verb_of(b: &Vec<char>) -> (r: Verb)
    ensures
        r@ == cmap_verb(b@),
{
    if same_text(b, "invert") {
        Verb::InvertColors
    } else {
        Verb::Menu("Color", copy_of(b))
    }
}

fn bin_verb_of(b: &Vec<char>) -> (r: Verb)
    ensures
        r@ == bin_verb(b@),
{
    Verb::Menu("Bin", copy_of(b))
}

fn zoom_verb_of(b: &Vec<char>) -> (r: Verb)
    ensures
        r@ == zoom_verb(b@),
{
    if same_text(b, "in") {
        Verb::Menu("Zoom", chars_of("Zoom In"))
    } else if same_text(b, "out") {
        Verb::Menu("Zoom", chars_of("Zoom Out"))
    } else if same_text(b, "fit") {
        Verb::Menu("Zoom", chars_of("Fit"))
    } else if same_text(b, "reset") {
        Verb::Menu("Zoom", chars_of("Reset"))
    } else {
        Verb::Zoom(Single::parse(b))
    }
}

fn crop_verb_of(b: &Vec<char>) -> (r: Verb)
    ensures
        r@ == crop_verb(b@),
{
    if same_text(b, "reset") {
        Verb::Menu("Edit", chars_of("Reset Crop"))
    } else {
        Verb::Unknown
    }
}

fn hdu_verb_of(b: &Vec<char>) -> (r: Verb)
    ensures
        r@ == hdu_verb(b@),
{
    if same_text(b, "next") {
        Verb::NextUnit
    } else if same_text(b, "list") {
        Verb::ListUnits
    } else {
        Verb::Unit(place_of(b))
    }
}

fn movie_verb_of(b: &Vec<char>) -> (r: Verb)
    ensures
        r@ == movie_verb(b@),
{
    if same_text(b, "on") {
        Verb::Movie(true)
    } else if same_text(b, "off") {
        Verb::Movie(false)
    } else {
        Verb::Unknown
    }
}

fn crosshair_verb_of(b: &Vec<char>) -> (r: Verb)
    ensures
        r@ == crosshair_verb(b@),
{
    if same_text(b, "clear") {
        Verb::ClearCrosshair
    } else {
        Verb::Unknown
    }
}

fn mode_verb_of(b: &Vec<char>) -> (r: Verb)
    ensures
        r@ == mode_verb(b@),
{
    Verb::Mode(copy_of(b))
}

/// What a line of two words asks for.
pub open spec fn verb_two(a: Seq<char>, b: Seq<char>) -> VerbView {
    if a == "frame"@ {
        frame_verb(b)
    } else if a == "samp"@ {
        samp_verb(b)
    } else if a == "scale"@ {
        scale_verb(b)
    } else if a == "cmap"@ {
        cmap_verb(b)
    } else if a == "bin"@ {
        bin_verb(b)
    } else if a == "zoom"@ {
        zoom_verb(b)
    } else if a == "crop"@ {
        crop_verb(b)
    } else if a == "hdu"@ {
        hdu_verb(b)
    } else if a == "movie"@ {
        movie_verb(b)
    } else if a == "crosshair"@ {
        crosshair_verb(b)
    } else if a == "mode"@ {
        mode_verb(b)
    } else {
        VerbView::Unknown
    }
}

fn verb_two_of(a: &Vec<char>, b: &Vec<char>) -> (r: Verb)
    ensures
        r@ == verb_two(a@, b@),
{
    if same_text(a, "frame") {
        frame_verb_of(b)
    } else if same_text(a, "samp") {
        samp_verb_of(b)
    } else if same_text(a, "scale") {
        scale_verb_of(b)
    } else if same_text(a, "cmap") {
        cmap_verb_of(b)
    } else if same_text(a, "bin") {
        bin_verb_of(b)
    } else if same_text(a, "zoom") {
        zoom_verb_of(b)
    } else if same_text(a, "crop") {
        crop_verb_of(b)
    } else if same_text(a, "hdu") {
        hdu_verb_of(b)
    } else if same_text(a, "movie") {
        movie_verb_of(b)
    } else if same_text(a, "crosshair") {
        crosshair_verb_of(b)
    } else if same_text(a, "mode") {
        mode_verb_of(b)
    } else {
        Verb::Unknown
    }
}

/// What a line about regions asks for.
pub open spec fn regions_verb(b: Seq<char>, c: Seq<char>) -> VerbView {
    if b == "load"@ {
        VerbView::File(Request::RegionsFrom, c)
    } else if b == "save"@ {
        VerbView::File(Request::RegionsTo, c)
    } else {
        VerbView::Unknown
    }
}

/// What a line about saving asks for.
pub open spec fn save_verb(b: Seq<char>, c: Seq<char>) -> VerbView {
    if b == "png"@ {
        VerbView::File(Request::PngTo, c)
    } else if b == "fits"@ {
        VerbView::File(Request::FitsTo, c)
    } else if b == "tiff"@ {
        VerbView::File(Request::TiffTo, c)
    } else if b == "eps"@ {
        VerbView::File(Request::PostscriptTo, c)
    } else {
        VerbView::Unknown
    }
}

/// What a line of three words asks for.
pub open spec fn verb_three(a: Seq<char>, b: Seq<char>, c: Seq<char>) -> VerbView {
    if a == "crosshair"@ {
        VerbView::Crosshair(pair_in(b, c))
    } else if a == "regions"@ && b == "delete"@ {
        if c == "all"@ {
            VerbView::Menu("Region"@, "Delete All"@)
        } else {
            VerbView::DeleteRegion(place_in(c))
        }
    } else if a == "regions"@ || a == "region"@ {
        regions_verb(b, c)
    } else if a == "file"@ && b == "open"@ {
        VerbView::File(Request::OpenPath, c)
    } else if a == "save"@ {
        save_verb(b, c)
    } else if a == "samp"@ && b == "votable"@ {
        VerbView::File(Request::VotableFrom, c)
    } else {
        VerbView::Unknown
    }
}

fn file_verb(request: Request, path: &Vec<char>) -> (r: Verb)
    ensures
        r@ == VerbView::File(request, path@),
{
    Verb::File(request, copy_of(path))
}

fn verb_three_of(a: &Vec<char>, b: &Vec<char>, c: &Vec<char>) -> (r: Verb)
    ensures
        r@ == verb_three(a@, b@, c@),
{
    if same_text(a, "crosshair") {
        return Verb::Crosshair(pair_of(b, c));
    }
    if same_text(a, "regions") && same_text(b, "delete") {
        return if same_text(c, "all") {
            Verb::Menu("Region", chars_of("Delete All"))
        } else {
            Verb::DeleteRegion(place_of(c))
        };
    }
    if same_text(a, "regions") || same_text(a, "region") {
        return if same_text(b, "load") {
            file_verb(Request::RegionsFrom, c)
        } else if same_text(b, "save") {
            file_verb(Request::RegionsTo, c)
        } else {
            Verb::Unknown
        };
    }
    if same_text(a, "file") && same_text(b, "open") {
        return file_verb(Request::OpenPath, c);
    }
    if same_text(a, "save") {
        return if same_text(b, "png") {
            file_verb(Request::PngTo, c)
        } else if same_text(b, "fits") {
            file_verb(Request::FitsTo, c)
        } else if same_text(b, "tiff") {
            file_verb(Request::TiffTo, c)
        } else if same_text(b, "eps") {
            file_verb(Request::PostscriptTo, c)
        } else {
            Verb::Unknown
        };
    }
    if same_text(a, "samp") && same_text(b, "votable") {
        return file_verb(Request::VotableFrom, c);
    }
    Verb::Unknown
}

/// What the words of a line ask for.
pub open spec fn verb_spec(w: Seq<Seq<char>>) -> VerbView {
    if w.len() == 1 {
        verb_one(w[0])
    } else if w.len() == 2 {
        verb_two(w[0], w[1])
    } else if w.len() == 3 {
        verb_three(w[0], w[1], w[2])
    } else if w.len() == 4 && w[0] == "pan"@ && w[1] == "to"@ {
        VerbView::Pan(pair_in(w[2], w[3]))
    } else if w.len() == 4 && w[0] == "scale"@ && w[1] == "limits"@ {
        VerbView::Limits(limits_in(w[2], w[3]))
    } else {
        VerbView::Unknown
    }
}

fn verb_of(w: &Vec<Vec<char>>) -> (r: Verb)
    ensures
        r@ == verb_spec(texts(w@)),
{
    if w.len() == 1 {
        verb_one_of(&w[0])
    } else if w.len() == 2 {
        verb_two_of(&w[0], &w[1])
    } else if w.len() == 3 {
        verb_three_of(&w[0], &w[1], &w[2])
    } else if w.len() == 4 && same_text(&w[0], "pan") && same_text(&w[1], "to") {
        Verb::Pan(pair_of(&w[2], &w[3]))
    } else if w.len() == 4 && same_text(&w[0], "scale") && same_text(&w[1], "limits") {
        Verb::Limits(limits_of(&w[2], &w[3]))
    } else {
        Verb::Unknown
    }
}

// ---------------------------------------------------------------------------
// Answers
// ---------------------------------------------------------------------------

/// The answer to a line, with what is left to do. Where that is work whose outcome is the
/// answer, the text is empty.
pub struct Reply {
    pub text: String,
    /// A path, for work on a file.
    pub path: String,
    /// The place of a unit to load.
    pub unit: usize,
    /// A point of the display.
    pub point: (Single, Single),
    pub next: Next,
}

/// An answer by its contents.
#[verifier::ext_equal]
pub struct ReplyView {
    pub text: Seq<char>,
    pub path: Seq<char>,
    pub unit: usize,
    pub point: (Single, Single),
    pub next: Next,
}

impl View for Reply {
    type V = ReplyView;

    open spec fn view(&self) -> ReplyView {
        ReplyView {
            text: self.text@,
            path: self.path@,
            unit: self.unit,
            point: self.point,
            next: self.next,
        }
    }
}

/// An answer and what is left to do, with nothing more.
pub open spec fn reply(text: Seq<char>, next: Next) -> ReplyView {
    ReplyView { text, path: Seq::empty(), unit: 0, point: (Single { bits: 0 }, Single { bits: 0 }), next }
}

fn answer(text: &str, next: Next) -> (r: Reply)
    ensures
        r@ == reply(text@, next),
{
    let path: Vec<char> = Vec::new();
    assert(path@ =~= Seq::<char>::empty());
    Reply {
        text: string_of(&chars_of(text)),
        path: string_of(&path),
        unit: 0,
        point: (Single { bits: 0 }, Single { bits: 0 }),
        next,
    }
}

/// What a line leads to.
pub struct Answer {
    pub state: StateView,
    pub ui: UiView,
    pub reply: ReplyView,
}

/// An answer that leaves all as it is.
pub open spec fn only(s: StateView, u: UiView, text: Seq<char>, next: Next) -> Answer {
    Answer { state: s, ui: u, reply: reply(text, next) }
}

/// The commands in short.
pub open spec fn help_text() -> Seq<char> {
    "commands: quit|exit | xpaaccess | version | mode M | frame next|previous|N|new|delete|clear|mosaic|tile | pan to X Y | crosshair [X Y|clear] | scale S | scale limits LO HI | cmap C | cmap invert | bin N | zoom in|out|fit|N | region load|save P | regions load|save P | regions delete all|N | file open P | save png|fits P | value | sextractor | samp image|votable | crop [reset] | projection | centroid | radial | hdu next|list|N | movie on|off | help"@
}

/// The frame at a place from one is shown, if it is there.
pub open spec fn frame_answer(s: StateView, u: UiView, n: Option<usize>) -> Answer {
    match n {
        Some(i) if i >= 1 => {
            let o = switch_spec(s, u, i - 1);
            Answer { state: o.state, ui: o.ui, reply: reply("ok"@, o.next) }
        },
        _ => only(s, u, "ok"@, calm()),
    }
}

fn go_to_frame(st: &mut State, ui: &mut Ui, n: Option<usize>) -> (r: Reply)
    ensures
        (Answer { state: final(st)@, ui: final(ui)@, reply: r@ }) == frame_answer(
            old(st)@,
            old(ui)@,
            n,
        ),
        old(st)@.wf() ==> final(st)@.wf(),
{
    match n {
        Some(i) => if i >= 1 {
            let next: Next = switch_frame(st, ui, i - 1);
            answer("ok", next)
        } else {
            answer("ok", be_calm())
        },
        None => answer("ok", be_calm()),
    }
}

/// An image position is shown in the middle of the canvas.
pub open spec fn pan_answer(s: StateView, u: UiView, p: Option<(Double, Double)>) -> Answer {
    match p {
        None => only(s, u, "err pan to X Y"@, calm()),
        Some((x, y)) => if s.has_active() {
            only(
                s,
                UiView { view: pointed(u, frame_place(s.frame(), x, y)), ..u },
                "ok"@,
                calm(),
            )
        } else {
            only(s, u, "err no frame"@, calm())
        },
    }
}

fn pan_to(st: &State, ui: &mut Ui, p: Option<(Double, Double)>) -> (r: Reply)
    ensures
        (Answer { state: st@, ui: final(ui)@, reply: r@ }) == pan_answer(st@, old(ui)@, p),
{
    match p {
        None => answer("err pan to X Y", be_calm()),
        Some((x, y)) => {
            if !st.has_frame() {
                return answer("err no frame", be_calm());
            }
            let at: (Single, Single) = fits_to_display_oriented(x, y, &st.frames[st.active]);
            point_view(ui, at);
            answer("ok", be_calm())
        },
    }
}

/// The crosshair is taken away.
pub open spec fn clear_answer(s: StateView, u: UiView) -> Answer {
    only(
        StateView { crosshair: None, ..s },
        u,
        "ok"@,
        Next { crosshair: true, ..calm() },
    )
}

fn clear_crosshair(st: &mut State) -> (r: Reply)
    ensures
        forall|u: UiView|
            (Answer { state: final(st)@, ui: u, reply: r@ }) == #[trigger] clear_answer(
                old(st)@,
                u,
            ),
        old(st)@.wf() ==> final(st)@.wf(),
{
    st.crosshair = None;
    answer(
        "ok",
        Next { show: false, refresh: false, crosshair: true, request: Request::Nothing },
    )
}

/// The crosshair is asked for at an image position.
pub open spec fn crosshair_answer(s: StateView, u: UiView, p: Option<(Double, Double)>) -> Answer {
    match p {
        None => only(s, u, "err crosshair X Y"@, calm()),
        Some((x, y)) => if s.has_active() {
            Answer {
                state: s,
                ui: u,
                reply: ReplyView {
                    point: frame_place(s.frame(), x, y),
                    ..reply("ok"@, asking(Request::MarkCrosshair))
                },
            }
        } else {
            only(s, u, "err no frame"@, calm())
        },
    }
}

fn ask_crosshair(st: &State, p: Option<(Double, Double)>) -> (r: Reply)
    ensures
        forall|u: UiView|
            (Answer { state: st@, ui: u, reply: r@ }) == #[trigger] crosshair_answer(st@, u, p),
{
    match p {
        None => answer("err crosshair X Y", be_calm()),
        Some((x, y)) => {
            if !st.has_frame() {
                return answer("err no frame", be_calm());
            }
            let mut r = answer("ok", ask(Request::MarkCrosshair));
            r.point = fits_to_display_oriented(x, y, &st.frames[st.active]);
            r
        },
    }
}

/// The limits of the active frame are set.
pub open spec fn limits_answer(s: StateView, u: UiView, p: Option<(Single, Single)>) -> Answer {
    match p {
        None => only(s, u, "err scale limits LO HI (HI > LO)"@, calm()),
        Some((low, high)) => only(
            s.on_frame(|f: Frame| Frame { limits_mode: LimitsMode::User { low, high }, ..f }),
            u,
            "ok"@,
            drawing(),
        ),
    }
}

fn set_limits(st: &mut State, p: Option<(Single, Single)>) -> (r: Reply)
    ensures
        forall|u: UiView|
            (Answer { state: final(st)@, ui: u, reply: r@ }) == #[trigger] limits_answer(
                old(st)@,
                u,
                p,
            ),
        old(st)@.wf() ==> final(st)@.wf(),
{
    match p {
        None => answer("err scale limits LO HI (HI > LO)", be_calm()),
        Some((low, high)) => {
            st.set_limits(LimitsMode::User { low, high });
            answer("ok", draw_again())
        },
    }
}

/// The colour table that an inversion leaves: the table that is shown, the frame's own or that of
/// its colour map, in reverse order.
pub open spec fn inverted(f: Frame) -> Seq<(u8, u8, u8)> {
    table_spec(f).reverse()
}

fn inverted_table(f: &Frame) -> (r: Vec<(u8, u8, u8)>)
    ensures
        r@ == inverted(*f),
{
    match &f.custom_lut {
        None => reversed(&f.cmap.lut()),
        Some(t) => reversed(t),
    }
}

fn reversed(t: &Vec<(u8, u8, u8)>) -> (r: Vec<(u8, u8, u8)>)
    ensures
        r@ == t@.reverse(),
{
    let n: usize = t.len();
    let mut v: Vec<(u8, u8, u8)> = Vec::new();
    for i in 0..n
        invariant
            n == t@.len(),
            v@ =~= t@.reverse().take(i as int),
    {
        v.push(t[n - 1 - i]);
    }
    assert(v@ =~= t@.reverse());
    v
}

/// Whether an answer is that to an inversion of the active frame's colours.
pub open spec fn colors_inverted(s: StateView, u: UiView, a: Answer) -> bool {
    &&& a.ui == u
    &&& a.reply == reply("ok"@, drawing())
    &&& if s.has_active() {
        &&& a.state.frame().custom_lut matches Some(t) && t@ == inverted(s.frame())
        &&& a.state == s.with_frame(
            Frame { custom_lut: a.state.frame().custom_lut, ..s.frame() },
        )
    } else {
        a.state == s
    }
}

fn invert_colors(st: &mut State) -> (r: Reply)
    requires
        old(st)@.wf(),
    ensures
        forall|u: UiView| #[trigger]
            colors_inverted(
                old(st)@,
                u,
                Answer { state: final(st)@, ui: u, reply: r@ },
            ),
        final(st)@.wf(),
{
    if st.has_frame() {
        assert(st@.frame().wf());
        let t = inverted_table(&st.frames[st.active]);
        st.set_custom_lut(Some(t));
    }
    answer("ok", draw_again())
}

/// Whether an answer is that to the removal of a region by its place from one.
pub open spec fn region_deleted(s: StateView, u: UiView, n: Option<usize>, a: Answer) -> bool {
    match n {
        Some(k) if k >= 1 => if s.has_active() && k - 1 < s.regions().len() {
            &&& s.has_regions(
                a.state,
                s.regions().remove(k - 1),
                if s.frame().selected_marker == Some((k - 1) as usize) {
                    None
                } else {
                    s.frame().selected_marker
                },
            )
            &&& a.ui == u
            &&& a.reply == reply("ok"@, drawing())
        } else {
            a == only(s, u, "err: index out of range"@, calm())
        },
        _ => a == only(s, u, "err: regions delete all|N (1-based)"@, calm()),
    }
}

fn delete_region(st: &mut State, n: Option<usize>) -> (r: Reply)
    ensures
        forall|u: UiView| #[trigger]
            region_deleted(
                old(st)@,
                u,
                n,
                Answer { state: final(st)@, ui: u, reply: r@ },
            ),
        old(st)@.wf() ==> final(st)@.wf(),
{
    match n {
        Some(k) => {
            if k == 0 {
                return answer("err: regions delete all|N (1-based)", be_calm());
            }
            if st.delete_region(k - 1) {
                answer("ok", draw_again())
            } else {
                answer("err: index out of range", be_calm())
            }
        },
        None => answer("err: regions delete all|N (1-based)", be_calm()),
    }
}

/// The pixel under the pointer.
pub open spec fn value_answer(s: StateView, u: UiView) -> Seq<char> {
    if !s.has_active() {
        "err no frame"@
    } else {
        match shown_value(s.frame(), u.cursor_x.widen(), u.cursor_y.widen()) {
            Some(v) => "ok "@ + v.shortest_spec(),
            None => "err out of bounds"@,
        }
    }
}

fn value_chars(st: &State, ui: &Ui) -> (r: Vec<char>)
    requires
        st@.wf(),
    ensures
        r@ == value_answer(st@, ui@),
{
    if !st.has_frame() {
        return chars_of("err no frame");
    }
    assert(st@.frame().wf());
    match value_shown(&st.frames[st.active], ui.cursor_x.widen(), ui.cursor_y.widen()) {
        Some(value) => {
            let mut v = chars_of("ok ");
            put_chars(&mut v, &value.shortest());
            v
        },
        None => chars_of("err out of bounds"),
    }
}

/// What work on a file leads to: a save needs a frame.
pub open spec fn file_answer(s: StateView, u: UiView, r: Request, path: Seq<char>) -> Answer {
    let asked = |text: Seq<char>|
        Answer { state: s, ui: u, reply: ReplyView { path, ..reply(text, asking(r)) } };
    match r {
        Request::RegionsTo => if s.has_active() {
            asked(""@)
        } else {
            only(s, u, "err no active frame"@, calm())
        },
        Request::PngTo | Request::FitsTo | Request::TiffTo | Request::PostscriptTo => if s.has_active() {
            asked(""@)
        } else {
            only(s, u, "err no frame"@, calm())
        },
        _ => asked("ok"@),
    }
}

fn work_on_file(st: &State, r: Request, path: &Vec<char>) -> (out: Reply)
    ensures
        forall|u: UiView|
            (Answer { state: st@, ui: u, reply: out@ }) == #[trigger] file_answer(
                st@,
                u,
                r,
                path@,
            ),
{
    let saves: bool = match r {
        Request::RegionsTo | Request::PngTo | Request::FitsTo | Request::TiffTo
        | Request::PostscriptTo => true,
        _ => false,
    };
    if saves && !st.has_frame() {
        return match r {
            Request::RegionsTo => answer("err no active frame", be_calm()),
            _ => answer("err no frame", be_calm()),
        };
    }
    let mut out = answer(
        if saves {
            ""
        } else {
            "ok"
        },
        ask(r),
    );
    out.path = string_of(path);
    out
}

/// What the choice of a unit leads to.
pub open spec fn unit_answer(s: StateView, u: UiView, n: Option<usize>) -> Answer {
    match n {
        Some(i) => Answer {
            state: s,
            ui: u,
            reply: ReplyView { unit: i, ..reply("ok"@, asking(Request::LoadUnit)) },
        },
        None => only(s, u, "err: hdu N | hdu next | hdu list"@, calm()),
    }
}

fn load_unit(n: Option<usize>) -> (r: Reply)
    ensures
        forall|s: StateView, u: UiView|
            (Answer { state: s, ui: u, reply: r@ }) == #[trigger] unit_answer(s, u, n),
{
    match n {
        Some(i) => {
            let mut r = answer("ok", ask(Request::LoadUnit));
            r.unit = i;
            r
        },
        None => answer("err: hdu N | hdu next | hdu list", be_calm()),
    }
}

/// Whether an answer is that to a line that asks for something.
pub open spec fn answered(
    s: StateView,
    u: UiView,
    line: Seq<char>,
    v: VerbView,
    a: Answer,
) -> bool {
    match v {
        VerbView::Quit => a == only(s, u, "ok"@, asking(Request::Quit)),
        VerbView::Access => a == only(s, u, "yes"@, calm()),
        VerbView::Version => a == only(s, u, "ds9-rust 0.1"@, calm()),
        VerbView::Help => a == only(s, u, help_text(), calm()),
        VerbView::Value => a == only(s, u, value_answer(s, u), calm()),
        VerbView::Extract => {
            let o = extract_spec(s, u);
            a == only(o.state, o.ui, "ok"@, o.next)
        },
        VerbView::Mode(m) => a == only(s, UiView { mode: m, ..u }, "ok"@, calm()),
        VerbView::Menu(m, i) => handled(
            s,
            u,
            m,
            i,
            Outcome { state: a.state, ui: a.ui, next: a.reply.next },
        ) && a.reply == reply("ok"@, a.reply.next),
        VerbView::ClearFrame => {
            &&& if s.has_active() {
                s.on_frame(
                    |f: Frame| Frame { catalog: None, selected_catalog: None, ..f },
                ).has_regions(a.state, Seq::empty(), None)
            } else {
                a.state == s
            }
            &&& a.ui == u
            &&& a.reply == reply("ok"@, drawing())
        },
        VerbView::Frame(n) => a == frame_answer(s, u, n),
        VerbView::Pan(p) => a == pan_answer(s, u, p),
        VerbView::ClearCrosshair => a == clear_answer(s, u),
        VerbView::Crosshair(p) => a == crosshair_answer(s, u, p),
        VerbView::Limits(p) => a == limits_answer(s, u, p),
        VerbView::InvertColors => colors_inverted(s, u, a),
        VerbView::DeleteRegion(n) => region_deleted(s, u, n, a),
        VerbView::Zoom(z) => a == only(
            s,
            match z {
                Some(x) => UiView { view: ViewPort { zoom: zoom_spec(x), ..u.view }, ..u },
                None => u,
            },
            "ok"@,
            calm(),
        ),
        VerbView::NextUnit => a == only(s, u, "ok"@, asking(Request::NextUnit)),
        VerbView::ListUnits => a == if s.has_active() && s.frame().source_path is Some {
            only(s, u, ""@, asking(Request::TellUnits))
        } else {
            only(s, u, "err no source path"@, calm())
        },
        VerbView::Unit(n) => a == unit_answer(s, u, n),
        VerbView::Movie(on) => a == only(s, UiView { movie: on, ..u }, "ok"@, calm()),
        VerbView::File(r, p) => a == file_answer(s, u, r, p),
        VerbView::Unknown => a == only(s, u, "err unknown: "@ + line, calm()),
    }
}

fn answer_chars(v: &Vec<char>) -> (r: Reply)
    ensures
        r@ == reply(v@, calm()),
{
    let mut r = answer("", be_calm());
    r.text = string_of(v);
    r
}

fn set_zoom(ui: &mut Ui, z: Option<Single>)
    ensures
        final(ui)@ == match z {
            Some(x) => UiView {
                view: ViewPort { zoom: zoom_spec(x), ..old(ui)@.view },
                ..old(ui)@
            },
            None => old(ui)@,
        },
{
    if let Some(x) = z {
        ui.view.zoom = zoom_within(x);
    }
}

fn clear_active(st: &mut State) -> (r: Reply)
    ensures
        forall|u: UiView, line: Seq<char>| #[trigger]
            answered(
                old(st)@,
                u,
                line,
                VerbView::ClearFrame,
                Answer { state: final(st)@, ui: u, reply: r@ },
            ),
        old(st)@.wf() ==> final(st)@.wf(),
{
    st.clear_frame();
    answer("ok", draw_again())
}

fn run_menu(st: &mut State, ui: &mut Ui, menu: &'static str, item: &Vec<char>) -> (r: Reply)
    requires
        old(st)@.wf(),
    ensures
        handled(
            old(st)@,
            old(ui)@,
            menu@,
            item@,
            Outcome { state: final(st)@, ui: final(ui)@, next: r@.next },
        ),
        r@ == reply("ok"@, r@.next),
        final(st)@.wf(),
{
    let m = chars_of(menu);
    let next: Next = handle_menu(st, ui, &m, item);
    answer("ok", next)
}

fn list_units(st: &State) -> (r: Reply)
    ensures
        forall|u: UiView, line: Seq<char>| #[trigger]
            answered(
                st@,
                u,
                line,
                VerbView::ListUnits,
                Answer { state: st@, ui: u, reply: r@ },
            ),
{
    if st.has_frame() && st.frames[st.active].source_path.is_some() {
        answer("", ask(Request::TellUnits))
    } else {
        answer("err no source path", be_calm())
    }
}

fn help() -> (r: Reply)
    ensures
        r@ == reply(help_text(), calm()),
{
    answer("commands: quit|exit | xpaaccess | version | mode M | frame next|previous|N|new|delete|clear|mosaic|tile | pan to X Y | crosshair [X Y|clear] | scale S | scale limits LO HI | cmap C | cmap invert | bin N | zoom in|out|fit|N | region load|save P | regions load|save P | regions delete all|N | file open P | save png|fits P | value | sextractor | samp image|votable | crop [reset] | projection | centroid | radial | hdu next|list|N | movie on|off | help", be_calm())
}

fn unknown(line: &Vec<char>) -> (r: Reply)
    ensures
        r@ == reply("err unknown: "@ + line@, calm()),
{
    let mut v = chars_of("err unknown: ");
    put_chars(&mut v, line);
    answer_chars(&v)
}

fn act_value(st: &State, ui: &mut Ui, line: &Vec<char>) -> (r: Reply)
    requires
        st@.wf(),
    ensures
        answered(
            st@,
            old(ui)@,
            line@,
            VerbView::Value,
            Answer { state: st@, ui: final(ui)@, reply: r@ },
        ),
{
    let t = value_chars(st, ui);
    answer_chars(&t)
}

fn act_extract(st: &State, ui: &mut Ui, line: &Vec<char>) -> (r: Reply)
    requires
        st@.wf(),
    ensures
        answered(
            st@,
            old(ui)@,
            line@,
            VerbView::Extract,
            Answer { state: st@, ui: final(ui)@, reply: r@ },
        ),
{
    let next: Next = run_extract(st, ui);
    answer("ok", next)
}

fn act_mode(st: &State, ui: &mut Ui, line: &Vec<char>, m: &Vec<char>) -> (r: Reply)
    requires
        st@.wf(),
    ensures
        answered(
            st@,
            old(ui)@,
            line@,
            VerbView::Mode(m@),
            Answer { state: st@, ui: final(ui)@, reply: r@ },
        ),
{
    ui.mode = string_of(m);
    answer("ok", be_calm())
}

fn act_zoom(st: &State, ui: &mut Ui, line: &Vec<char>, z: Option<Single>) -> (r: Reply)
    requires
        st@.wf(),
    ensures
        answered(
            st@,
            old(ui)@,
            line@,
            VerbView::Zoom(z),
            Answer { state: st@, ui: final(ui)@, reply: r@ },
        ),
{
    set_zoom(ui, z);
    answer("ok", be_calm())
}

fn act_movie(st: &State, ui: &mut Ui, line: &Vec<char>, on: bool) -> (r: Reply)
    requires
        st@.wf(),
    ensures
        answered(
            st@,
            old(ui)@,
            line@,
            VerbView::Movie(on),
            Answer { state: st@, ui: final(ui)@, reply: r@ },
        ),
{
    ui.movie = on;
    answer("ok", be_calm())
}

/// Answers a line that leaves the session as it is.
fn act_aside(st: &State, ui: &mut Ui, line: &Vec<char>, v: &Verb) -> (r: Option<Reply>)
    requires
        st@.wf(),
    ensures
        match r {
            Some(a) => answered(
                st@,
                old(ui)@,
                line@,
                v@,
                Answer { state: st@, ui: final(ui)@, reply: a@ },
            ),
            None => final(ui)@ == old(ui)@ && (!is_fixed(v@) ==> is_inner(v@)),
        },
{
    match v {
        Verb::Value => Some(act_value(st, ui, line)),
        Verb::Extract => Some(act_extract(st, ui, line)),
        Verb::Mode(m) => Some(act_mode(st, ui, line, m)),
        Verb::Pan(p) => Some(pan_to(st, ui, *p)),
        Verb::Zoom(z) => Some(act_zoom(st, ui, line, *z)),
        Verb::Movie(on) => Some(act_movie(st, ui, line, *on)),
        _ => None,
    }
}

/// Answers a line whose answer is always the same.
fn act_fixed(v: &Verb) -> (r: Option<Reply>)
    ensures
        match r {
            Some(a) => forall|s: StateView, u: UiView, line: Seq<char>| #[trigger]
                answered(s, u, line, v@, Answer { state: s, ui: u, reply: a@ }),
            None => !is_fixed(v@),
        },
{
    match v {
        Verb::Quit => Some(answer("ok", ask(Request::Quit))),
        Verb::Access => Some(answer("yes", be_calm())),
        Verb::Version => Some(answer("ds9-rust 0.1", be_calm())),
        Verb::Help => Some(help()),
        Verb::NextUnit => Some(answer("ok", ask(Request::NextUnit))),
        _ => None,
    }
}

/// Whether the answer to a line is always the same.
pub open spec fn is_fixed(v: VerbView) -> bool {
    v is Quit || v is Access || v is Version || v is Help || v is NextUnit
}

/// Answers a line that asks for work elsewhere.
fn act_elsewhere(st: &State, v: &Verb) -> (r: Option<Reply>)
    ensures
        match r {
            Some(a) => forall|u: UiView, line: Seq<char>| #[trigger]
                answered(st@, u, line, v@, Answer { state: st@, ui: u, reply: a@ }),
            None => is_inner(v@) ==> is_inmost(v@),
        },
{
    match v {
        Verb::Crosshair(p) => {
            let r = ask_crosshair(st, *p);
            assert forall|u: UiView, line: Seq<char>| #[trigger]
                answered(st@, u, line, v@, Answer { state: st@, ui: u, reply: r@ }) by {
                assert(crosshair_answer(st@, u, *p).reply == r@);
            }
            Some(r)
        },
        Verb::ListUnits => Some(list_units(st)),
        Verb::Unit(n) => {
            let r = load_unit(*n);
            assert forall|u: UiView, line: Seq<char>| #[trigger]
                answered(st@, u, line, v@, Answer { state: st@, ui: u, reply: r@ }) by {
                assert(unit_answer(st@, u, *n).reply == r@);
            }
            Some(r)
        },
        Verb::File(request, p) => {
            let r = work_on_file(st, *request, p);
            assert forall|u: UiView, line: Seq<char>| #[trigger]
                answered(st@, u, line, v@, Answer { state: st@, ui: u, reply: r@ }) by {
                assert(file_answer(st@, u, *request, p@).reply == r@);
            }
            Some(r)
        },
        _ => None,
    }
}

/// Whether a line is about the session, or work elsewhere, or unknown.
pub open spec fn is_inner(v: VerbView) -> bool {
    v is Crosshair || v is ListUnits || v is Unit || v is File || is_inmost(v)
}

/// Whether a line is about the session or unknown.
pub open spec fn is_inmost(v: VerbView) -> bool {
    v is Menu || v is ClearFrame || v is Frame || v is ClearCrosshair || v is Limits
        || v is InvertColors || v is DeleteRegion || v is Unknown
}

/// Answers a line that changes the session.
#[verifier::spinoff_prover]
fn act_inside(st: &mut State, ui: &mut Ui, line: &Vec<char>, v: &Verb) -> (r: Reply)
    requires
        old(st)@.wf(),
        is_inmost(v@),
    ensures
        answered(
            old(st)@,
            old(ui)@,
            line@,
            v@,
            Answer { state: final(st)@, ui: final(ui)@, reply: r@ },
        ),
        final(st)@.wf(),
{
    match v {
        Verb::Menu(m, i) => run_menu(st, ui, *m, i),
        Verb::ClearFrame => {
            let r = clear_active(st);
            assert(answered(
                old(st)@,
                ui@,
                line@,
                VerbView::ClearFrame,
                Answer { state: st@, ui: ui@, reply: r@ },
            ));
            r
        },
        Verb::Frame(n) => go_to_frame(st, ui, *n),
        Verb::ClearCrosshair => {
            let r = clear_crosshair(st);
            assert(clear_answer(old(st)@, ui@).reply == r@);
            r
        },
        Verb::Limits(p) => {
            let r = set_limits(st, *p);
            assert(limits_answer(old(st)@, ui@, *p).reply == r@);
            r
        },
        Verb::InvertColors => {
            let r = invert_colors(st);
            assert(colors_inverted(
                old(st)@,
                ui@,
                Answer { state: st@, ui: ui@, reply: r@ },
            ));
            r
        },
        Verb::DeleteRegion(n) => {
            let r = delete_region(st, *n);
            assert(region_deleted(
                old(st)@,
                ui@,
                *n,
                Answer { state: st@, ui: ui@, reply: r@ },
            ));
            r
        },
        _ => unknown(line),
    }
}

fn act(st: &mut State, ui: &mut Ui, line: &Vec<char>, v: &Verb) -> (r: Reply)
    requires
        old(st)@.wf(),
    ensures
        answered(
            old(st)@,
            old(ui)@,
            line@,
            v@,
            Answer { state: final(st)@, ui: final(ui)@, reply: r@ },
        ),
        final(st)@.wf(),
{
    if let Some(r) = act_fixed(v) {
        assert(answered(
            old(st)@,
            old(ui)@,
            line@,
            v@,
            Answer { state: st@, ui: ui@, reply: r@ },
        ));
        return r;
    }
    if let Some(r) = act_aside(st, ui, line, v) {
        assert(answered(
            old(st)@,
            old(ui)@,
            line@,
            v@,
            Answer { state: st@, ui: ui@, reply: r@ },
        ));
        return r;
    }
    if let Some(r) = act_elsewhere(st, v) {
        assert(answered(
            old(st)@,
            old(ui)@,
            line@,
            v@,
            Answer { state: st@, ui: ui@, reply: r@ },
        ));
        return r;
    }
    act_inside(st, ui, line, v)
}

/// What a line of the protocol asks for; a blank line asks for nothing.
pub open spec fn line_verb(line: Seq<char>) -> VerbView {
    verb_spec(pieces_spec(trim_spec(line), 4))
}

/// Whether an answer is that to a line of the protocol.
pub open spec fn dispatched(s: StateView, u: UiView, line: Seq<char>, a: Answer) -> bool {
    if trim_spec(line).len() == 0 {
        a == only(s, u, ""@, calm())
    } else {
        answered(s, u, trim_spec(line), line_verb(line), a)
    }
}

/// Does what a line of the protocol asks for, and answers it.
pub fn dispatch_ipc(st: &mut State, ui: &mut Ui, line: &str) -> (r: Reply)
    requires
        old(st)@.wf(),
    ensures
        dispatched(
            old(st)@,
            old(ui)@,
            line@,
            Answer { state: final(st)@, ui: final(ui)@, reply: r@ },
        ),
        final(st)@.wf(),
{
    let v = chars_of(line);
    let t = trim(&v);
    if t.len() == 0 {
        return answer("", be_calm());
    }
    let w = pieces(&t, 4);
    let verb = verb_of(&w);
    act(st, ui, &t, &verb)
}

/// The answer to a save: what went wrong, if anything did.
pub fn save_reply(error: Option<&str>) -> (r: String)
    ensures
        r@ == match error {
            Some(e) => "err "@ + e@,
            None => "ok"@,
        },
{
    let mut v: Vec<char> = Vec::new();
    match error {
        Some(e) => {
            put_text(&mut v, "err ");
            put_text(&mut v, e);
            assert(v@ =~= "err "@ + e@);
        },
        None => {
            put_text(&mut v, "ok");
            assert(v@ =~= "ok"@);
        },
    }
    string_of(&v)
}

/// The answer to a save of regions: how many there were, or what went wrong.
pub fn regions_reply(n: usize, error: Option<&str>) -> (r: String)
    ensures
        r@ == match error {
            Some(e) => "err "@ + e@,
            None => count_text("ok "@, n as nat, " regions"@),
        },
{
    match error {
        Some(e) => save_reply(Some(e)),
        None => string_of(&count_chars("ok ", n as u128, " regions")),
    }
}

} // verus!
