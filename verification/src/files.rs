//! Images, regions and catalogs that come from files, and the units of a file.

use crate::catalog::Catalog;
use crate::export::{left_aligned, put_left};
use crate::fits::FitsImage;
use crate::frame::{fit_zoom, fit_zoom_spec, Frame, State, StateView};
use crate::hdu::HduInfo;
use crate::marker::{marker_views, Marker};
use crate::mosaic::{frames_with_wcs, with_wcs};
use crate::num::Single;
use crate::prefs::{apply_prefs_to_frame, with_prefs};
use crate::show::{put_right, right_aligned};
use crate::text::{
    chars_of, nat_text, piece, put_chars, put_nat, put_text, stands, stands_at, string_of,
};
use crate::ui::{
    count_chars, count_text, counts_chars, counts_text, draw_again, drawing, turn_page, turning,
    Next, Ui, UiView,
};
use vstd::prelude::*;

verus! {

// ---------------------------------------------------------------------------
// Names
// ---------------------------------------------------------------------------

/// The text without an ending, however often it stands there.
pub open spec fn without_ending(s: Seq<char>, end: Seq<char>) -> Seq<char>
    decreases s.len(),
{
    if end.len() > 0 && s.len() >= end.len() && stands_at(s, end, s.len() - end.len()) {
        without_ending(s.take(s.len() - end.len()), end)
    } else {
        s
    }
}

fn strip_ending(s: &Vec<char>, end: &str) -> (r: Vec<char>)
    ensures
        r@ == without_ending(s@, end@),
{
    let e = chars_of(end);
    let k: usize = e.len();
    let mut n: usize = s.len();
    assert(s@.take(n as int) =~= s@);
    loop
        invariant
            e@ == end@,
            k == e@.len(),
            n <= s@.len(),
            without_ending(s@, end@) == without_ending(s@.take(n as int), end@),
        decreases n,
    {
        let w = piece(s, 0, n);
        assert(w@ =~= s@.take(n as int));
        if k > 0 && n >= k && stands(&w, &e, n - k) {
            assert(s@.take(n as int).take(n - k) =~= s@.take(n - k));
            n = n - k;
        } else {
            return w;
        }
    }
}

/// The name under which a picture of a frame is offered to be saved: the frame's name without
/// the endings of image files, and another ending.
pub fn save_name(name: &str, ending: &str) -> (r: String)
    ensures
        r@ == without_ending(without_ending(name@, ".fits"@), ".fit"@) + ending@,
{
    let v = chars_of(name);
    let a = strip_ending(&v, ".fits");
    let mut b = strip_ending(&a, ".fit");
    put_text(&mut b, ending);
    string_of(&b)
}

// ---------------------------------------------------------------------------
// Images
// ---------------------------------------------------------------------------

/// Whether a frame is the one made for an image: a new frame with the session's preferences.
pub open spec fn is_frame_for(
    f: Frame,
    img: FitsImage,
    name: Seq<char>,
    path: Option<String>,
    s: StateView,
) -> bool {
    exists|g: Frame| #[trigger]
        g.is_new(img, name) && f == with_prefs(Frame { source_path: path, ..g }, s.prefs)
}

/// Whether the session is one with a frame for an image added, and that frame shown.
pub open spec fn is_added(
    s: StateView,
    u: UiView,
    img: FitsImage,
    name: Seq<char>,
    path: Option<String>,
    t: StateView,
) -> bool {
    &&& t.frames.len() == s.frames.len() + 1
    &&& is_frame_for(t.frames.last(), img, name, path, s)
    &&& t == s.frame_added(t.frames.last(), u.view)
}

/// Whether an image can be shown.
pub open spec fn is_showable(img: FitsImage) -> bool {
    img.wf() && img.width * img.height * 4 <= usize::MAX
}

fn put_frame(st: &mut State, ui: &mut Ui, img: FitsImage, name: String, path: Option<String>)
    requires
        old(st)@.wf(),
        is_showable(img),
    ensures
        is_added(old(st)@, old(ui)@, img, name@, path, final(st)@),
        final(ui)@ == old(ui)@.showing(final(st)@),
        final(st)@.wf(),
{
    let ghost before = st@;
    let mut f = Frame::new(img, name);
    let ghost g = f;
    f.source_path = path;
    apply_prefs_to_frame(&st.prefs, &mut f);
    assert(g.is_new(img, name@));
    assert(is_frame_for(f, img, name@, path, before));
    assert(f.wf());
    st.add_frame(f, ui.view);
    assert(st@.frames.last() == f);
    ui.push_view_to_window(st);
}

/// What is said of an image that was loaded.
pub open spec fn loaded_text(img: FitsImage, n: nat) -> Seq<char> {
    counts_text("loaded "@, img.width as nat, " × "@, img.height as nat, "    range "@)
        + img.min.fixed_spec(4) + " … "@ + img.max.fixed_spec(4) + "    [frame "@ + nat_text(n)
        + "]"@
}

fn loaded_chars(w: usize, h: usize, min: Single, max: Single, n: usize) -> (r: Vec<char>)
    ensures
        r@ == counts_text("loaded "@, w as nat, " × "@, h as nat, "    range "@)
            + min.fixed_spec(4) + " … "@ + max.fixed_spec(4) + "    [frame "@ + nat_text(n as nat)
            + "]"@,
{
    let mut v = counts_chars("loaded ", w as u128, " × ", h as u128, "    range ");
    put_chars(&mut v, &min.fixed(4));
    put_text(&mut v, " … ");
    put_chars(&mut v, &max.fixed(4));
    put_text(&mut v, "    [frame ");
    put_nat(&mut v, n as u128);
    put_text(&mut v, "]");
    v
}

/// Adds a frame for an image that was read from a file, and shows it.
pub fn load_into(st: &mut State, ui: &mut Ui, img: FitsImage, name: String, path: String) -> (next:
    Next)
    requires
        old(st)@.wf(),
        is_showable(img),
    ensures
        is_added(old(st)@, old(ui)@, img, name@, Some(path), final(st)@),
        final(ui)@ == old(ui)@.showing(final(st)@).said(
            loaded_text(img, final(st)@.frames.len()),
        ),
        next == turning(),
        final(st)@.wf(),
{
    let (w, h): (usize, usize) = (img.width, img.height);
    let (min, max): (Single, Single) = (img.min, img.max);
    put_frame(st, ui, img, name, Some(path));
    let v = loaded_chars(w, h, min, max, st.frames.len());
    ui.say(&v);
    turn_page()
}

/// What is said of a mosaic.
pub open spec fn mosaic_text(count: nat, img: FitsImage, n: nat) -> Seq<char> {
    count_text("mosaic: "@, count, " frames → "@) + counts_text(
        ""@,
        img.width as nat,
        "×"@,
        img.height as nat,
        "    [frame "@,
    ) + nat_text(n) + "]"@
}

fn mosaic_chars(count: usize, w: usize, h: usize, n: usize) -> (r: Vec<char>)
    ensures
        r@ == count_text("mosaic: "@, count as nat, " frames → "@) + counts_text(
            ""@,
            w as nat,
            "×"@,
            h as nat,
            "    [frame "@,
        ) + nat_text(n as nat) + "]"@,
{
    let mut v = count_chars("mosaic: ", count as u128, " frames → ");
    let size = counts_chars("", w as u128, "×", h as u128, "    [frame ");
    put_chars(&mut v, &size);
    put_nat(&mut v, n as u128);
    put_text(&mut v, "]");
    v
}

/// Adds a frame for a mosaic of the frames with sky coordinates, and shows it.
pub fn add_mosaic(st: &mut State, ui: &mut Ui, img: FitsImage) -> (next: Next)
    requires
        old(st)@.wf(),
        is_showable(img),
    ensures
        ({
            let count = with_wcs(old(st)@.frames, old(st)@.frames.len()).len();
            &&& is_added(
                old(st)@,
                old(ui)@,
                img,
                count_text("mosaic ("@, count, " frames)"@),
                None,
                final(st)@,
            )
            &&& final(ui)@ == old(ui)@.showing(final(st)@).said(
                mosaic_text(count, img, final(st)@.frames.len()),
            )
        }),
        next == turning(),
        final(st)@.wf(),
{
    let count: usize = frames_with_wcs(&st.frames).len();
    let (w, h): (usize, usize) = (img.width, img.height);
    let name: String = string_of(&count_chars("mosaic (", count as u128, " frames)"));
    put_frame(st, ui, img, name, None);
    let v = mosaic_chars(count, w, h, st.frames.len());
    ui.say(&v);
    turn_page()
}

// ---------------------------------------------------------------------------
// Regions and catalogs
// ---------------------------------------------------------------------------

/// What is said of regions that were read from a file.
pub open spec fn regions_loaded_text(n: nat, path: Seq<char>, note: Seq<char>) -> Seq<char> {
    count_text("loaded "@, n, " regions from "@) + path + note
}

/// Gives the active frame the regions that were read from a file. Where `warns` is set, it is
/// said that a frame without sky coordinates takes sky regions as pixels.
pub fn regions_loaded(st: &mut State, ui: &mut Ui, markers: Vec<Marker>, path: &str, warns: bool) -> (
next: Next)
    requires
        old(st)@.has_active(),
    ensures
        old(st)@.has_regions(final(st)@, marker_views(markers@), None),
        final(ui)@ == old(ui)@.said(
            regions_loaded_text(
                markers@.len(),
                path@,
                if warns && old(st)@.frame().fits.wcs is None {
                    "  [no WCS — sky regions assumed image]"@
                } else {
                    ""@
                },
            ),
        ),
        next == drawing(),
        old(st)@.wf() ==> final(st)@.wf(),
{
    let n: usize = markers.len();
    let note: &str = if warns && st.frames[st.active].fits.wcs.is_none() {
        "  [no WCS — sky regions assumed image]"
    } else {
        ""
    };
    st.set_regions(markers);
    let mut v = count_chars("loaded ", n as u128, " regions from ");
    put_text(&mut v, path);
    put_text(&mut v, note);
    ui.say(&v);
    draw_again()
}

/// Where the positions of a catalog stand.
pub open spec fn columns_text(columns: Seq<Seq<char>>) -> Seq<char> {
    match Catalog::xy_spec(columns) {
        Some((x, y)) => " (X="@ + columns[x as int] + ", Y="@ + columns[y as int] + ")"@,
        None => " (no X/Y_IMAGE columns — points won't plot)"@,
    }
}

fn columns_chars(c: &Catalog) -> (r: Vec<char>)
    ensures
        r@ == columns_text(c@.columns),
{
    match c.xy_columns() {
        Some((x, y)) => {
            let mut v = chars_of(" (X=");
            put_text(&mut v, c.columns[x].as_str());
            put_text(&mut v, ", Y=");
            put_text(&mut v, c.columns[y].as_str());
            put_text(&mut v, ")");
            v
        },
        None => chars_of(" (no X/Y_IMAGE columns — points won't plot)"),
    }
}

/// The session with a catalog in the active frame, of which no row is selected.
pub open spec fn with_catalog(s: StateView, c: Catalog) -> StateView {
    s.on_frame(|f: Frame| Frame { catalog: Some(c), selected_catalog: None, ..f })
}

/// Gives the active frame a catalog that was read from a file.
pub fn catalog_loaded(st: &mut State, ui: &mut Ui, c: Catalog, path: &str) -> (next: Next)
    requires
        old(st)@.has_active(),
    ensures
        final(st)@ == with_catalog(old(st)@, c),
        final(ui)@ == old(ui)@.said(
            count_text("loaded "@, c@.rows.len(), " catalog rows from "@) + path@ + columns_text(
                c@.columns,
            ),
        ),
        next == drawing(),
        old(st)@.wf() ==> final(st)@.wf(),
{
    let mut v = count_chars("loaded ", c.len() as u128, " catalog rows from ");
    put_text(&mut v, path);
    let xy = columns_chars(&c);
    put_chars(&mut v, &xy);
    let k: usize = st.active;
    st.set_catalog(k, c);
    ui.say(&v);
    draw_again()
}

/// Gives a frame the sources that were found in its image.
pub fn sources_found(
    st: &mut State,
    ui: &mut Ui,
    k: usize,
    c: Catalog,
    name: &str,
    program: &str,
) -> (next: Next)
    ensures
        final(st)@ == if k < old(st)@.frames.len() {
            StateView {
                frames: old(st)@.frames.update(
                    k as int,
                    Frame { catalog: Some(c), selected_catalog: None, ..old(st)@.frames[k as int] },
                ),
                ..old(st)@
            }
        } else {
            old(st)@
        },
        final(ui)@ == old(ui)@.said(
            count_text("sextractor: detected "@, c@.rows.len(), " sources from "@) + name@ + " ("@
                + program@ + ")"@,
        ),
        next == drawing(),
        old(st)@.wf() ==> final(st)@.wf(),
{
    let mut v = count_chars("sextractor: detected ", c.len() as u128, " sources from ");
    put_text(&mut v, name);
    put_text(&mut v, " (");
    put_text(&mut v, program);
    put_text(&mut v, ")");
    st.set_catalog(k, c);
    ui.say(&v);
    draw_again()
}

// ---------------------------------------------------------------------------
// The units of a file
// ---------------------------------------------------------------------------

/// What the units of a file are wanted for.
#[derive(Clone, Copy, Debug, PartialEq, Eq, Structural)]
pub enum UnitUse {
    List,
    Load,
    Advance,
}

/// What is said where there is no active frame.
pub open spec fn no_frame_text(k: UnitUse) -> Seq<char> {
    match k {
        UnitUse::List => "HDU navigator: no active frame"@,
        UnitUse::Load => "HDU load: no source path"@,
        UnitUse::Advance => "HDU: no active frame"@,
    }
}

/// What is said where the active frame did not come from a file.
pub open spec fn no_source_text(k: UnitUse) -> Seq<char> {
    match k {
        UnitUse::List => "HDU navigator: active frame is synthetic (no source file)"@,
        UnitUse::Load => "HDU load: no source path"@,
        UnitUse::Advance => "HDU: active frame is synthetic"@,
    }
}

/// The file that the active frame came from, or a complaint.
pub fn unit_source(st: &State, k: UnitUse) -> (r: Result<&String, &'static str>)
    ensures
        match r {
            Ok(p) => st@.has_active() && st@.frame().source_path == Some(*p),
            Err(e) => if st@.has_active() {
                st@.frame().source_path is None && e@ == no_source_text(k)
            } else {
                e@ == no_frame_text(k)
            },
        },
{
    if !st.has_frame() {
        return Err(
            match k {
                UnitUse::List => "HDU navigator: no active frame",
                UnitUse::Load => "HDU load: no source path",
                UnitUse::Advance => "HDU: no active frame",
            },
        );
    }
    match &st.frames[st.active].source_path {
        Some(p) => Ok(p),
        None => Err(
            match k {
                UnitUse::List => "HDU navigator: active frame is synthetic (no source file)",
                UnitUse::Load => "HDU load: no source path",
                UnitUse::Advance => "HDU: active frame is synthetic",
            },
        ),
    }
}

/// Whether a unit of the given kind holds an image.
pub open spec fn is_loadable_kind(kind: Seq<char>) -> bool {
    kind == "PRIMARY"@ || kind == "IMAGE"@ || kind == "TILE-COMPRESSED"@
}

/// Whether a unit of the given kind holds an image.
pub fn is_loadable_hdu(kind: &str) -> (r: bool)
    ensures
        r == is_loadable_kind(kind@),
{
    let k = chars_of(kind);
    crate::text::same_text(&k, "PRIMARY") || crate::text::same_text(&k, "IMAGE")
        || crate::text::same_text(&k, "TILE-COMPRESSED")
}

/// A row of the list of units.
pub struct HduRow {
    pub idx: usize,
    pub label: String,
    pub loadable: bool,
    pub active: bool,
}

/// What a row of the list of units says: the place, the kind, the name and the size.
pub open spec fn label_spec(h: HduInfo) -> Seq<char> {
    "["@ + right_aligned(nat_text(h.idx as nat), 2) + "] "@ + left_aligned(h.kind@, 16) + " "@
        + h.name@ + match h.dims {
        Some((x, y)) => counts_text(" "@, x as nat, "×"@, y as nat, ""@),
        None => Seq::empty(),
    }
}

fn label_of(h: &HduInfo) -> (r: String)
    ensures
        r@ == label_spec(*h),
{
    let mut v = chars_of("[");
    let mut n: Vec<char> = Vec::new();
    put_nat(&mut n, h.idx as u128);
    assert(n@ =~= nat_text(h.idx as nat));
    put_right(&mut v, &n, 2);
    put_text(&mut v, "] ");
    put_left(&mut v, &chars_of(h.kind), 16);
    put_text(&mut v, " ");
    put_text(&mut v, h.name.as_str());
    let ghost head = v@;
    if let Some((x, y)) = h.dims {
        let size = counts_chars(" ", x as u128, "×", y as u128, "");
        put_chars(&mut v, &size);
    } else {
        assert(v@ =~= head + Seq::<char>::empty());
    }
    string_of(&v)
}

/// Whether a row is that of a unit, where the unit at the place `current` is shown.
pub open spec fn is_row_of(r: HduRow, h: HduInfo, current: usize) -> bool {
    &&& r.idx == h.idx
    &&& r.label@ == label_spec(h)
    &&& r.loadable == is_loadable_kind(h.kind@)
    &&& r.active == (h.idx == current)
}

/// The list of the units of a file.
pub fn populate_hdu_panel(units: &Vec<HduInfo>, current: usize) -> (r: Result<
    Vec<HduRow>,
    &'static str,
>)
    ensures
        match r {
            Ok(v) => {
                &&& units@.len() > 0
                &&& v@.len() == units@.len()
                &&& forall|i: int|
                    0 <= i < v@.len() ==> is_row_of(#[trigger] v@[i], units@[i], current)
            },
            Err(e) => units@.len() == 0 && e@ == "HDU navigator: file has no HDUs"@,
        },
{
    let n: usize = units.len();
    if n == 0 {
        return Err("HDU navigator: file has no HDUs");
    }
    let mut v: Vec<HduRow> = Vec::new();
    for i in 0..n
        invariant
            n == units@.len(),
            v@.len() == i,
            forall|k: int| 0 <= k < i ==> is_row_of(#[trigger] v@[k], units@[k], current),
    {
        let h: &HduInfo = &units[i];
        v.push(
            HduRow {
                idx: h.idx,
                label: label_of(h),
                loadable: is_loadable_hdu(h.kind),
                active: h.idx == current,
            },
        );
    }
    Ok(v)
}

/// The lines that list the units, without a line end behind the last.
pub open spec fn units_spec(units: Seq<HduInfo>) -> Seq<char>
    decreases units.len(),
{
    if units.len() == 0 {
        Seq::empty()
    } else {
        let h = units.last();
        let line = nat_text(h.idx as nat) + " "@ + h.kind@ + " "@ + h.name@;
        if units.len() == 1 {
            line
        } else {
            units_spec(units.drop_last()) + "\n"@ + line
        }
    }
}

/// The lines that list the units, without a line end behind the last.
pub fn units_text(units: &Vec<HduInfo>) -> (r: String)
    ensures
        r@ == units_spec(units@),
{
    let n: usize = units.len();
    let mut v: Vec<char> = Vec::new();
    assert(v@ =~= units_spec(units@.take(0)));
    for i in 0..n
        invariant
            n == units@.len(),
            v@ == units_spec(units@.take(i as int)),
    {
        let ghost before = v@;
        let h: &HduInfo = &units[i];
        let mut line: Vec<char> = Vec::new();
        put_nat(&mut line, h.idx as u128);
        put_text(&mut line, " ");
        put_text(&mut line, h.kind);
        put_text(&mut line, " ");
        put_text(&mut line, h.name.as_str());
        assert(line@ =~= nat_text(h.idx as nat) + " "@ + h.kind@ + " "@ + h.name@);
        if i > 0 {
            put_text(&mut v, "\n");
        }
        put_chars(&mut v, &line);
        assert(units@.take(i + 1).drop_last() =~= units@.take(i as int));
        assert(v@ =~= units_spec(units@.take(i + 1)));
    }
    assert(units@.take(n as int) =~= units@);
    string_of(&v)
}

/// Whether a unit of the list is the one to be loaded: it is there and holds an image.
pub fn unit_choice(units: &Vec<HduInfo>, target: usize) -> (r: Result<(), String>)
    ensures
        match r {
            Ok(()) => target < units@.len() && is_loadable_kind(units@[target as int].kind@),
            Err(e) => if target < units@.len() {
                !is_loadable_kind(units@[target as int].kind@) && e@ == count_text(
                    "HDU ["@,
                    target as nat,
                    "] is "@,
                ) + units@[target as int].kind@ + " (not loadable)"@
            } else {
                e@ == count_text("HDU load: no HDU ["@, target as nat, "]"@)
            },
        },
{
    if target >= units.len() {
        return Err(string_of(&count_chars("HDU load: no HDU [", target as u128, "]")));
    }
    if is_loadable_hdu(units[target].kind) {
        Ok(())
    } else {
        let mut v = count_chars("HDU [", target as u128, "] is ");
        put_text(&mut v, units[target].kind);
        put_text(&mut v, " (not loadable)");
        Err(string_of(&v))
    }
}

/// The first unit with an image, other than the current one, among those at `k` to `n` places
/// behind it, in a circle.
pub open spec fn unit_behind(units: Seq<HduInfo>, current: int, k: int) -> Option<int>
    decreases units.len() + 1 - k,
{
    if k > units.len() || units.len() == 0 {
        None
    } else if (current + k) % (units.len() as int) != current && is_loadable_kind(
        units[(current + k) % (units.len() as int)].kind@,
    ) {
        Some((current + k) % (units.len() as int))
    } else {
        unit_behind(units, current, k + 1)
    }
}

/// The next unit with an image behind the current one, in a circle that ends before the current
/// one; or a complaint, where there is no other.
pub fn advance_hdu(units: &Vec<HduInfo>, current: usize) -> (r: Result<usize, &'static str>)
    ensures
        match r {
            Ok(i) => unit_behind(units@, current as int, 1) == Some(i as int) && i < units@.len(),
            Err(e) => unit_behind(units@, current as int, 1) is None && e@ == if units@.len() == 0 {
                "HDU: file has no HDUs"@
            } else {
                "HDU: no other loadable HDUs"@
            },
        },
{
    let n: usize = units.len();
    if n == 0 {
        return Err("HDU: file has no HDUs");
    }
    let mut i: usize = current % n;
    for k in 0..n
        invariant
            n == units@.len(),
            n > 0,
            i < n,
            i == (current + k) % (n as int),
            unit_behind(units@, current as int, 1) == unit_behind(units@, current as int, k + 1),
    {
        proof {
            next_in_circle(current as int + k, n as int);
        }
        i = if i + 1 < n {
            i + 1
        } else {
            0
        };
        if i != current && is_loadable_hdu(units[i].kind) {
            return Ok(i);
        }
    }
    Err("HDU: no other loadable HDUs")
}

/// One step in a circle.
proof fn next_in_circle(x: int, n: int)
    requires
        x >= 0,
        n > 0,
    ensures
        (x + 1) % n == if x % n + 1 < n {
            x % n + 1
        } else {
            0
        },
{
    let q = x / n;
    let r = x % n;
    assert(x == q * n + r) by (nonlinear_arith)
        requires
            q == x / n,
            r == x % n,
            n > 0,
    ;
    if r + 1 < n {
        assert((x + 1) % n == r + 1) by (nonlinear_arith)
            requires
                x == q * n + r,
                0 <= r + 1 < n,
        ;
    } else {
        assert((x + 1) % n == 0) by (nonlinear_arith)
            requires
                x == q * n + r,
                r + 1 == n,
                n > 0,
        ;
    }
}

/// Whether the session is one whose active frame shows another unit of its file, fitted to the
/// canvas; its name is that of the file with the unit's in brackets.
pub open spec fn shows_unit(
    s: StateView,
    t: StateView,
    img: FitsImage,
    file: Seq<char>,
    h: HduInfo,
) -> bool {
    &&& t.frame().name@ == file + "["@ + h.name@ + "]"@
    &&& t == s.with_frame(
        Frame {
            fits: img,
            name: t.frame().name,
            hdu_idx: h.idx,
            view_zoom: fit_zoom_spec(img.width as int, img.height as int),
            view_pan_x: Single { bits: 0 },
            view_pan_y: Single { bits: 0 },
            ..s.frame()
        },
    )
}

/// What is said of a unit that was loaded.
pub open spec fn unit_text(h: HduInfo, img: FitsImage) -> Seq<char> {
    count_text("HDU ["@, h.idx as nat, "] "@) + h.kind@ + " "@ + h.name@ + counts_text(
        " ("@,
        img.width as nat,
        "×"@,
        img.height as nat,
        ")"@,
    )
}

/// Shows another unit of the file in the active frame.
pub fn load_hdu_into_active(
    st: &mut State,
    ui: &mut Ui,
    h: &HduInfo,
    img: FitsImage,
    file: &str,
) -> (next: Next)
    requires
        old(st)@.wf(),
        old(st)@.has_active(),
        is_showable(img),
    ensures
        shows_unit(old(st)@, final(st)@, img, file@, *h),
        final(ui)@ == old(ui)@.showing(final(st)@).said(unit_text(*h, img)),
        next == turning(),
        final(st)@.wf(),
{
    let ghost before = st@;
    let (w, height): (usize, usize) = (img.width, img.height);
    let mut name = chars_of(file);
    put_text(&mut name, "[");
    put_text(&mut name, h.name.as_str());
    put_text(&mut name, "]");
    let i: usize = st.active;
    st.frames[i].fits = img;
    st.frames[i].name = string_of(&name);
    st.frames[i].hdu_idx = h.idx;
    st.frames[i].view_zoom = fit_zoom(w, height);
    st.frames[i].view_pan_x = Single { bits: 0 };
    st.frames[i].view_pan_y = Single { bits: 0 };
    assert(st@.frames =~= before.frames.update(before.active, st@.frame()));
    assert(st@.wf()) by {
        assert(before.frame().wf());
        assert forall|k: int| 0 <= k < st@.frames.len() implies (#[trigger] st@.frames[k]).wf() by {
            assert(before.frames[k].wf());
        }
    }
    ui.push_view_to_window(st);
    let mut v = count_chars("HDU [", h.idx as u128, "] ");
    put_text(&mut v, h.kind);
    put_text(&mut v, " ");
    put_text(&mut v, h.name.as_str());
    let size = counts_chars(" (", w as u128, "×", height as u128, ")");
    put_chars(&mut v, &size);
    ui.say(&v);
    turn_page()
}

} // verus!
