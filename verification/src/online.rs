//! Online queries, and what is said of work outside the session.

use crate::catalog::{headed, tab_rows, votable_spec, Catalog};
use crate::files::with_catalog;
use crate::frame::{Crosshair, State, StateView};
use crate::num::Double;
use crate::pointer::{point_view, pointed};
use crate::query::{parse_radius, radius_spec};
use crate::show::{fits_to_display_oriented, frame_place};
use crate::text::{chars_of, lines_spec, put_chars, put_text, string_of, trim, trim_spec};
use crate::ui::{
    count_chars, count_text, counts_chars, counts_text, draw_again, drawing, Next, Request, Ui,
    UiView,
};
use vstd::prelude::*;

verus! {

/// Two texts, one behind the other.
pub fn labelled(label: &str, text: &str) -> (r: String)
    ensures
        r@ == label@ + text@,
{
    let mut v = chars_of(label);
    put_text(&mut v, text);
    string_of(&v)
}

/// A text between two others.
pub fn enclosed(a: &str, text: &str, b: &str) -> (r: String)
    ensures
        r@ == a@ + text@ + b@,
{
    let mut v = chars_of(a);
    put_text(&mut v, text);
    put_text(&mut v, b);
    string_of(&v)
}

// ---------------------------------------------------------------------------
// Names of objects
// ---------------------------------------------------------------------------

/// The name to look up, or a complaint where there is none.
pub fn wanted_name(text: &str) -> (r: Result<String, &'static str>)
    ensures
        match r {
            Ok(n) => n@ == trim_spec(text@) && n@.len() > 0,
            Err(e) => trim_spec(text@).len() == 0 && e@ == "resolve: enter an object name first"@,
        },
{
    let v = chars_of(text);
    let t = trim(&v);
    if t.len() == 0 {
        Err("resolve: enter an object name first")
    } else {
        Ok(string_of(&t))
    }
}

/// Whether a sky position that was looked up can be shown: the active frame has sky coordinates,
/// and the position a pixel there.
pub open spec fn can_point(s: StateView, place: Option<(Double, Double)>) -> bool {
    s.has_active() && s.frame().fits.wcs is Some && place is Some
}

/// What is said at the end of a look-up.
pub open spec fn placed_text(placed: bool) -> Seq<char> {
    if placed {
        "  (crosshair set)"@
    } else {
        "  (no WCS to centre)"@
    }
}

fn placed_of(placed: bool) -> (r: &'static str)
    ensures
        r@ == placed_text(placed),
{
    if placed {
        "  (crosshair set)"
    } else {
        "  (no WCS to centre)"
    }
}

/// What the panel says of an object that was found.
pub open spec fn found_text(name: Seq<char>, ra: Double, dec: Double, placed: bool) -> Seq<char> {
    name + " → RA "@ + ra.fixed_spec(6) + "  Dec "@ + dec.signed_spec(6) + placed_text(placed)
}

fn found_of(name: &str, ra: Double, dec: Double, placed: bool) -> (r: String)
    ensures
        r@ == found_text(name@, ra, dec, placed),
{
    let mut v = chars_of(name);
    put_text(&mut v, " → RA ");
    put_chars(&mut v, &ra.fixed(6));
    put_text(&mut v, "  Dec ");
    put_chars(&mut v, &dec.signed(6));
    put_text(&mut v, placed_of(placed));
    string_of(&v)
}

/// What the status line says of an object that was found.
pub open spec fn resolved_text(name: Seq<char>, ra: Double, dec: Double, placed: bool) -> Seq<char> {
    "resolved "@ + name + ": ("@ + ra.fixed_spec(5) + ", "@ + dec.signed_spec(5) + ")"@
        + placed_text(placed)
}

fn resolved_chars(name: &str, ra: Double, dec: Double, placed: bool) -> (r: Vec<char>)
    ensures
        r@ == resolved_text(name@, ra, dec, placed),
{
    let mut v = chars_of("resolved ");
    put_text(&mut v, name);
    put_text(&mut v, ": (");
    put_chars(&mut v, &ra.fixed(5));
    put_text(&mut v, ", ");
    put_chars(&mut v, &dec.signed(5));
    put_text(&mut v, ")");
    put_text(&mut v, placed_of(placed));
    v
}

/// The session with the crosshair at a sky position that was looked up, where it can be shown.
pub open spec fn with_target(
    s: StateView,
    sky: (Double, Double),
    place: Option<(Double, Double)>,
) -> StateView {
    if can_point(s, place) {
        StateView {
            crosshair: Some(
                Crosshair {
                    world: Some(sky),
                    frame: s.active as usize,
                    x: (place->0).0,
                    y: (place->0).1,
                },
            ),
            ..s
        }
    } else {
        s
    }
}

fn set_target(
    st: &mut State,
    ui: &mut Ui,
    sky: (Double, Double),
    place: Option<(Double, Double)>,
) -> (r: bool)
    ensures
        r == can_point(old(st)@, place),
        final(st)@ == with_target(old(st)@, sky, place),
        final(ui)@ == if can_point(old(st)@, place) {
            UiView {
                view: pointed(
                    old(ui)@,
                    frame_place(old(st)@.frame(), (place->0).0, (place->0).1),
                ),
                ..old(ui)@
            }
        } else {
            old(ui)@
        },
        old(st)@.wf() ==> final(st)@.wf(),
{
    if !st.has_frame() || st.frames[st.active].fits.wcs.is_none() {
        return false;
    }
    match place {
        None => false,
        Some((x, y)) => {
            let at = fits_to_display_oriented(x, y, &st.frames[st.active]);
            st.crosshair = Some(Crosshair { world: Some(sky), frame: st.active, x, y });
            point_view(ui, at);
            true
        },
    }
}

/// Shows an object that was found: the view goes to it, and the crosshair. `place` is the pixel
/// of its sky position in the active frame. The result is what the panel says.
pub fn show_object(
    st: &mut State,
    ui: &mut Ui,
    name: &str,
    sky: (Double, Double),
    place: Option<(Double, Double)>,
) -> (r: (String, Next))
    ensures
        ({
            let placed = can_point(old(st)@, place);
            &&& r.0@ == found_text(name@, sky.0, sky.1, placed)
            &&& r.1 == (Next { crosshair: true, ..drawing() })
            &&& final(st)@ == with_target(old(st)@, sky, place)
            &&& final(ui)@ == (if placed {
                UiView {
                    view: pointed(
                        old(ui)@,
                        frame_place(old(st)@.frame(), (place->0).0, (place->0).1),
                    ),
                    ..old(ui)@
                }
            } else {
                old(ui)@
            }).said(resolved_text(name@, sky.0, sky.1, placed))
        }),
        old(st)@.wf() ==> final(st)@.wf(),
{
    let placed: bool = set_target(st, ui, sky, place);
    let v = resolved_chars(name, sky.0, sky.1, placed);
    ui.say(&v);
    (
        found_of(name, sky.0, sky.1, placed),
        Next { show: false, refresh: true, crosshair: true, request: Request::Nothing },
    )
}

// ---------------------------------------------------------------------------
// Sources around a position
// ---------------------------------------------------------------------------

/// The image position whose surroundings are asked for: the middle of the active frame's image,
/// if that has sky coordinates.
pub fn query_center(st: &State) -> (r: Option<(Double, Double)>)
    ensures
        r == if st@.has_active() && st@.frame().fits.wcs is Some {
            let img = st@.frame().fits;
            Some(
                (
                    Double::from_int_spec(img.width as int).times(Double { bits: 0x3fe0_0000_0000_0000 }).plus(Double { bits: 0x3fe0_0000_0000_0000 }),
                    Double::from_int_spec(img.height as int).times(Double { bits: 0x3fe0_0000_0000_0000 }).plus(Double { bits: 0x3fe0_0000_0000_0000 }),
                ),
            )
        } else {
            None
        },
{
    if !st.has_frame() || st.frames[st.active].fits.wcs.is_none() {
        return None;
    }
    let (w, h): (usize, usize) = (
        st.frames[st.active].fits.width,
        st.frames[st.active].fits.height,
    );
    Some(
        (
            Double::from_nat(w as u64).times(Double { bits: 0x3fe0_0000_0000_0000 }).plus(Double { bits: 0x3fe0_0000_0000_0000 }),
            Double::from_nat(h as u64).times(Double { bits: 0x3fe0_0000_0000_0000 }).plus(Double { bits: 0x3fe0_0000_0000_0000 }),
        ),
    )
}

/// What a query needs: a radius, and for VizieR the name of a catalog.
pub fn vizier_query(radius: &str, source: &str) -> (r: Result<(Double, String), String>)
    ensures
        match radius_spec(radius@) {
            None => r matches Err(e) && e@ == "vizier: "@ + ("invalid radius '"@ + trim_spec(radius@)
                + "' (deg, 0 < r < 30)"@),
            Some(x) => if trim_spec(source@).len() == 0 {
                r matches Err(e) && e@ == "vizier: enter a catalog ID (e.g. I/345/gaia2)"@
            } else {
                r matches Ok(q) && q.0 == x && q.1@ == trim_spec(source@)
            },
        },
{
    let x: Double = match parse_radius(radius) {
        Ok(x) => x,
        Err(e) => {
            return Err(labelled("vizier: ", e.as_str()));
        },
    };
    let v = chars_of(source);
    let t = trim(&v);
    if t.len() == 0 {
        return Err(string_of(&chars_of("vizier: enter a catalog ID (e.g. I/345/gaia2)")));
    }
    Ok((x, string_of(&t)))
}

/// The radius of a query to NED.
pub fn ned_query(radius: &str) -> (r: Result<Double, String>)
    ensures
        match radius_spec(radius@) {
            None => r matches Err(e) && e@ == "ned: "@ + ("invalid radius '"@ + trim_spec(radius@)
                + "' (deg, 0 < r < 30)"@),
            Some(x) => r matches Ok(y) && y == x,
        },
{
    match parse_radius(radius) {
        Ok(x) => Ok(x),
        Err(e) => Err(labelled("ned: ", e.as_str())),
    }
}

/// The middle and the radius of a query.
pub open spec fn cone_text(ra: Double, dec: Double, radius: Double) -> Seq<char> {
    "("@ + ra.fixed_spec(4) + ", "@ + dec.signed_spec(4) + ") r="@ + radius.shortest_spec()
        + " deg…"@
}

fn put_cone(v: &mut Vec<char>, ra: Double, dec: Double, radius: Double)
    ensures
        final(v)@ == old(v)@ + cone_text(ra, dec, radius),
{
    let ghost before = v@;
    put_text(v, "(");
    put_chars(v, &ra.fixed(4));
    put_text(v, ", ");
    put_chars(v, &dec.signed(4));
    put_text(v, ") r=");
    put_chars(v, &radius.shortest());
    put_text(v, " deg…");
    assert(v@ =~= before + cone_text(ra, dec, radius));
}

/// What is said while VizieR is asked.
pub fn vizier_asking(source: &str, ra: Double, dec: Double, radius: Double) -> (r: String)
    ensures
        r@ == "vizier: querying "@ + source@ + " @ "@ + cone_text(ra, dec, radius),
{
    let mut v = chars_of("vizier: querying ");
    put_text(&mut v, source);
    put_text(&mut v, " @ ");
    put_cone(&mut v, ra, dec, radius);
    string_of(&v)
}

/// What is said while NED is asked.
pub fn ned_asking(ra: Double, dec: Double, radius: Double) -> (r: String)
    ensures
        r@ == "ned: querying near "@ + cone_text(ra, dec, radius),
{
    let mut v = chars_of("ned: querying near ");
    put_cone(&mut v, ra, dec, radius);
    string_of(&v)
}

/// Gives the active frame the sources that VizieR answered with. The result is what the panel
/// says.
pub fn vizier_answered(st: &mut State, ui: &mut Ui, body: &str, source: &str) -> (r: (String, Next))
    ensures
        exists|c: Catalog|
            #![trigger with_catalog(old(st)@, c)]
            c@ == votable_spec(body@) && final(st)@ == with_catalog(old(st)@, c),
        ({
            let n = votable_spec(body@).rows.len();
            &&& r.0@ == count_text("vizier: "@, n, " rows from "@) + source@
            &&& final(ui)@ == old(ui)@.said("vizier "@ + source@ + count_text(": "@, n, " rows"@))
        }),
        r.1 == drawing(),
        old(st)@.wf() ==> final(st)@.wf(),
{
    let ghost before = st@;
    let c = Catalog::from_votable(body);
    let n: usize = c.len();
    let mut panel = count_chars("vizier: ", n as u128, " rows from ");
    put_text(&mut panel, source);
    let mut v = chars_of("vizier ");
    put_text(&mut v, source);
    let tail = count_chars(": ", n as u128, " rows");
    put_chars(&mut v, &tail);
    ui.say(&v);
    let k: usize = st.active;
    let ghost kept = c;
    st.set_catalog(k, c);
    assert(st@ == with_catalog(before, kept));
    (string_of(&panel), draw_again())
}

/// Gives the active frame the sources of a table of NED's. The result is what the panel says.
pub fn ned_answered(st: &mut State, ui: &mut Ui, table: &str) -> (r: (String, Next))
    ensures
        exists|c: Catalog|
            #![trigger with_catalog(old(st)@, c)]
            c@ == headed(tab_rows(lines_spec(table@))) && final(st)@ == with_catalog(old(st)@, c),
        ({
            let text = count_text("ned: "@, headed(tab_rows(lines_spec(table@))).rows.len(), " rows"@);
            r.0@ == text && final(ui)@ == old(ui)@.said(text)
        }),
        r.1 == drawing(),
        old(st)@.wf() ==> final(st)@.wf(),
{
    let ghost before = st@;
    let c = Catalog::from_tsv(table);
    let v = count_chars("ned: ", c.len() as u128, " rows");
    ui.say(&v);
    let k: usize = st.active;
    let ghost kept = c;
    st.set_catalog(k, c);
    assert(st@ == with_catalog(before, kept));
    (string_of(&v), draw_again())
}

// ---------------------------------------------------------------------------
// Messages to other programs
// ---------------------------------------------------------------------------

/// The file and the name of the active frame, which other programs are told; or a complaint.
pub fn samp_source(st: &State) -> (r: Result<(&String, &String), &'static str>)
    ensures
        match r {
            Ok(p) => st@.has_active() && st@.frame().source_path == Some(*p.0) && *p.1
                == st@.frame().name,
            Err(e) => if st@.has_active() {
                st@.frame().source_path is None && e@
                    == "samp: active frame is synthetic (no path)"@
            } else {
                e@ == "samp: no active frame"@
            },
        },
{
    if !st.has_frame() {
        return Err("samp: no active frame");
    }
    match &st.frames[st.active].source_path {
        Some(p) => Ok((p, &st.frames[st.active].name)),
        None => Err("samp: active frame is synthetic (no path)"),
    }
}

/// What is said of a message that was sent.
pub fn samp_sent(kind: &str, path: &str) -> (r: String)
    ensures
        r@ == "samp: "@ + kind@ + " sent ("@ + path@ + ")"@,
{
    let mut v = chars_of("samp: ");
    put_text(&mut v, kind);
    put_text(&mut v, " sent (");
    put_text(&mut v, path);
    put_text(&mut v, ")");
    string_of(&v)
}

// ---------------------------------------------------------------------------
// Where the session can be reached
// ---------------------------------------------------------------------------

/// The name of the socket of a user's session.
pub fn socket_name(user: &str) -> (r: String)
    ensures
        r@ == "ds9-rust-"@ + user@ + ".sock"@,
{
    enclosed("ds9-rust-", user, ".sock")
}

/// The text of the file that says where a session can be reached.
pub open spec fn discovery_spec(pid: nat, socket: Option<Seq<char>>, port: Option<nat>) -> Seq<char> {
    count_text("pid="@, pid, "\n"@) + match socket {
        Some(p) => "unix="@ + p + "\n"@,
        None => Seq::empty(),
    } + match port {
        Some(n) => count_text("tcp="@, n, "\n"@),
        None => Seq::empty(),
    }
}

/// A text and its contents.
pub open spec fn text_in(s: Option<&str>) -> Option<Seq<char>> {
    match s {
        Some(t) => Some(t@),
        None => None,
    }
}

/// A number and its value.
pub open spec fn number_in(n: Option<u16>) -> Option<nat> {
    match n {
        Some(k) => Some(k as nat),
        None => None,
    }
}

/// The text of the file that says where a session can be reached.
pub fn discovery_text(pid: u32, socket: Option<&str>, port: Option<u16>) -> (r: String)
    ensures
        r@ == discovery_spec(pid as nat, text_in(socket), number_in(port)),
{
    let mut v = count_chars("pid=", pid as u128, "\n");
    let ghost first = v@;
    if let Some(p) = socket {
        put_text(&mut v, "unix=");
        put_text(&mut v, p);
        put_text(&mut v, "\n");
        assert(v@ =~= first + ("unix="@ + p@ + "\n"@));
    } else {
        assert(v@ =~= first + Seq::<char>::empty());
    }
    let ghost second = v@;
    if let Some(n) = port {
        let line = count_chars("tcp=", n as u128, "\n");
        put_chars(&mut v, &line);
    } else {
        assert(v@ =~= second + Seq::<char>::empty());
    }
    string_of(&v)
}

/// What is said when the session can be reached.
pub open spec fn banner_spec(socket: Option<Seq<char>>, port: Option<nat>) -> Seq<char> {
    match (socket, port) {
        (Some(p), Some(n)) => "ready  (ipc: "@ + p + count_text(" | tcp:"@, n, ")"@),
        (Some(p), None) => "ready  (ipc: "@ + p + ")"@,
        (None, Some(n)) => count_text("ready  (tcp: 127.0.0.1:"@, n, ")"@),
        (None, None) => "ready  (no ipc)"@,
    }
}

/// What is said when the session can be reached.
pub fn banner(socket: Option<&str>, port: Option<u16>) -> (r: String)
    ensures
        r@ == banner_spec(text_in(socket), number_in(port)),
{
    match (socket, port) {
        (Some(p), Some(n)) => {
            let mut v = chars_of("ready  (ipc: ");
            put_text(&mut v, p);
            let tail = count_chars(" | tcp:", n as u128, ")");
            put_chars(&mut v, &tail);
            string_of(&v)
        },
        (Some(p), None) => enclosed("ready  (ipc: ", p, ")"),
        (None, Some(n)) => string_of(&count_chars("ready  (tcp: 127.0.0.1:", n as u128, ")")),
        (None, None) => string_of(&chars_of("ready  (no ipc)")),
    }
}

// ---------------------------------------------------------------------------
// Files that were written
// ---------------------------------------------------------------------------

/// What is said of a picture that was written.
pub fn wrote_picture(path: &str, w: usize, h: usize) -> (r: String)
    ensures
        r@ == "wrote "@ + path@ + counts_text(" ("@, w as nat, "×"@, h as nat, ")"@),
{
    let mut v = chars_of("wrote ");
    put_text(&mut v, path);
    let size = counts_chars(" (", w as u128, "×", h as u128, ")");
    put_chars(&mut v, &size);
    string_of(&v)
}

/// What is said of regions that were written.
pub fn wrote_regions(n: usize, path: &str) -> (r: String)
    ensures
        r@ == count_text("wrote "@, n as nat, " regions → "@) + path@,
{
    let mut v = count_chars("wrote ", n as u128, " regions → ");
    put_text(&mut v, path);
    string_of(&v)
}

/// What is said of a picture that went to the printer, or to a file where there is none.
pub fn printed(path: &str, sent: bool) -> (r: String)
    ensures
        r@ == if sent {
            "sent to lpr  ("@ + path@ + ")"@
        } else {
            "saved "@ + path@ + " (lpr unavailable)"@
        },
{
    if sent {
        enclosed("sent to lpr  (", path, ")")
    } else {
        enclosed("saved ", path, " (lpr unavailable)")
    }
}

/// What is said of a catalog that the session started with.
pub fn started_with(rows: usize, path: &str) -> (r: String)
    ensures
        r@ == count_text("loaded catalog ("@, rows as nat, " rows) from "@) + path@,
{
    let mut v = count_chars("loaded catalog (", rows as u128, " rows) from ");
    put_text(&mut v, path);
    string_of(&v)
}

} // verus!
