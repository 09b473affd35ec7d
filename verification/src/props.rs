//! The region property editor.

use crate::frame::{Frame, State};
use crate::marker::{Marker, MarkerView, PixelPos, Shape, ShapeView};
use crate::num::Double;
use crate::text::{
    chars_of, nat_text, put_chars, put_nat, put_text, same_chars, string_of, strip_front, trim,
    trim_front_char, trim_spec,
};
use vstd::prelude::*;

verus! {

// ---------------------------------------------------------------------------
// Colours
// ---------------------------------------------------------------------------

/// The hexadecimal digit of a number below sixteen.
pub open spec fn hex_char(n: int) -> char {
    if n < 10 {
        ((0x30 + n) as u8) as char
    } else {
        ((0x61 + n - 10) as u8) as char
    }
}

fn hex_char_of(n: u8) -> (r: char)
    requires
        n < 16,
    ensures
        r == hex_char(n as int),
{
    if n < 10 {
        (0x30 + n) as char
    } else {
        (0x61 + (n - 10)) as char
    }
}

/// A byte in two hexadecimal digits.
pub open spec fn hex_byte(b: u8) -> Seq<char> {
    seq![hex_char(b as int / 16), hex_char(b as int % 16)]
}

/// A colour as `#rrggbb`; its opacity does not show.
pub open spec fn hex_color_spec(c: Seq<u8>) -> Seq<char> {
    seq!['#'] + hex_byte(c[0]) + hex_byte(c[1]) + hex_byte(c[2])
}

fn put_hex(v: &mut Vec<char>, b: u8)
    ensures
        final(v)@ == old(v)@ + hex_byte(b),
{
    let ghost before = v@;
    v.push(hex_char_of(b / 16));
    v.push(hex_char_of(b % 16));
    assert(v@ =~= before + hex_byte(b));
}

/// A colour as `#rrggbb`; its opacity does not show.
pub fn color_to_hex(c: [u8; 4]) -> (r: String)
    ensures
        r@ == hex_color_spec(c@),
{
    let mut v: Vec<char> = Vec::new();
    v.push('#');
    put_hex(&mut v, c[0]);
    put_hex(&mut v, c[1]);
    put_hex(&mut v, c[2]);
    assert(v@ =~= hex_color_spec(c@));
    string_of(&v)
}

/// The number that a hexadecimal digit stands for.
pub open spec fn hex_value(c: char) -> Option<int> {
    if '0' <= c <= '9' {
        Some(c as u32 - 0x30)
    } else if 'a' <= c <= 'f' {
        Some(c as u32 - 0x61 + 10)
    } else if 'A' <= c <= 'F' {
        Some(c as u32 - 0x41 + 10)
    } else {
        None
    }
}

/// The number that two hexadecimal digits stand for.
pub open spec fn hex_pair(a: char, b: char) -> Option<u8> {
    match (hex_value(a), hex_value(b)) {
        (Some(x), Some(y)) => Some((16 * x + y) as u8),
        _ => None,
    }
}

/// The colour that six hexadecimal digits give, perhaps behind number signs.
pub open spec fn hex_rgb_spec(s: Seq<char>) -> Option<(u8, u8, u8)> {
    let t = trim_front_char(trim_spec(s), '#');
    if t.len() != 6 {
        None
    } else {
        match (hex_pair(t[0], t[1]), hex_pair(t[2], t[3]), hex_pair(t[4], t[5])) {
            (Some(r), Some(g), Some(b)) => Some((r, g, b)),
            _ => None,
        }
    }
}

fn hex_value_of(c: char) -> (r: Option<u8>)
    ensures
        match r {
            Some(x) => hex_value(c) == Some(x as int) && x < 16,
            None => hex_value(c) is None,
        },
{
    if '0' <= c && c <= '9' {
        Some((c as u32 - 0x30) as u8)
    } else if 'a' <= c && c <= 'f' {
        Some((c as u32 - 0x61 + 10) as u8)
    } else if 'A' <= c && c <= 'F' {
        Some((c as u32 - 0x41 + 10) as u8)
    } else {
        None
    }
}

fn hex_pair_of(a: char, b: char) -> (r: Option<u8>)
    ensures
        r == hex_pair(a, b),
{
    match (hex_value_of(a), hex_value_of(b)) {
        (Some(x), Some(y)) => Some(16 * x + y),
        _ => None,
    }
}

/// The colour that `#rrggbb` or `rrggbb` gives; none for a text of another form.
pub fn parse_hex_rgb(s: &str) -> (r: Option<(u8, u8, u8)>)
    ensures
        r == hex_rgb_spec(s@),
{
    let v = chars_of(s);
    let w = trim(&v);
    let t = strip_front(&w, '#');
    if t.len() != 6 {
        return None;
    }
    match (hex_pair_of(t[0], t[1]), hex_pair_of(t[2], t[3]), hex_pair_of(t[4], t[5])) {
        (Some(r), Some(g), Some(b)) => Some((r, g, b)),
        _ => None,
    }
}

/// A colour that was written is read back.
pub proof fn hex_color_is_read_back(c: Seq<u8>)
    requires
        c.len() >= 3,
    ensures
        hex_rgb_spec(hex_color_spec(c)) == Some((c[0], c[1], c[2])),
{
    let s = hex_color_spec(c);
    assert(s.len() == 7);
    assert forall|n: int| 0 <= n < 16 implies hex_value(#[trigger] hex_char(n)) == Some(n) && hex_char(
        n,
    ) != '#' by {}
    let t = s.drop_first();
    assert(t =~= hex_byte(c[0]) + hex_byte(c[1]) + hex_byte(c[2]));
    assert(t[0] == hex_char(c[0] as int / 16) && t[1] == hex_char(c[0] as int % 16));
    assert(t[2] == hex_char(c[1] as int / 16) && t[3] == hex_char(c[1] as int % 16));
    assert(t[4] == hex_char(c[2] as int / 16) && t[5] == hex_char(c[2] as int % 16));
    assert(crate::text::trim_front(s) == s);
    assert(s.last() == hex_char(c[2] as int % 16));
    assert(crate::text::trim_back(s) == s);
    assert(trim_front_char(s, '#') == trim_front_char(t, '#'));
    assert(trim_front_char(t, '#') == t);
}

// ---------------------------------------------------------------------------
// Showing
// ---------------------------------------------------------------------------

/// The fields of the editor.
pub struct RegionProps {
    pub kind: String,
    pub x: String,
    pub y: String,
    pub size1: String,
    pub size2: String,
    pub angle: String,
    pub color: String,
    pub text: String,
    pub status: String,
}

/// The fields of the editor by their contents.
#[verifier::ext_equal]
pub struct PropsView {
    pub kind: Seq<char>,
    pub x: Seq<char>,
    pub y: Seq<char>,
    pub size1: Seq<char>,
    pub size2: Seq<char>,
    pub angle: Seq<char>,
    pub color: Seq<char>,
    pub text: Seq<char>,
    pub status: Seq<char>,
}

impl View for RegionProps {
    type V = PropsView;

    open spec fn view(&self) -> PropsView {
        PropsView {
            kind: self.kind@,
            x: self.x@,
            y: self.y@,
            size1: self.size1@,
            size2: self.size2@,
            angle: self.angle@,
            color: self.color@,
            text: self.text@,
            status: self.status@,
        }
    }
}

/// What the editor shows.
pub enum PropPanel {
    /// There is no frame: only the kind and the status change.
    NoFrame,
    /// No region is selected: only the kind and the status change.
    NoSelection,
    /// The selected region is gone: nothing changes.
    Gone,
    /// The selected region.
    Region(RegionProps),
}

/// The numbers of a shape as the editor shows them: position, two sizes, angle; the end of a
/// line stands in the place of the sizes.
pub struct PropNumbers {
    pub x: Double,
    pub y: Double,
    pub s1: Double,
    pub s2: Double,
    pub angle: Double,
}

/// The kind of a shape as the editor names it.
pub open spec fn prop_kind(s: ShapeView) -> Seq<char> {
    match s {
        ShapeView::Circle { .. } => "Circle"@,
        ShapeView::Box { .. } => "Box"@,
        ShapeView::Ellipse { .. } => "Ellipse"@,
        ShapeView::Annulus { .. } => "Annulus"@,
        ShapeView::Point { .. } => "Point"@,
        ShapeView::Line { .. } => "Line"@,
        ShapeView::Compass { .. } => "Compass"@,
        ShapeView::Text { .. } => "Text"@,
        ShapeView::Polygon { .. } => "Polygon"@,
    }
}

/// The numbers of a shape as the editor shows them.
pub open spec fn prop_numbers(s: ShapeView) -> PropNumbers {
    let zero = Double { bits: 0 };
    match s {
        ShapeView::Circle { center, r } => PropNumbers {
            x: center.x,
            y: center.y,
            s1: r,
            s2: zero,
            angle: zero,
        },
        ShapeView::Box { center, w, h, theta_deg } => PropNumbers {
            x: center.x,
            y: center.y,
            s1: w,
            s2: h,
            angle: theta_deg,
        },
        ShapeView::Ellipse { center, a, b, theta_deg } => PropNumbers {
            x: center.x,
            y: center.y,
            s1: a,
            s2: b,
            angle: theta_deg,
        },
        ShapeView::Annulus { center, r_inner, r_outer } => PropNumbers {
            x: center.x,
            y: center.y,
            s1: r_outer,
            s2: r_inner,
            angle: zero,
        },
        ShapeView::Point { center } => PropNumbers {
            x: center.x,
            y: center.y,
            s1: zero,
            s2: zero,
            angle: zero,
        },
        ShapeView::Line { from, to } => PropNumbers {
            x: from.x,
            y: from.y,
            s1: to.x,
            s2: to.y,
            angle: zero,
        },
        ShapeView::Compass { center, len } => PropNumbers {
            x: center.x,
            y: center.y,
            s1: len,
            s2: zero,
            angle: zero,
        },
        ShapeView::Text { center, .. } => PropNumbers {
            x: center.x,
            y: center.y,
            s1: zero,
            s2: zero,
            angle: zero,
        },
        ShapeView::Polygon { points } => PropNumbers {
            x: points[0].x,
            y: points[0].y,
            s1: zero,
            s2: zero,
            angle: zero,
        },
    }
}

/// A number to two decimals, or nothing for a zero that has no meaning.
pub open spec fn shown_number(x: Double, always: bool) -> Seq<char> {
    if x.same(Double { bits: 0 }) && !always {
        Seq::empty()
    } else {
        x.fixed_spec(2)
    }
}

/// What the editor shows of the region `idx`.
pub open spec fn props_spec(m: MarkerView, idx: int) -> PropsView {
    let n = prop_numbers(m.shape);
    match m.shape {
        ShapeView::Polygon { points } => PropsView {
            kind: "Polygon ("@ + nat_text(points.len()) + " pts, read-only)"@,
            x: if points.len() > 0 {
                n.x.fixed_spec(2)
            } else {
                Seq::empty()
            },
            y: if points.len() > 0 {
                n.y.fixed_spec(2)
            } else {
                Seq::empty()
            },
            size1: Seq::empty(),
            size2: Seq::empty(),
            angle: Seq::empty(),
            color: hex_color_spec(m.color),
            text: Seq::empty(),
            status: "polygons can only have their color edited from this panel"@,
        },
        _ => PropsView {
            kind: "#"@ + nat_text((idx + 1) as nat) + " "@ + prop_kind(m.shape),
            x: n.x.fixed_spec(2),
            y: n.y.fixed_spec(2),
            size1: shown_number(n.s1, m.shape is Line),
            size2: shown_number(n.s2, m.shape is Line),
            angle: shown_number(n.angle, m.shape is Box || m.shape is Ellipse),
            color: hex_color_spec(m.color),
            text: match m.shape {
                ShapeView::Text { center, body } => body,
                _ => Seq::empty(),
            },
            status: "editing region #"@ + nat_text((idx + 1) as nat) + " ("@ + prop_kind(m.shape)
                + "). press Enter or Apply to commit."@,
        },
    }
}

fn number_text(x: Double) -> (r: String)
    ensures
        r@ == x.fixed_spec(2),
{
    let t = x.fixed(2);
    string_of(&t)
}

fn shown(x: Double, always: bool) -> (r: String)
    ensures
        r@ == shown_number(x, always),
{
    if x.same(Double { bits: 0 }) && !always {
        String::new()
    } else {
        number_text(x)
    }
}

fn literal(s: &str) -> (r: String)
    ensures
        r@ == s@,
{
    let v = chars_of(s);
    string_of(&v)
}

fn polygon_props(m: &Marker, points: &Vec<PixelPos>) -> (r: RegionProps)
    requires
        m.shape@ == (ShapeView::Polygon { points: points@ }),
    ensures
        r@ == props_spec(m@, 0),
{
    let mut k: Vec<char> = Vec::new();
    put_text(&mut k, "Polygon (");
    put_nat(&mut k, points.len() as u128);
    put_text(&mut k, " pts, read-only)");
    assert(k@ =~= "Polygon ("@ + nat_text(points@.len()) + " pts, read-only)"@);
    let (x, y): (String, String) = if points.len() > 0 {
        (number_text(points[0].x), number_text(points[0].y))
    } else {
        (String::new(), String::new())
    };
    let r = RegionProps {
        kind: string_of(&k),
        x,
        y,
        size1: String::new(),
        size2: String::new(),
        angle: String::new(),
        color: color_to_hex(m.color),
        text: String::new(),
        status: literal("polygons can only have their color edited from this panel"),
    };
    assert(r@ =~= props_spec(m@, 0));
    r
}

fn numbers_of(s: &Shape) -> (r: (PropNumbers, &'static str))
    requires
        !(s@ is Polygon),
    ensures
        r.0 == prop_numbers(s@),
        r.1@ == prop_kind(s@),
{
    let zero = Double { bits: 0 };
    match s {
        Shape::Circle { center, r } => (
            PropNumbers { x: center.x, y: center.y, s1: *r, s2: zero, angle: zero },
            "Circle",
        ),
        Shape::Box { center, w, h, theta_deg } => (
            PropNumbers { x: center.x, y: center.y, s1: *w, s2: *h, angle: *theta_deg },
            "Box",
        ),
        Shape::Ellipse { center, a, b, theta_deg } => (
            PropNumbers { x: center.x, y: center.y, s1: *a, s2: *b, angle: *theta_deg },
            "Ellipse",
        ),
        Shape::Annulus { center, r_inner, r_outer } => (
            PropNumbers { x: center.x, y: center.y, s1: *r_outer, s2: *r_inner, angle: zero },
            "Annulus",
        ),
        Shape::Point { center } => (
            PropNumbers { x: center.x, y: center.y, s1: zero, s2: zero, angle: zero },
            "Point",
        ),
        Shape::Line { from, to } => (
            PropNumbers { x: from.x, y: from.y, s1: to.x, s2: to.y, angle: zero },
            "Line",
        ),
        Shape::Compass { center, len } => (
            PropNumbers { x: center.x, y: center.y, s1: *len, s2: zero, angle: zero },
            "Compass",
        ),
        Shape::Text { center, body } => (
            PropNumbers { x: center.x, y: center.y, s1: zero, s2: zero, angle: zero },
            "Text",
        ),
        Shape::Polygon { points } => (
            PropNumbers { x: zero, y: zero, s1: zero, s2: zero, angle: zero },
            "Polygon",
        ),
    }
}

fn shape_props(m: &Marker, idx: usize) -> (r: RegionProps)
    requires
        !(m.shape@ is Polygon),
    ensures
        r@ == props_spec(m@, idx as int),
{
    let (n, kind): (PropNumbers, &'static str) = numbers_of(&m.shape);
    let is_line: bool = match &m.shape {
        Shape::Line { from, to } => true,
        _ => false,
    };
    let is_turned: bool = match &m.shape {
        Shape::Box { center, w, h, theta_deg } => true,
        Shape::Ellipse { center, a, b, theta_deg } => true,
        _ => false,
    };
    let text: String = match &m.shape {
        Shape::Text { center, body } => literal(body.as_str()),
        _ => String::new(),
    };
    let mut k: Vec<char> = Vec::new();
    put_text(&mut k, "#");
    put_nat(&mut k, idx as u128 + 1);
    put_text(&mut k, " ");
    put_text(&mut k, kind);
    let mut s: Vec<char> = Vec::new();
    put_text(&mut s, "editing region #");
    put_nat(&mut s, idx as u128 + 1);
    put_text(&mut s, " (");
    put_text(&mut s, kind);
    put_text(&mut s, "). press Enter or Apply to commit.");
    let r = RegionProps {
        kind: string_of(&k),
        x: number_text(n.x),
        y: number_text(n.y),
        size1: shown(n.s1, is_line),
        size2: shown(n.s2, is_line),
        angle: shown(n.angle, is_turned),
        color: color_to_hex(m.color),
        text,
        status: string_of(&s),
    };
    assert(r@ =~= props_spec(m@, idx as int));
    r
}

/// What the editor shows: the selected region of the active frame.
pub fn populate_region_props(st: &State) -> (r: PropPanel)
    ensures
        if !st@.has_active() {
            r is NoFrame
        } else {
            match st@.frame().selected_marker {
                None => r is NoSelection,
                Some(i) => if i < st@.frame().markers@.len() {
                    r matches PropPanel::Region(p) && p@ == props_spec(
                        st@.frame().markers@[i as int]@,
                        i as int,
                    )
                } else {
                    r is Gone
                },
            }
        },
{
    let f: &Frame = match st.active_frame() {
        Some(f) => f,
        None => {
            return PropPanel::NoFrame;
        },
    };
    match f.selected_marker {
        None => PropPanel::NoSelection,
        Some(i) => {
            if i >= f.markers.len() {
                return PropPanel::Gone;
            }
            let m = &f.markers[i];
            match &m.shape {
                Shape::Polygon { points } => PropPanel::Region(polygon_props(m, points)),
                _ => PropPanel::Region(shape_props(m, i)),
            }
        },
    }
}

// ---------------------------------------------------------------------------
// Applying
// ---------------------------------------------------------------------------

/// The texts of the editor's fields.
pub struct PropTexts {
    pub x: String,
    pub y: String,
    pub size1: String,
    pub size2: String,
    pub angle: String,
    pub color: String,
    pub text: String,
}

/// What the fields ask to change.
pub struct Edits {
    pub x: Option<Double>,
    pub y: Option<Double>,
    pub s1: Option<Double>,
    pub s2: Option<Double>,
    pub angle: Option<Double>,
    pub color: Option<(u8, u8, u8)>,
    pub body: Seq<char>,
}

/// The number in a field, if it holds one.
pub open spec fn field_number(s: Seq<char>) -> Option<Double> {
    if trim_spec(s).len() == 0 {
        None
    } else {
        Double::parse_spec(trim_spec(s))
    }
}

fn field_number_of(s: &String) -> (r: Option<Double>)
    ensures
        r == field_number(s@),
{
    let v = chars_of(s.as_str());
    let t = trim(&v);
    if t.len() == 0 {
        None
    } else {
        Double::parse(&t)
    }
}

/// What the fields ask to change.
pub open spec fn edits_spec(t: PropTexts) -> Edits {
    Edits {
        x: field_number(t.x@),
        y: field_number(t.y@),
        s1: field_number(t.size1@),
        s2: field_number(t.size2@),
        angle: field_number(t.angle@),
        color: hex_rgb_spec(t.color@),
        body: t.text@,
    }
}

/// A number, or the one that takes its place.
pub open spec fn edit(e: Option<Double>, was: Double) -> Double {
    match e {
        Some(v) => v,
        None => was,
    }
}

/// A position with the coordinates that take the place of its own.
pub open spec fn edit_pos(x: Option<Double>, y: Option<Double>, p: PixelPos) -> PixelPos {
    PixelPos { x: edit(x, p.x), y: edit(y, p.y) }
}

/// A shape with the edits that it takes. A polygon takes none.
pub open spec fn edited(s: ShapeView, e: Edits) -> ShapeView {
    match s {
        ShapeView::Circle { center, r } => ShapeView::Circle {
            center: edit_pos(e.x, e.y, center),
            r: edit(e.s1, r),
        },
        ShapeView::Box { center, w, h, theta_deg } => ShapeView::Box {
            center: edit_pos(e.x, e.y, center),
            w: edit(e.s1, w),
            h: edit(e.s2, h),
            theta_deg: edit(e.angle, theta_deg),
        },
        ShapeView::Ellipse { center, a, b, theta_deg } => ShapeView::Ellipse {
            center: edit_pos(e.x, e.y, center),
            a: edit(e.s1, a),
            b: edit(e.s2, b),
            theta_deg: edit(e.angle, theta_deg),
        },
        ShapeView::Annulus { center, r_inner, r_outer } => ShapeView::Annulus {
            center: edit_pos(e.x, e.y, center),
            r_inner: edit(e.s2, r_inner),
            r_outer: edit(e.s1, r_outer),
        },
        ShapeView::Point { center } => ShapeView::Point { center: edit_pos(e.x, e.y, center) },
        ShapeView::Line { from, to } => ShapeView::Line {
            from: edit_pos(e.x, e.y, from),
            to: edit_pos(e.s1, e.s2, to),
        },
        ShapeView::Compass { center, len } => ShapeView::Compass {
            center: edit_pos(e.x, e.y, center),
            len: edit(e.s1, len),
        },
        ShapeView::Text { center, body } => ShapeView::Text {
            center: edit_pos(e.x, e.y, center),
            body: if e.body.len() > 0 {
                e.body
            } else {
                body
            },
        },
        ShapeView::Polygon { points } => s,
    }
}

/// The names of the fields, where they ask for a change.
pub open spec fn named(e: Option<Double>, name: Seq<char>) -> Seq<Seq<char>> {
    match e {
        Some(_) => seq![name],
        None => Seq::empty(),
    }
}

/// The names of what the edits of a shape change.
pub open spec fn changes(s: ShapeView, e: Edits) -> Seq<Seq<char>> {
    let xy = named(e.x, "x"@) + named(e.y, "y"@);
    match s {
        ShapeView::Circle { .. } => xy + named(e.s1, "r"@),
        ShapeView::Box { .. } => xy + named(e.s1, "w"@) + named(e.s2, "h"@) + named(e.angle, "θ"@),
        ShapeView::Ellipse { .. } => xy + named(e.s1, "a"@) + named(e.s2, "b"@) + named(
            e.angle,
            "θ"@,
        ),
        ShapeView::Annulus { .. } => xy + named(e.s1, "r_outer"@) + named(e.s2, "r_inner"@),
        ShapeView::Point { .. } => xy,
        ShapeView::Line { .. } => named(e.x, "from.x"@) + named(e.y, "from.y"@) + named(
            e.s1,
            "to.x"@,
        ) + named(e.s2, "to.y"@),
        ShapeView::Compass { .. } => xy + named(e.s1, "len"@),
        ShapeView::Text { center, body } => xy + if e.body.len() > 0 && e.body != body {
            seq!["text"@]
        } else {
            Seq::empty()
        },
        ShapeView::Polygon { .. } => Seq::empty(),
    }
}

/// The names of all that the edits change: the colour first.
pub open spec fn all_changes(s: ShapeView, e: Edits) -> Seq<Seq<char>> {
    (if e.color is Some {
        seq!["color"@]
    } else {
        Seq::empty()
    }) + changes(s, e)
}

/// Names with commas between them.
pub open spec fn listed(v: Seq<Seq<char>>) -> Seq<char>
    decreases v.len(),
{
    if v.len() == 0 {
        Seq::empty()
    } else if v.len() == 1 {
        v[0]
    } else {
        listed(v.drop_last()) + ", "@ + v.last()
    }
}

/// Names with commas between them.
pub fn list_of(v: &Vec<&'static str>) -> (r: Vec<char>)
    ensures
        r@ == listed(Seq::new(v@.len(), |i: int| v@[i]@)),
{
    let mut out: Vec<char> = Vec::new();
    let ghost all = Seq::new(v@.len(), |i: int| v@[i]@);
    assert(all.take(0) =~= Seq::empty());
    assert(out@ =~= listed(all.take(0)));
    for i in 0..v.len()
        invariant
            all == Seq::new(v@.len(), |k: int| v@[k]@),
            out@ == listed(all.take(i as int)),
    {
        let ghost w = all.take(i + 1);
        let ghost was = out@;
        assert(w.drop_last() =~= all.take(i as int));
        assert(w.last() == v@[i as int]@);
        if i > 0 {
            put_text(&mut out, ", ");
        }
        put_text(&mut out, v[i]);
        assert(out@ =~= listed(w));
    }
    assert(all.take(all.len() as int) =~= all);
    out
}

/// What the editor reports of the changes.
pub open spec fn applied_text(v: Seq<Seq<char>>) -> Seq<char> {
    if v.len() == 0 {
        "apply: nothing changed"@
    } else {
        "applied: "@ + listed(v)
    }
}

/// The region with the edits.
pub open spec fn edited_marker(m: MarkerView, e: Edits) -> MarkerView {
    MarkerView {
        shape: edited(m.shape, e),
        color: match e.color {
            Some((r, g, b)) => seq![r, g, b, m.color[3]],
            None => m.color,
        },
        ..m
    }
}

/// The texts of names.
pub open spec fn name_views(v: Seq<&'static str>) -> Seq<Seq<char>> {
    Seq::new(v.len(), |i: int| v[i]@)
}

fn pick(e: Option<Double>, was: Double, name: &'static str, done: &mut Vec<&'static str>) -> (r: Double)
    ensures
        r == edit(e, was),
        name_views(final(done)@) == name_views(old(done)@) + named(e, name@),
{
    let ghost before = name_views(done@);
    match e {
        Some(v) => {
            done.push(name);
            assert(name_views(done@) =~= before + named(e, name@));
            v
        },
        None => {
            assert(name_views(done@) =~= before + named(e, name@));
            was
        },
    }
}

struct Numbers {
    x: Option<Double>,
    y: Option<Double>,
    s1: Option<Double>,
    s2: Option<Double>,
    angle: Option<Double>,
}

spec fn with_body(n: Numbers, color: Option<(u8, u8, u8)>, body: Seq<char>) -> Edits {
    Edits { x: n.x, y: n.y, s1: n.s1, s2: n.s2, angle: n.angle, color, body }
}

#[verifier::spinoff_prover]
#[verifier::rlimit(60)]
fn edited_shape(s: &Shape, n: &Numbers, body: &String, done: &mut Vec<&'static str>) -> (r: Shape)
    ensures
        r@ == edited(s@, with_body(*n, None, body@)),
        name_views(final(done)@) == name_views(old(done)@) + changes(
            s@,
            with_body(*n, None, body@),
        ),
{
    let ghost before = name_views(done@);
    let ghost e = with_body(*n, None, body@);
    match s {
        Shape::Circle { center, r } => {
            let x: Double = pick(n.x, center.x, "x", done);
            let y: Double = pick(n.y, center.y, "y", done);
            let r: Double = pick(n.s1, *r, "r", done);
            assert(name_views(done@) =~= before + changes(s@, e));
            Shape::Circle { center: PixelPos { x, y }, r }
        },
        Shape::Box { center, w, h, theta_deg } => {
            let x: Double = pick(n.x, center.x, "x", done);
            let y: Double = pick(n.y, center.y, "y", done);
            let w: Double = pick(n.s1, *w, "w", done);
            let h: Double = pick(n.s2, *h, "h", done);
            let theta_deg: Double = pick(n.angle, *theta_deg, "θ", done);
            assert(name_views(done@) =~= before + changes(s@, e));
            Shape::Box { center: PixelPos { x, y }, w, h, theta_deg }
        },
        Shape::Ellipse { center, a, b, theta_deg } => {
            let x: Double = pick(n.x, center.x, "x", done);
            let y: Double = pick(n.y, center.y, "y", done);
            let a: Double = pick(n.s1, *a, "a", done);
            let b: Double = pick(n.s2, *b, "b", done);
            let theta_deg: Double = pick(n.angle, *theta_deg, "θ", done);
            assert(name_views(done@) =~= before + changes(s@, e));
            Shape::Ellipse { center: PixelPos { x, y }, a, b, theta_deg }
        },
        Shape::Annulus { center, r_inner, r_outer } => {
            let x: Double = pick(n.x, center.x, "x", done);
            let y: Double = pick(n.y, center.y, "y", done);
            let r_outer: Double = pick(n.s1, *r_outer, "r_outer", done);
            let r_inner: Double = pick(n.s2, *r_inner, "r_inner", done);
            assert(name_views(done@) =~= before + changes(s@, e));
            Shape::Annulus { center: PixelPos { x, y }, r_inner, r_outer }
        },
        Shape::Point { center } => {
            let x: Double = pick(n.x, center.x, "x", done);
            let y: Double = pick(n.y, center.y, "y", done);
            assert(name_views(done@) =~= before + changes(s@, e));
            Shape::Point { center: PixelPos { x, y } }
        },
        Shape::Line { from, to } => {
            let x: Double = pick(n.x, from.x, "from.x", done);
            let y: Double = pick(n.y, from.y, "from.y", done);
            let tx: Double = pick(n.s1, to.x, "to.x", done);
            let ty: Double = pick(n.s2, to.y, "to.y", done);
            assert(name_views(done@) =~= before + changes(s@, e));
            Shape::Line { from: PixelPos { x, y }, to: PixelPos { x: tx, y: ty } }
        },
        Shape::Compass { center, len } => {
            let x: Double = pick(n.x, center.x, "x", done);
            let y: Double = pick(n.y, center.y, "y", done);
            let len: Double = pick(n.s1, *len, "len", done);
            assert(name_views(done@) =~= before + changes(s@, e));
            Shape::Compass { center: PixelPos { x, y }, len }
        },
        Shape::Text { center, body: old_body } => {
            let x: Double = pick(n.x, center.x, "x", done);
            let y: Double = pick(n.y, center.y, "y", done);
            let new = chars_of(body.as_str());
            let was = chars_of(old_body.as_str());
            if new.len() > 0 && !same_chars(&new, &was) {
                let ghost d = name_views(done@);
                done.push("text");
                assert(name_views(done@) =~= d + seq!["text"@]);
                assert(name_views(done@) =~= before + changes(s@, e));
                Shape::Text { center: PixelPos { x, y }, body: string_of(&new) }
            } else {
                assert(name_views(done@) =~= before + changes(s@, e));
                Shape::Text { center: PixelPos { x, y }, body: string_of(&was) }
            }
        },
        Shape::Polygon { points } => {
            let mut copy: Vec<PixelPos> = Vec::new();
            for i in 0..points.len()
                invariant
                    copy@ =~= points@.take(i as int),
            {
                copy.push(points[i]);
            }
            assert(copy@ =~= points@);
            assert(name_views(done@) =~= before + changes(s@, e));
            Shape::Polygon { points: copy }
        },
    }
}

/// Gives the selected region of the active frame what the fields of the editor hold, and
/// reports it: nothing where the region is gone.
pub fn apply_region_props(st: &mut State, t: &PropTexts) -> (r: Option<String>)
    ensures
        ({
            let s = old(st)@;
            let e = edits_spec(*t);
            if !s.has_active() || s.frame().selected_marker is None {
                r matches Some(m) && m@ == "apply: no selection"@ && final(st)@ == s
            } else {
                let i = s.frame().selected_marker->0 as int;
                let ms = s.frame().markers@;
                if i >= ms.len() {
                    r is None && final(st)@ == s
                } else {
                    &&& r matches Some(m) && m@ == applied_text(all_changes(ms[i]@.shape, e))
                    &&& final(st)@.frames.len() == s.frames.len()
                    &&& final(st)@ == s.with_frame(final(st)@.frame())
                    &&& final(st)@.frame().markers@.len() == ms.len()
                    &&& final(st)@.frame().markers@[i]@ == edited_marker(ms[i]@, e)
                    &&& final(st)@.frame().markers@ == ms.update(i, final(st)@.frame().markers@[i])
                    &&& final(st)@.frame() == (Frame {
                        markers: final(st)@.frame().markers,
                        ..s.frame()
                    })
                }
            }
        }),
        old(st)@.wf() ==> final(st)@.wf(),
{
    let a: usize = st.active;
    if a >= st.frames.len() {
        return Some(literal("apply: no selection"));
    }
    let i: usize = match st.frames[a].selected_marker {
        Some(i) => i,
        None => {
            return Some(literal("apply: no selection"));
        },
    };
    if i >= st.frames[a].markers.len() {
        return None;
    }
    let n = Numbers {
        x: field_number_of(&t.x),
        y: field_number_of(&t.y),
        s1: field_number_of(&t.size1),
        s2: field_number_of(&t.size2),
        angle: field_number_of(&t.angle),
    };
    let color: Option<(u8, u8, u8)> = parse_hex_rgb(t.color.as_str());
    let mut done: Vec<&'static str> = Vec::new();
    if color.is_some() {
        done.push("color");
    }
    let ghost first = name_views(done@);
    assert(first =~= if color is Some {
        seq!["color"@]
    } else {
        Seq::empty()
    });
    let shape = edited_shape(&st.frames[a].markers[i].shape, &n, &t.text, &mut done);
    if let Some((r, g, b)) = color {
        let alpha: u8 = st.frames[a].markers[i].color[3];
        st.frames[a].markers[i].color = [r, g, b, alpha];
    }
    st.frames[a].markers[i].shape = shape;
    let ghost e = edits_spec(*t);
    proof {
        let m = old(st)@.frame().markers@[i as int]@;
        assert(edited(m.shape, e) == edited(m.shape, with_body(n, None, t.text@)));
        assert(changes(m.shape, e) == changes(m.shape, with_body(n, None, t.text@)));
        assert(name_views(done@) =~= all_changes(m.shape, e));
        let now = st@.frame().markers@[i as int]@;
        assert(now.color =~= edited_marker(m, e).color);
    }
    let mut msg: Vec<char> = Vec::new();
    if done.len() == 0 {
        put_text(&mut msg, "apply: nothing changed");
    } else {
        put_text(&mut msg, "applied: ");
        let l = list_of(&done);
        put_chars(&mut msg, &l);
    }
    assert(msg@ =~= applied_text(name_views(done@)));
    Some(string_of(&msg))
}

} // verus!
