//! Preferences: what new frames start with.

use crate::color::Colormap;
use crate::frame::{Frame, LimitsMode, Prefs, PrefsView, SmoothKind, State, StateView};
use crate::image::Stretch;
use crate::net::{setting, setting_spec};
use crate::num::Single;
use crate::props::{list_of, listed, name_views};
use crate::text::{
    chars_of, ended_lines, find, find_behind, find_spec, is_digit, is_line, is_white, lines,
    lines_are_read_back, lines_spec, lower, lower_spec, nat_spec, nat_text, nat_text_value,
    parse_nat, piece, put_chars, put_nat, put_text, same_text, starts_with_spec, string_of,
    strip_back, strip_front, texts, trim, trim_back, trim_back_char, trim_front, trim_front_char,
    trim_keeps, trim_spec,
};
use vstd::prelude::*;

verus! {

impl Default for Prefs {
    fn default() -> (r: Prefs)
        ensures
            r@ == default_prefs(),
    {
        Prefs {
            cmap: text("grey"),
            stretch: text("linear"),
            limits: text("zscale"),
            smooth: text("off"),
            bin: 1,
            blink_ms: 500,
        }
    }
}

/// The preferences before any are set.
pub open spec fn default_prefs() -> PrefsView {
    PrefsView {
        cmap: "grey"@,
        stretch: "linear"@,
        limits: "zscale"@,
        smooth: "off"@,
        bin: 1,
        blink_ms: 500,
    }
}

fn text(s: &str) -> (r: String)
    ensures
        r@ == s@,
{
    let v = chars_of(s);
    string_of(&v)
}

// ---------------------------------------------------------------------------
// The words
// ---------------------------------------------------------------------------

/// The size of a window that a text spells: odd, and at least one. There is none for a text that
/// is no number.
pub open spec fn odd_window(s: Seq<char>) -> Option<u32> {
    match nat_spec(s) {
        Some(k) if k <= u32::MAX => Some(
            if k == 0 {
                1
            } else if k % 2 == 0 {
                (k + 1) as u32
            } else {
                k as u32
            },
        ),
        _ => None,
    }
}

/// No smoothing.
pub open spec fn smooth_off() -> SmoothKind {
    SmoothKind::Gaussian { sigma: Single { bits: 0 } }
}

/// The kernel that a text asks for: `off`, `gaussian:SIGMA`, `boxcar:N` or `median:N`, or one
/// of their short forms; no smoothing for any other text, nor for one whose number cannot be read.
pub open spec fn smooth_spec(s: Seq<char>) -> SmoothKind {
    let t = lower_spec(trim_spec(s));
    let colon = find_spec(t, ':', ':');
    let kind = trim_spec(t.take(colon));
    let value = trim_spec(t.skip(colon + 1));
    if t.len() == 0 || t == "off"@ || t == "none"@ || colon >= t.len() {
        smooth_off()
    } else if kind == "gaussian"@ || kind == "gauss"@ || kind == "g"@ {
        let sigma = match Single::parse_spec(value) {
            Some(x) => x,
            None => Single { bits: 0 },
        };
        SmoothKind::Gaussian { sigma: sigma.max(Single { bits: 0 }) }
    } else if kind == "boxcar"@ || kind == "box"@ || kind == "b"@ {
        match odd_window(value) {
            Some(n) => SmoothKind::Boxcar { n },
            None => smooth_off(),
        }
    } else if kind == "median"@ || kind == "med"@ || kind == "m"@ {
        match odd_window(value) {
            Some(n) => SmoothKind::Median { n },
            None => smooth_off(),
        }
    } else {
        smooth_off()
    }
}

fn window_of(v: &Vec<char>) -> (r: Option<u32>)
    ensures
        r == odd_window(v@),
{
    match parse_nat(v, u32::MAX as u64) {
        Some(k) => Some(
            if k == 0 {
                1
            } else if k % 2 == 0 {
                k as u32 + 1
            } else {
                k as u32
            },
        ),
        None => None,
    }
}

/// The kernel that a text asks for.
pub fn parse_smooth_spec(s: &str) -> (r: SmoothKind)
    ensures
        r == smooth_spec(s@),
{
    let off = SmoothKind::Gaussian { sigma: Single { bits: 0 } };
    let v = chars_of(s);
    let w = trim(&v);
    let t = lower(&w);
    if t.len() == 0 || same_text(&t, "off") || same_text(&t, "none") {
        return off;
    }
    let colon: usize = find(&t, ':', ':');
    if colon >= t.len() {
        return off;
    }
    let head = piece(&t, 0, colon);
    assert(head@ =~= t@.take(colon as int));
    let tail = piece(&t, colon + 1, t.len());
    assert(tail@ =~= t@.skip(colon + 1));
    let kind = trim(&head);
    let value = trim(&tail);
    if same_text(&kind, "gaussian") || same_text(&kind, "gauss") || same_text(&kind, "g") {
        let sigma: Single = match Single::parse(&value) {
            Some(x) => x,
            None => Single { bits: 0 },
        };
        SmoothKind::Gaussian { sigma: sigma.max(Single { bits: 0 }) }
    } else if same_text(&kind, "boxcar") || same_text(&kind, "box") || same_text(&kind, "b") {
        match window_of(&value) {
            Some(n) => SmoothKind::Boxcar { n },
            None => off,
        }
    } else if same_text(&kind, "median") || same_text(&kind, "med") || same_text(&kind, "m") {
        match window_of(&value) {
            Some(n) => SmoothKind::Median { n },
            None => off,
        }
    } else {
        off
    }
}

/// The choice of limits that a text names.
pub open spec fn limits_spec(s: Seq<char>) -> Option<LimitsMode> {
    let t = lower_spec(trim_spec(s));
    if t == "zscale"@ {
        Some(LimitsMode::Zscale)
    } else if t == "minmax"@ {
        Some(LimitsMode::MinMax)
    } else {
        None
    }
}

/// The choice of limits that a text names.
pub fn parse_limits_spec(s: &str) -> (r: Option<LimitsMode>)
    ensures
        r == limits_spec(s@),
{
    let v = chars_of(s);
    let w = trim(&v);
    let t = lower(&w);
    if same_text(&t, "zscale") {
        Some(LimitsMode::Zscale)
    } else if same_text(&t, "minmax") {
        Some(LimitsMode::MinMax)
    } else {
        None
    }
}

/// The stretch with the given name.
pub open spec fn stretch_named(t: Seq<char>) -> Option<Stretch> {
    if t == "linear"@ {
        Some(Stretch::Linear)
    } else if t == "log"@ {
        Some(Stretch::Log)
    } else if t == "sqrt"@ {
        Some(Stretch::Sqrt)
    } else if t == "squared"@ {
        Some(Stretch::Squared)
    } else if t == "asinh"@ {
        Some(Stretch::Asinh)
    } else if t == "sinh"@ {
        Some(Stretch::Sinh)
    } else {
        None
    }
}

/// The stretch with the given name.
pub fn stretch_of(t: &Vec<char>) -> (r: Option<Stretch>)
    ensures
        r == stretch_named(t@),
{
    if same_text(t, "linear") {
        Some(Stretch::Linear)
    } else if same_text(t, "log") {
        Some(Stretch::Log)
    } else if same_text(t, "sqrt") {
        Some(Stretch::Sqrt)
    } else if same_text(t, "squared") {
        Some(Stretch::Squared)
    } else if same_text(t, "asinh") {
        Some(Stretch::Asinh)
    } else if same_text(t, "sinh") {
        Some(Stretch::Sinh)
    } else {
        None
    }
}

/// The stretch that a text names.
pub open spec fn stretch_spec(s: Seq<char>) -> Option<Stretch> {
    stretch_named(lower_spec(trim_spec(s)))
}

/// The stretch that a text names.
pub fn parse_stretch_spec(s: &str) -> (r: Option<Stretch>)
    ensures
        r == stretch_spec(s@),
{
    let v = chars_of(s);
    let w = trim(&v);
    let t = lower(&w);
    stretch_of(&t)
}

// ---------------------------------------------------------------------------
// Frames
// ---------------------------------------------------------------------------

/// A frame with the preferences: what they do not name stays.
pub open spec fn with_prefs(f: Frame, p: PrefsView) -> Frame {
    let kind = smooth_spec(p.smooth);
    Frame {
        cmap: match Colormap::named(p.cmap) {
            Some(c) => c,
            None => f.cmap,
        },
        stretch: match stretch_spec(p.stretch) {
            Some(s) => s,
            None => f.stretch,
        },
        limits_mode: match limits_spec(p.limits) {
            Some(m) => m,
            None => f.limits_mode,
        },
        smooth_kind: kind,
        smooth_sigma: match kind {
            SmoothKind::Gaussian { sigma } => sigma,
            _ => f.smooth_sigma,
        },
        bin_factor: if p.bin > 1 {
            p.bin
        } else {
            1
        },
        ..f
    }
}

/// Gives a frame the preferences.
pub fn apply_prefs_to_frame(p: &Prefs, f: &mut Frame)
    ensures
        *final(f) == with_prefs(*old(f), p@),
{
    if let Some(c) = Colormap::from_name(p.cmap.as_str()) {
        f.cmap = c;
    }
    if let Some(s) = parse_stretch_spec(p.stretch.as_str()) {
        f.stretch = s;
    }
    if let Some(m) = parse_limits_spec(p.limits.as_str()) {
        f.limits_mode = m;
    }
    let kind = parse_smooth_spec(p.smooth.as_str());
    f.smooth_kind = kind;
    if let SmoothKind::Gaussian { sigma } = kind {
        f.smooth_sigma = sigma;
    }
    f.bin_factor = if p.bin > 1 {
        p.bin
    } else {
        1
    };
}

// ---------------------------------------------------------------------------
// The panel
// ---------------------------------------------------------------------------

/// The texts of the panel's fields.
pub struct PrefTexts {
    pub cmap: String,
    pub stretch: String,
    pub limits: String,
    pub smooth: String,
    pub bin: String,
    pub blink: String,
}

/// The number of 32 bits that a text spells, or a default; at least `least`.
pub open spec fn count_spec(s: Seq<char>, default: u32, least: u32) -> u32 {
    let n: u32 = match nat_spec(trim_spec(s)) {
        Some(k) if k <= u32::MAX => k as u32,
        _ => default,
    };
    if n > least {
        n
    } else {
        least
    }
}

fn count_of(s: &String, default: u32, least: u32) -> (r: u32)
    ensures
        r == count_spec(s@, default, least),
{
    let v = chars_of(s.as_str());
    let t = trim(&v);
    let n: u32 = match parse_nat(&t, u32::MAX as u64) {
        Some(k) => k as u32,
        None => default,
    };
    if n > least {
        n
    } else {
        least
    }
}

/// The preferences that the panel's fields hold.
pub open spec fn panel_prefs(t: PrefTexts) -> PrefsView {
    PrefsView {
        cmap: trim_spec(t.cmap@),
        stretch: trim_spec(t.stretch@),
        limits: trim_spec(t.limits@),
        smooth: trim_spec(t.smooth@),
        bin: count_spec(t.bin@, 1, 1),
        blink_ms: count_spec(t.blink@, 500, 50),
    }
}

/// The names of the fields whose words mean nothing.
pub open spec fn unknown_fields(p: PrefsView) -> Seq<Seq<char>> {
    (if Colormap::named(p.cmap) is None {
        seq!["cmap"@]
    } else {
        Seq::empty()
    }) + (if stretch_spec(p.stretch) is None {
        seq!["stretch"@]
    } else {
        Seq::empty()
    }) + (if limits_spec(p.limits) is None {
        seq!["limits"@]
    } else {
        Seq::empty()
    })
}

/// What the panel reports.
pub open spec fn prefs_report(p: PrefsView) -> Seq<char> {
    let v = unknown_fields(p);
    if v.len() == 0 {
        "prefs applied to active frame and session defaults."@
    } else {
        "prefs applied; ignored unknown: "@ + listed(v) + "."@
    }
}

/// What the panel shows of the preferences.
pub fn populate_prefs_panel(p: &Prefs) -> (r: PrefTexts)
    ensures
        r.cmap@ == p@.cmap,
        r.stretch@ == p@.stretch,
        r.limits@ == p@.limits,
        r.smooth@ == p@.smooth,
        r.bin@ == nat_text(p@.bin as nat),
        r.blink@ == nat_text(p@.blink_ms as nat),
{
    let mut b: Vec<char> = Vec::new();
    put_nat(&mut b, p.bin as u128);
    assert(b@ =~= nat_text(p@.bin as nat));
    let mut k: Vec<char> = Vec::new();
    put_nat(&mut k, p.blink_ms as u128);
    assert(k@ =~= nat_text(p@.blink_ms as nat));
    PrefTexts {
        cmap: text(p.cmap.as_str()),
        stretch: text(p.stretch.as_str()),
        limits: text(p.limits.as_str()),
        smooth: text(p.smooth.as_str()),
        bin: string_of(&b),
        blink: string_of(&k),
    }
}

fn trimmed(s: &String) -> (r: String)
    ensures
        r@ == trim_spec(s@),
{
    let v = chars_of(s.as_str());
    let t = trim(&v);
    string_of(&t)
}

/// Takes the preferences from the panel's fields, gives them to the active frame, and reports
/// the words that mean nothing.
pub fn apply_prefs_from_panel(st: &mut State, t: &PrefTexts) -> (r: String)
    ensures
        ({
            let p = panel_prefs(*t);
            &&& final(st)@ == (StateView { prefs: p, ..old(st)@ }).on_frame(
                |f: Frame| with_prefs(f, p),
            )
            &&& r@ == prefs_report(p)
        }),
        old(st)@.wf() ==> final(st)@.wf(),
{
    let p = Prefs {
        cmap: trimmed(&t.cmap),
        stretch: trimmed(&t.stretch),
        limits: trimmed(&t.limits),
        smooth: trimmed(&t.smooth),
        bin: count_of(&t.bin, 1, 1),
        blink_ms: count_of(&t.blink, 500, 50),
    };
    let mut unknown: Vec<&'static str> = Vec::new();
    if Colormap::from_name(p.cmap.as_str()).is_none() {
        unknown.push("cmap");
    }
    if parse_stretch_spec(p.stretch.as_str()).is_none() {
        unknown.push("stretch");
    }
    if parse_limits_spec(p.limits.as_str()).is_none() {
        unknown.push("limits");
    }
    assert(name_views(unknown@) =~= unknown_fields(p@));
    let mut msg: Vec<char> = Vec::new();
    if unknown.len() == 0 {
        put_text(&mut msg, "prefs applied to active frame and session defaults.");
    } else {
        put_text(&mut msg, "prefs applied; ignored unknown: ");
        let l = list_of(&unknown);
        put_chars(&mut msg, &l);
        put_text(&mut msg, ".");
    }
    assert(msg@ =~= prefs_report(p@));
    if st.active < st.frames.len() {
        let i: usize = st.active;
        apply_prefs_to_frame(&p, &mut st.frames[i]);
    }
    st.prefs = p;
    string_of(&msg)
}

// ---------------------------------------------------------------------------
// The file
// ---------------------------------------------------------------------------

/// A line with a text in quotes.
pub open spec fn quoted_line(head: Seq<char>, value: Seq<char>) -> Seq<char> {
    (head + value).push('"')
}

/// The lines of the preferences file.
pub open spec fn prefs_lines(p: PrefsView) -> Seq<Seq<char>> {
    seq![
        "# ds9-rust preferences"@,
        quoted_line("cmap     = \""@, p.cmap),
        quoted_line("stretch  = \""@, p.stretch),
        quoted_line("limits   = \""@, p.limits),
        quoted_line("smooth   = \""@, p.smooth),
        "bin      = "@ + nat_text(p.bin as nat),
        "blink_ms = "@ + nat_text(p.blink_ms as nat),
    ]
}

/// The text of the preferences file.
pub fn prefs_text(p: &Prefs) -> (r: String)
    ensures
        r@ == ended_lines(prefs_lines(p@)),
{
    let mut v: Vec<char> = Vec::new();
    let ghost l = prefs_lines(p@);
    assert(v@ =~= ended_lines(l.take(0)));
    put_text(&mut v, "# ds9-rust preferences");
    v.push('\n');
    proof {
        assert(l.take(1).drop_last() =~= l.take(0));
        assert(v@ =~= ended_lines(l.take(1)));
    }
    put_text(&mut v, "cmap     = \"");
    put_text(&mut v, p.cmap.as_str());
    v.push('"');
    v.push('\n');
    proof {
        assert(l.take(2).drop_last() =~= l.take(1));
        assert(v@ =~= ended_lines(l.take(2)));
    }
    put_text(&mut v, "stretch  = \"");
    put_text(&mut v, p.stretch.as_str());
    v.push('"');
    v.push('\n');
    proof {
        assert(l.take(3).drop_last() =~= l.take(2));
        assert(v@ =~= ended_lines(l.take(3)));
    }
    put_text(&mut v, "limits   = \"");
    put_text(&mut v, p.limits.as_str());
    v.push('"');
    v.push('\n');
    proof {
        assert(l.take(4).drop_last() =~= l.take(3));
        assert(v@ =~= ended_lines(l.take(4)));
    }
    put_text(&mut v, "smooth   = \"");
    put_text(&mut v, p.smooth.as_str());
    v.push('"');
    v.push('\n');
    proof {
        assert(l.take(5).drop_last() =~= l.take(4));
        assert(v@ =~= ended_lines(l.take(5)));
    }
    put_text(&mut v, "bin      = ");
    put_nat(&mut v, p.bin as u128);
    v.push('\n');
    proof {
        assert(l.take(6).drop_last() =~= l.take(5));
        assert(v@ =~= ended_lines(l.take(6)));
    }
    put_text(&mut v, "blink_ms = ");
    put_nat(&mut v, p.blink_ms as u128);
    v.push('\n');
    proof {
        assert(l.take(7).drop_last() =~= l.take(6));
        assert(v@ =~= ended_lines(l.take(7)));
        assert(l.take(7) =~= l);
    }
    string_of(&v)
}

/// A value without the quotes around it.
pub open spec fn bare_value(v: Seq<char>) -> Seq<char> {
    trim_back_char(trim_front_char(v, '"'), '"')
}

/// The preferences after a line: a key that is known, with a value that it can have, changes
/// them.
pub open spec fn prefs_after(p: PrefsView, line: Seq<char>) -> PrefsView {
    match setting_spec(line) {
        Some((k, quoted)) => {
            let v = bare_value(quoted);
            if k == "cmap"@ {
                PrefsView { cmap: v, ..p }
            } else if k == "stretch"@ {
                PrefsView { stretch: v, ..p }
            } else if k == "limits"@ {
                PrefsView { limits: v, ..p }
            } else if k == "smooth"@ {
                PrefsView { smooth: v, ..p }
            } else if k == "bin"@ {
                match nat_spec(v) {
                    Some(n) if n <= u32::MAX => PrefsView {
                        bin: if n > 1 {
                            n as u32
                        } else {
                            1
                        },
                        ..p
                    },
                    _ => p,
                }
            } else if k == "blink_ms"@ {
                match nat_spec(v) {
                    Some(n) if n <= u32::MAX => PrefsView {
                        blink_ms: if n > 50 {
                            n as u32
                        } else {
                            50
                        },
                        ..p
                    },
                    _ => p,
                }
            } else {
                p
            }
        },
        None => p,
    }
}

/// The preferences that the lines give.
pub open spec fn prefs_from(lines: Seq<Seq<char>>) -> PrefsView
    decreases lines.len(),
{
    if lines.len() == 0 {
        default_prefs()
    } else {
        prefs_after(prefs_from(lines.drop_last()), lines.last())
    }
}

fn read_line(p: &mut Prefs, line: &Vec<char>)
    ensures
        final(p)@ == prefs_after(old(p)@, line@),
{
    if let Some((k, quoted)) = setting(line) {
        let a = strip_front(&quoted, '"');
        let v = strip_back(&a, '"');
        if same_text(&k, "cmap") {
            p.cmap = string_of(&v);
        } else if same_text(&k, "stretch") {
            p.stretch = string_of(&v);
        } else if same_text(&k, "limits") {
            p.limits = string_of(&v);
        } else if same_text(&k, "smooth") {
            p.smooth = string_of(&v);
        } else if same_text(&k, "bin") {
            if let Some(n) = parse_nat(&v, u32::MAX as u64) {
                p.bin = if n > 1 {
                    n as u32
                } else {
                    1
                };
            }
        } else if same_text(&k, "blink_ms") {
            if let Some(n) = parse_nat(&v, u32::MAX as u64) {
                p.blink_ms = if n > 50 {
                    n as u32
                } else {
                    50
                };
            }
        }
    }
}

/// The preferences that the text of a preferences file gives; what it does not set has its
/// default.
pub fn read_prefs(body: &str) -> (r: Prefs)
    ensures
        r@ == prefs_from(lines_spec(body@)),
{
    let mut p = Prefs::default();
    let v = chars_of(body);
    let all = lines(&v);
    let n: usize = all.len();
    assert(texts(all@).take(0) =~= Seq::empty());
    for i in 0..n
        invariant
            n == all@.len(),
            p@ == prefs_from(texts(all@).take(i as int)),
    {
        let ghost t = texts(all@).take(i + 1);
        assert(t.drop_last() =~= texts(all@).take(i as int));
        assert(t.last() == all@[i as int]@);
        read_line(&mut p, &all[i]);
    }
    assert(texts(all@).take(n as int) =~= texts(all@));
    p
}

// ---------------------------------------------------------------------------
// Reading back
// ---------------------------------------------------------------------------

/// Whether a word can stand in quotes: it holds no line feed and neither starts nor ends in a
/// quote.
pub open spec fn is_quotable(s: Seq<char>) -> bool {
    !s.contains('\n') && (s.len() > 0 ==> s[0] != '"' && s.last() != '"')
}

/// A line whose key comes before an equals sign, and what stands behind it.
proof fn line_setting(line: Seq<char>, head: Seq<char>, key: Seq<char>, value: Seq<char>)
    requires
        head.len() > 2,
        line == head + value,
        value.len() > 0,
        !is_white(value[0]),
        !is_white(value.last()),
        head[head.len() - 1] == ' ',
        head[head.len() - 2] == '=',
        !head.take(head.len() - 2).contains('='),
        trim_spec(head.take(head.len() - 2)) == key,
        !is_white(head[0]),
        head[0] != '#',
    ensures
        setting_spec(line) == Some((key, value)),
{
    let n = head.len() as int;
    trim_keeps(line);
    let k = head.take(n - 2);
    assert(starts_with_spec(line, k)) by {
        assert(line.take(k.len() as int) =~= k);
    }
    find_behind(line, k, '=');
    assert(line.take(n - 2) =~= k);
    let rest = line.skip(n - 1);
    assert(rest =~= seq![' '] + value);
    assert(rest.drop_first() =~= value);
    assert(trim_front(rest) == trim_front(value));
    trim_keeps(value);
}

proof fn word_line(head: Seq<char>, key: Seq<char>, w: Seq<char>)
    requires
        is_quotable(w),
        head.len() > 3,
        head.last() == '"',
        head[head.len() - 2] == ' ',
        head[head.len() - 3] == '=',
        !head.take(head.len() - 3).contains('='),
        trim_spec(head.take(head.len() - 3)) == key,
        !is_white(head[0]),
        head[0] != '#',
        !head.contains('\n'),
    ensures
        setting_spec(quoted_line(head, w)) matches Some((k, v)) && k == key && bare_value(v) == w,
        is_line(quoted_line(head, w)),
{
    let line = quoted_line(head, w);
    let n = head.len() as int;
    let value = (seq!['"'] + w).push('"');
    let h = head.drop_last();
    assert(line =~= h + value);
    assert(h.take(n - 3) =~= head.take(n - 3));
    line_setting(line, h, key, value);
    // The quotes come off.
    let a = trim_front_char(value, '"');
    assert(value.drop_first() =~= w.push('"'));
    if w.len() == 0 {
        reveal_with_fuel(trim_front_char, 3);
        assert(w.push('"').drop_first() =~= Seq::<char>::empty());
        assert(trim_front_char(w.push('"'), '"') =~= Seq::<char>::empty());
        assert(a =~= w);
        assert(trim_back_char(a, '"') == a);
    } else {
        assert(trim_front_char(w.push('"'), '"') == w.push('"'));
        assert(a == w.push('"'));
        assert(w.push('"').drop_last() =~= w);
        assert(trim_back_char(a, '"') == trim_back_char(w, '"'));
        assert(trim_back_char(w, '"') == w);
    }
    assert(bare_value(value) == w);
    assert forall|i: int| 0 <= i < line.len() implies line[i] != '\n' by {
        if i < n {
            assert(line[i] == head[i]);
            assert(head.contains(head[i]));
        } else if i < line.len() - 1 {
            assert(line[i] == w[i - n]);
            assert(w.contains(w[i - n]));
        }
    }
}

proof fn number_line(head: Seq<char>, key: Seq<char>, n: nat)
    requires
        head.len() > 2,
        head[head.len() - 1] == ' ',
        head[head.len() - 2] == '=',
        !head.take(head.len() - 2).contains('='),
        trim_spec(head.take(head.len() - 2)) == key,
        !is_white(head[0]),
        head[0] != '#',
        !head.contains('\n'),
    ensures
        setting_spec(head + nat_text(n)) matches Some((k, v)) && k == key && nat_spec(bare_value(v))
            == Some(n),
        is_line(head + nat_text(n)),
{
    nat_text_value(n);
    let v = nat_text(n);
    assert(is_digit(v[0]) && is_digit(v.last()));
    line_setting(head + v, head, key, v);
    assert(trim_front_char(v, '"') == v);
    assert(trim_back_char(v, '"') == v);
    let line = head + v;
    assert forall|i: int| 0 <= i < line.len() implies line[i] != '\n' by {
        if i < head.len() {
            assert(line[i] == head[i]);
            assert(head.contains(head[i]));
        } else {
            assert(line[i] == v[i - head.len()]);
            assert(is_digit(v[i - head.len()]));
        }
    }
}

/// Preferences that were saved are read back, where their words can stand in quotes and their
/// numbers are in range.
pub proof fn saved_prefs_are_read_back(p: PrefsView)
    requires
        is_quotable(p.cmap),
        is_quotable(p.stretch),
        is_quotable(p.limits),
        is_quotable(p.smooth),
        p.bin >= 1,
        p.blink_ms >= 50,
    ensures
        prefs_from(lines_spec(ended_lines(prefs_lines(p)))) == p,
{
    let l = prefs_lines(p);
    heads();
    word_line("cmap     = \""@, "cmap"@, p.cmap);
    word_line("stretch  = \""@, "stretch"@, p.stretch);
    word_line("limits   = \""@, "limits"@, p.limits);
    word_line("smooth   = \""@, "smooth"@, p.smooth);
    number_line("bin      = "@, "bin"@, p.bin as nat);
    number_line("blink_ms = "@, "blink_ms"@, p.blink_ms as nat);
    keys_differ();
    assert forall|i: int| 0 <= i < l.len() implies is_line(#[trigger] l[i]) by {
        assert(i == 0 || i == 1 || i == 2 || i == 3 || i == 4 || i == 5 || i == 6);
    }
    lines_are_read_back(l);
    let l6 = l.drop_last();
    let l5 = l6.drop_last();
    let l4 = l5.drop_last();
    let l3 = l4.drop_last();
    let l2 = l3.drop_last();
    let l1 = l2.drop_last();
    let l0 = l1.drop_last();
    assert(l0.len() == 0);
    let d = default_prefs();
    assert(prefs_from(l0) == d);
    assert(prefs_from(l1) == d);
    assert(prefs_from(l2) == (PrefsView { cmap: p.cmap, ..d }));
    assert(prefs_from(l3) == (PrefsView { cmap: p.cmap, stretch: p.stretch, ..d }));
    assert(prefs_from(l4) == (PrefsView { bin: 1, blink_ms: 500, smooth: d.smooth, ..p }));
    assert(prefs_from(l5) == (PrefsView { bin: 1, blink_ms: 500, ..p }));
    assert(prefs_from(l6) == (PrefsView { blink_ms: 500, ..p }));
    assert(prefs_from(l) == p);
}

/// The keys are six different words.
proof fn keys_differ()
    ensures
        "cmap"@ != "stretch"@,
        "cmap"@ != "limits"@,
        "cmap"@ != "smooth"@,
        "cmap"@ != "bin"@,
        "cmap"@ != "blink_ms"@,
        "stretch"@ != "limits"@,
        "stretch"@ != "smooth"@,
        "stretch"@ != "bin"@,
        "stretch"@ != "blink_ms"@,
        "limits"@ != "smooth"@,
        "limits"@ != "bin"@,
        "limits"@ != "blink_ms"@,
        "smooth"@ != "bin"@,
        "smooth"@ != "blink_ms"@,
        "bin"@ != "blink_ms"@,
{
    reveal_strlit("cmap");
    reveal_strlit("stretch");
    reveal_strlit("limits");
    reveal_strlit("smooth");
    reveal_strlit("bin");
    reveal_strlit("blink_ms");
    assert("cmap"@.len() == 4 && "stretch"@.len() == 7 && "limits"@.len() == 6);
    assert("smooth"@.len() == 6 && "bin"@.len() == 3 && "blink_ms"@.len() == 8);
    assert("limits"@[0] == 'l' && "smooth"@[0] == 's');
}

/// What holds of the beginnings of the lines.
proof fn heads()
    ensures
        is_head("cmap     = \""@, "cmap"@, 3),
        is_head("stretch  = \""@, "stretch"@, 3),
        is_head("limits   = \""@, "limits"@, 3),
        is_head("smooth   = \""@, "smooth"@, 3),
        is_head("bin      = "@, "bin"@, 2),
        is_head("blink_ms = "@, "blink_ms"@, 2),
        "cmap     = \""@.last() == '"',
        "stretch  = \""@.last() == '"',
        "limits   = \""@.last() == '"',
        "smooth   = \""@.last() == '"',
        setting_spec("# ds9-rust preferences"@) is None,
        is_line("# ds9-rust preferences"@),
{
    reveal_strlit("cmap");
    reveal_strlit("stretch");
    reveal_strlit("limits");
    reveal_strlit("smooth");
    reveal_strlit("bin");
    reveal_strlit("blink_ms");
    reveal_strlit("cmap     = \"");
    reveal_strlit("stretch  = \"");
    reveal_strlit("limits   = \"");
    reveal_strlit("smooth   = \"");
    reveal_strlit("bin      = ");
    reveal_strlit("blink_ms = ");
    reveal_strlit("# ds9-rust preferences");
    assert("cmap     = \""@.take(4) =~= "cmap"@);
    key_trims("cmap     = \""@, "cmap"@, 3);
    assert("stretch  = \""@.take(7) =~= "stretch"@);
    key_trims("stretch  = \""@, "stretch"@, 3);
    assert("limits   = \""@.take(6) =~= "limits"@);
    key_trims("limits   = \""@, "limits"@, 3);
    assert("smooth   = \""@.take(6) =~= "smooth"@);
    key_trims("smooth   = \""@, "smooth"@, 3);
    assert("bin      = "@.take(3) =~= "bin"@);
    key_trims("bin      = "@, "bin"@, 2);
    assert("blink_ms = "@.take(8) =~= "blink_ms"@);
    key_trims("blink_ms = "@, "blink_ms"@, 2);
    trim_keeps("# ds9-rust preferences"@);
}

/// Whether a line that starts with `head` sets `key`; the equals sign stands `back` places
/// from the end.
spec fn is_head(head: Seq<char>, key: Seq<char>, back: int) -> bool {
    &&& head.len() > back
    &&& head[head.len() - back] == '='
    &&& head[head.len() - back + 1] == ' '
    &&& !head.take(head.len() - back).contains('=')
    &&& trim_spec(head.take(head.len() - back)) == key
    &&& !is_white(head[0])
    &&& head[0] != '#'
    &&& !head.contains('\n')
}

/// A key with spaces behind it trims to the key.
proof fn key_trims(head: Seq<char>, key: Seq<char>, back: int)
    requires
        0 < key.len() <= head.len() - back,
        head.take(key.len() as int) == key,
        forall|i: int| key.len() <= i < head.len() - back ==> head[i] == ' ',
        !is_white(key[0]),
        !is_white(key.last()),
        back >= 0,
    ensures
        trim_spec(head.take(head.len() - back)) == key,
{
    let t = head.take(head.len() - back);
    assert(t[0] == key[0]) by {
        assert(head.take(key.len() as int)[0] == head[0]);
    }
    assert(trim_front(t) == t);
    assert(t.take(key.len() as int) =~= head.take(key.len() as int));
    spaces_trim(t, key);
}

proof fn spaces_trim(t: Seq<char>, key: Seq<char>)
    requires
        0 < key.len() <= t.len(),
        t.take(key.len() as int) == key,
        forall|i: int| key.len() <= i < t.len() ==> t[i] == ' ',
        !is_white(key.last()),
    ensures
        trim_back(t) == key,
    decreases t.len(),
{
    if t.len() == key.len() {
        assert(t.take(key.len() as int) =~= t);
    } else {
        let s = t.drop_last();
        assert(s.take(key.len() as int) =~= t.take(key.len() as int));
        assert(t.last() == ' ');
        spaces_trim(s, key);
    }
}

} // verus!
