//! What holds of a session over several commands.

use crate::color::Colormap;
use crate::files::{is_loadable_kind, unit_behind};
use crate::fits::FitsImage;
use crate::frame::{Crosshair, Frame, PrefsView, SmoothKind, StateView};
use crate::hdu::HduInfo;
use crate::image::same_wcs;
use crate::ipc::{dispatched, help_text, inverted, line_verb, only, reply, Answer, VerbView};
use crate::num::{Double, Single};
use crate::pointer::crosshair_place;
use crate::prefs::with_prefs;
use crate::run::{go_back_spec, go_on_spec, next_frame, previous_frame, switch_spec, zoom_spec};
use crate::session::{next_sigma, next_smooth, view_of, with_cmap, with_view, Lock, ViewPort};
use crate::show::{frame_place, is_shown_image, is_smoothed, table_spec};
use crate::text::trim_spec;
use crate::ui::{calm, UiView};
use vstd::prelude::*;

verus! {

// ---------------------------------------------------------------------------
// Changing frames
// ---------------------------------------------------------------------------

/// Going to another frame and back leaves the canvas as it was, and the session too but for the
/// view of the canvas, which the active frame now keeps.
pub proof fn switching_back_restores(s: StateView, u: UiView, target: int)
    requires
        s.wf(),
        0 <= target < s.frames.len(),
        target != s.active,
    ensures
        ({
            let there = switch_spec(s, u, target);
            let back = switch_spec(there.state, there.ui, s.active);
            &&& back.state == s.view_saved(u.view)
            &&& back.ui.view == u.view
            &&& view_of(s.frame()) == u.view ==> back.state == s
        }),
{
    let there = switch_spec(s, u, target);
    let t = there.state;
    let back = switch_spec(t, there.ui, s.active);
    assert(t.frames =~= s.frames.update(s.active, with_view(s.frame(), u.view)));
    assert(t.active == target);
    assert(there.ui.view == view_of(t.frame()));
    assert(with_view(t.frame(), there.ui.view) == t.frame());
    assert(t.view_saved(there.ui.view).frames =~= t.frames);
    assert(back.state.frames =~= s.view_saved(u.view).frames);
    assert(back.state.active == s.active);
    if view_of(s.frame()) == u.view {
        assert(with_view(s.frame(), u.view) == s.frame());
        assert(back.state.frames =~= s.frames);
    }
}

/// The previous frame of the next frame is the frame itself, and so the other way round.
pub proof fn next_and_previous_are_inverse(s: StateView, u: UiView)
    requires
        s.wf(),
        s.frames.len() > 0,
    ensures
        ({
            let on = go_on_spec(s, u);
            &&& go_back_spec(on.state, on.ui).state.active == s.active
            &&& go_back_spec(on.state, on.ui).ui.view == if s.frames.len() > 1 {
                u.view
            } else {
                on.ui.view
            }
        }),
        ({
            let back = go_back_spec(s, u);
            go_on_spec(back.state, back.ui).state.active == s.active
        }),
{
    let on = go_on_spec(s, u);
    if s.frames.len() > 1 {
        switching_back_restores(s, u, next_frame(s));
        assert(on.state.frames.len() == s.frames.len());
        assert(previous_frame(on.state) == s.active);
        switching_back_restores(s, u, previous_frame(s));
        let back = go_back_spec(s, u);
        assert(back.state.frames.len() == s.frames.len());
        assert(next_frame(back.state) == s.active);
    }
}

/// The session and the window after going on to the next frame several times.
pub open spec fn steps(s: StateView, u: UiView, k: nat) -> (StateView, UiView)
    decreases k,
{
    if k == 0 {
        (s, u)
    } else {
        let (t, w) = steps(s, u, (k - 1) as nat);
        let o = go_on_spec(t, w);
        (o.state, o.ui)
    }
}

/// Going on frame by frame passes all frames in their order and comes back to the first.
pub proof fn frames_go_round(s: StateView, u: UiView, k: nat)
    requires
        s.wf(),
        s.frames.len() > 0,
    ensures
        steps(s, u, k).0.active == (s.active + k) % (s.frames.len() as int),
        steps(s, u, k).0.frames.len() == s.frames.len(),
        steps(s, u, s.frames.len()).0.active == s.active,
{
    stepping(s, u, k);
    stepping(s, u, s.frames.len());
    let n = s.frames.len() as int;
    assert((s.active + n) % n == s.active) by (nonlinear_arith)
        requires
            0 <= s.active < n,
    ;
}

proof fn stepping(s: StateView, u: UiView, k: nat)
    requires
        s.wf(),
        s.frames.len() > 0,
    ensures
        steps(s, u, k).0.active == (s.active + k) % (s.frames.len() as int),
        steps(s, u, k).0.frames.len() == s.frames.len(),
    decreases k,
{
    let n = s.frames.len() as int;
    if k == 0 {
        assert(s.active % n == s.active) by (nonlinear_arith)
            requires
                0 <= s.active < n,
        ;
    } else {
        stepping(s, u, (k - 1) as nat);
        let (t, w) = steps(s, u, (k - 1) as nat);
        let x = s.active + k - 1;
        let r = x % n;
        let q = x / n;
        assert(x == q * n + r && 0 <= r < n) by (nonlinear_arith)
            requires
                q == x / n,
                r == x % n,
                n > 0,
        ;
        if r + 1 < n {
            assert((x + 1) % n == r + 1) by (nonlinear_arith)
                requires
                    x == q * n + r,
                    0 <= r + 1 < n,
            ;
        } else {
            assert((x + 1) % n == 0) by (nonlinear_arith)
                requires
                    x == q * n + r,
                    r + 1 == n,
                    n > 0,
            ;
        }
        assert(go_on_spec(t, w).state.active == next_frame(t));
    }
}

/// A frame that is added and deleted again leaves the other frames as they were, but for the
/// view of the canvas, which the frame that was active keeps.
pub proof fn deleting_undoes_adding(s: StateView, f: Frame, v: ViewPort)
    requires
        s.wf(),
    ensures
        s.frame_added(f, v).frame_deleted().frames == s.view_saved(v).frames,
        s.active + 1 == s.frames.len() ==> s.frame_added(f, v).frame_deleted() == s.view_saved(v),
        s.frames.len() == 0 ==> s.frame_added(f, v).frame_deleted() == s,
{
    let added = s.frame_added(f, v);
    assert(added.frame_deleted().frames =~= s.view_saved(v).frames);
    if s.frames.len() == 0 {
        assert(added.frame_deleted().frames =~= s.frames);
    }
}

// ---------------------------------------------------------------------------
// Locks and matching
// ---------------------------------------------------------------------------

/// After a match all frames have the view of the active one; a second match changes nothing.
pub proof fn matching_makes_views_equal(s: StateView)
    requires
        s.wf(),
    ensures
        forall|i: int|
            0 <= i < s.frames.len() ==> view_of(#[trigger] s.matched().frames[i]) == view_of(
                s.frame(),
            ),
        s.matched().matched() == s.matched(),
{
    if s.has_active() {
        let m = s.matched();
        assert(m.frame() == s.frame());
        assert(m.matched().frames =~= m.frames);
    } else {
        assert(s.frames.len() == 0);
    }
}

/// Whether two frames agree in what a lock keeps the same.
pub open spec fn agree(lock: Lock, f: Frame, g: Frame) -> bool {
    match lock {
        Lock::Zoom => f.view_zoom == g.view_zoom,
        Lock::Pan => f.view_pan_x == g.view_pan_x && f.view_pan_y == g.view_pan_y,
        Lock::Color => f.cmap == g.cmap,
        Lock::Scale => f.stretch == g.stretch && f.limits_mode == g.limits_mode,
    }
}

/// A lock that goes on brings all frames into agreement with the active one, and one that goes
/// off leaves all frames as they are. Turned twice, it is as it was.
pub proof fn locks_bring_agreement(s: StateView, lock: Lock)
    requires
        s.wf(),
    ensures
        s.lock_toggled(lock).is_locked(lock) == !s.is_locked(lock),
        !s.is_locked(lock) ==> forall|i: int|
            0 <= i < s.frames.len() ==> agree(
                lock,
                #[trigger] s.lock_toggled(lock).frames[i],
                s.frame(),
            ),
        s.is_locked(lock) ==> s.lock_toggled(lock).frames == s.frames,
        s.lock_toggled(lock).lock_toggled(lock).is_locked(lock) == s.is_locked(lock),
        s.lock_toggled(lock).active == s.active,
{
}

/// With the colour lock on, the choice of a colour map is that of all frames.
pub proof fn locked_colors_are_shared(s: StateView, c: Colormap)
    requires
        s.wf(),
        s.lock_cmap,
    ensures
        ({
            let t = s.on_frame(|f: Frame| with_cmap(f, c)).cmap_broadcast();
            forall|i: int|
                0 <= i < s.frames.len() ==> (#[trigger] t.frames[i]).cmap == c
                    && t.frames[i].custom_lut is None
        }),
{
    if s.has_active() {
        let m = s.on_frame(|f: Frame| with_cmap(f, c));
        assert(m.frame().cmap == c);
    }
}

// ---------------------------------------------------------------------------
// Choices of a frame
// ---------------------------------------------------------------------------

/// Four steps of the smoothing cycle come back to the start, from each of its strengths.
pub proof fn smoothing_goes_round(k: SmoothKind)
    requires
        match k {
            SmoothKind::Gaussian { sigma } => sigma == (Single { bits: 0 }) || sigma == (Single { bits: 0x4000_0000 }) || sigma == (Single { bits: 0x4080_0000 })
                || sigma == (Single { bits: 0x4100_0000 }),
            SmoothKind::Boxcar { n } => n == 1 || n == 3 || n == 5 || n == 9,
            SmoothKind::Median { n } => n == 1 || n == 3 || n == 5 || n == 9,
        },
    ensures
        next_smooth(next_smooth(next_smooth(next_smooth(k)))) == k,
{
    assert(next_sigma(Single { bits: 0 }) == (Single { bits: 0x4000_0000 }));
    assert(next_sigma(Single { bits: 0x4000_0000 }) == (Single { bits: 0x4080_0000 }));
    assert(next_sigma(Single { bits: 0x4080_0000 }) == (Single { bits: 0x4100_0000 }));
    assert(next_sigma(Single { bits: 0x4100_0000 }) == (Single { bits: 0 }));
}

/// Preferences that are applied twice do what they do once.
pub proof fn preferences_apply_once(f: Frame, p: PrefsView)
    ensures
        with_prefs(with_prefs(f, p), p) == with_prefs(f, p),
{
}

/// Colours that are inverted twice are as they were: the table that is shown is the one that was
/// shown, and after one inversion it is that table the other way round.
pub proof fn inverting_twice_restores(f: Frame, g: Frame, h: Frame)
    requires
        g.custom_lut is Some,
        (g.custom_lut->0)@ == inverted(f),
        h.custom_lut is Some,
        (h.custom_lut->0)@ == inverted(g),
    ensures
        table_spec(h) == table_spec(f),
        table_spec(g).len() == table_spec(f).len(),
        forall|i: int|
            0 <= i < table_spec(f).len() ==> #[trigger] table_spec(g)[i] == table_spec(f)[table_spec(
                f,
            ).len() - 1 - i],
{
    assert(table_spec(f).reverse().reverse() =~= table_spec(f));
}

/// A fiftieth.
pub open spec fn least_zoom() -> Single {
    Single { bits: 0x3ca3_d70a }
}

/// 64.
pub open spec fn greatest_zoom() -> Single {
    Single { bits: 0x4280_0000 }
}

/// A zoom that is a number stays between a fiftieth and 64, whatever is asked for.
pub proof fn zoom_stays_in_range(z: Single)
    requires
        !z.is_nan(),
    ensures
        least_zoom().le(zoom_spec(z)),
        zoom_spec(z).le(greatest_zoom()),
        least_zoom().le(z) && z.le(greatest_zoom()) ==> zoom_spec(z) == z,
{
}

/// A crosshair that was put into a frame without sky coordinates stands at its pixel there, and
/// in no other frame.
pub proof fn crosshair_stays_at_its_pixel(
    s: StateView,
    k: usize,
    x: Double,
    y: Double,
    place: Option<(Double, Double)>,
)
    requires
        s.wf(),
        s.has_active(),
        s.active == k,
    ensures
        ({
            let c = Crosshair { world: None, frame: k, x, y };
            let t = StateView { crosshair: Some(c), ..s };
            &&& crosshair_place(t, place) == Some(frame_place(s.frame(), x, y))
            &&& forall|i: int|
                0 <= i < s.frames.len() && i != s.active ==> #[trigger] crosshair_place(
                    StateView { active: i, ..t },
                    place,
                ) is None
        }),
{
}

/// A change to the active frame leaves all others as they are, and all that the frames share.
pub proof fn frames_are_independent(s: StateView, change: spec_fn(Frame) -> Frame)
    ensures
        s.on_frame(change).frames.len() == s.frames.len(),
        forall|i: int|
            0 <= i < s.frames.len() && i != s.active ==> #[trigger] s.on_frame(change).frames[i]
                == s.frames[i],
        s.on_frame(change) == (StateView { frames: s.on_frame(change).frames, ..s }),
{
}

/// The filters change what is shown of an image, and neither its size nor its coordinates.
pub proof fn filters_keep_size_and_coordinates(f: Frame, kernel: Vec<Single>, img: FitsImage)
    requires
        is_shown_image(f, kernel, img),
    ensures
        img.width == f.fits.width,
        img.height == f.fits.height,
        same_wcs(img.wcs, f.fits.wcs),
{
}

/// Without a filter an image is shown as it is.
pub proof fn unfiltered_images_are_shown(f: Frame, kernel: Vec<Single>, img: FitsImage)
    requires
        f.wf(),
        is_shown_image(f, kernel, img),
        f.bin_factor <= 1,
        !is_smoothed(f),
    ensures
        img.data@ == f.fits.data@,
        img.min == f.fits.min,
        img.max == f.fits.max,
{
}

// ---------------------------------------------------------------------------
// The units of a file
// ---------------------------------------------------------------------------

/// The unit that comes next in a circle is another one, and one with an image.
pub proof fn next_unit_has_an_image(units: Seq<HduInfo>, current: int, k: int)
    requires
        current >= 0,
        k >= 1,
    ensures
        unit_behind(units, current, k) matches Some(i) ==> 0 <= i < units.len() && i != current
            && is_loadable_kind(units[i].kind@),
    decreases units.len() + 1 - k,
{
    if k <= units.len() && units.len() > 0 {
        let n = units.len() as int;
        assert(0 <= (current + k) % n < n) by (nonlinear_arith)
            requires
                n > 0,
        ;
        next_unit_has_an_image(units, current, k + 1);
    }
}

/// If a file has another unit with an image, there is one that comes next.
pub proof fn some_unit_comes_next(units: Seq<HduInfo>, current: int, i: int)
    requires
        current >= 0,
        0 <= i < units.len(),
        i != current,
        is_loadable_kind(units[i].kind@),
    ensures
        unit_behind(units, current, 1) is Some,
{
    let n = units.len() as int;
    let r = current % n;
    let q = current / n;
    assert(current == q * n + r && 0 <= r < n) by (nonlinear_arith)
        requires
            q == current / n,
            r == current % n,
            n > 0,
    ;
    let k = if i > r {
        i - r
    } else {
        i - r + n
    };
    if i > r {
        assert((current + k) % n == i) by (nonlinear_arith)
            requires
                current + k == q * n + i,
                0 <= i < n,
        ;
    } else {
        assert((q + 1) * n == q * n + n) by (nonlinear_arith);
        assert((current + k) % n == i) by (nonlinear_arith)
            requires
                current + k == (q + 1) * n + i,
                0 <= i < n,
        ;
    }
    reaches(units, current, 1, k);
}

proof fn reaches(units: Seq<HduInfo>, current: int, j: int, k: int)
    requires
        1 <= j <= k <= units.len(),
        (current + k) % (units.len() as int) != current,
        is_loadable_kind(units[(current + k) % (units.len() as int)].kind@),
    ensures
        unit_behind(units, current, j) is Some,
    decreases k - j,
{
    if j < k {
        reaches(units, current, j + 1, k);
    }
}

// ---------------------------------------------------------------------------
// The line protocol
// ---------------------------------------------------------------------------

/// Whether an answer tells of an error.
pub open spec fn is_error(text: Seq<char>) -> bool {
    text.len() >= 3 && text.take(3) == "err"@
}

proof fn not_errors()
    ensures
        !is_error("ok"@),
        !is_error("yes"@),
        !is_error("ds9-rust 0.1"@),
        !is_error(help_text()),
        !is_error(""@),
{
    reveal_strlit("ok");
    reveal_strlit("yes");
    reveal_strlit("ds9-rust 0.1");
    reveal_strlit("");
    reveal_strlit("err");
    reveal_strlit("commands: quit|exit | xpaaccess | version | mode M | frame next|previous|N|new|delete|clear|mosaic|tile | pan to X Y | crosshair [X Y|clear] | scale S | scale limits LO HI | cmap C | cmap invert | bin N | zoom in|out|fit|N | region load|save P | regions load|save P | regions delete all|N | file open P | save png|fits P | value | sextractor | samp image|votable | crop [reset] | projection | centroid | radial | hdu next|list|N | movie on|off | help");
    assert("err"@[0] == 'e');
    assert("yes"@.take(3)[0] == 'y');
    assert("ds9-rust 0.1"@.take(3)[0] == 'd');
    assert(help_text().take(3)[0] == 'c');
}

/// A line that is answered with an error changes nothing, neither in the session nor in the
/// window, and leaves nothing to do.
pub proof fn errors_change_nothing(s: StateView, u: UiView, line: Seq<char>, a: Answer)
    requires
        dispatched(s, u, line, a),
        is_error(a.reply.text),
    ensures
        a.state == s,
        a.ui == u,
        a.reply.next == calm(),
{
    not_errors();
    if trim_spec(line).len() > 0 {
        match line_verb(line) {
            VerbView::Menu(m, i) => {
                assert(a.reply == reply("ok"@, a.reply.next));
            },
            VerbView::Value => {},
            VerbView::Pan(p) => {},
            _ => {},
        }
    }
}

/// A blank line is not answered and changes nothing.
pub proof fn blank_lines_do_nothing(s: StateView, u: UiView, line: Seq<char>, a: Answer)
    requires
        dispatched(s, u, line, a),
        trim_spec(line).len() == 0,
    ensures
        a == only(s, u, ""@, calm()),
{
}

} // verus!
