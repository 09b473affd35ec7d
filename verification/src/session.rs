//! What a session does: the operations on its frames and on what they share.

use crate::color::{Colormap, Orientation};
use crate::filters::BinMode;
use crate::frame::{Frame, LimitsMode, Prefs, SmoothKind, State, StateView};
use crate::image::Stretch;
use crate::num::Single;
use crate::prefs::default_prefs;
use vstd::prelude::*;

verus! {

/// A pan and zoom of the canvas.
#[derive(Clone, Copy, Debug, PartialEq, Eq, Structural)]
pub struct ViewPort {
    pub zoom: Single,
    pub pan_x: Single,
    pub pan_y: Single,
}

/// What a lock keeps the same over all frames.
#[derive(Clone, Copy, Debug, PartialEq, Eq, Structural)]
pub enum Lock {
    Zoom,
    Pan,
    Color,
    Scale,
}

/// The frame with the view of a canvas.
pub open spec fn with_view(f: Frame, v: ViewPort) -> Frame {
    Frame { view_zoom: v.zoom, view_pan_x: v.pan_x, view_pan_y: v.pan_y, ..f }
}

/// The view of a frame.
pub open spec fn view_of(f: Frame) -> ViewPort {
    ViewPort { zoom: f.view_zoom, pan_x: f.view_pan_x, pan_y: f.view_pan_y }
}

/// The frame with the colour map of another, and no table of its own.
pub open spec fn with_cmap(f: Frame, c: Colormap) -> Frame {
    Frame { cmap: c, custom_lut: None, ..f }
}

impl StateView {
    /// The session with a change to the active frame, if there is one.
    pub open spec fn on_frame(self, change: spec_fn(Frame) -> Frame) -> StateView {
        if self.has_active() {
            self.with_frame(change(self.frame()))
        } else {
            self
        }
    }

    /// The session with a change to every frame but the active one.
    pub open spec fn on_others(self, change: spec_fn(Frame) -> Frame) -> StateView {
        StateView {
            frames: Seq::new(
                self.frames.len(),
                |i: int|
                    if i == self.active {
                        self.frames[i]
                    } else {
                        change(self.frames[i])
                    },
            ),
            ..self
        }
    }

    /// The session with the active frame's view and colours in every other frame, as far
    /// as the locks say.
    pub open spec fn locks_broadcast(self) -> StateView {
        if self.has_active() {
            let a = self.frame();
            self.on_others(
                |f: Frame|
                    Frame {
                        view_zoom: if self.lock_zoom {
                            a.view_zoom
                        } else {
                            f.view_zoom
                        },
                        view_pan_x: if self.lock_pan {
                            a.view_pan_x
                        } else {
                            f.view_pan_x
                        },
                        view_pan_y: if self.lock_pan {
                            a.view_pan_y
                        } else {
                            f.view_pan_y
                        },
                        cmap: if self.lock_cmap {
                            a.cmap
                        } else {
                            f.cmap
                        },
                        custom_lut: if self.lock_cmap {
                            None
                        } else {
                            f.custom_lut
                        },
                        stretch: if self.lock_scale {
                            a.stretch
                        } else {
                            f.stretch
                        },
                        limits_mode: if self.lock_scale {
                            a.limits_mode
                        } else {
                            f.limits_mode
                        },
                        ..f
                    },
            )
        } else {
            self
        }
    }

    /// The session with the active frame's colour map in every other frame.
    pub open spec fn cmap_broadcast(self) -> StateView {
        if self.has_active() {
            self.on_others(|f: Frame| with_cmap(f, self.frame().cmap))
        } else {
            self
        }
    }

    /// The session with another state of a lock; one that is now on goes to all frames.
    pub open spec fn lock_toggled(self, lock: Lock) -> StateView {
        let next = match lock {
            Lock::Zoom => StateView { lock_zoom: !self.lock_zoom, ..self },
            Lock::Pan => StateView { lock_pan: !self.lock_pan, ..self },
            Lock::Color => StateView { lock_cmap: !self.lock_cmap, ..self },
            Lock::Scale => StateView { lock_scale: !self.lock_scale, ..self },
        };
        if next.is_locked(lock) {
            next.locks_broadcast()
        } else {
            next
        }
    }

    /// Whether a lock is on.
    pub open spec fn is_locked(self, lock: Lock) -> bool {
        match lock {
            Lock::Zoom => self.lock_zoom,
            Lock::Pan => self.lock_pan,
            Lock::Color => self.lock_cmap,
            Lock::Scale => self.lock_scale,
        }
    }

    /// The session with the view of the canvas kept in the active frame.
    pub open spec fn view_saved(self, v: ViewPort) -> StateView {
        self.on_frame(|f: Frame| with_view(f, v))
    }

    /// The session with another active frame; the view of the canvas stays with the old
    /// one. A frame that is not there, or is active, changes nothing.
    pub open spec fn switched(self, target: int, v: ViewPort) -> StateView {
        if target >= self.frames.len() || target == self.active {
            self
        } else {
            StateView { active: target, ..self.view_saved(v) }
        }
    }

    /// The session without the active frame; the frame before it becomes active.
    pub open spec fn frame_deleted(self) -> StateView {
        if self.has_active() {
            StateView {
                frames: self.frames.remove(self.active),
                active: if self.active > 0 {
                    self.active - 1
                } else {
                    0
                },
                ..self
            }
        } else {
            self
        }
    }

    /// The session with a frame added behind the others, which becomes active; the view of
    /// the canvas stays with the old one.
    pub open spec fn frame_added(self, f: Frame, v: ViewPort) -> StateView {
        let saved = self.view_saved(v);
        StateView { frames: saved.frames.push(f), active: self.frames.len() as int, ..saved }
    }

    /// The session with the active frame's view in every other frame.
    pub open spec fn matched(self) -> StateView {
        if self.has_active() {
            self.on_others(|f: Frame| with_view(f, view_of(self.frame())))
        } else {
            self
        }
    }
}

/// The next strength of a Gaussian: off, two, four, eight, and off again.
pub open spec fn next_sigma(s: Single) -> Single {
    if s.le(Single { bits: 0 }) {
        Single { bits: 0x4000_0000 }
    } else if s.lt(Single { bits: 0x4040_0000 }) {
        Single { bits: 0x4080_0000 }
    } else if s.lt(Single { bits: 0x40c0_0000 }) {
        Single { bits: 0x4100_0000 }
    } else {
        Single { bits: 0 }
    }
}

/// The next size of a window: off, three, five, nine, and off again.
pub open spec fn next_window(n: u32) -> u32 {
    if n <= 1 {
        3
    } else if n <= 3 {
        5
    } else if n <= 5 {
        9
    } else {
        1
    }
}

/// The next strength of a kernel.
pub open spec fn next_smooth(k: SmoothKind) -> SmoothKind {
    match k {
        SmoothKind::Gaussian { sigma } => SmoothKind::Gaussian { sigma: next_sigma(sigma) },
        SmoothKind::Boxcar { n } => SmoothKind::Boxcar { n: next_window(n) },
        SmoothKind::Median { n } => SmoothKind::Median { n: next_window(n) },
    }
}

/// The frame with another kernel; the width of a Gaussian is kept beside it.
pub open spec fn with_smooth(f: Frame, k: SmoothKind) -> Frame {
    match k {
        SmoothKind::Gaussian { sigma } => Frame { smooth_kind: k, smooth_sigma: sigma, ..f },
        _ => Frame { smooth_kind: k, ..f },
    }
}

impl State {
    /// A session without frames, with nothing locked, and the standard preferences.
    pub fn new() -> (r: State)
        ensures
            r@ == (StateView {
                frames: Seq::empty(),
                active: 0,
                dragging_marker: None,
                last_drag_fits: None,
                crosshair: None,
                lock_zoom: false,
                lock_pan: false,
                lock_cmap: false,
                lock_scale: false,
                prefs: default_prefs(),
                tile_mode: false,
            }),
            r@.wf(),
    {
        let r = State {
            frames: Vec::new(),
            active: 0,
            dragging_marker: None,
            last_drag_fits: None,
            crosshair: None,
            lock_zoom: false,
            lock_pan: false,
            lock_cmap: false,
            lock_scale: false,
            prefs: Prefs::default(),
            tile_mode: false,
        };
        assert(r@.frames =~= Seq::empty());
        r
    }

    /// The active frame.
    pub fn active_frame(&self) -> (r: Option<&Frame>)
        ensures
            match r {
                Some(f) => self@.has_active() && *f == self@.frame(),
                None => !self@.has_active(),
            },
    {
        if self.active < self.frames.len() {
            Some(&self.frames[self.active])
        } else {
            None
        }
    }

    /// Whether there is an active frame.
    pub fn has_frame(&self) -> (r: bool)
        ensures
            r == self@.has_active(),
    {
        self.active < self.frames.len()
    }

    /// Sets the stretch of the active frame.
    pub fn set_stretch(&mut self, s: Stretch)
        ensures
            final(self)@ == old(self)@.on_frame(|f: Frame| Frame { stretch: s, ..f }),
            old(self)@.wf() ==> final(self)@.wf(),
    {
        if self.active < self.frames.len() {
            let i: usize = self.active;
            self.frames[i].stretch = s;
        }
    }

    /// Sets the choice of the limits of the active frame.
    pub fn set_limits(&mut self, m: LimitsMode)
        ensures
            final(self)@ == old(self)@.on_frame(|f: Frame| Frame { limits_mode: m, ..f }),
            old(self)@.wf() ==> final(self)@.wf(),
    {
        if self.active < self.frames.len() {
            let i: usize = self.active;
            self.frames[i].limits_mode = m;
        }
    }

    /// Sets the way the active frame is binned.
    pub fn set_bin_mode(&mut self, m: BinMode)
        ensures
            final(self)@ == old(self)@.on_frame(|f: Frame| Frame { bin_mode: m, ..f }),
            old(self)@.wf() ==> final(self)@.wf(),
    {
        if self.active < self.frames.len() {
            let i: usize = self.active;
            self.frames[i].bin_mode = m;
        }
    }

    /// Sets the block size of the active frame's binning: at least one.
    pub fn set_bin_factor(&mut self, n: u32)
        ensures
            final(self)@ == old(self)@.on_frame(
                |f: Frame|
                    Frame {
                        bin_factor: if n > 1 {
                            n
                        } else {
                            1
                        },
                        ..f
                    },
            ),
            old(self)@.wf() ==> final(self)@.wf(),
    {
        if self.active < self.frames.len() {
            let i: usize = self.active;
            self.frames[i].bin_factor = if n > 1 {
                n
            } else {
                1
            };
        }
    }

    /// Sets the orientation of the active frame.
    pub fn set_orientation(&mut self, o: Orientation)
        ensures
            final(self)@ == old(self)@.on_frame(|f: Frame| Frame { orientation: o, ..f }),
            old(self)@.wf() ==> final(self)@.wf(),
    {
        if self.active < self.frames.len() {
            let i: usize = self.active;
            self.frames[i].orientation = o;
        }
    }

    /// Gives every other frame the active frame's colour map.
    pub fn broadcast_cmap(&mut self)
        ensures
            final(self)@ == old(self)@.cmap_broadcast(),
            old(self)@.wf() ==> final(self)@.wf(),
    {
        if self.active >= self.frames.len() {
            return;
        }
        let ghost before = self@;
        let c: Colormap = self.frames[self.active].cmap;
        let n: usize = self.frames.len();
        for i in 0..n
            invariant
                n == before.frames.len() == self.frames@.len(),
                before.has_active(),
                c == before.frame().cmap,
                self@ == (StateView { frames: self.frames@, ..before }),
                forall|k: int|
                    0 <= k < i ==> #[trigger] self.frames@[k] == before.cmap_broadcast().frames[k],
                forall|k: int| i <= k < n ==> #[trigger] self.frames@[k] == before.frames[k],
        {
            if i != self.active {
                self.frames[i].cmap = c;
                self.frames[i].custom_lut = None;
            }
        }
        assert(self.frames@ =~= before.cmap_broadcast().frames);
        proof {
            if before.wf() {
                assert forall|i: int| 0 <= i < self@.frames.len() implies (
                #[trigger] self@.frames[i]).wf() by {
                    assert(before.frames[i].wf());
                }
            }
        }
    }

    /// Sets the colour map of the active frame, in the place of any table of its own; with
    /// the colour lock on, that of all frames.
    pub fn set_cmap(&mut self, c: Colormap)
        ensures
            ({
                let set = old(self)@.on_frame(|f: Frame| with_cmap(f, c));
                final(self)@ == if old(self)@.lock_cmap {
                    set.cmap_broadcast()
                } else {
                    set
                }
            }),
            old(self)@.wf() ==> final(self)@.wf(),
    {
        if self.active < self.frames.len() {
            let i: usize = self.active;
            self.frames[i].cmap = c;
            self.frames[i].custom_lut = None;
        }
        if self.lock_cmap {
            self.broadcast_cmap();
        }
    }

    /// Sets or clears the colour table of the active frame.
    pub fn set_custom_lut(&mut self, t: Option<Vec<(u8, u8, u8)>>)
        requires
            t matches Some(v) ==> v@.len() == 256,
        ensures
            final(self)@ == old(self)@.on_frame(|f: Frame| Frame { custom_lut: t, ..f }),
            old(self)@.wf() ==> final(self)@.wf(),
    {
        if self.active < self.frames.len() {
            let i: usize = self.active;
            self.frames[i].custom_lut = t;
        }
    }

    /// Gives every other frame the active frame's view and colours, as far as the locks
    /// say.
    pub fn broadcast_locks(&mut self)
        ensures
            final(self)@ == old(self)@.locks_broadcast(),
            old(self)@.wf() ==> final(self)@.wf(),
    {
        if self.active >= self.frames.len() {
            return;
        }
        let ghost before = self@;
        let a: usize = self.active;
        let zoom: Single = self.frames[a].view_zoom;
        let pan_x: Single = self.frames[a].view_pan_x;
        let pan_y: Single = self.frames[a].view_pan_y;
        let cmap: Colormap = self.frames[a].cmap;
        let stretch: Stretch = self.frames[a].stretch;
        let limits: LimitsMode = self.frames[a].limits_mode;
        let n: usize = self.frames.len();
        for i in 0..n
            invariant
                n == before.frames.len() == self.frames@.len(),
                before.has_active(),
                zoom == before.frame().view_zoom,
                pan_x == before.frame().view_pan_x,
                pan_y == before.frame().view_pan_y,
                cmap == before.frame().cmap,
                stretch == before.frame().stretch,
                limits == before.frame().limits_mode,
                self@ == (StateView { frames: self.frames@, ..before }),
                forall|k: int|
                    0 <= k < i ==> #[trigger] self.frames@[k] == before.locks_broadcast().frames[k],
                forall|k: int| i <= k < n ==> #[trigger] self.frames@[k] == before.frames[k],
        {
            if i != self.active {
                if self.lock_zoom {
                    self.frames[i].view_zoom = zoom;
                }
                if self.lock_pan {
                    self.frames[i].view_pan_x = pan_x;
                    self.frames[i].view_pan_y = pan_y;
                }
                if self.lock_cmap {
                    self.frames[i].cmap = cmap;
                    self.frames[i].custom_lut = None;
                }
                if self.lock_scale {
                    self.frames[i].stretch = stretch;
                    self.frames[i].limits_mode = limits;
                }
            }
        }
        assert(self.frames@ =~= before.locks_broadcast().frames);
        proof {
            if before.wf() {
                assert forall|i: int| 0 <= i < self@.frames.len() implies (
                #[trigger] self@.frames[i]).wf() by {
                    assert(before.frames[i].wf());
                }
            }
        }
    }

    /// Turns a lock on or off; one that goes on takes effect at once. Whether it is on now.
    pub fn toggle_lock(&mut self, lock: Lock) -> (r: bool)
        ensures
            final(self)@ == old(self)@.lock_toggled(lock),
            r == !old(self)@.is_locked(lock),
            old(self)@.wf() ==> final(self)@.wf(),
    {
        let on: bool = match lock {
            Lock::Zoom => {
                self.lock_zoom = !self.lock_zoom;
                self.lock_zoom
            },
            Lock::Pan => {
                self.lock_pan = !self.lock_pan;
                self.lock_pan
            },
            Lock::Color => {
                self.lock_cmap = !self.lock_cmap;
                self.lock_cmap
            },
            Lock::Scale => {
                self.lock_scale = !self.lock_scale;
                self.lock_scale
            },
        };
        if on {
            self.broadcast_locks();
        }
        on
    }

    /// Keeps the view of the canvas in the active frame.
    pub fn save_view_into_active(&mut self, v: ViewPort)
        ensures
            final(self)@ == old(self)@.view_saved(v),
            old(self)@.wf() ==> final(self)@.wf(),
    {
        if self.active < self.frames.len() {
            let i: usize = self.active;
            self.frames[i].view_zoom = v.zoom;
            self.frames[i].view_pan_x = v.pan_x;
            self.frames[i].view_pan_y = v.pan_y;
        }
    }

    /// Makes another frame active, after the view of the canvas has been kept in the old
    /// one. Whether there was another frame to go to.
    pub fn switch_frame(&mut self, target: usize, v: ViewPort) -> (r: bool)
        ensures
            final(self)@ == old(self)@.switched(target as int, v),
            r == (target < old(self)@.frames.len() && target != old(self)@.active),
            old(self)@.wf() ==> final(self)@.wf(),
    {
        if target >= self.frames.len() || target == self.active {
            return false;
        }
        self.save_view_into_active(v);
        self.active = target;
        true
    }

    /// Removes the active frame; the frame before it becomes active. Whether there was one.
    pub fn delete_frame(&mut self) -> (r: bool)
        ensures
            final(self)@ == old(self)@.frame_deleted(),
            r == old(self)@.has_active(),
            old(self)@.wf() ==> final(self)@.wf(),
    {
        if self.active >= self.frames.len() {
            return false;
        }
        let ghost before = self@;
        let i: usize = self.active;
        let gone = self.frames.remove(i);
        if i > 0 {
            self.active = i - 1;
        }
        proof {
            if before.wf() {
                assert forall|k: int| 0 <= k < self@.frames.len() implies (
                #[trigger] self@.frames[k]).wf() by {
                    if k < i {
                        assert(before.frames[k].wf());
                    } else {
                        assert(before.frames[k + 1].wf());
                    }
                }
            }
        }
        true
    }

    /// Adds a frame behind the others and makes it active, after the view of the canvas has
    /// been kept in the old one.
    pub fn add_frame(&mut self, f: Frame, v: ViewPort)
        ensures
            final(self)@ == old(self)@.frame_added(f, v),
            old(self)@.wf() && f.wf() ==> final(self)@.wf(),
    {
        self.save_view_into_active(v);
        self.active = self.frames.len();
        self.frames.push(f);
    }

    /// Gives every other frame the active frame's view.
    pub fn match_views(&mut self)
        ensures
            final(self)@ == old(self)@.matched(),
            old(self)@.wf() ==> final(self)@.wf(),
    {
        if self.active >= self.frames.len() {
            return;
        }
        let ghost before = self@;
        let a: usize = self.active;
        let zoom: Single = self.frames[a].view_zoom;
        let pan_x: Single = self.frames[a].view_pan_x;
        let pan_y: Single = self.frames[a].view_pan_y;
        let n: usize = self.frames.len();
        for i in 0..n
            invariant
                n == before.frames.len() == self.frames@.len(),
                before.has_active(),
                zoom == before.frame().view_zoom,
                pan_x == before.frame().view_pan_x,
                pan_y == before.frame().view_pan_y,
                self@ == (StateView { frames: self.frames@, ..before }),
                forall|k: int|
                    0 <= k < i ==> #[trigger] self.frames@[k] == before.matched().frames[k],
                forall|k: int| i <= k < n ==> #[trigger] self.frames@[k] == before.frames[k],
        {
            if i != self.active {
                self.frames[i].view_zoom = zoom;
                self.frames[i].view_pan_x = pan_x;
                self.frames[i].view_pan_y = pan_y;
            }
        }
        assert(self.frames@ =~= before.matched().frames);
        proof {
            if before.wf() {
                assert forall|i: int| 0 <= i < self@.frames.len() implies (
                #[trigger] self@.frames[i]).wf() by {
                    assert(before.frames[i].wf());
                }
            }
        }
    }

    /// Sets the smoothing kernel of the active frame.
    pub fn set_smooth(&mut self, k: SmoothKind)
        ensures
            final(self)@ == old(self)@.on_frame(|f: Frame| with_smooth(f, k)),
            old(self)@.wf() ==> final(self)@.wf(),
    {
        if self.active < self.frames.len() {
            let i: usize = self.active;
            self.frames[i].smooth_kind = k;
            if let SmoothKind::Gaussian { sigma } = k {
                self.frames[i].smooth_sigma = sigma;
            }
        }
    }

    /// Goes on to the next strength of the active frame's kernel.
    pub fn cycle_smooth(&mut self)
        ensures
            final(self)@ == old(self)@.on_frame(|f: Frame| with_smooth(f, next_smooth(f.smooth_kind))),
            old(self)@.wf() ==> final(self)@.wf(),
    {
        if self.active < self.frames.len() {
            let k: SmoothKind = next_kind(self.frames[self.active].smooth_kind);
            self.set_smooth(k);
        }
    }
}

fn next_window_of(n: u32) -> (r: u32)
    ensures
        r == next_window(n),
{
    if n <= 1 {
        3
    } else if n <= 3 {
        5
    } else if n <= 5 {
        9
    } else {
        1
    }
}

fn next_kind(k: SmoothKind) -> (r: SmoothKind)
    ensures
        r == next_smooth(k),
{
    match k {
        SmoothKind::Gaussian { sigma } => {
            let next: Single = if sigma.le(Single { bits: 0 }) {
                Single { bits: 0x4000_0000 }
            } else if sigma.lt(Single { bits: 0x4040_0000 }) {
                Single { bits: 0x4080_0000 }
            } else if sigma.lt(Single { bits: 0x40c0_0000 }) {
                Single { bits: 0x4100_0000 }
            } else {
                Single { bits: 0 }
            };
            SmoothKind::Gaussian { sigma: next }
        },
        SmoothKind::Boxcar { n } => SmoothKind::Boxcar { n: next_window_of(n) },
        SmoothKind::Median { n } => SmoothKind::Median { n: next_window_of(n) },
    }
}

} // verus!
