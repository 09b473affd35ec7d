//! Frames: an image with the state in which it is shown, and the session that holds them.

use crate::catalog::Catalog;
use crate::color::{Colormap, Orientation};
use crate::filters::BinMode;
use crate::fits::FitsImage;
use crate::image::{is_zscale, Limits, Stretch};
use crate::marker::Marker;
use crate::num::{Double, Single};
use crate::text::{nat_text, put_chars, put_nat, put_text, string_of};
use vstd::prelude::*;

verus! {

/// The choice of a smoothing kernel. A Gaussian has a width, the others the size of
/// a window.
#[derive(Clone, Copy, Debug, PartialEq, Eq, Structural)]
pub enum SmoothKind {
    Gaussian { sigma: Single },
    Boxcar { n: u32 },
    Median { n: u32 },
}

impl Default for SmoothKind {
    fn default() -> (r: SmoothKind)
        ensures
            r == (SmoothKind::Gaussian { sigma: Single { bits: 0 } }),
    {
        SmoothKind::Gaussian { sigma: Single { bits: 0 } }
    }
}

/// `n×n`.
pub open spec fn square_text(n: nat) -> Seq<char> {
    nat_text(n).push('×') + nat_text(n)
}

impl SmoothKind {
    /// The kernel in words: "off" where it changes nothing.
    pub open spec fn label_spec(self) -> Seq<char> {
        match self {
            SmoothKind::Gaussian { sigma } => if sigma.le(Single { bits: 0 }) {
                "off"@
            } else {
                "gaussian σ="@ + sigma.fixed_spec(1)
            },
            SmoothKind::Boxcar { n } => if n <= 1 {
                "off"@
            } else {
                "boxcar "@ + square_text(n as nat)
            },
            SmoothKind::Median { n } => if n <= 1 {
                "off"@
            } else {
                "median "@ + square_text(n as nat)
            },
        }
    }

    /// The kernel in words: "off" where it changes nothing.
    pub fn label(self) -> (r: String)
        ensures
            r@ == self.label_spec(),
    {
        let mut v: Vec<char> = Vec::new();
        match self {
            SmoothKind::Gaussian { sigma } => {
                if sigma.le(Single { bits: 0 }) {
                    put_text(&mut v, "off");
                } else {
                    put_text(&mut v, "gaussian σ=");
                    let t = sigma.fixed(1);
                    put_chars(&mut v, &t);
                }
            },
            SmoothKind::Boxcar { n } => {
                if n <= 1 {
                    put_text(&mut v, "off");
                } else {
                    put_text(&mut v, "boxcar ");
                    put_nat(&mut v, n as u128);
                    v.push('×');
                    put_nat(&mut v, n as u128);
                }
            },
            SmoothKind::Median { n } => {
                if n <= 1 {
                    put_text(&mut v, "off");
                } else {
                    put_text(&mut v, "median ");
                    put_nat(&mut v, n as u128);
                    v.push('×');
                    put_nat(&mut v, n as u128);
                }
            },
        }
        assert(v@ =~= self.label_spec());
        string_of(&v)
    }
}

/// How the limits of a frame are chosen.
#[derive(Clone, Copy, Debug, PartialEq, Eq, Structural)]
pub enum LimitsMode {
    Zscale,
    MinMax,
    User { low: Single, high: Single },
}

/// An image with the state in which it is shown.
pub struct Frame {
    pub fits: FitsImage,
    pub name: String,
    /// The file the image came from, if it came from one.
    pub source_path: Option<String>,
    pub stretch: Stretch,
    pub limits_mode: LimitsMode,
    pub cmap: Colormap,
    pub markers: Vec<Marker>,
    pub catalog: Option<Catalog>,
    pub selected_catalog: Option<usize>,
    pub selected_marker: Option<usize>,
    pub view_zoom: Single,
    pub view_pan_x: Single,
    pub view_pan_y: Single,
    /// The width of the Gaussian that the smoothing cycle has reached; zero is off.
    pub smooth_sigma: Single,
    pub smooth_kind: SmoothKind,
    /// The block size of the binning; one is off.
    pub bin_factor: u32,
    pub bin_mode: BinMode,
    pub orientation: Orientation,
    /// A colour table from a file, which takes the place of the colour map.
    pub custom_lut: Option<Vec<(u8, u8, u8)>>,
    /// The place in the file of the unit that the image came from.
    pub hdu_idx: usize,
}

/// The zoom at which an image of the given size fits the canvas.
pub open spec fn fit_zoom_spec(w: int, h: int) -> Single {
    let zw = Single { bits: 0x4448_0000 }.over(Single::from_int_spec(w).max(Single { bits: 0x3f80_0000 }));
    let zh = Single { bits: 0x4416_0000 }.over(Single::from_int_spec(h).max(Single { bits: 0x3f80_0000 }));
    zw.min(zh).clamp(Single { bits: 0x3d4c_cccd }, Single { bits: 0x4200_0000 })
}

/// The zoom at which an image of the given size fits the canvas: 800 by 600 pixels of it,
/// between a twentieth and 32.
pub fn fit_zoom(w: usize, h: usize) -> (r: Single)
    ensures
        r == fit_zoom_spec(w as int, h as int),
{
    let zw: Single = (Single { bits: 0x4448_0000 }).over(Single::from_nat(w as u64).max(Single { bits: 0x3f80_0000 }));
    let zh: Single = (Single { bits: 0x4416_0000 }).over(Single::from_nat(h as u64).max(Single { bits: 0x3f80_0000 }));
    zw.min(zh).clamp(Single { bits: 0x3d4c_cccd }, Single { bits: 0x4200_0000 })
}

impl Frame {
    /// Whether the frame is one as it is made.
    pub open spec fn is_new(self, fits: FitsImage, name: Seq<char>) -> bool {
        &&& self.fits == fits
        &&& self.name@ == name
        &&& self.source_path is None
        &&& self.stretch == Stretch::Linear
        &&& self.limits_mode == LimitsMode::Zscale
        &&& self.cmap == Colormap::Grey
        &&& self.markers@.len() == 0
        &&& self.catalog is None
        &&& self.selected_catalog is None
        &&& self.selected_marker is None
        &&& self.view_zoom == fit_zoom_spec(fits.width as int, fits.height as int)
        &&& self.view_pan_x == (Single { bits: 0 })
        &&& self.view_pan_y == (Single { bits: 0 })
        &&& self.smooth_sigma == (Single { bits: 0 })
        &&& self.smooth_kind == (SmoothKind::Gaussian { sigma: Single { bits: 0 } })
        &&& self.bin_factor == 1
        &&& self.bin_mode == BinMode::Average
        &&& self.orientation == Orientation::Identity
        &&& self.custom_lut is None
        &&& self.hdu_idx == 0
    }

    /// A frame for an image: in grey, with a linear stretch, between limits that leave out
    /// the extremes, fitted to the canvas, with no regions, catalog or filters.
    pub fn new(fits: FitsImage, name: String) -> (r: Frame)
        ensures
            r.is_new(fits, name@),
            r.name == name,
    {
        let view_zoom: Single = fit_zoom(fits.width, fits.height);
        Frame {
            fits,
            name,
            source_path: None,
            stretch: Stretch::Linear,
            limits_mode: LimitsMode::Zscale,
            cmap: Colormap::Grey,
            markers: Vec::new(),
            catalog: None,
            selected_catalog: None,
            selected_marker: None,
            view_zoom,
            view_pan_x: Single { bits: 0 },
            view_pan_y: Single { bits: 0 },
            smooth_sigma: Single { bits: 0 },
            smooth_kind: SmoothKind::Gaussian { sigma: Single { bits: 0 } },
            bin_factor: 1,
            bin_mode: BinMode::Average,
            orientation: Orientation::Identity,
            custom_lut: None,
            hdu_idx: 0,
        }
    }

    /// Whether the frame can be shown: there is a pixel for each place, their bytes can be
    /// counted, and a colour table has all its entries.
    pub open spec fn wf(self) -> bool {
        &&& self.fits.wf()
        &&& self.fits.width * self.fits.height * 4 <= usize::MAX
        &&& self.custom_lut matches Some(t) ==> t@.len() == 256
    }

    /// Whether the limits are those of an image.
    pub open spec fn has_limits(mode: LimitsMode, img: FitsImage, r: Limits) -> bool {
        match mode {
            LimitsMode::Zscale => is_zscale(img, r),
            LimitsMode::MinMax => r == (Limits { low: img.min, high: img.max }),
            LimitsMode::User { low, high } => r == (Limits { low, high }),
        }
    }

    /// The limits of the frame's image.
    pub fn limits(&self) -> (r: Limits)
        ensures
            Frame::has_limits(self.limits_mode, self.fits, r),
    {
        limits_of(self.limits_mode, &self.fits)
    }

    /// The choice of the limits in words.
    pub open spec fn limits_label_spec(self) -> Seq<char> {
        match self.limits_mode {
            LimitsMode::Zscale => "zscale"@,
            LimitsMode::MinMax => "minmax"@,
            LimitsMode::User { .. } => "user"@,
        }
    }

    /// The choice of the limits in words.
    pub fn limits_label(&self) -> (r: &'static str)
        ensures
            r@ == self.limits_label_spec(),
    {
        match self.limits_mode {
            LimitsMode::Zscale => "zscale",
            LimitsMode::MinMax => "minmax",
            LimitsMode::User { low, high } => "user",
        }
    }

    /// The stretch in words.
    pub open spec fn stretch_label_spec(self) -> Seq<char> {
        match self.stretch {
            Stretch::Linear => "linear"@,
            Stretch::Log => "log"@,
            Stretch::Power(_) => "power"@,
            Stretch::Sqrt => "sqrt"@,
            Stretch::Squared => "squared"@,
            Stretch::Asinh => "asinh"@,
            Stretch::Sinh => "sinh"@,
        }
    }

    /// The stretch in words.
    pub fn stretch_label(&self) -> (r: &'static str)
        ensures
            r@ == self.stretch_label_spec(),
    {
        match self.stretch {
            Stretch::Linear => "linear",
            Stretch::Log => "log",
            Stretch::Power(_) => "power",
            Stretch::Sqrt => "sqrt",
            Stretch::Squared => "squared",
            Stretch::Asinh => "asinh",
            Stretch::Sinh => "sinh",
        }
    }
}

/// The limits of an image.
pub fn limits_of(mode: LimitsMode, img: &FitsImage) -> (r: Limits)
    ensures
        Frame::has_limits(mode, *img, r),
{
    match mode {
        LimitsMode::Zscale => Limits::zscale(img),
        LimitsMode::MinMax => Limits::minmax(img),
        LimitsMode::User { low, high } => Limits { low, high },
    }
}

/// A crosshair: its sky position, if the frame it was placed in has coordinates, and its
/// pixel in that frame, counted from one.
#[derive(Clone, Copy, Debug)]
pub struct Crosshair {
    pub world: Option<(Double, Double)>,
    pub frame: usize,
    pub x: Double,
    pub y: Double,
}

/// The preferences of a session, which new frames start with.
#[derive(Clone, Debug)]
pub struct Prefs {
    /// The name of a colour map.
    pub cmap: String,
    /// The name of a stretch.
    pub stretch: String,
    /// "zscale" or "minmax".
    pub limits: String,
    /// "off", "gaussian:" and a width, or "boxcar:" or "median:" and a size.
    pub smooth: String,
    /// The block size of the binning; one is off.
    pub bin: u32,
    /// The time between two frames of a blink, in milliseconds.
    pub blink_ms: u32,
}

/// The preferences by their contents.
#[verifier::ext_equal]
pub struct PrefsView {
    pub cmap: Seq<char>,
    pub stretch: Seq<char>,
    pub limits: Seq<char>,
    pub smooth: Seq<char>,
    pub bin: u32,
    pub blink_ms: u32,
}

impl View for Prefs {
    type V = PrefsView;

    open spec fn view(&self) -> PrefsView {
        PrefsView {
            cmap: self.cmap@,
            stretch: self.stretch@,
            limits: self.limits@,
            smooth: self.smooth@,
            bin: self.bin,
            blink_ms: self.blink_ms,
        }
    }
}

/// A session: the frames, which of them is active, and what all of them share.
pub struct State {
    pub frames: Vec<Frame>,
    /// The place of the active frame; it has a meaning only where there are frames.
    pub active: usize,
    /// The region of the active frame that is being dragged.
    pub dragging_marker: Option<usize>,
    pub last_drag_fits: Option<(Double, Double)>,
    pub crosshair: Option<Crosshair>,
    /// Whether a change of the active frame goes to all others.
    pub lock_zoom: bool,
    pub lock_pan: bool,
    pub lock_cmap: bool,
    pub lock_scale: bool,
    pub prefs: Prefs,
    /// Whether all frames are shown side by side.
    pub tile_mode: bool,
}

/// A session by its contents.
#[verifier::ext_equal]
pub struct StateView {
    pub frames: Seq<Frame>,
    pub active: int,
    pub dragging_marker: Option<usize>,
    pub last_drag_fits: Option<(Double, Double)>,
    pub crosshair: Option<Crosshair>,
    pub lock_zoom: bool,
    pub lock_pan: bool,
    pub lock_cmap: bool,
    pub lock_scale: bool,
    pub prefs: PrefsView,
    pub tile_mode: bool,
}

impl View for State {
    type V = StateView;

    open spec fn view(&self) -> StateView {
        StateView {
            frames: self.frames@,
            active: self.active as int,
            dragging_marker: self.dragging_marker,
            last_drag_fits: self.last_drag_fits,
            crosshair: self.crosshair,
            lock_zoom: self.lock_zoom,
            lock_pan: self.lock_pan,
            lock_cmap: self.lock_cmap,
            lock_scale: self.lock_scale,
            prefs: self.prefs@,
            tile_mode: self.tile_mode,
        }
    }
}

impl StateView {
    /// Whether a frame is active exactly where there are frames, and all can be shown.
    pub open spec fn wf(self) -> bool {
        &&& self.frames.len() == 0 ==> self.active == 0
        &&& self.frames.len() > 0 ==> 0 <= self.active < self.frames.len()
        &&& forall|i: int| 0 <= i < self.frames.len() ==> (#[trigger] self.frames[i]).wf()
    }

    /// Whether there is an active frame.
    pub open spec fn has_active(self) -> bool {
        0 <= self.active < self.frames.len()
    }

    /// The active frame.
    pub open spec fn frame(self) -> Frame {
        self.frames[self.active]
    }

    /// The session with another active frame in the place of the old one.
    pub open spec fn with_frame(self, f: Frame) -> StateView {
        StateView { frames: self.frames.update(self.active, f), ..self }
    }
}

} // verus!
