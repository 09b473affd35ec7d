//! The regions and the catalog of a session: adding, selecting, moving and removing them.

use crate::catalog::Catalog;
use crate::frame::{Frame, State, StateView};
use crate::marker::{marker_views, new_marker, Marker, MarkerView, PixelPos, ShapeView};
use crate::num::Double;
use crate::show::{moved_shape, translate_marker};
use vstd::prelude::*;

verus! {

impl StateView {
    /// The regions of the active frame.
    pub open spec fn regions(self) -> Seq<MarkerView> {
        marker_views(self.frame().markers@)
    }

    /// Whether another session differs from this one in the regions of the active frame alone:
    /// it has the given ones, and the given one of them is selected.
    pub open spec fn has_regions(
        self,
        t: StateView,
        regions: Seq<MarkerView>,
        selected: Option<usize>,
    ) -> bool {
        &&& t.regions() == regions
        &&& t == self.with_frame(
            Frame { markers: t.frame().markers, selected_marker: selected, ..self.frame() },
        )
    }
}

/// The circle that is drawn to start with: in the middle of the image, with a twentieth of its
/// smaller side as the radius, and at least four pixels.
pub open spec fn sample_region(w: usize, h: usize) -> ShapeView {
    let side = if w < h {
        w
    } else {
        h
    };
    ShapeView::Circle {
        center: PixelPos {
            x: Double::from_int_spec(w as int).over(Double { bits: 0x4000_0000_0000_0000 }),
            y: Double::from_int_spec(h as int).over(Double { bits: 0x4000_0000_0000_0000 }),
        },
        r: Double::from_int_spec(side as int).times(Double { bits: 0x3fa9_9999_9999_999a }).max(Double { bits: 0x4010_0000_0000_0000 }),
    }
}

impl State {
    /// Adds a circle to the active frame.
    pub fn add_circle(&mut self, x: Double, y: Double, r: Double)
        ensures
            if old(self)@.has_active() {
                old(self)@.has_regions(
                    final(self)@,
                    old(self)@.regions().push(
                        new_marker(ShapeView::Circle { center: PixelPos { x, y }, r }),
                    ),
                    old(self)@.frame().selected_marker,
                )
            } else {
                final(self)@ == old(self)@
            },
            old(self)@.wf() ==> final(self)@.wf(),
    {
        let ghost before = self@;
        if self.active < self.frames.len() {
            let i: usize = self.active;
            self.frames[i].markers.push(Marker::circle(x, y, r));
            assert(self@.regions() =~= before.regions().push(
                new_marker(ShapeView::Circle { center: PixelPos { x, y }, r }),
            ));
        }
    }

    /// Adds a circle in the middle of the active frame.
    pub fn region_new_sample(&mut self)
        ensures
            if old(self)@.has_active() {
                let img = old(self)@.frame().fits;
                old(self)@.has_regions(
                    final(self)@,
                    old(self)@.regions().push(new_marker(sample_region(img.width, img.height))),
                    old(self)@.frame().selected_marker,
                )
            } else {
                final(self)@ == old(self)@
            },
            old(self)@.wf() ==> final(self)@.wf(),
    {
        if self.active < self.frames.len() {
            let w: usize = self.frames[self.active].fits.width;
            let h: usize = self.frames[self.active].fits.height;
            let side: usize = if w < h {
                w
            } else {
                h
            };
            let x: Double = Double::from_nat(w as u64).over(Double { bits: 0x4000_0000_0000_0000 });
            let y: Double = Double::from_nat(h as u64).over(Double { bits: 0x4000_0000_0000_0000 });
            let r: Double = Double::from_nat(side as u64).times(Double { bits: 0x3fa9_9999_9999_999a }).max(Double { bits: 0x4010_0000_0000_0000 });
            self.add_circle(x, y, r);
        }
    }

    /// Gives the active frame other regions, none of them selected.
    pub fn set_regions(&mut self, markers: Vec<Marker>)
        ensures
            if old(self)@.has_active() {
                old(self)@.has_regions(final(self)@, marker_views(markers@), None)
            } else {
                final(self)@ == old(self)@
            },
            old(self)@.wf() ==> final(self)@.wf(),
    {
        let ghost before = self@;
        if self.active < self.frames.len() {
            let i: usize = self.active;
            self.frames[i].markers = markers;
            self.frames[i].selected_marker = None;
            assert(self@.frames =~= before.frames.update(before.active, self@.frame()));
        }
    }

    /// Removes the selected region of the active frame, and with it the selection: its place,
    /// if there was one.
    pub fn delete_selected(&mut self) -> (r: Option<usize>)
        ensures
            ({
                let s = old(self)@;
                if !s.has_active() {
                    r is None && final(self)@ == s
                } else {
                    match s.frame().selected_marker {
                        Some(i) if i < s.regions().len() => r == Some(i) && s.has_regions(
                            final(self)@,
                            s.regions().remove(i as int),
                            None,
                        ),
                        _ => r is None && s.has_regions(final(self)@, s.regions(), None),
                    }
                }
            }),
            old(self)@.wf() ==> final(self)@.wf(),
    {
        if self.active >= self.frames.len() {
            return None;
        }
        let ghost before = self@;
        let k: usize = self.active;
        let selected: Option<usize> = self.frames[k].selected_marker;
        self.frames[k].selected_marker = None;
        if let Some(i) = selected {
            if i < self.frames[k].markers.len() {
                let gone = self.frames[k].markers.remove(i);
                assert(self@.regions() =~= before.regions().remove(i as int));
                assert(self@.frames =~= before.frames.update(before.active, self@.frame()));
                return Some(i);
            }
        }
        None
    }

    /// Removes all regions of the active frame: how many there were.
    pub fn delete_regions(&mut self) -> (r: Option<usize>)
        ensures
            ({
                let s = old(self)@;
                if s.has_active() {
                    r is Some && r->0 == s.regions().len() && s.has_regions(
                        final(self)@,
                        Seq::empty(),
                        None,
                    )
                } else {
                    r is None && final(self)@ == s
                }
            }),
            old(self)@.wf() ==> final(self)@.wf(),
    {
        if self.active >= self.frames.len() {
            return None;
        }
        let n: usize = self.frames[self.active].markers.len();
        self.set_regions(Vec::new());
        assert(self@.regions() =~= Seq::empty());
        Some(n)
    }

    /// Removes a region of the active frame; if it was the selected one, nothing is selected
    /// any more. Whether it was there.
    pub fn delete_region(&mut self, i: usize) -> (r: bool)
        ensures
            ({
                let s = old(self)@;
                let there = s.has_active() && i < s.regions().len();
                &&& r == there
                &&& if there {
                    s.has_regions(
                        final(self)@,
                        s.regions().remove(i as int),
                        if s.frame().selected_marker == Some(i) {
                            None
                        } else {
                            s.frame().selected_marker
                        },
                    )
                } else {
                    final(self)@ == s
                }
            }),
            old(self)@.wf() ==> final(self)@.wf(),
    {
        if self.active >= self.frames.len() {
            return false;
        }
        let ghost before = self@;
        let k: usize = self.active;
        if i >= self.frames[k].markers.len() {
            return false;
        }
        let gone = self.frames[k].markers.remove(i);
        assert(self@.regions() =~= before.regions().remove(i as int));
        if let Some(j) = self.frames[k].selected_marker {
            if j == i {
                self.frames[k].selected_marker = None;
            }
        }
        assert(self@.frames =~= before.frames.update(before.active, self@.frame()));
        true
    }

    /// Selects a region of the active frame.
    pub fn select_region(&mut self, i: usize)
        ensures
            final(self)@ == old(self)@.on_frame(|f: Frame| Frame { selected_marker: Some(i), ..f }),
            old(self)@.wf() ==> final(self)@.wf(),
    {
        if self.active < self.frames.len() {
            let k: usize = self.active;
            self.frames[k].selected_marker = Some(i);
        }
    }

    /// Moves a region of the active frame. Whether it was there.
    pub fn move_region(&mut self, i: usize, dx: Double, dy: Double) -> (r: bool)
        ensures
            ({
                let s = old(self)@;
                let there = s.has_active() && i < s.regions().len();
                &&& r == there
                &&& if there {
                    s.has_regions(
                        final(self)@,
                        s.regions().update(i as int, moved_region(s.regions()[i as int], dx, dy)),
                        s.frame().selected_marker,
                    )
                } else {
                    final(self)@ == s
                }
            }),
            old(self)@.wf() ==> final(self)@.wf(),
    {
        if self.active >= self.frames.len() {
            return false;
        }
        let ghost before = self@;
        let k: usize = self.active;
        if i >= self.frames[k].markers.len() {
            return false;
        }
        translate_marker(&mut self.frames[k].markers[i], dx, dy);
        assert(self@.regions() =~= before.regions().update(
            i as int,
            moved_region(before.regions()[i as int], dx, dy),
        ));
        true
    }

    /// Gives a frame a catalog, of which no row is selected.
    pub fn set_catalog(&mut self, k: usize, c: Catalog)
        ensures
            final(self)@ == if k < old(self)@.frames.len() {
                StateView {
                    frames: old(self)@.frames.update(
                        k as int,
                        Frame {
                            catalog: Some(c),
                            selected_catalog: None,
                            ..old(self)@.frames[k as int]
                        },
                    ),
                    ..old(self)@
                }
            } else {
                old(self)@
            },
            old(self)@.wf() ==> final(self)@.wf(),
    {
        if k < self.frames.len() {
            self.frames[k].catalog = Some(c);
            self.frames[k].selected_catalog = None;
        }
    }

    /// Takes the catalog of the active frame away.
    pub fn clear_catalog(&mut self)
        ensures
            final(self)@ == old(self)@.on_frame(
                |f: Frame| Frame { catalog: None, selected_catalog: None, ..f },
            ),
            old(self)@.wf() ==> final(self)@.wf(),
    {
        if self.active < self.frames.len() {
            let k: usize = self.active;
            self.frames[k].catalog = None;
            self.frames[k].selected_catalog = None;
        }
    }

    /// Selects a row of the active frame's catalog.
    pub fn select_row(&mut self, i: usize)
        ensures
            final(self)@ == old(self)@.on_frame(|f: Frame| Frame { selected_catalog: Some(i), ..f }),
            old(self)@.wf() ==> final(self)@.wf(),
    {
        if self.active < self.frames.len() {
            let k: usize = self.active;
            self.frames[k].selected_catalog = Some(i);
        }
    }

    /// Takes the regions and the catalog of the active frame away; the image stays.
    pub fn clear_frame(&mut self)
        ensures
            ({
                let s = old(self)@;
                if s.has_active() {
                    s.on_frame(
                        |f: Frame| Frame { catalog: None, selected_catalog: None, ..f },
                    ).has_regions(final(self)@, Seq::empty(), None)
                } else {
                    final(self)@ == s
                }
            }),
            old(self)@.wf() ==> final(self)@.wf(),
    {
        if self.active < self.frames.len() {
            self.clear_catalog();
            let n: Option<usize> = self.delete_regions();
        }
    }
}

/// The region moved by a distance in pixels.
pub open spec fn moved_region(m: MarkerView, dx: Double, dy: Double) -> MarkerView {
    MarkerView { shape: moved_shape(m.shape, dx, dy), ..m }
}

} // verus!
