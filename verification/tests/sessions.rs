use ds9::color::{Colormap, Orientation};
use ds9::fits::{FitsImage, Wcs};
use ds9::frame::{Frame, LimitsMode, SmoothKind, State};
use ds9::files::{
    add_mosaic, advance_hdu, catalog_loaded, is_loadable_hdu, load_hdu_into_active, load_into,
    populate_hdu_panel, regions_loaded, save_name, sources_found, unit_choice, unit_source,
    units_text, UnitUse,
};
use ds9::catalog::Catalog;
use ds9::filters::BinMode;
use ds9::hdu::HduInfo;
use ds9::image::Stretch;
use ds9::ipc::{dispatch_ipc, regions_reply, save_reply};
use ds9::marker::{Marker, Shape};
use ds9::num::{Double, Single};
use ds9::online::{
    banner, discovery_text, ned_answered, ned_asking, ned_query, query_center, samp_sent,
    samp_source, show_object, socket_name, vizier_answered, vizier_asking, vizier_query,
    wanted_name, wrote_picture, wrote_regions, printed, started_with,
};
use ds9::panels::{crop_regions, crop_to, show_profile, show_projection, Rect};
use ds9::pointer::{
    click, crosshair_sky, drag, image_point, pick_row, press, project_crosshair, readout, release,
    set_crosshair_at_display, set_mode, sky_of,
};
use ds9::prefs::apply_prefs_to_frame;
use ds9::report::{refresh_view, Scene};
use ds9::run::{grid_drawn, handle_menu, switch_frame};
use ds9::session::ViewPort;
use ds9::ui::{Next, Request, Ui};

fn d(x: f64) -> Double {
    Double { bits: x.to_bits() }
}

fn s(x: f32) -> Single {
    Single { bits: x.to_bits() }
}

fn f(x: Single) -> f32 {
    f32::from_bits(x.bits)
}

fn g(x: Double) -> f64 {
    f64::from_bits(x.bits)
}

fn chars(t: &str) -> Vec<char> {
    t.chars().collect()
}

fn ui() -> Ui {
    Ui {
        view: ViewPort { zoom: s(2.0), pan_x: s(3.0), pan_y: s(4.0) },
        cursor_x: s(1.0),
        cursor_y: s(1.0),
        canvas_w: s(800.0),
        canvas_h: s(600.0),
        mode: String::from("pan"),
        status: String::new(),
        panner: false,
        magnifier: false,
        grid: false,
        blink: false,
        movie: false,
        query: false,
        units: false,
        props: false,
        prefs: false,
        projection: false,
        profile: false,
        histogram: false,
        contours: false,
        marker_drag: false,
    }
}

fn image(w: usize, h: usize) -> FitsImage {
    let data: Vec<Single> = (0..w * h).map(|i| s(i as f32)).collect();
    FitsImage { width: w, height: h, data, min: s(0.0), max: s((w * h - 1) as f32), wcs: None }
}

fn sky() -> Wcs {
    Wcs {
        ctype1: String::from("RA---TAN"),
        ctype2: String::from("DEC--TAN"),
        radesys: String::from("FK5"),
        crpix1: d(2.0),
        crpix2: d(2.0),
        crval1: d(150.0),
        crval2: d(2.0),
        cd11: d(-0.001),
        cd12: d(0.0),
        cd21: d(0.0),
        cd22: d(0.001),
    }
}

fn session(n: usize) -> State {
    let mut st = State::new();
    for i in 0..n {
        st.frames.push(Frame::new(image(4, 3), format!("f{}.fits", i + 1)));
    }
    st
}

fn menu(st: &mut State, u: &mut Ui, m: &str, i: &str) -> Next {
    handle_menu(st, u, &chars(m), &chars(i))
}

#[test]
fn a_new_session_is_empty() {
    let st = State::new();
    assert!(st.frames.is_empty());
    assert!(!st.has_frame());
    assert!(st.active_frame().is_none());
    assert_eq!(st.prefs.cmap, "grey");
    assert_eq!(st.prefs.bin, 1);
    assert_eq!(st.prefs.blink_ms, 500);
}

#[test]
fn switching_keeps_the_views() {
    let (mut st, mut u) = (session(2), ui());
    let before = u.view;
    let next = switch_frame(&mut st, &mut u, 1);
    assert!(next.show && next.refresh);
    assert_eq!(st.active, 1);
    assert_eq!(u.status, "frame 2/2 — f2.fits");
    assert_eq!(f(u.view.zoom), 32.0);
    assert_eq!(f(u.cursor_x), 2.0);
    assert_eq!(f(u.cursor_y), 1.0);
    switch_frame(&mut st, &mut u, 0);
    assert_eq!(u.view, before);
    assert_eq!(switch_frame(&mut st, &mut u, 0).refresh, false);
    assert_eq!(switch_frame(&mut st, &mut u, 7).refresh, false);
}

#[test]
fn next_and_previous_go_round() {
    let (mut st, mut u) = (session(3), ui());
    let mut seen = Vec::new();
    for _ in 0..3 {
        menu(&mut st, &mut u, "Frame", "Next");
        seen.push(st.active);
    }
    assert_eq!(seen, vec![1, 2, 0]);
    menu(&mut st, &mut u, "Frame", "Previous");
    assert_eq!(st.active, 2);
    menu(&mut st, &mut u, "Frame", "Next");
    assert_eq!(st.active, 0);
    let mut none = State::new();
    assert_eq!(menu(&mut none, &mut u, "Frame", "Next").refresh, false);
}

#[test]
fn deleting_frames() {
    let (mut st, mut u) = (session(3), ui());
    st.active = 1;
    let next = menu(&mut st, &mut u, "Frame", "Delete Frame");
    assert!(next.show && next.refresh);
    assert_eq!(u.status, "deleted frame 2 (2 remaining)");
    assert_eq!(st.active, 0);
    assert_eq!(st.frames[1].name, "f3.fits");
    menu(&mut st, &mut u, "Frame", "Delete Frame");
    menu(&mut st, &mut u, "Frame", "Delete Frame");
    assert!(st.frames.is_empty());
    assert_eq!(u.status, "deleted frame 1 (0 remaining)");
    menu(&mut st, &mut u, "Frame", "Delete Frame");
    assert_eq!(u.status, "no frames to delete");
}

#[test]
fn deleting_undoes_adding() {
    let (mut st, mut u) = (session(2), ui());
    st.active = 1;
    let view = u.view;
    load_into(&mut st, &mut u, image(9, 9), String::from("n"), String::from("/n"));
    assert_eq!(st.frames.len(), 3);
    menu(&mut st, &mut u, "Frame", "Delete Frame");
    assert_eq!((st.frames.len(), st.active), (2, 1));
    assert_eq!(u.view, view);
    assert_eq!(st.frames[1].name, "f2.fits");
}

#[test]
fn preferences_are_applied_once() {
    let mut st = session(1);
    st.prefs.cmap = String::from("cool");
    st.prefs.smooth = String::from("boxcar:5");
    st.prefs.bin = 4;
    let p = st.prefs.clone();
    apply_prefs_to_frame(&p, &mut st.frames[0]);
    let first = (st.frames[0].cmap, st.frames[0].smooth_kind, st.frames[0].bin_factor);
    apply_prefs_to_frame(&p, &mut st.frames[0]);
    let second = (st.frames[0].cmap, st.frames[0].smooth_kind, st.frames[0].bin_factor);
    assert_eq!(first, second);
    assert_eq!(first, (Colormap::Cool, SmoothKind::Boxcar { n: 5 }, 4));
}

#[test]
fn matching_views() {
    let (mut st, mut u) = (session(3), ui());
    st.frames[0].view_zoom = s(7.0);
    st.frames[0].view_pan_x = s(-1.0);
    menu(&mut st, &mut u, "Frame", "Match…");
    assert_eq!(u.status, "matched view of 3 frames to active");
    for fr in &st.frames {
        assert_eq!(f(fr.view_zoom), 7.0);
        assert_eq!(f(fr.view_pan_x), -1.0);
    }
    let mut none = State::new();
    menu(&mut none, &mut u, "Frame", "Match…");
    assert_eq!(u.status, "match: no active frame");
}

#[test]
fn locks_share_and_let_go() {
    let (mut st, mut u) = (session(2), ui());
    st.frames[0].stretch = Stretch::Log;
    st.frames[0].limits_mode = LimitsMode::MinMax;
    menu(&mut st, &mut u, "Frame", "Lock Scale");
    assert_eq!(u.status, "lock scale: on");
    assert!(st.lock_scale);
    assert_eq!(st.frames[1].stretch, Stretch::Log);
    assert_eq!(st.frames[1].limits_mode, LimitsMode::MinMax);
    menu(&mut st, &mut u, "Frame", "Lock Scale");
    assert_eq!(u.status, "lock scale: off");
    menu(&mut st, &mut u, "Frame", "Lock Color");
    menu(&mut st, &mut u, "Color", "heat");
    assert_eq!(st.frames[0].cmap, Colormap::Heat);
    assert_eq!(st.frames[1].cmap, Colormap::Heat);
    st.frames[0].view_zoom = s(5.0);
    menu(&mut st, &mut u, "Frame", "Lock Zoom");
    assert_eq!(f(st.frames[1].view_zoom), 5.0);
    st.frames[0].view_pan_y = s(9.0);
    menu(&mut st, &mut u, "Frame", "Lock Pan");
    assert_eq!(f(st.frames[1].view_pan_y), 9.0);
    assert_eq!(u.status, "lock pan: on");
}

#[test]
fn choices_of_the_active_frame() {
    let (mut st, mut u) = (session(2), ui());
    assert!(menu(&mut st, &mut u, "Scale", "asinh").refresh);
    assert_eq!(st.frames[0].stretch, Stretch::Asinh);
    assert_eq!(st.frames[1].stretch, Stretch::Linear);
    menu(&mut st, &mut u, "Scale", "minmax");
    assert_eq!(st.frames[0].limits_mode, LimitsMode::MinMax);
    menu(&mut st, &mut u, "Bin", "4");
    assert_eq!(st.frames[0].bin_factor, 4);
    assert_eq!(u.status, "bin: 4×4");
    menu(&mut st, &mut u, "Bin", "0");
    assert_eq!(st.frames[0].bin_factor, 1);
    menu(&mut st, &mut u, "Bin", "Sum");
    assert_eq!(st.frames[0].bin_mode, BinMode::Sum);
    assert_eq!(u.status, "bin mode: sum");
    assert!(!menu(&mut st, &mut u, "Bin", "many").refresh);
    menu(&mut st, &mut u, "Frame", "Rotate 180°");
    assert_eq!(st.frames[0].orientation, Orientation::Rot180);
    assert_eq!(u.status, "orientation: rot180");
    menu(&mut st, &mut u, "Frame", "Reset Orientation");
    assert_eq!(st.frames[0].orientation, Orientation::Identity);
    menu(&mut st, &mut u, "Scale", "cubic");
    assert_eq!(u.status, "Scale ▸ cubic — not implemented yet");
    assert!(!menu(&mut st, &mut u, "Color", "plaid").refresh);
    menu(&mut st, &mut u, "Help", "About ds9-rust");
    assert!(u.status.starts_with("ds9-rust 0.1"));
}

#[test]
fn the_smoothing_cycle() {
    let (mut st, mut u) = (session(1), ui());
    let mut seen = Vec::new();
    for _ in 0..4 {
        menu(&mut st, &mut u, "Analysis", "Smooth (cycle)");
        seen.push(u.status.clone());
    }
    assert_eq!(
        seen,
        vec!["smooth: gaussian σ=2.0", "smooth: gaussian σ=4.0", "smooth: gaussian σ=8.0", "smooth: off"]
    );
    menu(&mut st, &mut u, "Analysis", "Smooth Boxcar");
    assert_eq!(u.status, "smooth: boxcar 3×3");
    menu(&mut st, &mut u, "Analysis", "Smooth (cycle)");
    assert_eq!(st.frames[0].smooth_kind, SmoothKind::Boxcar { n: 5 });
    assert_eq!(u.status, "smooth: boxcar 5×5");
    menu(&mut st, &mut u, "Analysis", "Smooth Median");
    assert_eq!(st.frames[0].smooth_kind, SmoothKind::Median { n: 3 });
    menu(&mut st, &mut u, "Analysis", "Smooth Off");
    assert_eq!(st.frames[0].smooth_kind, SmoothKind::Gaussian { sigma: s(0.0) });
    menu(&mut st, &mut u, "Analysis", "Smooth Gaussian");
    assert_eq!(u.status, "smooth: gaussian σ=2");
}

#[test]
fn panels_are_toggled() {
    let (mut st, mut u) = (session(1), ui());
    menu(&mut st, &mut u, "View", "Panner");
    assert!(u.panner);
    assert_eq!(u.status, "panner: shown");
    menu(&mut st, &mut u, "View", "Magnifier");
    menu(&mut st, &mut u, "View", "Magnifier");
    assert_eq!(u.status, "magnifier: hidden");
    menu(&mut st, &mut u, "Frame", "Blink");
    assert_eq!(u.status, "blink: on (cycling every 500 ms)");
    menu(&mut st, &mut u, "Frame", "HDU Movie");
    assert_eq!(u.status, "HDU movie: on (cycling every 800 ms)");
    menu(&mut st, &mut u, "Catalog", "Online Query…");
    assert_eq!(u.status, "online catalog query: shown");
    assert_eq!(menu(&mut st, &mut u, "Edit", "Preferences…").request, Request::ShowPreferences);
    menu(&mut st, &mut u, "Edit", "Preferences…");
    assert_eq!(u.status, "preferences: hidden");
    assert_eq!(menu(&mut st, &mut u, "Region", "Properties…").request, Request::ShowProperties);
    assert_eq!(menu(&mut st, &mut u, "Analysis", "Histogram…").request, Request::DrawHistogram);
    assert!(u.histogram);
    assert_eq!(menu(&mut st, &mut u, "Analysis", "Contour Levels…").request, Request::DrawContours);
    assert_eq!(u.status, "contours: shown (5 levels)");
    let mut none = State::new();
    menu(&mut none, &mut u, "Analysis", "Histogram…");
    assert_eq!(u.status, "histogram: no image loaded");
    menu(&mut none, &mut u, "Analysis", "Contour Levels…");
    assert_eq!(u.status, "contour: no image loaded");
    menu(&mut none, &mut u, "Analysis", "Statistics…");
    assert_eq!(u.status, "stats: no image loaded");
    menu(&mut none, &mut u, "Analysis", "Pixel Table…");
    assert_eq!(u.status, "pixel table: no image loaded");
}

#[test]
fn requests_that_need_a_frame() {
    let (mut st, mut none, mut u) = (session(1), State::new(), ui());
    for (item, request, complaint) in [
        ("Save Image…", Request::SavePng, "save image: no active frame"),
        ("Save FITS…", Request::SaveFits, "save fits: no active frame"),
        ("Save TIFF…", Request::SaveTiff, "save tiff: no active frame"),
        ("Save PostScript…", Request::SavePostscript, "save ps: no active frame"),
        ("Print…", Request::Print, "print: no active frame"),
    ] {
        assert_eq!(menu(&mut st, &mut u, "File", item).request, request);
        assert_eq!(menu(&mut none, &mut u, "File", item).request, Request::Nothing);
        assert_eq!(u.status, complaint);
    }
    assert_eq!(menu(&mut st, &mut u, "File", "Quit").request, Request::Quit);
    assert_eq!(menu(&mut st, &mut u, "File", "Open…").request, Request::OpenFile);
    menu(&mut st, &mut u, "File", "Save JPEG…");
    assert!(u.status.starts_with("JPEG export not built in"));
    assert_eq!(menu(&mut st, &mut u, "File", "HDU Navigator…").request, Request::ListUnits);
    u.units = true;
    menu(&mut st, &mut u, "File", "HDU Navigator…");
    assert_eq!(u.status, "HDU navigator: hidden");
}

#[test]
fn the_grid_needs_coordinates() {
    let (mut st, mut u) = (session(1), ui());
    menu(&mut st, &mut u, "View", "Coordinate Grid");
    assert_eq!(u.status, "grid: active frame has no WCS");
    st.frames[0].fits.wcs = Some(sky());
    assert_eq!(menu(&mut st, &mut u, "View", "Coordinate Grid").request, Request::DrawGrid);
    grid_drawn(&mut u, false);
    assert_eq!(u.status, "grid: WCS projection failed");
    grid_drawn(&mut u, true);
    assert!(u.grid);
    menu(&mut st, &mut u, "View", "Coordinate Grid");
    assert!(!u.grid);
    assert_eq!(u.status, "grid: hidden");
}

#[test]
fn composites_need_three_frames_of_a_size() {
    let (mut st, mut u) = (session(2), ui());
    menu(&mut st, &mut u, "Frame", "RGB Composite");
    assert_eq!(u.status, "RGB: need at least 3 frames loaded");
    st.frames.push(Frame::new(image(5, 3), String::from("x")));
    menu(&mut st, &mut u, "Frame", "RGB Composite");
    assert_eq!(u.status, "RGB: frames 1-3 must share the same dimensions");
    st.frames[2] = Frame::new(image(4, 3), String::from("x"));
    assert_eq!(menu(&mut st, &mut u, "Frame", "RGB Composite").request, Request::Composite);
    assert_eq!(u.status, "RGB composite from frames 1-3 (4×3)");
}

#[test]
fn frames_side_by_side() {
    let (mut st, mut u) = (session(1), ui());
    menu(&mut st, &mut u, "Frame", "Tile Frames");
    assert_eq!(u.status, "tile: load 2+ frames first");
    let mut st = session(3);
    menu(&mut st, &mut u, "Frame", "Tile Frames");
    assert!(st.tile_mode);
    assert_eq!(u.status, "tile: showing 3 frames (click a tile to select)");
    let r = refresh_view(&st, &mut u);
    assert_eq!(r.scene, Scene::Tiles);
    assert_eq!((r.width, r.height), (800, 600));
    assert_eq!(r.filename, "[tile] 3 frames");
    assert_eq!(f(u.view.zoom), 1.0);
    let next = click(&mut st, &mut u, s(500.0), s(100.0));
    assert!(next.refresh);
    assert_eq!(st.active, 1);
    assert!(!st.tile_mode);
    assert_eq!(u.status, "tile: selected frame 2 (was 1)");
}

#[test]
fn regions_come_and_go() {
    let (mut st, mut u) = (session(1), ui());
    menu(&mut st, &mut u, "Region", "New");
    menu(&mut st, &mut u, "Region", "New");
    menu(&mut st, &mut u, "Region", "Info");
    assert_eq!(u.status, "regions: 2");
    match &st.frames[0].markers[0].shape {
        Shape::Circle { center, r } => {
            assert_eq!((g(center.x), g(center.y), g(*r)), (2.0, 1.5, 4.0))
        }
        _ => panic!("no circle"),
    }
    menu(&mut st, &mut u, "Region", "Delete Selected");
    assert_eq!(u.status, "no region selected");
    st.frames[0].selected_marker = Some(1);
    menu(&mut st, &mut u, "Region", "Info");
    assert_eq!(u.status, "regions: 2  (selected #2)");
    menu(&mut st, &mut u, "Region", "Delete Selected");
    assert_eq!(u.status, "deleted region 2 (now 1 regions)");
    assert_eq!(st.frames[0].selected_marker, None);
    menu(&mut st, &mut u, "Region", "Delete All");
    assert_eq!(u.status, "cleared 1 regions");
    assert!(st.frames[0].markers.is_empty());
    assert!(!st.delete_region(0));
}

#[test]
fn statistics_and_pixels() {
    let (mut st, mut u) = (session(1), ui());
    menu(&mut st, &mut u, "Analysis", "Statistics…");
    assert_eq!(
        u.status,
        "stats: n=12  min=0.0000  max=11.0000  mean=5.5000  median=5.5000  σ=3.4521"
    );
    menu(&mut st, &mut u, "Analysis", "Pixel Table…");
    assert!(u.status.starts_with("5×5 around (1,1):  "));
    assert!(u.status.contains("    5.000 "));
    assert!(u.status.contains("    ——   "));
    for v in st.frames[0].fits.data.iter_mut() {
        *v = s(f32::NAN);
    }
    menu(&mut st, &mut u, "Analysis", "Statistics…");
    assert_eq!(u.status, "stats: no finite samples");
    st.frames[0].fits.data[3] = s(1.0);
    st.frames[0].fits.data[7] = s(3.0);
    menu(&mut st, &mut u, "Analysis", "Statistics…");
    assert_eq!(
        u.status,
        "stats: n=2  min=1.0000  max=3.0000  mean=2.0000  median=2.0000  σ=1.0000"
    );
}

#[test]
fn pixels_under_the_cursor() {
    let (mut st, mut u) = (session(1), ui());
    u.cursor_x = s(0.0);
    u.cursor_y = s(0.0);
    assert_eq!(ask(&mut st, &mut u, "value"), "ok 8");
    menu(&mut st, &mut u, "Analysis", "Pixel Table…");
    assert!(u.status.starts_with("5×5 around (0,0):  "));
    assert!(u.status.contains("    8.000 "));
    u.cursor_y = s(2.0);
    assert_eq!(ask(&mut st, &mut u, "value"), "ok 0");
}

#[test]
fn zooming() {
    let (mut st, mut u) = (session(1), ui());
    menu(&mut st, &mut u, "Zoom", "Zoom In");
    assert_eq!(f(u.view.zoom), 3.0);
    menu(&mut st, &mut u, "Zoom", "Zoom Out");
    assert_eq!(f(u.view.zoom), 2.0);
    menu(&mut st, &mut u, "Zoom", "16×");
    assert_eq!(f(u.view.zoom), 16.0);
    menu(&mut st, &mut u, "Zoom", "1000×");
    assert_eq!(f(u.view.zoom), 64.0);
    menu(&mut st, &mut u, "Zoom", "x×");
    assert_eq!(f(u.view.zoom), 64.0);
    menu(&mut st, &mut u, "Zoom", "Fit");
    assert_eq!(f(u.view.zoom), 32.0);
    assert_eq!(f(u.view.pan_x), 0.0);
    menu(&mut st, &mut u, "Edit", "Reset Crop");
    assert_eq!(f(u.view.zoom), 1.0);
    menu(&mut st, &mut u, "Zoom", "Sideways");
    assert_eq!(u.status, "Zoom ▸ Sideways — not implemented yet");
}

#[test]
fn cropping() {
    let (mut st, mut u) = (session(1), ui());
    menu(&mut st, &mut u, "Edit", "Crop to Selected");
    assert_eq!(u.status, "crop: select a region first (or load some — Region ▸ Load…)");
    st.add_circle(d(2.0), d(2.0), d(1.0));
    st.add_circle(d(3.0), d(2.0), d(1.0));
    assert_eq!(menu(&mut st, &mut u, "Edit", "Crop to Selected").request, Request::Crop);
    assert_eq!(crop_regions(&st.frames[0]), vec![0, 1]);
    st.frames[0].selected_marker = Some(1);
    assert_eq!(crop_regions(&st.frames[0]), vec![1]);
    let boxes = vec![
        Rect { x0: d(10.0), y0: d(20.0), x1: d(30.0), y1: d(40.0) },
        Rect { x0: d(20.0), y0: d(10.0), x1: d(50.0), y1: d(30.0) },
    ];
    crop_to(&mut u, &boxes);
    assert_eq!(f(u.view.zoom), 20.0);
    assert_eq!(f(u.view.pan_x), 400.0 - 30.0 * 20.0);
    assert_eq!(f(u.view.pan_y), 300.0 - 25.0 * 20.0);
    assert_eq!(u.status, "crop: 40×30 px → zoom 20.00×");
}

#[test]
fn measuring_regions() {
    let (mut st, mut u) = (session(1), ui());
    assert!(show_projection(&st, &mut u).is_none());
    assert_eq!(u.status, "projection: load or draw a Line region first (use Region ▸ Load…)");
    assert!(show_profile(&st, &mut u).is_none());
    assert_eq!(u.status, "radial profile: select a Circle / Ellipse / Annulus region first");
    menu(&mut st, &mut u, "Region", "Centroid");
    assert_eq!(u.status, "centroid: select a Circle / Box / Ellipse / Annulus region first");
    let m = ds9::marker::parse_reg("line(1,1,4,1)\ncircle(2,2,2)\n").unwrap();
    st.set_regions(m);
    let p = show_projection(&st, &mut u).unwrap();
    assert_eq!(p.caption, "PROJECTION  len=3.0 px  n=3/3");
    assert_eq!(u.status, "projection: 3 samples along 3.0 px");
    assert_eq!((p.canvas.width, p.canvas.height), (760, 420));
    show_projection(&st, &mut u);
    assert_eq!(u.status, "projection: hidden");
    let p = show_profile(&st, &mut u).unwrap();
    assert_eq!(p.caption, "RADIAL PROFILE  (2.0, 2.0)  r≤2.0  40 bins");
    assert_eq!(u.status, "radial profile: 40 bins, r≤2.0 px");
}

#[test]
fn centring_a_region() {
    let mut st = State::new();
    let mut img = image(21, 21);
    for v in img.data.iter_mut() {
        *v = s(0.0);
    }
    for (x, y) in [(11, 12), (10, 12), (12, 12), (11, 11), (11, 13)] {
        img.data[y * 21 + x] = s(100.0);
    }
    st.frames.push(Frame::new(img, String::from("star")));
    let mut u = ui();
    st.add_circle(d(10.0), d(10.0), d(5.0));
    let next = menu(&mut st, &mut u, "Region", "Centroid");
    assert!(next.refresh, "{}", u.status);
    assert_eq!(st.frames[0].selected_marker, Some(0));
    assert!(u.status.starts_with("centroid: (10.00, 10.00) → (12.00, "), "{}", u.status);
    st.set_regions(vec![Marker::circle(d(3.0), d(3.0), d(2.0))]);
    menu(&mut st, &mut u, "Region", "Centroid");
    assert_eq!(u.status, "centroid: not enough flux above local background");
}

#[test]
fn catalogs_in_words() {
    let (mut st, mut u) = (session(1), ui());
    menu(&mut st, &mut u, "Catalog", "Info");
    assert_eq!(u.status, "no catalog loaded");
    let c = Catalog::from_tsv("X\tY\"\tM\n1\t2\t3\n");
    let next = catalog_loaded(&mut st, &mut u, c, "/tmp/a.tsv");
    assert!(next.refresh);
    assert_eq!(
        u.status,
        "loaded 1 catalog rows from /tmp/a.tsv (no X/Y_IMAGE columns — points won't plot)"
    );
    menu(&mut st, &mut u, "Catalog", "Info");
    assert_eq!(u.status, "catalog: 1 rows, 3 cols  →  X/Y = None");
    let c = Catalog::from_tsv("X\tY\n1\t2\n3\t4\n");
    catalog_loaded(&mut st, &mut u, c, "b");
    assert_eq!(u.status, "loaded 2 catalog rows from b (X=X, Y=Y)");
    menu(&mut st, &mut u, "Catalog", "Info");
    assert_eq!(u.status, "catalog: 2 rows, 2 cols  →  X/Y = Some((\"X\", \"Y\"))");
    menu(&mut st, &mut u, "Catalog", "Clear");
    assert!(st.frames[0].catalog.is_none());
    menu(&mut st, &mut u, "Catalog", "Run SExtractor…");
    assert_eq!(u.status, "sextractor: active frame has no on-disk path (RGB / synthetic)");
    st.frames[0].source_path = Some(String::from("/x.fits"));
    assert_eq!(menu(&mut st, &mut u, "Catalog", "Run SExtractor…").request, Request::Extract);
    sources_found(&mut st, &mut u, 0, Catalog::from_tsv("X\tY\n1\t2\n"), "f1.fits", "sex");
    assert_eq!(u.status, "sextractor: detected 1 sources from f1.fits (sex)");
}

#[test]
fn loading_images() {
    let (mut st, mut u) = (State::new(), ui());
    st.prefs.cmap = String::from("heat");
    st.prefs.bin = 2;
    load_into(&mut st, &mut u, image(4, 3), String::from("a.fits"), String::from("/d/a.fits"));
    assert_eq!(u.status, "loaded 4 × 3    range 0.0000 … 11.0000    [frame 1]");
    assert_eq!(st.frames[0].cmap, Colormap::Heat);
    assert_eq!(st.frames[0].bin_factor, 2);
    assert_eq!(st.frames[0].source_path.as_deref(), Some("/d/a.fits"));
    st.frames[0].fits.wcs = Some(sky());
    add_mosaic(&mut st, &mut u, image(5, 6));
    assert_eq!(u.status, "mosaic: 1 frames → 5×6    [frame 2]");
    assert_eq!(st.frames[1].name, "mosaic (1 frames)");
    assert_eq!(st.active, 1);
    assert_eq!(save_name("a.fits.fits", ".png"), "a.png");
    assert_eq!(save_name("b.fit", ".tif"), "b.tif");
    assert_eq!(save_name("c.txt", ".eps"), "c.txt.eps");
}

fn unit(idx: usize, kind: &'static str, name: &str, dims: Option<(usize, usize)>) -> HduInfo {
    HduInfo { idx, kind, name: String::from(name), dims }
}

#[test]
fn the_units_of_a_file() {
    let units = vec![
        unit(0, "PRIMARY", "PRIMARY", None),
        unit(1, "TABLE", "CAT", None),
        unit(2, "IMAGE", "SCI", Some((4, 3))),
    ];
    assert!(is_loadable_hdu("TILE-COMPRESSED"));
    assert!(!is_loadable_hdu("TABLE"));
    assert_eq!(advance_hdu(&units, 0), Ok(2));
    assert_eq!(advance_hdu(&units, 2), Ok(0));
    assert_eq!(advance_hdu(&vec![unit(0, "TABLE", "T", None)], 0), Err("HDU: no other loadable HDUs"));
    assert_eq!(advance_hdu(&Vec::new(), 0), Err("HDU: file has no HDUs"));
    let single = vec![unit(0, "PRIMARY", "PRIMARY", Some((4, 3)))];
    assert_eq!(advance_hdu(&single, 0), Err("HDU: no other loadable HDUs"));
    assert!(unit_choice(&units, 2).is_ok());
    assert_eq!(unit_choice(&units, 1).unwrap_err(), "HDU [1] is TABLE (not loadable)");
    assert_eq!(unit_choice(&units, 9).unwrap_err(), "HDU load: no HDU [9]");
    let rows = populate_hdu_panel(&units, 2).ok().unwrap();
    assert_eq!(rows[2].label, "[ 2] IMAGE            SCI 4×3");
    assert_eq!(rows[0].label, "[ 0] PRIMARY          PRIMARY");
    assert!(rows[2].active && rows[2].loadable && !rows[1].loadable);
    assert_eq!(populate_hdu_panel(&Vec::new(), 0).err(), Some("HDU navigator: file has no HDUs"));
    assert_eq!(units_text(&units), "0 PRIMARY PRIMARY\n1 TABLE CAT\n2 IMAGE SCI");
    let (mut st, mut u) = (session(1), ui());
    assert_eq!(unit_source(&st, UnitUse::Advance), Err("HDU: active frame is synthetic"));
    assert_eq!(
        unit_source(&st, UnitUse::List),
        Err("HDU navigator: active frame is synthetic (no source file)")
    );
    assert_eq!(unit_source(&State::new(), UnitUse::Load), Err("HDU load: no source path"));
    load_hdu_into_active(&mut st, &mut u, &units[2], image(8, 6), "a.fits");
    assert_eq!(st.frames[0].name, "a.fits[SCI]");
    assert_eq!(st.frames[0].hdu_idx, 2);
    assert_eq!(u.status, "HDU [2] IMAGE SCI (8×6)");
    assert_eq!(f(u.view.pan_x), 0.0);
}

#[test]
fn regions_from_files() {
    let (mut st, mut u) = (session(1), ui());
    let ms = ds9::marker::parse_reg("circle(1,2,3)\n").unwrap();
    regions_loaded(&mut st, &mut u, ms, "r.reg", true);
    assert_eq!(u.status, "loaded 1 regions from r.reg  [no WCS — sky regions assumed image]");
    st.frames[0].fits.wcs = Some(sky());
    st.frames[0].selected_marker = Some(0);
    regions_loaded(&mut st, &mut u, Vec::new(), "r.reg", true);
    assert_eq!(u.status, "loaded 0 regions from r.reg");
    assert_eq!(st.frames[0].selected_marker, None);
}

#[test]
fn the_crosshair() {
    let (mut st, mut u) = (session(2), ui());
    assert_eq!(menu(&mut st, &mut u, "View", "Crosshair").request, Request::PlaceCrosshair);
    let p = image_point(&st, d(1.0), d(1.0)).unwrap();
    assert_eq!((g(p.0), g(p.1)), (2.0, 2.0));
    let next = set_crosshair_at_display(&mut st, &mut u, d(1.0), d(1.0), None);
    assert!(next.crosshair);
    assert_eq!(u.status, "crosshair: (2.0, 2.0)  [no WCS]");
    assert_eq!(crosshair_sky(&st), None);
    let at = project_crosshair(&st, None).unwrap();
    assert_eq!((f(at.0), f(at.1)), (1.0, 1.0));
    st.active = 1;
    assert_eq!(project_crosshair(&st, None), None);
    st.active = 0;
    st.frames[0].fits.wcs = Some(sky());
    st.frames[1].fits.wcs = Some(sky());
    set_crosshair_at_display(&mut st, &mut u, d(1.0), d(1.0), Some((d(150.0), d(2.0))));
    assert_eq!(u.status, "crosshair: (2.0, 2.0)  α=150.000000°  δ=2.000000°");
    st.active = 1;
    assert_eq!(crosshair_sky(&st), Some((d(150.0), d(2.0))));
    let at = project_crosshair(&st, Some((d(3.0), d(1.0)))).unwrap();
    assert_eq!((f(at.0), f(at.1)), (2.0, 2.0));
    let next = menu(&mut st, &mut u, "View", "Crosshair");
    assert!(next.crosshair && st.crosshair.is_none());
    assert_eq!(u.status, "crosshair: cleared");
}

#[test]
fn pressing_and_dragging() {
    let (mut st, mut u) = (session(1), ui());
    st.add_circle(d(2.0), d(2.0), d(1.0));
    press(&mut st, &mut u, s(1.0), s(1.0));
    assert_eq!(u.status, "select region #1");
    assert!(u.marker_drag);
    assert!(!drag(&mut st, &mut u, s(2.0), s(1.0)));
    u.mode = String::from("edit");
    press(&mut st, &mut u, s(1.0), s(1.0));
    assert_eq!(u.status, "drag region #1");
    assert!(drag(&mut st, &mut u, s(2.0), s(0.0)));
    assert_eq!(u.status, "drag region #1  Δ=(+1.0, +1.0)");
    match &st.frames[0].markers[0].shape {
        Shape::Circle { center, .. } => assert_eq!((g(center.x), g(center.y)), (3.0, 3.0)),
        _ => panic!("no circle"),
    }
    release(&mut st, &mut u);
    assert!(!u.marker_drag);
    assert!(!drag(&mut st, &mut u, s(2.0), s(1.0)));
    press(&mut st, &mut u, s(-50.0), s(1.0));
    assert!(!u.marker_drag);
    set_mode(&mut u, "crosshair");
    assert_eq!(u.status, "mode: crosshair");
}

#[test]
fn clicking() {
    let (mut st, mut u) = (session(1), ui());
    click(&mut st, &mut u, s(1.0), s(1.25));
    assert_eq!(u.status, "click @ image (1.0, 1.2)");
    u.mode = String::from("edit");
    click(&mut st, &mut u, s(1.0), s(1.0));
    assert_eq!(u.status, "region @ (2.0, 2.0)  r=6.0");
    assert_eq!(st.frames[0].markers.len(), 1);
    u.mode = String::from("crosshair");
    assert_eq!(click(&mut st, &mut u, s(1.0), s(1.0)).request, Request::MarkCrosshair);
    u.mode = String::from("pan");
    st.set_catalog(0, Catalog::from_tsv("X\tY\n40\t40\n3\t2\n"));
    click(&mut st, &mut u, s(1.0), s(1.0));
    assert_eq!(u.status, "selected catalog row 2 @ (2.0, 2.0)");
    assert_eq!(st.frames[0].selected_catalog, Some(1));
    let (at, next) = pick_row(&mut st, &mut u, 1);
    assert!(next.refresh);
    assert_eq!(u.status, "row 2 @ (3.0, 2.0)");
    let at = at.unwrap();
    assert_eq!((f(at.0), f(at.1)), (2.0, 1.0));
    assert!(pick_row(&mut st, &mut u, 5).0.is_none());
    click(&mut State::new(), &mut u, s(1.0), s(1.0));
    assert_eq!(u.status, "click @ image (1.0, 1.0)");
}

#[test]
fn the_readout() {
    let mut st = session(1);
    let r = readout(&st, s(1.0), s(1.0), None);
    assert_eq!(r.coords, "x:     2.0    y:     2.0");
    assert_eq!(r.value, "value:     5.0000");
    assert_eq!(r.wcs, "wcs: ——");
    let r = readout(&st, s(-9.0), s(1.0), None);
    assert_eq!(r.value, "value: ——");
    st.frames[0].fits.wcs = Some(sky());
    assert_eq!(
        sky_of(&st.frames[0].fits, Some((d(150.0), d(-2.5)))),
        "fk5 10:00:00.00  -02:30:00.0"
    );
    let r = readout(&State::new(), s(0.0), s(0.0), None);
    assert_eq!(r.coords, "x: ——      y: ——");
}

#[test]
fn what_the_window_shows() {
    let (mut st, mut u) = (State::new(), ui());
    let r = refresh_view(&st, &mut u);
    assert_eq!(r.scene, Scene::Empty);
    assert_eq!((r.counter.as_str(), r.filename.as_str()), ("0/0", "—"));
    assert_eq!((r.stretch, r.limits, r.cmap), ("linear", "zscale", "grey"));
    st = session(2);
    st.active = 1;
    st.add_circle(d(2.0), d(2.0), d(1.0));
    let r = refresh_view(&st, &mut u);
    assert_eq!(r.scene, Scene::Frame);
    assert_eq!((r.counter.as_str(), r.filename.as_str()), ("2/2", "f2.fits"));
    assert_eq!((r.width, r.height), (4, 3));
    assert_eq!(r.marks.len(), 1);
    assert!(r.lines.is_none());
    st.set_regions(ds9::marker::parse_reg("line(1,1,3,3)\n").unwrap());
    assert!(refresh_view(&st, &mut u).lines.is_some());
}

fn ask(st: &mut State, u: &mut Ui, line: &str) -> String {
    dispatch_ipc(st, u, line).text
}

#[test]
fn lines_of_the_protocol() {
    let (mut st, mut u) = (session(2), ui());
    assert_eq!(ask(&mut st, &mut u, "  "), "");
    assert_eq!(ask(&mut st, &mut u, "xpaaccess"), "yes");
    assert_eq!(ask(&mut st, &mut u, "version"), "ds9-rust 0.1");
    assert!(ask(&mut st, &mut u, "help").starts_with("commands: quit|exit | xpaaccess"));
    assert!(ask(&mut st, &mut u, "help").ends_with("hdu next|list|N | movie on|off | help"));
    assert_eq!(ask(&mut st, &mut u, "frame next\n"), "ok");
    assert_eq!(st.active, 1);
    assert_eq!(ask(&mut st, &mut u, "frame prev"), "ok");
    assert_eq!(st.active, 0);
    assert_eq!(ask(&mut st, &mut u, "frame 2"), "ok");
    assert_eq!(st.active, 1);
    assert_eq!(ask(&mut st, &mut u, "frame 0"), "ok");
    assert_eq!(st.active, 1);
    assert_eq!(ask(&mut st, &mut u, "scale log"), "ok");
    assert_eq!(st.frames[1].stretch, Stretch::Log);
    assert_eq!(ask(&mut st, &mut u, "scale limits 1.5 9"), "ok");
    assert_eq!(st.frames[1].limits_mode, LimitsMode::User { low: s(1.5), high: s(9.0) });
    assert_eq!(ask(&mut st, &mut u, "scale limits 9 1"), "err scale limits LO HI (HI > LO)");
    assert_eq!(ask(&mut st, &mut u, "cmap heat"), "ok");
    assert_eq!(st.frames[1].cmap, Colormap::Heat);
    assert_eq!(ask(&mut st, &mut u, "bin 8"), "ok");
    assert_eq!(st.frames[1].bin_factor, 8);
    assert_eq!(ask(&mut st, &mut u, "zoom 4"), "ok");
    assert_eq!(f(u.view.zoom), 4.0);
    assert_eq!(ask(&mut st, &mut u, "zoom in"), "ok");
    assert_eq!(f(u.view.zoom), 6.0);
    assert_eq!(ask(&mut st, &mut u, "zoom reset"), "ok");
    assert_eq!(f(u.view.zoom), 1.0);
    assert_eq!(ask(&mut st, &mut u, "mode edit"), "ok");
    assert_eq!(u.mode, "edit");
    assert_eq!(ask(&mut st, &mut u, "movie on"), "ok");
    assert!(u.movie);
    assert_eq!(ask(&mut st, &mut u, "movie sideways"), "err unknown: movie sideways");
    assert_eq!(ask(&mut st, &mut u, "value"), "ok 6");
    u.cursor_x = s(99.0);
    assert_eq!(ask(&mut st, &mut u, "value"), "err out of bounds");
    assert_eq!(ask(&mut State::new(), &mut u, "value"), "err no frame");
    assert_eq!(ask(&mut st, &mut u, "fly  away"), "err unknown: fly  away");
    let r = dispatch_ipc(&mut st, &mut u, "exit");
    assert_eq!((r.text.as_str(), r.next.request), ("ok", Request::Quit));
}

#[test]
fn panning_and_marking_by_line() {
    let (mut st, mut u) = (session(1), ui());
    assert_eq!(ask(&mut st, &mut u, "pan to 2 2"), "ok");
    assert_eq!((f(u.view.pan_x), f(u.view.pan_y)), (398.0, 298.0));
    assert_eq!(ask(&mut st, &mut u, "pan to 2 two"), "err pan to X Y");
    assert_eq!(ask(&mut State::new(), &mut u, "pan to 1 1"), "err no frame");
    let r = dispatch_ipc(&mut st, &mut u, "crosshair 2 3");
    assert_eq!(r.next.request, Request::MarkCrosshair);
    assert_eq!((f(r.point.0), f(r.point.1)), (1.0, 0.0));
    assert_eq!(ask(&mut st, &mut u, "crosshair 2 x"), "err crosshair X Y");
    set_crosshair_at_display(&mut st, &mut u, d(1.0), d(1.0), None);
    assert_eq!(ask(&mut st, &mut u, "crosshair clear"), "ok");
    assert!(st.crosshair.is_none());
}

#[test]
fn regions_by_line() {
    let (mut st, mut u) = (session(1), ui());
    st.add_circle(d(1.0), d(1.0), d(1.0));
    st.add_circle(d(2.0), d(1.0), d(1.0));
    assert_eq!(ask(&mut st, &mut u, "regions delete 5"), "err: index out of range");
    assert_eq!(ask(&mut st, &mut u, "regions delete 0"), "err: regions delete all|N (1-based)");
    assert_eq!(ask(&mut st, &mut u, "regions delete x"), "err: regions delete all|N (1-based)");
    assert_eq!(ask(&mut st, &mut u, "regions delete 1"), "ok");
    assert_eq!(st.frames[0].markers.len(), 1);
    assert_eq!(ask(&mut st, &mut u, "regions delete all"), "ok");
    assert!(st.frames[0].markers.is_empty());
    let r = dispatch_ipc(&mut st, &mut u, "region load /tmp/x.reg");
    assert_eq!((r.text.as_str(), r.path.as_str()), ("ok", "/tmp/x.reg"));
    assert_eq!(r.next.request, Request::RegionsFrom);
    let r = dispatch_ipc(&mut st, &mut u, "regions save y.reg");
    assert_eq!((r.text.as_str(), r.next.request), ("", Request::RegionsTo));
    assert_eq!(ask(&mut State::new(), &mut u, "region save y"), "err no active frame");
    assert_eq!(save_reply(None), "ok");
    assert_eq!(save_reply(Some("disk full")), "err disk full");
    assert_eq!(regions_reply(3, None), "ok 3 regions");
    assert_eq!(regions_reply(3, Some("no")), "err no");
}

#[test]
fn files_by_line() {
    let (mut st, mut u) = (session(1), ui());
    for (line, request) in [
        ("save png a", Request::PngTo),
        ("save fits a", Request::FitsTo),
        ("save tiff a", Request::TiffTo),
        ("save eps a", Request::PostscriptTo),
    ] {
        let r = dispatch_ipc(&mut st, &mut u, line);
        assert_eq!((r.next.request, r.path.as_str()), (request, "a"));
        assert_eq!(ask(&mut State::new(), &mut u, line), "err no frame");
    }
    assert_eq!(dispatch_ipc(&mut st, &mut u, "file open p").next.request, Request::OpenPath);
    assert_eq!(dispatch_ipc(&mut st, &mut u, "samp votable t").next.request, Request::VotableFrom);
    assert_eq!(dispatch_ipc(&mut st, &mut u, "samp image").next.request, Request::SampImage);
    let r = dispatch_ipc(&mut st, &mut u, "hdu 3");
    assert_eq!((r.text.as_str(), r.unit, r.next.request), ("ok", 3, Request::LoadUnit));
    assert_eq!(ask(&mut st, &mut u, "hdu three"), "err: hdu N | hdu next | hdu list");
    assert_eq!(ask(&mut st, &mut u, "hdu list"), "err no source path");
    st.frames[0].source_path = Some(String::from("a"));
    assert_eq!(dispatch_ipc(&mut st, &mut u, "hdu list").next.request, Request::TellUnits);
    assert_eq!(dispatch_ipc(&mut st, &mut u, "hdu next").next.request, Request::NextUnit);
    assert_eq!(dispatch_ipc(&mut st, &mut u, "sextractor").next.request, Request::Extract);
    assert_eq!(dispatch_ipc(&mut st, &mut u, "frame mosaic").next.request, Request::Mosaic);
    assert_eq!(dispatch_ipc(&mut st, &mut u, "projection").next.request, Request::Projection);
    assert_eq!(dispatch_ipc(&mut st, &mut u, "radial").next.request, Request::Profile);
}

#[test]
fn inverting_colors() {
    let (mut st, mut u) = (session(1), ui());
    assert_eq!(ask(&mut st, &mut u, "cmap invert"), "ok");
    let first = st.frames[0].custom_lut.clone().unwrap();
    assert_eq!(first[0], (255, 255, 255));
    assert_eq!(first[255], (0, 0, 0));
    ask(&mut st, &mut u, "cmap invert");
    let second = st.frames[0].custom_lut.clone().unwrap();
    assert_eq!(second, Colormap::Grey.lut());
    ask(&mut st, &mut u, "cmap invert");
    assert_eq!(st.frames[0].custom_lut.clone().unwrap(), first);
    menu(&mut st, &mut u, "Color", "Clear Custom");
    assert!(st.frames[0].custom_lut.is_none());
    assert_eq!(u.status, "custom colormap cleared");
}

#[test]
fn clearing_a_frame() {
    let (mut st, mut u) = (session(1), ui());
    st.add_circle(d(1.0), d(1.0), d(1.0));
    st.set_catalog(0, Catalog::from_tsv("X\tY\n1\t2\n"));
    assert_eq!(ask(&mut st, &mut u, "frame clear"), "ok");
    assert!(st.frames[0].markers.is_empty() && st.frames[0].catalog.is_none());
    assert_eq!(st.frames[0].fits.width, 4);
}

#[test]
fn errors_leave_all_as_it_was() {
    let (mut st, mut u) = (session(2), ui());
    st.add_circle(d(1.0), d(1.0), d(1.0));
    u.status = String::from("before");
    for line in ["regions delete 9", "pan to a b", "scale limits 2 1", "hdu x", "nothing at all"] {
        let r = dispatch_ipc(&mut st, &mut u, line);
        assert!(r.text.starts_with("err"), "{line}");
        assert!(!r.next.refresh && !r.next.show && !r.next.crosshair);
        assert_eq!(r.next.request, Request::Nothing);
    }
    assert_eq!(u.status, "before");
    assert_eq!(st.active, 0);
    assert_eq!(st.frames[0].markers.len(), 1);
}

#[test]
fn online_queries() {
    let (mut st, mut u) = (session(1), ui());
    assert_eq!(wanted_name("  "), Err("resolve: enter an object name first"));
    assert_eq!(wanted_name(" M51 "), Ok(String::from("M51")));
    assert_eq!(query_center(&st), None);
    let (text, next) = show_object(&mut st, &mut u, "M51", (d(202.5), d(47.25)), None);
    assert_eq!(text, "M51 → RA 202.500000  Dec +47.250000  (no WCS to centre)");
    assert!(next.refresh && next.crosshair && st.crosshair.is_none());
    st.frames[0].fits.wcs = Some(sky());
    let c = query_center(&st).unwrap();
    assert_eq!((g(c.0), g(c.1)), (2.5, 2.0));
    show_object(&mut st, &mut u, "M51", (d(202.5), d(47.25)), Some((d(2.0), d(2.0))));
    assert_eq!(u.status, "resolved M51: (202.50000, +47.25000)  (crosshair set)");
    assert_eq!((f(u.view.pan_x), f(u.view.pan_y)), (398.0, 298.0));
    assert_eq!(st.crosshair.unwrap().world, Some((d(202.5), d(47.25))));
    assert_eq!(
        vizier_query("40", "x").unwrap_err(),
        "vizier: invalid radius '40' (deg, 0 < r < 30)"
    );
    assert_eq!(
        vizier_query("0.5", " ").unwrap_err(),
        "vizier: enter a catalog ID (e.g. I/345/gaia2)"
    );
    let q = vizier_query(" 0.5", " I/345 ").unwrap();
    assert_eq!((g(q.0), q.1.as_str()), (0.5, "I/345"));
    assert_eq!(ned_query("x").unwrap_err(), "ned: invalid radius 'x' (deg, 0 < r < 30)");
    assert_eq!(
        vizier_asking("I/345", d(10.0), d(-5.5), d(0.25)),
        "vizier: querying I/345 @ (10.0000, -5.5000) r=0.25 deg…"
    );
    assert_eq!(
        ned_asking(d(10.0), d(5.5), d(1.0)),
        "ned: querying near (10.0000, +5.5000) r=1 deg…"
    );
    let body = "<FIELD name=\"X\"/><FIELD name=\"Y\"/><TR><TD>1</TD><TD>2</TD></TR>";
    let (text, _) = vizier_answered(&mut st, &mut u, body, "I/345");
    assert_eq!(text, "vizier: 1 rows from I/345");
    assert_eq!(u.status, "vizier I/345: 1 rows");
    assert_eq!(st.frames[0].catalog.as_ref().unwrap().len(), 1);
    let (text, _) = ned_answered(&mut st, &mut u, "a\tb\n1\t2\n3\t4\n");
    assert_eq!(text, "ned: 2 rows");
    assert_eq!(samp_source(&st), Err("samp: active frame is synthetic (no path)"));
    assert_eq!(samp_sent("image.load.fits", "/a"), "samp: image.load.fits sent (/a)");
}

#[test]
fn where_the_session_is() {
    assert_eq!(socket_name("eve"), "ds9-rust-eve.sock");
    assert_eq!(
        discovery_text(12345, Some("/run/a.sock"), Some(54861)),
        "pid=12345\nunix=/run/a.sock\ntcp=54861\n"
    );
    assert_eq!(discovery_text(1, None, None), "pid=1\n");
    assert_eq!(banner(Some("/s"), Some(7)), "ready  (ipc: /s | tcp:7)");
    assert_eq!(banner(Some("/s"), None), "ready  (ipc: /s)");
    assert_eq!(banner(None, Some(7)), "ready  (tcp: 127.0.0.1:7)");
    assert_eq!(banner(None, None), "ready  (no ipc)");
    assert_eq!(wrote_picture("a.png", 4, 3), "wrote a.png (4×3)");
    assert_eq!(wrote_regions(2, "a.reg"), "wrote 2 regions → a.reg");
    assert_eq!(printed("/t", true), "sent to lpr  (/t)");
    assert_eq!(printed("/t", false), "saved /t (lpr unavailable)");
    assert_eq!(started_with(2, "c"), "loaded catalog (2 rows) from c");
}
