use ds9::analysis::{
    aperture_iter, compute_centroid, compute_radial_profile, image_stats, marker_aperture,
    pixel_table, Aperture,
};
use ds9::color::{apply_orientation_rgba, user_lut, Colormap, Orientation};
use ds9::draw::{Canvas, Rgba};
use ds9::filters::{
    bin_average, bin_subsample, bin_sum, kernel_exponents, smooth_boxcar, smooth_gaussian,
    smooth_median,
};
use ds9::fits::{FitsImage, Wcs};
use ds9::frame::{Frame, LimitsMode, SmoothKind};
use ds9::image::{
    curve_arguments, render_grayscale, render_rgba_flipped, render_rgba_flipped_with_lut, Curve, Limits, Stretch,
};
use ds9::catalog::Catalog;
use ds9::marker::{parse_reg, Marker};
use ds9::mosaic::{
    add_row, add_sample, build_rgb_composite, composable, corners, finish_mosaic, frames_with_wcs,
    plan_mosaic, MosaicError, MosaicSum,
};
use ds9::num::{Double, Single};
use ds9::overlay::{draw_grid, edge_points, grid_lines, nice_step, render_contour_overlay, render_line_overlay};
use ds9::plot::{histogram_bins, render_histogram_image, render_line_plot, sample_line, Section};
use ds9::show::{
    build_catalog_model, build_mark_model, build_text_marks, display_to_fits,
    fits_to_display_oriented, hit_test_markers, kernel_width, marker_display_bbox, mag_column,
    nearest_catalog_index, prepare, render_rgba_for_frame, translate_marker,
};
use ds9::tile::{render_tile_view, tile_hit, tile_layout, Picture};

fn d(x: f64) -> Double {
    Double { bits: x.to_bits() }
}

fn s(x: f32) -> Single {
    Single { bits: x.to_bits() }
}

fn g(x: Double) -> f64 {
    f64::from_bits(x.bits)
}

fn f(x: Single) -> f32 {
    f32::from_bits(x.bits)
}

fn image_of(w: usize, h: usize, v: Vec<f32>) -> FitsImage {
    let finite: Vec<f32> = v.iter().copied().filter(|x| x.is_finite()).collect();
    let lo = finite.iter().copied().fold(f32::INFINITY, f32::min);
    let hi = finite.iter().copied().fold(f32::NEG_INFINITY, f32::max);
    FitsImage {
        width: w,
        height: h,
        data: v.into_iter().map(s).collect(),
        min: s(lo),
        max: s(hi),
        wcs: None,
    }
}

fn ramp(w: usize, h: usize) -> FitsImage {
    image_of(w, h, (0..w * h).map(|i| i as f32).collect())
}

fn straight() -> Curve {
    Curve { values: Vec::new(), end: s(0.0) }
}

fn sky() -> Wcs {
    Wcs {
        ctype1: String::from("RA---TAN"),
        ctype2: String::from("DEC--TAN"),
        radesys: String::from("FK5"),
        crpix1: d(2.0),
        crpix2: d(2.0),
        crval1: d(150.0),
        crval2: d(2.0),
        cd11: d(-0.001),
        cd12: d(0.0),
        cd21: d(0.0),
        cd22: d(0.001),
    }
}

#[test]
fn colour_maps() {
    assert_eq!(Colormap::from_name("gray"), Some(Colormap::Grey));
    assert_eq!(Colormap::from_name("plaid"), None);
    for name in ["grey", "red", "green", "blue", "heat", "cool", "rainbow", "sls", "hsv", "a", "b", "bb"] {
        let c = Colormap::from_name(name).unwrap();
        assert_eq!(c.name(), name);
        let lut = c.lut();
        assert_eq!(lut.len(), 256);
        let strip = c.rgba_strip();
        assert_eq!(strip.len(), 1024);
        assert_eq!((strip[0], strip[1], strip[2], strip[3]), (lut[255].0, lut[255].1, lut[255].2, 255));
        assert_eq!(c.gradient_stops().len(), 9);
        assert_eq!(c.gradient_stops()[8], lut[255]);
    }
    assert_eq!(Colormap::Grey.lut()[128], (128, 128, 128));
    assert_eq!(Colormap::Red.lut()[200], (200, 0, 0));
}

#[test]
fn tables_of_colours() {
    let t = user_lut("# two stops\n0 0 0\n1.0 1.0 1.0\n").or(user_lut("0 0 0\n255 255 255\n")).unwrap();
    assert_eq!(t.len(), 256);
    assert_eq!(t[0], (0, 0, 0));
    assert!(user_lut("nothing here\n").is_none());
    assert_eq!(user_lut("# one stop\n1 2 3\n").unwrap(), vec![(1, 2, 3); 256]);
}

#[test]
fn orientations() {
    let base: Vec<u8> = (0..2 * 3 * 4).collect();
    for o in [Orientation::Identity, Orientation::FlipH, Orientation::FlipV, Orientation::Rot180] {
        let mut v = base.clone();
        apply_orientation_rgba(&mut v, 2, 3, o);
        if o != Orientation::Identity {
            assert_ne!(v, base);
        }
        apply_orientation_rgba(&mut v, 2, 3, o);
        assert_eq!(v, base);
        let (x, y) = o.apply_display(d(1.0), d(2.0), d(10.0), d(20.0));
        let (x, y) = o.invert_display(x, y, d(10.0), d(20.0));
        assert_eq!((g(x), g(y)), (1.0, 2.0));
    }
    let mut v = base.clone();
    apply_orientation_rgba(&mut v, 2, 3, Orientation::FlipH);
    assert_eq!(&v[..4], &base[4..8]);
}

#[test]
fn stretches() {
    let img = ramp(4, 1);
    let lim = Limits::minmax(&img);
    let lin = render_grayscale(&img, lim, Stretch::Linear, &straight());
    assert_eq!(lin, vec![0, 85, 170, 255]);
    let root = render_grayscale(&img, lim, Stretch::Sqrt, &straight());
    assert_eq!(root[1], ((1f32 / 3.0).sqrt() * 255.0) as u8);
    let square = render_grayscale(&img, lim, Stretch::Squared, &straight());
    assert_eq!(square[2], ((2f32 / 3.0) * (2f32 / 3.0) * 255.0) as u8);
    let args = curve_arguments(&img, lim, Stretch::Log);
    let end = 1000f32.ln();
    let curve = Curve { values: args.iter().map(|x| s(f(*x).ln())).collect(), end: s(end) };
    let log = render_grayscale(&img, lim, Stretch::Log, &curve);
    assert_eq!(log[3], 255);
    assert_eq!(log[0], 0);
    assert!(log[1] > lin[1]);
}

#[test]
fn colour_pictures() {
    let img = image_of(2, 2, vec![0.0, 1.0, 2.0, f32::NAN]);
    let lim = Limits { low: s(0.0), high: s(2.0) };
    let v = render_rgba_flipped(&img, lim, Stretch::Linear, &straight(), Colormap::Grey);
    assert_eq!(&v[0..4], &[255, 255, 255, 255]);
    assert_eq!(&v[8..12], &[0, 0, 0, 255]);
    assert_eq!(&v[12..16], &[127, 127, 127, 255]);
    let lut = Colormap::Grey.lut();
    assert_eq!(render_rgba_flipped_with_lut(&img, lim, Stretch::Linear, &straight(), &lut), v);
    assert_eq!(&v[4..8], &v[8..12]);
    let arguments = curve_arguments(&img, lim, Stretch::Asinh);
    let values: Vec<Single> = arguments.iter().map(|x| s(f(*x).asinh())).collect();
    let curve = Curve { values, end: s(10f32.asinh()) };
    let bent = render_rgba_flipped(&img, lim, Stretch::Asinh, &curve, Colormap::Grey);
    assert_eq!((&bent[4..8], &bent[8..12]), (&bent[8..12], &v[8..12]));
    let equal = Limits { low: s(1.0), high: s(1.0) };
    let w = render_rgba_flipped(&img, equal, Stretch::Linear, &straight(), Colormap::Grey);
    assert_eq!((w[0], w[4], w[8], w[12]), (255, 0, 0, 0));
    let z = Limits::zscale(&ramp(10, 10));
    assert!(f(z.low) >= 0.0 && f(z.high) <= 99.0 && f(z.low) < f(z.high));
}

#[test]
fn smoothing_filters() {
    let mut v = vec![0f32; 25];
    v[12] = 9.0;
    let img = image_of(5, 5, v);
    let b = smooth_boxcar(&img, 3);
    assert!((f(b.data[12]) - 1.0).abs() < 1e-6);
    assert!((f(b.data[6]) - 1.0).abs() < 1e-6);
    assert_eq!(f(b.data[0]), 0.0);
    let m = smooth_median(&img, 3);
    assert!(m.data.iter().all(|x| f(*x) == 0.0));
    let args = kernel_exponents(s(1.0));
    let k: Vec<Single> = args.iter().map(|x| s(f(*x).exp())).collect();
    let total: f32 = k.iter().map(|x| f(*x)).sum();
    let kernel: Vec<Single> = k.iter().map(|x| s(f(*x) / total)).collect();
    let gauss = smooth_gaussian(&img, s(1.0), kernel);
    assert!(f(gauss.data[12]) > f(gauss.data[11]));
    assert!((f(gauss.data[11]) - f(gauss.data[13])).abs() < 1e-6);
    assert_eq!(smooth_boxcar(&img, 1).data, img.data);
    assert_eq!((gauss.width, gauss.height), (5, 5));
}

#[test]
fn binning() {
    let img = image_of(4, 2, vec![1.0, 3.0, 5.0, 7.0, 2.0, 4.0, f32::NAN, 8.0]);
    let a = bin_average(&img, 2);
    assert_eq!(f(a.data[0]), 2.5);
    assert_eq!(f(a.data[5]), 2.5);
    assert_eq!(f(a.data[2]), 20.0 / 3.0);
    let t = bin_sum(&img, 2);
    assert_eq!(f(t.data[0]), 10.0);
    assert_eq!(f(t.data[2]), 20.0);
    let sub = bin_subsample(&img, 2);
    assert_eq!((f(sub.data[1]), f(sub.data[6])), (1.0, 5.0));
    assert_eq!((a.width, a.height), (4, 2));
    assert_eq!(bin_average(&img, 1).data[0], img.data[0]);
}

#[test]
fn lines_on_a_canvas() {
    let black = Rgba { r: 0, g: 0, b: 0, a: 255 };
    let ink = Rgba { r: 1, g: 2, b: 3, a: 4 };
    let mut c = Canvas::new(5, 4, black);
    c.draw_line(0, 0, 4, 3, ink, 100);
    assert_eq!(c.pixels[0], ink);
    assert_eq!(c.pixels[19], ink);
    assert_eq!(c.pixels.iter().filter(|p| **p == ink).count(), 5);
    c.put(99, 99, ink);
    c.fill(0, 5, 0, 4, ink);
    assert!(c.pixels.iter().all(|p| *p == ink));
    c.draw_frame(black);
    assert_eq!(c.pixels[6], ink);
    assert_eq!(c.pixels[0], black);
    assert_eq!(c.bytes()[..4], [0, 0, 0, 255]);
}

#[test]
fn frames_are_rendered() {
    let mut fr = Frame::new(ramp(4, 3), String::from("a"));
    fr.limits_mode = LimitsMode::MinMax;
    assert!(kernel_width(&fr).is_none());
    let p = prepare(&fr, Vec::new());
    assert_eq!(p.img.data, fr.fits.data);
    let v = render_rgba_for_frame(&fr, &p, &straight());
    assert_eq!(v.len(), 48);
    assert_eq!(v[3 * 4], 255);
    assert_eq!(v[8 * 4], 0);
    fr.orientation = Orientation::Rot180;
    let w = render_rgba_for_frame(&fr, &p, &straight());
    assert_eq!(w[0], v[11 * 4]);
    fr.smooth_kind = SmoothKind::Gaussian { sigma: s(2.0) };
    assert_eq!(kernel_width(&fr), Some(s(2.0)));
}

#[test]
fn places_on_the_display() {
    let mut fr = Frame::new(ramp(4, 3), String::from("a"));
    for o in [Orientation::Identity, Orientation::FlipH, Orientation::FlipV, Orientation::Rot180] {
        fr.orientation = o;
        let (x, y) = fits_to_display_oriented(d(2.0), d(3.0), &fr);
        let (bx, by) = display_to_fits(x.widen(), y.widen(), &fr);
        assert_eq!((g(bx), g(by)), (2.0, 3.0));
    }
    fr.orientation = Orientation::Identity;
    let (x, y) = fits_to_display_oriented(d(1.0), d(1.0), &fr);
    assert_eq!((f(x), f(y)), (0.0, 2.0));
}

#[test]
fn marks_and_texts() {
    let mut fr = Frame::new(ramp(40, 30), String::from("a"));
    fr.markers = parse_reg("circle(10,10,3)\nbox(20,20,4,6,0)\n").unwrap();
    fr.catalog = Some(Catalog::from_tsv("NUMBER\tX\tY\tMAG\n7\t5\t6\t18.5\n"));
    fr.selected_marker = Some(0);
    let marks = build_mark_model(&fr);
    assert_eq!(marks.len(), 3);
    assert!(build_text_marks(&fr).is_empty());
    let rows = build_catalog_model(&fr);
    assert_eq!(rows.len(), 1);
    assert_eq!(rows[0].id.trim(), "7");
    let c = fr.catalog.as_ref().unwrap();
    assert_eq!(mag_column(c), Some(3));
    assert_eq!(nearest_catalog_index(c, d(6.0), d(6.0), d(2.0)), Some(0));
    assert_eq!(nearest_catalog_index(c, d(16.0), d(6.0), d(2.0)), None);
    assert_eq!(hit_test_markers(&fr.markers, d(11.0), d(10.0)), Some(0));
    assert_eq!(hit_test_markers(&fr.markers, d(30.0), d(10.0)), None);
    translate_marker(&mut fr.markers[0], d(20.0), d(0.0));
    assert_eq!(hit_test_markers(&fr.markers, d(30.0), d(10.0)), Some(0));
    let circle: Vec<(Double, Double)> = (0..16)
        .map(|i| {
            let t = i as f64 * std::f64::consts::PI / 8.0;
            (d(t.cos()), d(t.sin()))
        })
        .collect();
    let b = marker_display_bbox(&fr.markers[1], &fr, &circle, (d(1.0), d(0.0)));
    assert!(g(b.0) < g(b.2) && g(b.1) < g(b.3));
}

#[test]
fn overlays() {
    let mut fr = Frame::new(ramp(20, 20), String::from("a"));
    assert!(render_line_overlay(&fr).is_none());
    fr.markers = parse_reg("line(1,1,10,10)\npolygon(1,1,5,1,5,5)\n").unwrap();
    let c = render_line_overlay(&fr).unwrap();
    assert_eq!((c.width, c.height), (20, 20));
    assert!(c.pixels.iter().any(|p| p.a == 255));
    fr.limits_mode = LimitsMode::MinMax;
    let v = render_contour_overlay(&fr);
    assert_eq!(v.len(), 1600);
    assert!(v.iter().any(|b| *b != 0));
    assert_eq!(edge_points(20, 20).len(), 68);
    assert!(g(nice_step(d(1.0))) > 0.0);
    let ras: Vec<Double> = (0..68).map(|i| d(150.0 + i as f64 * 0.001)).collect();
    let decs: Vec<Double> = (0..68).map(|i| d(2.0 + i as f64 * 0.001)).collect();
    assert!(grid_lines(&ras, &decs).is_some());
    let fr = Frame::new(ramp(8, 6), String::from("g"));
    assert!(draw_grid(&fr, &vec![vec![None, None], vec![]]).is_none());
    let drawn = draw_grid(&fr, &vec![vec![Some((d(1.0), d(1.0))), Some((d(6.0), d(4.0)))]]);
    assert_eq!(drawn.unwrap().len(), 8 * 6 * 4);
}

#[test]
fn plots() {
    let img = ramp(4, 3);
    let lim = Limits::minmax(&img);
    let bins = histogram_bins(&img.data, lim);
    assert_eq!(bins.iter().sum::<u64>(), 12);
    assert_eq!((bins[0], bins[127]), (1, 1));
    let logs: Vec<Double> = bins.iter().map(|n| d((*n as f64 + 1.0).ln())).collect();
    let c = render_histogram_image(&bins, &logs, 300, 100);
    assert_eq!((c.width, c.height, c.pixels.len()), (300, 100, 30000));
    let (v, len) = sample_line(&img, Section { x0: d(1.0), y0: d(1.0), x1: d(4.0), y1: d(1.0) });
    assert_eq!(g(len), 3.0);
    assert_eq!(v.len(), 3);
    assert_eq!((f(v[0]), f(v[1]), f(v[2])), (0.0, 2.0, 3.0));
    let (v, _) = sample_line(&img, Section { x0: d(2.0), y0: d(3.0), x1: d(2.0), y1: d(-1.0) });
    assert_eq!((f(v[0]), f(v[1])), (9.0, 5.0));
    assert!(f(v[3]).is_nan());
    let p = render_line_plot(&v, 100, 50);
    assert_eq!(p.pixels.len(), 5000);
}

#[test]
fn measurements() {
    let img = ramp(4, 3);
    let t = image_stats(&img).unwrap();
    assert_eq!((g(t.min), g(t.max), g(t.mean), g(t.median)), (0.0, 11.0, 5.5, 5.5));
    assert_eq!(g(t.std), (143f64 / 12.0).sqrt());
    assert!(image_stats(&image_of(1, 1, vec![f32::NAN])).is_none());
    let a = Aperture { x: d(2.0), y: d(2.0), r: d(1.0) };
    assert_eq!(aperture_iter(&img, a).len(), 5);
    let corner = aperture_iter(&img, Aperture { x: d(1.0), y: d(1.0), r: d(1.0) });
    let seen: Vec<(f64, f64, f32)> = corner.iter().map(|s| (g(s.x), g(s.y), f(s.v))).collect();
    assert_eq!(seen, vec![(1.0, 1.0, 0.0), (2.0, 1.0, 1.0), (1.0, 2.0, 4.0)]);
    let mut spot = image_of(9, 9, vec![0.0; 81]);
    for (x, y) in [(3usize, 2usize), (2, 2), (4, 2), (3, 1), (3, 3)] {
        spot.data[(y - 1) * 9 + x - 1] = s(5.0);
    }
    let (cx, cy) = compute_centroid(&spot, Aperture { x: d(3.0), y: d(3.0), r: d(3.0) }).unwrap();
    assert_eq!((g(cx), g(cy)), (3.0, 2.0));
    let a = Aperture { x: d(2.0), y: d(2.0), r: d(0.5) };
    assert!(compute_centroid(&img, a).is_none());
    let flat = image_of(9, 9, vec![2.0; 81]);
    let prof = compute_radial_profile(&flat, Aperture { x: d(5.0), y: d(5.0), r: d(3.0) }, 3);
    assert_eq!(prof.len(), 3);
    assert_eq!(f(prof[0]), 2.0);
    assert!(marker_aperture(&Marker::circle(d(1.0), d(2.0), d(3.0))).is_some());
    let fr = Frame::new(img, String::from("t"));
    let table: String = pixel_table(&fr, d(1.0), d(1.0)).into_iter().collect();
    assert_eq!(table.matches(" │ ").count(), 5);
}

#[test]
fn tiles() {
    assert_eq!(tile_layout(1), (1, 1));
    assert_eq!(tile_layout(3), (2, 2));
    assert_eq!(tile_layout(5), (3, 2));
    let ps: Vec<Picture> = (0..3u8)
        .map(|i| Picture { width: 2, height: 2, rgba: vec![40 * i + 40; 16] })
        .collect();
    let c = render_tile_view(&ps, 1, 64, 64);
    assert_eq!((c.width, c.height), (64, 64));
    for i in 0..3usize {
        let (x, y) = ((i % 2) as f64 * 32.0 + 16.0, (i / 2) as f64 * 32.0 + 16.0);
        assert_eq!(tile_hit(3, 64, 64, d(x), d(y)), Some(i));
        let p = c.pixels[y as usize * 64 + x as usize];
        assert_eq!(p.r, 40 * i as u8 + 40);
    }
    assert_eq!(tile_hit(3, 64, 64, d(48.0), d(48.0)), None);
    assert_eq!(tile_hit(0, 64, 64, d(1.0), d(1.0)), None);
    assert_eq!(tile_hit(3, 101, 100, d(100.5), d(10.0)), None);
}

#[test]
fn mosaics() {
    let mut a = ramp(2, 2);
    a.wcs = Some(sky());
    let frames = vec![
        Frame::new(a, String::from("a")),
        Frame::new(ramp(2, 2), String::from("b")),
    ];
    assert_eq!(frames_with_wcs(&frames), vec![0]);
    assert_eq!(corners(&frames[0].fits).len(), 4);
    let places: Vec<Option<(Double, Double)>> =
        vec![Some((d(1.0), d(1.0))), Some((d(4.0), d(3.0))), None];
    assert!(matches!(plan_mosaic(1, &sky(), &places), Err(MosaicError::TooFew)));
    let plan = plan_mosaic(2, &sky(), &places).ok().unwrap();
    assert_eq!((plan.width, plan.height), (4, 3));
    assert!(matches!(plan_mosaic(2, &sky(), &vec![None]), Err(MosaicError::NoCorner)));
    let far = vec![Some((d(0.0), d(0.0))), Some((d(1e6), d(1e6)))];
    match plan_mosaic(2, &sky(), &far) {
        Err(e) => assert_eq!(
            e.message(),
            "mosaic: output 1000001×1000001 = 1000002000001 px exceeds cap (64000000)"
        ),
        Ok(_) => panic!("too large"),
    }
    assert_eq!(MosaicError::TooFew.message(), "mosaic: need at least 2 frames with WCS");
    assert_eq!(
        MosaicError::NoCorner.message(),
        "mosaic: could not project any corner — check WCS"
    );
    let endless = vec![Some((d(0.0), d(0.0))), Some((d(1e300), d(1e300)))];
    assert!(matches!(plan_mosaic(2, &sky(), &endless), Err(MosaicError::Overflow)));
    let mut sum = MosaicSum::new(12);
    add_sample(&mut sum, 0, &frames[0].fits, Some((d(1.0), d(1.0))));
    add_sample(&mut sum, 0, &frames[0].fits, Some((d(2.0), d(2.0))));
    add_sample(&mut sum, 1, &frames[0].fits, Some((d(50.0), d(2.0))));
    let row = vec![Some((d(2.0), d(1.0))), None];
    add_row(&mut sum, 2, &frames[0].fits, &row);
    assert_eq!((g(sum.sum[2]), sum.count[2], sum.count[3]), (1.0, 1, 0));
    let img = finish_mosaic(plan, &sum);
    assert_eq!(f(img.data[0]), 1.5);
    assert!(f(img.data[1]).is_nan());
    assert_eq!((f(img.min), f(img.max)), (1.0, 1.5));
    assert!(composable(&frames[0], &frames[1], &frames[0]));
    let out = build_rgb_composite(&vec![10, 1, 1, 255], &vec![2, 20, 2, 255], &vec![3, 3, 30, 255]);
    assert_eq!(out, vec![10, 20, 30, 255]);
}
