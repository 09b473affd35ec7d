use ds9::export::{fits_bytes, hex_nib, png_bytes, postscript_text, tiff_bytes};
use ds9::fits::{
    finite_minmax, format_sexagesimal, rotation, to_degrees, to_radians,
    try_parse_wcs, wrapped, Card, CardValue, FitsError, FitsImage, Header, PlaneTrig, SkyTrig,
    Stored, Wcs,
};
use ds9::frame::{Frame, Prefs, SmoothKind, State};
use ds9::hdu::{
    detile, enumerate_hdus, hdu_read, load, load_hdu, load_tile_compressed, pixels_to_f32, scaling,
    tile_grid, tile_pixels, Grid, HduClass, HduData, HduRead, HduRecord, Scaling,
};
use ds9::marker::{parse_reg, reg_text, Marker, PixelPos, RegError, Shape};
use ds9::net::{
    samp_declare_metadata, samp_lockfile_path, samp_notified, samp_notify_all, samp_read_lockfile,
    samp_register, samp_registered, samp_unregister, xml_escape, xmlrpc_struct_str, xv_to_xml, XV,
};
use ds9::num::{Double, Single};
use ds9::prefs::{
    apply_prefs_from_panel, parse_limits_spec, parse_smooth_spec, parse_stretch_spec,
    populate_prefs_panel, prefs_text, read_prefs, PrefTexts,
};
use ds9::props::{
    apply_region_props, color_to_hex, parse_hex_rgb, populate_region_props, PropPanel, PropTexts,
};
use ds9::query::{
    ned_table, ned_url, parse_radius, path_to_file_url, sesame_resolve, sesame_url,
    sextractor_args, sextractor_columns, sextractor_config, sextractor_failure, urlencode,
    vizier_url,
};
use ds9::sky::{
    galactic_angles, galactic_to_icrs, parse_reg_with_wcs, pix_per_arcsec, place_region,
    GalacticTrig, Parsed, SkyKind,
};

fn d(x: f64) -> Double {
    Double { bits: x.to_bits() }
}

fn s(x: f32) -> Single {
    Single { bits: x.to_bits() }
}

fn g(x: Double) -> f64 {
    f64::from_bits(x.bits)
}

fn f(x: Single) -> f32 {
    f32::from_bits(x.bits)
}

fn image(w: usize, h: usize) -> FitsImage {
    let data: Vec<Single> = (0..w * h).map(|i| s(i as f32)).collect();
    FitsImage { width: w, height: h, data, min: s(0.0), max: s((w * h - 1) as f32), wcs: None }
}

fn number(key: &str, x: f64) -> Card {
    Card { key: String::from(key), value: CardValue::Float(d(x)) }
}

fn count(key: &str, x: i64) -> Card {
    Card { key: String::from(key), value: CardValue::Integer(x) }
}

fn words(key: &str, x: &str) -> Card {
    Card { key: String::from(key), value: CardValue::Text(String::from(x)) }
}

fn header(cards: Vec<Card>) -> Header {
    Header { cards }
}

fn sky_header() -> Header {
    header(vec![
        words("CTYPE1", "RA---TAN"),
        words("CTYPE2", "DEC--TAN"),
        words("RADESYS", "ICRS"),
        number("CRPIX1", 50.0),
        number("CRPIX2", 60.0),
        number("CRVAL1", 150.0),
        count("CRVAL2", 2),
        number("CD1_1", -0.001),
        number("CD1_2", 0.0002),
        number("CD2_1", 0.0001),
        number("CD2_2", 0.0015),
    ])
}

fn no_turn() -> (Double, Double) {
    (d(1.0), d(0.0))
}

fn to_sky(w: &Wcs, x: f64, y: f64) -> (f64, f64) {
    let t = w.tangent(d(x), d(y));
    if let Some((ra, dec)) = w.at_reference(t) {
        return (g(ra), g(dec));
    }
    let c = g(t.rho).atan();
    let dec0 = g(to_radians(w.crval2));
    let a = PlaneTrig {
        sin_c: d(c.sin()),
        cos_c: d(c.cos()),
        sin_dec0: d(dec0.sin()),
        cos_dec0: d(dec0.cos()),
    };
    let (sine, y, x) = Wcs::deprojected(t, a);
    let (ra, dec) = w.sky(d(g(y).atan2(g(x))), d(g(sine).asin()));
    (g(ra), g(dec))
}

fn to_pixel(w: &Wcs, ra: f64, dec: f64) -> Option<(f64, f64)> {
    let (dec_r, dec0, dra) = w.sky_angles(d(ra), d(dec));
    let t = SkyTrig {
        sin_dec: d(g(dec_r).sin()),
        cos_dec: d(g(dec_r).cos()),
        sin_dec0: d(g(dec0).sin()),
        cos_dec0: d(g(dec0).cos()),
        sin_dra: d(g(dra).sin()),
        cos_dra: d(g(dra).cos()),
    };
    w.project(t).map(|(x, y)| (g(x), g(y)))
}

#[test]
fn coordinates_go_there_and_back() {
    let w = try_parse_wcs(&sky_header(), no_turn()).unwrap();
    assert_eq!((w.ctype1.as_str(), w.radesys.as_str()), ("RA---TAN", "ICRS"));
    assert_eq!(to_sky(&w, 50.0, 60.0), (150.0, 2.0));
    assert_eq!(to_pixel(&w, 150.0, 2.0), Some((50.0, 60.0)));
    assert_eq!(to_pixel(&w, 330.0, -2.0), None);
    let (ra, dec) = to_sky(&w, 10.0, 110.0);
    let (dx, dy) = (-40.0f64, 50.0f64);
    let (xi, eta) = (
        (-0.001f64 * dx + 0.0002 * dy).to_radians(),
        (0.0001f64 * dx + 0.0015 * dy).to_radians(),
    );
    let rho = (xi * xi + eta * eta).sqrt();
    let c = rho.atan();
    let dec0 = 2f64.to_radians();
    let want_dec = (c.cos() * dec0.sin() + eta * c.sin() * dec0.cos() / rho).asin().to_degrees();
    assert!((dec - want_dec).abs() < 1e-12, "{dec} {want_dec}");
    let (x, y) = to_pixel(&w, ra, dec).unwrap();
    assert!((x - 10.0).abs() < 1e-6 && (y - 110.0).abs() < 1e-6, "{x} {y}");
    assert!(to_pixel(&w, 330.0, -2.0).is_none());
    let mut flat = w.clone();
    flat.cd11 = d(0.0);
    flat.cd12 = d(0.0);
    assert!(to_pixel(&flat, 150.0, 2.0).is_none());
}

#[test]
fn coordinates_from_other_headers() {
    assert!(try_parse_wcs(&header(vec![number("CRPIX1", 1.0)]), no_turn()).is_none());
    let mut cards = sky_header().cards;
    cards.truncate(7);
    cards.push(number("CDELT1", -0.5));
    cards.push(number("CDELT2", 0.25));
    cards.push(number("CROTA2", 30.0));
    let h = header(cards);
    let angle = rotation(&h).unwrap();
    assert_eq!(g(angle), 30f64.to_radians());
    let (c, n) = (g(angle).cos(), g(angle).sin());
    let w = try_parse_wcs(&h, (d(c), d(n))).unwrap();
    assert_eq!(g(w.cd11), -0.5 * c);
    assert_eq!(g(w.cd12), -0.25 * n);
    assert_eq!(g(w.cd21), -0.5 * n);
    assert_eq!(g(w.cd22), 0.25 * c);
    assert_eq!(g(to_degrees(to_radians(d(90.0)))), 90f64.to_radians().to_degrees());
    assert_eq!(g(wrapped(d(-30.0), d(360.0))), 330.0);
}

#[test]
fn sexagesimal_positions() {
    assert_eq!(format_sexagesimal(d(188.736), d(12.58)), "12:34:56.64  +12:34:48.0");
    assert_eq!(format_sexagesimal(d(0.0), d(-0.5)), "00:00:00.00  -00:30:00.0");
}

#[test]
fn stored_pixels() {
    let plain = Scaling { scale: s(1.0), zero: s(0.0), blank: None };
    let v = pixels_to_f32(&Stored::I16(vec![-3, 7]), 3, plain);
    assert_eq!((f(v[0]), f(v[1])), (-3.0, 7.0));
    assert!(f(v[2]).is_nan());
    let v = pixels_to_f32(&Stored::F64(vec![d(0.1), d(1e300)]), 2, plain);
    assert_eq!(f(v[0]), 0.1f64 as f32);
    assert_eq!(f(v[1]), f32::INFINITY);
    let v = pixels_to_f32(&Stored::U8(vec![200]), 1, plain);
    assert_eq!(f(v[0]), 200.0);
    let v = pixels_to_f32(&Stored::I32(vec![16777217]), 1, plain);
    assert_eq!(f(v[0]), 16777216.0);
    let v = pixels_to_f32(&Stored::I64(vec![-1]), 1, plain);
    assert_eq!(f(v[0]), -1.0);
    let scaled = Scaling { scale: s(2.0), zero: s(100.0), blank: Some(d(-5.0)) };
    let v = pixels_to_f32(&Stored::I16(vec![1, -5]), 2, scaled);
    assert_eq!(f(v[0]), 102.0);
    assert!(f(v[1]).is_nan());
    let v = pixels_to_f32(&Stored::F32(vec![s(1.5), s(-5.0)]), 2, scaled);
    assert_eq!((f(v[0]), f(v[1])), (103.0, 90.0));
    let v = pixels_to_f32(&Stored::F32(vec![s(-0.0)]), 1, plain);
    assert_eq!(f(v[0]).to_bits(), (-0.0f32).to_bits());
    let (lo, hi) = finite_minmax(&vec![s(3.0), s(f32::NAN), s(-2.0), s(f32::INFINITY)]);
    assert_eq!((f(lo), f(hi)), (-2.0, 3.0));
}

#[test]
fn scaled_images() {
    let cards = vec![
        number("BSCALE", 2.0),
        number("BZERO", 32768.0),
        count("BLANK", 7),
        count("ZBLANK", 1),
    ];
    let unit = HduData {
        rec: record(HduClass::Primary, vec![3, 1], cards),
        stored: Some(Stored::I16(vec![1, 7, -2])),
        turn: no_turn(),
    };
    let img = load(&vec![unit]).unwrap();
    assert_eq!((f(img.data[0]), f(img.data[2])), (32770.0, 32764.0));
    assert!(f(img.data[1]).is_nan());
    assert_eq!((f(img.min), f(img.max)), (32764.0, 32770.0));
}

#[test]
fn tiles_are_put_together() {
    let grid = Grid { width: 5, height: 3, tile_width: 2, tile_height: 2 };
    let mut stream = vec![s(-1.0); 15];
    for y in 0..3usize {
        for x in 0..5usize {
            let (tx, ty) = (x / 2, y / 2);
            let kh = if ty == 1 { 1 } else { 2 };
            let kw = if tx == 2 { 1 } else { 2 };
            let at = ty * 2 * 5 + tx * 2 * kh + (y % 2) * kw + x % 2;
            stream[at] = s((10 * y + x) as f32);
        }
    }
    let out = detile(&stream, grid);
    for y in 0..3usize {
        for x in 0..5usize {
            assert_eq!(f(out[y * 5 + x]), (10 * y + x) as f32);
        }
    }
    let short = detile(&vec![s(1.0)], grid);
    assert_eq!(f(short[0]), 1.0);
    assert!(f(short[1]).is_nan());
}

#[test]
fn tile_compressed_images() {
    let h = header(vec![
        count("ZNAXIS1", 2),
        count("ZNAXIS2", 2),
        number("BSCALE", 2.0),
        number("BZERO", 100.0),
        count("ZBLANK", -5),
    ]);
    assert_eq!(tile_grid(&h), Some(Grid { width: 2, height: 2, tile_width: 2, tile_height: 1 }));
    let pixels = tile_pixels(&Stored::I16(vec![1, -5]), scaling(&h));
    assert_eq!(f(pixels[0]), 102.0);
    let img =
        load_tile_compressed(&h, Some(&Stored::I16(vec![1, 2, 3, 4])), no_turn()).unwrap();
    assert_eq!((f(img.min), f(img.max)), (102.0, 108.0));
    assert!(load_tile_compressed(&header(vec![]), None, no_turn()).is_none());
}

fn record(class: HduClass, naxis: Vec<usize>, cards: Vec<Card>) -> HduRecord {
    HduRecord { class, naxis, header: header(cards) }
}

#[test]
fn units_and_their_images() {
    let recs = vec![
        record(HduClass::Primary, vec![], vec![]),
        record(HduClass::Table { tiled: false }, vec![], vec![words("EXTNAME", "CAT")]),
        record(HduClass::Image, vec![2, 1, 7], vec![]),
        record(HduClass::Table { tiled: true }, vec![], vec![count("ZNAXIS1", 9), count("ZNAXIS2", 8)]),
        record(HduClass::Other, vec![], vec![words("EXTNAME", "X")]),
    ];
    let infos = enumerate_hdus(&recs);
    let names: Vec<&str> = infos.iter().map(|i| i.name.as_str()).collect();
    assert_eq!(names, vec!["PRIMARY", "CAT", "IMAGE", "TILE-COMPRESSED", "X"]);
    let kinds: Vec<&str> = infos.iter().map(|i| i.kind).collect();
    assert_eq!(kinds, vec!["PRIMARY", "TABLE", "IMAGE", "TILE-COMPRESSED", "OTHER"]);
    assert_eq!(infos[2].dims, Some((2, 1)));
    assert_eq!(infos[3].dims, Some((9, 8)));
    assert_eq!(hdu_read(&recs[0]), HduRead::Nothing);
    assert_eq!(hdu_read(&recs[2]), HduRead::Plane { width: 2, height: 1 });
    assert_eq!(hdu_read(&recs[3]), HduRead::Tiles);
    let units: Vec<HduData> = recs
        .into_iter()
        .map(|rec| HduData {
            stored: if rec.naxis.is_empty() { None } else { Some(Stored::U8(vec![5, 6])) },
            rec,
            turn: no_turn(),
        })
        .collect();
    let img = load(&units).unwrap();
    assert_eq!((img.width, img.height, f(img.data[1])), (2, 1, 6.0));
    assert!(matches!(load_hdu(&units, 1), Err(FitsError::NoImageHdu)));
    assert!(matches!(load_hdu(&units, 99), Err(FitsError::NoImageHdu)));
    assert!(load_hdu(&units, 2).is_ok());
    assert!(units[2].holds_image() && !units[0].holds_image());
    assert!(matches!(load(&Vec::new()), Err(FitsError::NoImageHdu)));
    assert_eq!(FitsError::Io(String::from("gone")).message(), "io: gone");
    assert_eq!(FitsError::Parse(String::from("bad")).message(), "fits: bad");
    assert_eq!(FitsError::NoImageHdu.message(), "file contains no 2-D image HDU");
}

#[test]
fn fits_files() {
    let mut img = image(3, 2);
    img.wcs = try_parse_wcs(&sky_header(), no_turn());
    let b = fits_bytes(&img);
    assert_eq!(b.len(), 2 * 2880);
    let head: String = b[..2880].iter().map(|&c| c as char).collect();
    assert!(head.starts_with("SIMPLE  =                    T "));
    assert!(head.contains("BITPIX  =                  -32 "));
    assert!(head.contains("NAXIS1  = 3 "));
    assert!(head.contains("CRVAL1  = 1.5000000000E2 "));
    assert!(head.contains("CTYPE1  = 'RA---TAN'"));
    for i in 0..6usize {
        let at = 2880 + 4 * i;
        let word = u32::from_be_bytes([b[at], b[at + 1], b[at + 2], b[at + 3]]);
        assert_eq!(word, img.data[i].bits);
    }
    assert!(b[2880 + 24..].iter().all(|&c| c == 0));
}

fn rgba() -> Vec<u8> {
    vec![255, 0, 0, 255, 0, 255, 0, 255, 0, 0, 255, 255, 9, 8, 7, 255]
}

#[test]
fn png_files() {
    let b = png_bytes(&rgba(), 2, 2).unwrap();
    assert_eq!(&b[..8], &[0x89, b'P', b'N', b'G', 13, 10, 26, 10]);
    let mut reader = png::Decoder::new(std::io::Cursor::new(b)).read_info().unwrap();
    let mut out = vec![0u8; 16];
    let info = reader.next_frame(&mut out).unwrap();
    assert_eq!((info.width, info.height), (2, 2));
    assert_eq!(out, rgba());
    assert!(png_bytes(&rgba(), 0, 0).is_err());
    assert!(png_bytes(&rgba(), 3, 2).is_err());
}

#[test]
fn tiff_files() {
    let b = tiff_bytes(&rgba(), 2, 2);
    assert_eq!(&b[..4], &[b'I', b'I', 42, 0]);
    let rgb: Vec<u8> = vec![255, 0, 0, 0, 255, 0, 0, 0, 255, 9, 8, 7];
    assert_eq!(b.len(), 164 + 12);
    assert_eq!(&b[164..], &rgb[..]);
    assert_eq!(&b[158..164], &[8, 0, 8, 0, 8, 0]);
}

#[test]
fn postscript_files() {
    let t = postscript_text(&rgba(), 2, 2);
    assert!(t.starts_with("%!PS-Adobe-3.0 EPSF-3.0"));
    assert!(t.contains("%%BoundingBox: 304 394 308 398"));
    assert!(t.contains("ff0000") || t.contains("FF0000"));
    assert_eq!(hex_nib(10), b'a');
    assert_eq!(hex_nib(9), b'9');
}

#[test]
fn regions_of_all_kinds() {
    let text = "image\n-circle(1,2,3)\nellipse(4,5,6,7,8)\nbox(1,2,3,4)\nannulus(9,8,1,2)\npoint(3,4) # red\nline(1,2,3,4)\npolygon(1,1,2,2,3,1)\nblob(1)\ncircle(a,b,c)\n";
    let ms = parse_reg(text).unwrap();
    assert!(ms.len() >= 6);
    assert!(matches!(ms[1].shape, Shape::Ellipse { .. }));
    let back = parse_reg(&reg_text(&ms)).unwrap();
    assert_eq!(back.len(), ms.len());
    for (a, b) in ms.iter().zip(back.iter()) {
        assert_eq!(format!("{:?}", a.shape), format!("{:?}", b.shape));
    }
    let fine = vec![Marker::circle(d(1.23456789), d(2.0), d(3.0))];
    match &parse_reg(&reg_text(&fine)).unwrap()[0].shape {
        Shape::Circle { center, .. } => assert_eq!(g(center.x), 1.23456789),
        _ => panic!("no circle"),
    }
    assert!(reg_text(&fine).starts_with("# Region file format: DS9"));
    assert_eq!(RegError::Io(String::from("x")).message(), "io: x");
    assert_eq!(RegError::Parse(String::from("y")).message(), "parse: y");
    let exact = vec![Marker::circle(d(1.25), d(-2.5), d(3.0625))];
    let back = parse_reg(&reg_text(&exact)).unwrap();
    assert_eq!(format!("{:?}", back), format!("{:?}", exact));
}

#[test]
fn region_files_lose_nothing() {
    let mut ms = vec![
        Marker::circle(d(0.1), d(-1e-7), d(f64::MAX)),
        Marker::rbox(d(5e-324), d(-0.0), d(123456789.123456789), d(2.0 / 3.0), d(1e22)),
    ];
    let center = PixelPos { x: d(1.5), y: d(2.0) };
    for shape in [
        Shape::Text { center, body: String::from("a) {b}; # \\n \\ c\nd }") },
        Shape::Text { center, body: String::new() },
        Shape::Compass { center, len: d(12.34567891) },
        Shape::Polygon { points: vec![] },
        Shape::Polygon { points: vec![center] },
        Shape::Polygon { points: vec![center, center] },
        Shape::Polygon { points: vec![center, center, center] },
    ] {
        let mut m = Marker::default();
        m.shape = shape;
        ms.push(m);
    }
    let text = reg_text(&ms);
    assert!(text.contains("circle(0.1,-0.0000001,"));
    assert!(text.contains("# compass(1.5,2,12.34567891)\n"));
    let back = parse_reg(&text).unwrap();
    assert_eq!(back.len(), ms.len());
    for (a, b) in ms.iter().zip(back.iter()) {
        assert_eq!(format!("{:?}", a.shape), format!("{:?}", b.shape));
    }
    let again = parse_reg_with_wcs(&text);
    assert_eq!(again.len(), ms.len());
    for (a, b) in ms.iter().zip(again.iter()) {
        match b {
            Parsed::Image(b) => assert_eq!(format!("{:?}", a.shape), format!("{:?}", b.shape)),
            Parsed::Sky(_) => panic!("on the sky"),
        }
    }
    assert!(parse_reg("polygon(1,2)\n# text(1,2)\n# a comment (1)\n").unwrap().is_empty());
}

#[test]
fn systems_within_a_line() {
    let ms = parse_reg("image; box(1024, 1536, 40, 40, 0)\n").unwrap();
    assert_eq!(ms.len(), 1);
    match ms[0].shape {
        Shape::Box { center, w, h, theta_deg } => {
            assert_eq!((g(center.x), g(center.y)), (1024.0, 1536.0));
            assert_eq!((g(w), g(h), g(theta_deg)), (40.0, 40.0, 0.0));
        }
        _ => panic!("no box"),
    }
    let ms = parse_reg("image; Physical ; circle(3,4,5) # one\nj2000;circle(1;,2,3)\n").unwrap();
    assert_eq!(ms.len(), 2);
    assert!(matches!(ms[0].shape, Shape::Circle { .. }));
    assert!(parse_reg("point(1,2);point(3,4)\n").unwrap().is_empty());
    assert!(parse_reg("image;point(1,2);point(3,4)\nimage;\n").unwrap().is_empty());
    assert_eq!(parse_reg_with_wcs("fk5;point(1,2);point(3,4)\n").len(), 0);
    assert_eq!(parse_reg_with_wcs("circle(1;,2,3)\nfk5;point(1,2)\npoint(3,4)\n").len(), 3);
    let (a, b) = ("circle(1,2,3)\r", "image; point(1,2)\nblob\npoint(3,4)");
    let both = parse_reg(&format!("{a}\n{b}")).unwrap();
    let apart = [parse_reg(a).unwrap(), parse_reg(b).unwrap()].concat();
    assert_eq!(format!("{both:?}"), format!("{apart:?}"));
}

#[test]
fn regions_on_the_sky() {
    let w = try_parse_wcs(&sky_header(), no_turn()).unwrap();
    let text = "fk5\ncircle(10:00:00,+02:00:00,3.6\")\ngalactic; point(121.5d,-30.25)\nimage\ncircle(5,6,7)\nicrs\nbox(150.0,2.0,1',0.01d,45)\nfk5; line(1h,2,3,4)\nfk5;circle(x,y,z)\n";
    let v = parse_reg_with_wcs(text);
    assert_eq!(v.len(), 5);
    match &v[0] {
        Parsed::Sky(r) => {
            assert_eq!(r.kind, SkyKind::Circle);
            assert!(!r.galactic);
            assert_eq!((g(r.positions[0].0), g(r.positions[0].1)), (150.0, 2.0));
            assert_eq!(g(r.sizes[0]), 3.6);
            let k = pix_per_arcsec(&w);
            let det: f64 = -0.001 * 0.0015 - 0.0002 * 0.0001;
            assert_eq!(g(k), 1.0 / (det.abs().sqrt() * 3600.0));
            let m = place_region(r, &vec![Some((d(50.0), d(60.0)))], d(0.5)).unwrap();
            match m.shape {
                Shape::Circle { center, r } => {
                    assert_eq!((g(center.x), g(center.y), g(r)), (50.0, 60.0, 1.8))
                }
                _ => panic!("no circle"),
            }
            assert!(place_region(r, &vec![None], d(0.5)).is_none());
        }
        _ => panic!("not on the sky"),
    }
    match &v[1] {
        Parsed::Sky(r) => {
            assert!(r.galactic);
            assert_eq!((g(r.positions[0].0), g(r.positions[0].1)), (121.5, -30.25));
        }
        _ => panic!("not on the sky"),
    }
    assert!(matches!(&v[2], Parsed::Image(_)));
    match &v[3] {
        Parsed::Sky(r) => {
            assert_eq!((g(r.sizes[0]), g(r.sizes[1]), g(r.angle)), (60.0, 36.0, 45.0));
        }
        _ => panic!("not on the sky"),
    }
    match &v[4] {
        Parsed::Sky(r) => assert_eq!(g(r.positions[0].0), 15.0),
        _ => panic!("not on the sky"),
    }
    let ms = vec![Marker::circle(d(10.0), d(20.0), d(5.0))];
    let again = parse_reg_with_wcs(&reg_text(&ms));
    assert!(matches!(&again[0], Parsed::Image(m) if matches!(m.shape, Shape::Circle { .. })));
}

#[test]
fn galactic_positions() {
    let a = galactic_angles(d(0.0), d(0.0));
    let (b, l, p) = (g(a.latitude), g(a.from_pole), g(a.pole_dec));
    let t = GalacticTrig {
        sin_b: d(b.sin()),
        cos_b: d(b.cos()),
        sin_from: d(l.sin()),
        cos_from: d(l.cos()),
        sin_pole: d(p.sin()),
        cos_pole: d(p.cos()),
    };
    let dec = g(t.sin_dec()).asin();
    let (y, x) = t.offset(d(dec.cos()));
    let (ra, dec) = galactic_to_icrs(d(dec), d(g(y).atan2(g(x))));
    assert!((g(ra) - 266.405).abs() < 0.01, "{}", g(ra));
    assert!((g(dec) + 28.936).abs() < 0.01, "{}", g(dec));
}

#[test]
fn messages_between_programs() {
    assert_eq!(xml_escape("<a & \"b\">"), "&lt;a &amp; &quot;b&quot;&gt;");
    assert_eq!(
        xv_to_xml(&XV::Str(String::from("a<b"))),
        "<value><string>a&lt;b</string></value>"
    );
    let call = samp_register("key&");
    assert!(call.contains("<methodName>samp.hub.register</methodName>"));
    assert!(call.contains("key&amp;"));
    let body = "<struct><member><name>samp.private-key</name><value><string>k1</string></value></member></struct>";
    assert_eq!(samp_registered(body), Ok(String::from("k1")));
    assert!(samp_registered("<fault>no</fault>").is_err());
    assert_eq!(xmlrpc_struct_str(body, "other"), None);
    assert!(samp_unregister("k").contains("samp.hub.unregister"));
    assert!(samp_declare_metadata("k").contains("samp.name"));
    let n = samp_notify_all("k", "image.load.fits", "file:///a", "a");
    assert!(n.contains("image.load.fits") && n.contains("file:///a"));
    assert_eq!(samp_notified("<ok/>"), Ok(()));
    assert!(samp_notified("<fault>").is_err());
    let lock = "# hub\nsamp.secret=s1\nsamp.hub.xmlrpc.url=http://h/\n";
    assert_eq!(
        samp_read_lockfile(lock),
        Ok((String::from("http://h/"), String::from("s1")))
    );
    assert!(samp_read_lockfile("").is_err());
    assert_eq!(samp_lockfile_path(None, Some("/home/e")), Some(String::from("/home/e/.samp")));
    assert_eq!(samp_lockfile_path(None, None), None);
    assert_eq!(samp_lockfile_path(None, Some("")), Some(String::from(".samp")));
    assert_eq!(samp_lockfile_path(None, Some("/home/e/")), Some(String::from("/home/e/.samp")));
}

#[test]
fn addresses() {
    assert_eq!(urlencode("a b/é+"), "a%20b%2F%C3%A9%2B");
    assert_eq!(path_to_file_url("/a b/c.fits"), "file:///a%20b/c.fits");
    assert!(sesame_url("M 51").ends_with("M%2051"));
    assert!(vizier_url(d(10.5), d(-3.25), d(0.5), "I/345").contains("I%2F345"));
    assert!(ned_url(d(10.5), d(-3.25), d(0.5)).contains("10.5"));
    let p = sesame_resolve("M51", "# x\n%J 202.4695833 +47.1951667 = 13:29\n").unwrap();
    assert_eq!((g(p.0), g(p.1)), (202.4695833, 47.1951667));
    assert_eq!(sesame_resolve("q", "%J x 1\n").unwrap_err(), "sesame: malformed %J (RA)");
    assert_eq!(sesame_resolve("q", "%J 1 x\n").unwrap_err(), "sesame: malformed %J (Dec)");
    assert_eq!(
        sesame_resolve("q", "nothing\n").unwrap_err(),
        "sesame: no %J line in response (name 'q' unresolved)"
    );
    assert!(ned_table("no bars").is_err());
    assert!(ned_table("No.|Name|RA\n1|M51|202.5\n").is_ok());
    assert_eq!(g(parse_radius(" 0.25 ").unwrap()), 0.25);
    assert_eq!(parse_radius("30").unwrap_err(), "invalid radius '30' (deg, 0 < r < 30)");
    assert!(sextractor_config().contains("DETECT_THRESH    1.5\n"));
    assert!(sextractor_columns().starts_with("NUMBER\nX_IMAGE\n"));
    let args = sextractor_args("i.fits", "c", "o.cat", "p", " -DETECT_THRESH  3.0 ");
    assert_eq!(
        args,
        vec![
            "i.fits", "-c", "c", "-CATALOG_NAME", "o.cat", "-CATALOG_TYPE", "ASCII_HEAD",
            "-PARAMETERS_NAME", "p", "-DETECT_THRESH", "3.0"
        ]
    );
    assert_eq!(sextractor_failure("a\nlast words\n  \n"), "sextractor failed: last words");
}

#[test]
fn colors_in_hexadecimal() {
    assert_eq!(color_to_hex([255, 0, 16, 255]), "#ff0010");
    assert_eq!(parse_hex_rgb("#FF0010"), Some((255, 0, 16)));
    assert_eq!(parse_hex_rgb("ff001"), None);
    assert_eq!(parse_hex_rgb("#gg0000"), None);
    assert_eq!(parse_hex_rgb("+1+1+1"), None);
}

#[test]
fn editing_a_region() {
    let mut st = State::new();
    assert!(matches!(populate_region_props(&st), PropPanel::NoFrame));
    st.frames.push(Frame::new(image(4, 3), String::from("a")));
    assert!(matches!(populate_region_props(&st), PropPanel::NoSelection));
    st.add_circle(d(1.0), d(2.0), d(3.0));
    st.frames[0].selected_marker = Some(4);
    assert!(matches!(populate_region_props(&st), PropPanel::Gone));
    st.frames[0].selected_marker = Some(0);
    match populate_region_props(&st) {
        PropPanel::Region(p) => {
            assert_eq!((p.kind.as_str(), p.x.as_str(), p.size1.as_str()), ("#1 Circle", "1.00", "3.00"));
            assert_eq!(p.color, "#4ec9b0");
        }
        _ => panic!("no region"),
    }
    let texts = PropTexts {
        x: String::from("7.5"),
        y: String::from("oops"),
        size1: String::from("9"),
        size2: String::new(),
        angle: String::new(),
        color: String::from("#010203"),
        text: String::new(),
    };
    let said = apply_region_props(&mut st, &texts).unwrap();
    assert!(said.contains("x") && said.contains("color"), "{said}");
    match &st.frames[0].markers[0].shape {
        Shape::Circle { center, r } => assert_eq!((g(center.x), g(center.y), g(*r)), (7.5, 2.0, 9.0)),
        _ => panic!("no circle"),
    }
    assert_eq!(&st.frames[0].markers[0].color[..3], &[1, 2, 3]);
    assert_eq!(apply_region_props(&mut State::new(), &texts).unwrap(), "apply: no selection");
}

#[test]
fn preferences() {
    let p = Prefs::default();
    let text = prefs_text(&p);
    assert!(text.contains("cmap     = \"grey\"\n"));
    let q = read_prefs(&text);
    assert_eq!(format!("{p:?}"), format!("{q:?}"));
    let q = read_prefs("# c\ncmap = \"heat\"\nbin = 0\nblink_ms = 7\nsmooth=boxcar:5\nnothing\n");
    assert_eq!((q.cmap.as_str(), q.bin, q.blink_ms, q.smooth.as_str()), ("heat", 1, 50, "boxcar:5"));
    assert_eq!(parse_smooth_spec("gaussian:2.5"), SmoothKind::Gaussian { sigma: s(2.5) });
    assert_eq!(parse_smooth_spec("nonsense"), SmoothKind::Gaussian { sigma: s(0.0) });
    assert_eq!(parse_smooth_spec("median:x"), SmoothKind::Gaussian { sigma: s(0.0) });
    assert_eq!(parse_smooth_spec("boxcar:"), SmoothKind::Gaussian { sigma: s(0.0) });
    assert!(parse_stretch_spec(" LOG ").is_some());
    assert!(parse_stretch_spec("cube").is_none());
    assert!(parse_limits_spec("minmax").is_some());
    assert!(parse_limits_spec("x").is_none());
    let mut st = State::new();
    st.frames.push(Frame::new(image(4, 3), String::from("a")));
    let t = PrefTexts {
        cmap: String::from("heat"),
        stretch: String::from("sqrt"),
        limits: String::from("minmax"),
        smooth: String::from("median:3"),
        bin: String::from("4"),
        blink: String::from("x"),
    };
    apply_prefs_from_panel(&mut st, &t);
    assert_eq!(st.frames[0].bin_factor, 4);
    assert_eq!(st.prefs.blink_ms, 500);
    assert_eq!(populate_prefs_panel(&st.prefs).bin, "4");
    assert_eq!(st.frames[0].smooth_kind, SmoothKind::Median { n: 3 });
}
