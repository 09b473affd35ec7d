use ds9::marker::{parse_reg, reg_text, Marker, Shape};
use ds9::num::Double;

fn d(x: f64) -> Double {
    Double { bits: x.to_bits() }
}

#[test]
fn parse_basic() {
    let txt = "# comment\nglobal color=red\nimage\ncircle(100,200,15)\nbox(50,60,10,20,30)\n";
    let m = parse_reg(txt).unwrap();
    assert_eq!(m.len(), 2);
    assert!(matches!(m[0].shape, Shape::Circle { .. }));
    assert!(matches!(m[1].shape, Shape::Box { .. }));
}

#[test]
fn roundtrip() {
    let ms = vec![
        Marker::circle(d(10.0), d(20.0), d(5.0)),
        Marker::rbox(d(30.0), d(40.0), d(4.0), d(6.0), d(12.0)),
    ];
    let text = reg_text(&ms);
    let back = parse_reg(&text).unwrap();
    assert_eq!(back.len(), 2);
}
