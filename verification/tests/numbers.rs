use ds9::arith::Whole;
use ds9::num::{Double, Single};

struct Random(u64);

impl Random {
    fn next(&mut self) -> u64 {
        self.0 ^= self.0 << 13;
        self.0 ^= self.0 >> 7;
        self.0 ^= self.0 << 17;
        self.0
    }

    /// A number of any size.
    fn any(&mut self) -> f64 {
        f64::from_bits(self.next())
    }

    /// A number of middling size.
    fn mid(&mut self) -> f64 {
        let e = (self.next() % 80) as i32 - 40;
        let m = (self.next() % 2_000_001) as f64 - 1_000_000.0;
        m / 997.0 * 2f64.powi(e)
    }

    fn any32(&mut self) -> f32 {
        f32::from_bits(self.next() as u32)
    }

    fn mid32(&mut self) -> f32 {
        self.mid() as f32
    }
}

fn d(x: f64) -> Double {
    Double { bits: x.to_bits() }
}

fn s(x: f32) -> Single {
    Single { bits: x.to_bits() }
}

fn agree(a: Double, b: f64) -> bool {
    let a = f64::from_bits(a.bits);
    (a.is_nan() && b.is_nan()) || a.to_bits() == b.to_bits()
}

fn agree32(a: Single, b: f32) -> bool {
    let a = f32::from_bits(a.bits);
    (a.is_nan() && b.is_nan()) || a.to_bits() == b.to_bits()
}

fn special() -> Vec<f64> {
    vec![
        0.0,
        -0.0,
        1.0,
        -1.0,
        0.1,
        0.5,
        1.5,
        2.0,
        3.0,
        1e300,
        -1e300,
        1e-300,
        5e-324,
        -5e-324,
        f64::MIN_POSITIVE,
        f64::MIN_POSITIVE * 0.75,
        f64::MAX,
        f64::MIN,
        f64::EPSILON,
        1.0 + f64::EPSILON,
        1.0 - f64::EPSILON / 2.0,
        9007199254740991.0,
        9007199254740993.0,
        f64::INFINITY,
        f64::NEG_INFINITY,
        f64::NAN,
    ]
}

fn special32() -> Vec<f32> {
    vec![
        0.0,
        -0.0,
        1.0,
        -1.0,
        0.1,
        1.5,
        1e38,
        1e-38,
        1e-45,
        f32::MIN_POSITIVE,
        f32::MIN_POSITIVE * 0.75,
        f32::MAX,
        f32::MIN,
        f32::EPSILON,
        1.0 + f32::EPSILON,
        16777215.0,
        f32::INFINITY,
        f32::NEG_INFINITY,
        f32::NAN,
    ]
}

fn check_pair(x: f64, y: f64) {
    let (a, b) = (d(x), d(y));
    assert!(agree(a.plus(b), x + y), "{x:e} + {y:e}");
    assert!(agree(a.minus(b), x - y), "{x:e} - {y:e}");
    assert!(agree(a.times(b), x * y), "{x:e} * {y:e}");
    assert!(agree(a.over(b), x / y), "{x:e} / {y:e}");
    assert!(agree(a.modulo(b), x % y), "{x:e} % {y:e}");
    assert_eq!(a.lt(b), x < y);
    assert_eq!(a.le(b), x <= y);
    assert_eq!(a.same(b), x == y);
    if x != 0.0 || y != 0.0 {
        assert!(agree(a.max(b), x.max(y)), "max {x:e} {y:e}");
        assert!(agree(a.min(b), x.min(y)), "min {x:e} {y:e}");
    }
}

fn check_pair32(x: f32, y: f32) {
    let (a, b) = (s(x), s(y));
    assert!(agree32(a.plus(b), x + y), "{x:e} + {y:e}");
    assert!(agree32(a.minus(b), x - y), "{x:e} - {y:e}");
    assert!(agree32(a.times(b), x * y), "{x:e} * {y:e}");
    assert!(agree32(a.over(b), x / y), "{x:e} / {y:e}");
    assert!(agree32(a.modulo(b), x % y), "{x:e} % {y:e}");
    assert_eq!(a.lt(b), x < y);
    assert_eq!(a.le(b), x <= y);
    assert_eq!(a.same(b), x == y);
    if x != 0.0 || y != 0.0 {
        assert!(agree32(a.max(b), x.max(y)), "max {x:e} {y:e}");
        assert!(agree32(a.min(b), x.min(y)), "min {x:e} {y:e}");
    }
}

#[test]
fn arithmetic_of_special_doubles() {
    for x in special() {
        for y in special() {
            check_pair(x, y);
        }
    }
}

#[test]
fn arithmetic_of_random_doubles() {
    let mut r = Random(0x9e37_79b9_7f4a_7c15);
    for _ in 0..4000 {
        check_pair(r.any(), r.any());
        check_pair(r.mid(), r.mid());
        let x = r.mid();
        check_pair(x, f64::from_bits(x.to_bits().wrapping_add(r.next() % 5)));
    }
}

#[test]
fn arithmetic_of_special_singles() {
    for x in special32() {
        for y in special32() {
            check_pair32(x, y);
        }
    }
}

#[test]
fn arithmetic_of_random_singles() {
    let mut r = Random(0x1234_5678_9abc_def1);
    for _ in 0..4000 {
        check_pair32(r.any32(), r.any32());
        check_pair32(r.mid32(), r.mid32());
    }
}

fn check_one(x: f64) {
    let a = d(x);
    assert!(agree(a.sqrt(), x.sqrt()), "sqrt {x:e}");
    assert!(agree(a.negate(), -x));
    assert!(agree(a.abs(), x.abs()));
    assert_eq!(a.is_nan(), x.is_nan());
    assert_eq!(a.is_finite(), x.is_finite());
    assert!(agree32(a.narrow(), x as f32), "narrow {x:e}");
    assert_eq!(
        a.whole(Whole::Trunc, i32::MIN as i128, i32::MAX as i128),
        x as i32 as i128
    );
    assert_eq!(
        a.whole(Whole::Floor, i64::MIN as i128, i64::MAX as i128),
        x.floor() as i64 as i128
    );
    assert_eq!(
        a.whole(Whole::Ceil, i64::MIN as i128, i64::MAX as i128),
        x.ceil() as i64 as i128
    );
    assert_eq!(
        a.whole(Whole::Round, i64::MIN as i128, i64::MAX as i128),
        x.round() as i64 as i128
    );
    assert_eq!(a.whole(Whole::Trunc, 0, u8::MAX as i128), x as u8 as i128);
}

fn check_one32(x: f32) {
    let a = s(x);
    assert!(agree32(a.sqrt(), x.sqrt()), "sqrt {x:e}");
    assert!(agree32(a.negate(), -x));
    assert!(agree32(a.abs(), x.abs()));
    assert_eq!(a.is_nan(), x.is_nan());
    assert_eq!(a.is_finite(), x.is_finite());
    assert!(agree(a.widen(), x as f64), "widen {x:e}");
    assert_eq!(
        a.whole(Whole::Round, i32::MIN as i128, i32::MAX as i128),
        x.round() as i32 as i128
    );
    assert_eq!(a.whole(Whole::Trunc, 0, u32::MAX as i128), x as u32 as i128);
}

#[test]
fn single_numbers() {
    let mut r = Random(77);
    for x in special() {
        check_one(x);
    }
    for x in special32() {
        check_one32(x);
    }
    for k in 0..40 {
        check_one(k as f64 / 4.0 - 5.0);
        check_one32(k as f32 / 4.0 - 5.0);
    }
    for _ in 0..4000 {
        check_one(r.any());
        check_one(r.mid());
        check_one32(r.any32());
        check_one32(r.mid32());
    }
}

#[test]
fn whole_numbers_are_rounded() {
    let mut r = Random(5);
    for v in [0i64, 1, -1, i64::MAX, i64::MIN, 1 << 53, (1 << 53) + 1, -((1 << 54) + 3)] {
        assert!(agree(Double::from_int(v), v as f64));
        assert!(agree32(Single::from_int(v), v as f32));
    }
    for v in [0u64, u64::MAX, (1 << 63) + 1, 16777217] {
        assert!(agree(Double::from_nat(v), v as f64));
        assert!(agree32(Single::from_nat(v), v as f32));
    }
    for _ in 0..2000 {
        let v = r.next() as i64 >> (r.next() % 60);
        assert!(agree(Double::from_int(v), v as f64));
        assert!(agree32(Single::from_int(v), v as f32));
        let u = r.next() >> (r.next() % 60);
        assert!(agree(Double::from_nat(u), u as f64));
        assert!(agree32(Single::from_nat(u), u as f32));
    }
}

#[test]
fn clamping() {
    for x in special() {
        assert!(agree(d(x).clamp(d(-2.0), d(7.5)), x.clamp(-2.0, 7.5)));
    }
    for x in special32() {
        assert!(agree32(s(x).clamp(s(0.02), s(64.0)), x.clamp(0.02, 64.0)));
    }
}

fn text(v: Vec<char>) -> String {
    v.into_iter().collect()
}

fn check_text(x: f64) {
    for k in [0u32, 1, 2, 4, 6] {
        assert_eq!(text(d(x).fixed(k)), format!("{:.*}", k as usize, x));
    }
    assert_eq!(text(d(x).signed(2)), format!("{x:+.2}"));
    assert_eq!(text(d(x).shortest()), format!("{x}"));
    for k in [1u32, 6, 10, 16] {
        assert_eq!(text(d(x).scientific(k)), format!("{:.*E}", k as usize, x));
    }
}

fn check_text32(x: f32) {
    for k in [0u32, 1, 3, 4] {
        assert_eq!(text(s(x).fixed(k)), format!("{:.*}", k as usize, x));
    }
    assert_eq!(text(s(x).shortest()), format!("{x}"));
    assert_eq!(text(s(x).scientific(8)), format!("{x:.8E}"));
}

#[test]
fn numbers_in_decimal() {
    let mut r = Random(0xabcdef);
    for x in special() {
        check_text(x);
    }
    for x in special32() {
        check_text32(x);
    }
    for x in [0.125, 0.375, 2.5, 3.5, 0.05, 1e21, 1e22, 1e23, 123456.789, 8.5, 9.5, 99.995] {
        check_text(x);
        check_text(-x);
        check_text32(x as f32);
    }
    for e in -30..30 {
        check_text(2f64.powi(e));
        check_text32(2f32.powi(e));
    }
    for _ in 0..60 {
        check_text(r.mid());
        check_text32(r.mid32());
    }
    for _ in 0..20 {
        check_text(r.any());
        check_text32(r.any32());
    }
}

fn check_parse(t: &str) {
    let v: Vec<char> = t.chars().collect();
    match (Double::parse(&v), t.parse::<f64>()) {
        (Some(a), Ok(b)) => assert!(agree(a, b), "{t}"),
        (None, Err(_)) => {}
        (a, b) => panic!("{t}: {a:?} {b:?}"),
    }
    match (Single::parse(&v), t.parse::<f32>()) {
        (Some(a), Ok(b)) => assert!(agree32(a, b), "{t}"),
        (None, Err(_)) => {}
        (a, b) => panic!("{t}: {a:?} {b:?}"),
    }
}

#[test]
fn numbers_from_text() {
    for t in [
        "0", "-0", "+1", "1.", ".5", "-.5e1", "1e5", "1E+5", "1e-5", "", ".", "+", "-", "e5", "1e",
        "1e+", " 1", "1 ", "1_000", "0x10", "inf", "-inf", "+infinity", "Infinity", "NaN", "nan",
        "-nan", "infin", "1.5.2", "12a", "1d5", "1e400", "-1e400", "1e-400", "4.9e-324",
        "2.4703282292062327e-324", "2.4703282292062328e-324", "2.2250738585072011e-308",
        "1.7976931348623157e308", "1.7976931348623159e308", "9007199254740993",
        "9007199254740992.5", "0.1", "0.30000000000000004", "123456789012345678901234567890",
        "1e23", "8.5e22", "16777217", "3.4028235e38", "3.4028236e38", "1.1754943e-38", "1e-45",
        "0.000000000000000000000000000000000000000000000000000001", "000012.500", "5e-1", "é",
    ] {
        check_parse(t);
    }
    let mut r = Random(4242);
    for _ in 0..200 {
        let x = r.mid();
        check_parse(&format!("{x}"));
        check_parse(&format!("{x:.3}"));
        check_parse(&format!("{x:e}"));
        check_parse(&format!("{:e}", r.any()));
    }
}
