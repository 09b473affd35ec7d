//! Colour maps, and the orientation in which an image is shown.

use crate::arith::Whole;
use crate::num::{Double, Single};
use crate::text::{
    chars_of, lines, lines_spec, same_text, texts, trim, trim_spec, words, words_spec,
};
use vstd::arithmetic::div_mod::*;
use vstd::prelude::*;

verus! {

/// The colour maps.
#[derive(Clone, Copy, Debug, PartialEq, Eq, Structural)]
pub enum Colormap {
    Grey,
    Red,
    Green,
    Blue,
    Heat,
    Cool,
    Rainbow,
    /// A bright purple ramp.
    B,
    /// The colours of a black body.
    Bb,
    /// Stern special linear.
    Sls,
    Hsv,
    /// A bright warm ramp.
    A,
}

impl Default for Colormap {
    fn default() -> (r: Colormap)
        ensures
            r == Colormap::Grey,
    {
        Colormap::Grey
    }
}

/// The share of red, green and blue in a colour, from zero to one.
pub struct Levels {
    pub r: Single,
    pub g: Single,
    pub b: Single,
}

/// A share brought into the range from zero to one.
pub open spec fn unit_spec(x: Single) -> Single {
    x.clamp(Single { bits: 0 }, Single { bits: 0x3f80_0000 })
}

fn unit(x: Single) -> (r: Single)
    ensures
        r == unit_spec(x),
{
    x.clamp(Single { bits: 0 }, Single { bits: 0x3f80_0000 })
}

/// A share as a byte: 255 times the share, cut off.
pub open spec fn byte_spec(x: Single) -> u8 {
    x.times(Single { bits: 0x437f_0000 }).whole_spec(Whole::Trunc, 0, 255) as u8
}

/// A share as a byte.
pub fn byte(x: Single) -> (r: u8)
    ensures
        r == byte_spec(x),
{
    x.times(Single { bits: 0x437f_0000 }).whole(Whole::Trunc, 0, 255) as u8
}

/// The colour with a hue in degrees, a saturation and a value.
pub open spec fn hsv_spec(h: Single, s: Single, v: Single) -> Levels {
    let h = h.modulo(Single { bits: 0x43b4_0000 }).plus(Single { bits: 0x43b4_0000 }).modulo(Single { bits: 0x43b4_0000 });
    let c = v.times(s);
    let hh = h.over(Single { bits: 0x4270_0000 });
    let x = c.times(Single { bits: 0x3f80_0000 }.minus(hh.modulo(Single { bits: 0x4000_0000 }).minus(Single { bits: 0x3f80_0000 }).abs()));
    let sector = hh.whole_spec(Whole::Trunc, 0, u32::MAX as int);
    let zero = Single { bits: 0 };
    let (r, g, b) = if sector == 0 {
        (c, x, zero)
    } else if sector == 1 {
        (x, c, zero)
    } else if sector == 2 {
        (zero, c, x)
    } else if sector == 3 {
        (zero, x, c)
    } else if sector == 4 {
        (x, zero, c)
    } else {
        (c, zero, x)
    };
    let m = v.minus(c);
    Levels { r: r.plus(m), g: g.plus(m), b: b.plus(m) }
}

/// The colour with a hue in degrees, a saturation and a value.
fn hsv_to_rgb(h: Single, s: Single, v: Single) -> (r: Levels)
    ensures
        r == hsv_spec(h, s, v),
{
    let h: Single = h.modulo(Single { bits: 0x43b4_0000 }).plus(Single { bits: 0x43b4_0000 }).modulo(Single { bits: 0x43b4_0000 });
    let c: Single = v.times(s);
    let hh: Single = h.over(Single { bits: 0x4270_0000 });
    let x: Single = c.times(Single { bits: 0x3f80_0000 }.minus(hh.modulo(Single { bits: 0x4000_0000 }).minus(Single { bits: 0x3f80_0000 }).abs()));
    let sector: i128 = hh.whole(Whole::Trunc, 0, u32::MAX as i128);
    let zero = Single { bits: 0 };
    let (r, g, b): (Single, Single, Single) = if sector == 0 {
        (c, x, zero)
    } else if sector == 1 {
        (x, c, zero)
    } else if sector == 2 {
        (zero, c, x)
    } else if sector == 3 {
        (zero, x, c)
    } else if sector == 4 {
        (x, zero, c)
    } else {
        (c, zero, x)
    };
    let m: Single = v.minus(c);
    Levels { r: r.plus(m), g: g.plus(m), b: b.plus(m) }
}

/// Stern special linear, in four bands.
pub open spec fn stern_spec(t: Single) -> Levels {
    Levels {
        r: unit_spec(
            if t.lt(Single { bits: 0x3d80_0000 }) {
                t.times(Single { bits: 0x4080_0000 }).times(Single { bits: 0x4080_0000 })
            } else if t.lt(Single { bits: 0x3f00_0000 }) {
                Single { bits: 0x3f80_0000 }.minus(t.minus(Single { bits: 0x3d80_0000 }).over(Single { bits: 0x3ee0_0000 }))
            } else {
                t.minus(Single { bits: 0x3f00_0000 }).times(Single { bits: 0x4000_0000 })
            },
        ),
        g: unit_spec(unit_spec(t.minus(Single { bits: 0 }))),
        b: unit_spec(
            if t.lt(Single { bits: 0x3e80_0000 }) {
                t.times(Single { bits: 0x4080_0000 })
            } else if t.lt(Single { bits: 0x3f00_0000 }) {
                Single { bits: 0x3f80_0000 }.minus(t.minus(Single { bits: 0x3e80_0000 }).times(Single { bits: 0x4080_0000 }))
            } else {
                Single { bits: 0 }
            },
        ),
    }
}

/// Stern special linear, in four bands.
fn stern_special_linear(t: Single) -> (r: Levels)
    ensures
        r == stern_spec(t),
{
    let r: Single = if t.lt(Single { bits: 0x3d80_0000 }) {
        t.times(Single { bits: 0x4080_0000 }).times(Single { bits: 0x4080_0000 })
    } else if t.lt(Single { bits: 0x3f00_0000 }) {
        Single { bits: 0x3f80_0000 }.minus(t.minus(Single { bits: 0x3d80_0000 }).over(Single { bits: 0x3ee0_0000 }))
    } else {
        t.minus(Single { bits: 0x3f00_0000 }).times(Single { bits: 0x4000_0000 })
    };
    let g: Single = unit(t.minus(Single { bits: 0 }));
    let b: Single = if t.lt(Single { bits: 0x3e80_0000 }) {
        t.times(Single { bits: 0x4080_0000 })
    } else if t.lt(Single { bits: 0x3f00_0000 }) {
        Single { bits: 0x3f80_0000 }.minus(t.minus(Single { bits: 0x3e80_0000 }).times(Single { bits: 0x4080_0000 }))
    } else {
        Single { bits: 0 }
    };
    Levels { r: unit(r), g: unit(g), b: unit(b) }
}

/// `(t - a) * k`, brought into the range from zero to one.
pub open spec fn ramp_spec(t: Single, a: Single, k: Single) -> Single {
    unit_spec(t.minus(a).times(k))
}

fn ramp(t: Single, a: Single, k: Single) -> (r: Single)
    ensures
        r == ramp_spec(t, a, k),
{
    unit(t.minus(a).times(k))
}

impl Colormap {
    /// The map with the given name.
    pub open spec fn named(s: Seq<char>) -> Option<Colormap> {
        if s == "grey"@ || s == "gray"@ {
            Some(Colormap::Grey)
        } else if s == "red"@ {
            Some(Colormap::Red)
        } else if s == "green"@ {
            Some(Colormap::Green)
        } else if s == "blue"@ {
            Some(Colormap::Blue)
        } else if s == "heat"@ {
            Some(Colormap::Heat)
        } else if s == "cool"@ {
            Some(Colormap::Cool)
        } else if s == "rainbow"@ {
            Some(Colormap::Rainbow)
        } else if s == "b"@ {
            Some(Colormap::B)
        } else if s == "bb"@ {
            Some(Colormap::Bb)
        } else if s == "sls"@ {
            Some(Colormap::Sls)
        } else if s == "hsv"@ {
            Some(Colormap::Hsv)
        } else if s == "a"@ {
            Some(Colormap::A)
        } else {
            None
        }
    }

    /// The map with the given name.
    pub fn from_name(s: &str) -> (r: Option<Colormap>)
        ensures
            r == Colormap::named(s@),
    {
        let v = chars_of(s);
        if same_text(&v, "grey") || same_text(&v, "gray") {
            Some(Colormap::Grey)
        } else if same_text(&v, "red") {
            Some(Colormap::Red)
        } else if same_text(&v, "green") {
            Some(Colormap::Green)
        } else if same_text(&v, "blue") {
            Some(Colormap::Blue)
        } else if same_text(&v, "heat") {
            Some(Colormap::Heat)
        } else if same_text(&v, "cool") {
            Some(Colormap::Cool)
        } else if same_text(&v, "rainbow") {
            Some(Colormap::Rainbow)
        } else if same_text(&v, "b") {
            Some(Colormap::B)
        } else if same_text(&v, "bb") {
            Some(Colormap::Bb)
        } else if same_text(&v, "sls") {
            Some(Colormap::Sls)
        } else if same_text(&v, "hsv") {
            Some(Colormap::Hsv)
        } else if same_text(&v, "a") {
            Some(Colormap::A)
        } else {
            None
        }
    }

    /// The name of the map.
    pub open spec fn name_spec(self) -> Seq<char> {
        match self {
            Colormap::Grey => "grey"@,
            Colormap::Red => "red"@,
            Colormap::Green => "green"@,
            Colormap::Blue => "blue"@,
            Colormap::Heat => "heat"@,
            Colormap::Cool => "cool"@,
            Colormap::Rainbow => "rainbow"@,
            Colormap::B => "b"@,
            Colormap::Bb => "bb"@,
            Colormap::Sls => "sls"@,
            Colormap::Hsv => "hsv"@,
            Colormap::A => "a"@,
        }
    }

    /// The name of the map.
    pub fn name(&self) -> (r: &'static str)
        ensures
            r@ == self.name_spec(),
    {
        match self {
            Colormap::Grey => "grey",
            Colormap::Red => "red",
            Colormap::Green => "green",
            Colormap::Blue => "blue",
            Colormap::Heat => "heat",
            Colormap::Cool => "cool",
            Colormap::Rainbow => "rainbow",
            Colormap::B => "b",
            Colormap::Bb => "bb",
            Colormap::Sls => "sls",
            Colormap::Hsv => "hsv",
            Colormap::A => "a",
        }
    }

    /// The colour of the level `t`, from zero to one.
    pub open spec fn levels_spec(self, t: Single) -> Levels {
        let zero = Single { bits: 0 };
        match self {
            Colormap::Grey => Levels { r: t, g: t, b: t },
            Colormap::Red => Levels { r: t, g: zero, b: zero },
            Colormap::Green => Levels { r: zero, g: t, b: zero },
            Colormap::Blue => Levels { r: zero, g: zero, b: t },
            Colormap::Heat => Levels {
                r: unit_spec(t.times(Single { bits: 0x4040_0000 })),
                g: ramp_spec(t, Single { bits: 0x3ea8_f5c3 }, Single { bits: 0x4040_0000 }),
                b: ramp_spec(t, Single { bits: 0x3f28_f5c3 }, Single { bits: 0x4040_0000 }),
            },
            Colormap::Cool => Levels { r: t, g: Single { bits: 0x3f80_0000 }.minus(t), b: Single { bits: 0x3f80_0000 } },
            Colormap::Rainbow => hsv_spec(Single { bits: 0x3f80_0000 }.minus(t).times(Single { bits: 0x438c_0000 }), Single { bits: 0x3f80_0000 }, Single { bits: 0x3f80_0000 }),
            Colormap::Hsv => hsv_spec(t.times(Single { bits: 0x43b4_0000 }), Single { bits: 0x3f80_0000 }, Single { bits: 0x3f80_0000 }),
            Colormap::B => Levels {
                r: unit_spec(t.times(Single { bits: 0x3fb3_3333 }).minus(Single { bits: 0x3e4c_cccd })),
                g: ramp_spec(t, Single { bits: 0x3f00_0000 }, Single { bits: 0x4000_0000 }),
                b: unit_spec(Single { bits: 0x3ecc_cccd }.plus(t.times(Single { bits: 0x3f19_999a }))),
            },
            Colormap::Bb => Levels {
                r: unit_spec(t.times(Single { bits: 0x3fc0_0000 })),
                g: ramp_spec(t, Single { bits: 0x3ecc_cccd }, Single { bits: 0x3fcc_cccd }),
                b: ramp_spec(t, Single { bits: 0x3f40_0000 }, Single { bits: 0x4080_0000 }),
            },
            Colormap::Sls => stern_spec(t),
            Colormap::A => Levels {
                r: unit_spec(t.times(Single { bits: 0x3f99_999a }).plus(Single { bits: 0x3d4c_cccd })),
                g: ramp_spec(t, Single { bits: 0x3eb3_3333 }, Single { bits: 0x3fd9_999a }),
                b: ramp_spec(t, Single { bits: 0x3f26_6666 }, Single { bits: 0x4020_0000 }),
            },
        }
    }

    fn levels(&self, t: Single) -> (r: Levels)
        ensures
            r == self.levels_spec(t),
    {
        let zero = Single { bits: 0 };
        match self {
            Colormap::Grey => Levels { r: t, g: t, b: t },
            Colormap::Red => Levels { r: t, g: zero, b: zero },
            Colormap::Green => Levels { r: zero, g: t, b: zero },
            Colormap::Blue => Levels { r: zero, g: zero, b: t },
            Colormap::Heat => Levels {
                r: unit(t.times(Single { bits: 0x4040_0000 })),
                g: ramp(t, Single { bits: 0x3ea8_f5c3 }, Single { bits: 0x4040_0000 }),
                b: ramp(t, Single { bits: 0x3f28_f5c3 }, Single { bits: 0x4040_0000 }),
            },
            Colormap::Cool => Levels { r: t, g: Single { bits: 0x3f80_0000 }.minus(t), b: Single { bits: 0x3f80_0000 } },
            Colormap::Rainbow => hsv_to_rgb(Single { bits: 0x3f80_0000 }.minus(t).times(Single { bits: 0x438c_0000 }), Single { bits: 0x3f80_0000 }, Single { bits: 0x3f80_0000 }),
            Colormap::Hsv => hsv_to_rgb(t.times(Single { bits: 0x43b4_0000 }), Single { bits: 0x3f80_0000 }, Single { bits: 0x3f80_0000 }),
            Colormap::B => Levels {
                r: unit(t.times(Single { bits: 0x3fb3_3333 }).minus(Single { bits: 0x3e4c_cccd })),
                g: ramp(t, Single { bits: 0x3f00_0000 }, Single { bits: 0x4000_0000 }),
                b: unit(Single { bits: 0x3ecc_cccd }.plus(t.times(Single { bits: 0x3f19_999a }))),
            },
            Colormap::Bb => Levels {
                r: unit(t.times(Single { bits: 0x3fc0_0000 })),
                g: ramp(t, Single { bits: 0x3ecc_cccd }, Single { bits: 0x3fcc_cccd }),
                b: ramp(t, Single { bits: 0x3f40_0000 }, Single { bits: 0x4080_0000 }),
            },
            Colormap::Sls => stern_special_linear(t),
            Colormap::A => Levels {
                r: unit(t.times(Single { bits: 0x3f99_999a }).plus(Single { bits: 0x3d4c_cccd })),
                g: ramp(t, Single { bits: 0x3eb3_3333 }, Single { bits: 0x3fd9_999a }),
                b: ramp(t, Single { bits: 0x3f26_6666 }, Single { bits: 0x4020_0000 }),
            },
        }
    }

    /// The colour of the index `i` of 256.
    pub open spec fn entry_spec(self, i: int) -> (u8, u8, u8) {
        let c = self.levels_spec(Single::from_int_spec(i).over(Single { bits: 0x437f_0000 }));
        (byte_spec(c.r), byte_spec(c.g), byte_spec(c.b))
    }

    /// The colours of all indices.
    pub open spec fn lut_spec(self) -> Seq<(u8, u8, u8)> {
        Seq::new(256, |i: int| self.entry_spec(i))
    }

    /// The table of the 256 colours.
    pub fn lut(&self) -> (r: Vec<(u8, u8, u8)>)
        ensures
            r@ == self.lut_spec(),
    {
        let mut lut: Vec<(u8, u8, u8)> = Vec::new();
        for i in 0..256usize
            invariant
                lut@ =~= self.lut_spec().take(i as int),
        {
            let t: Single = Single::from_int(i as i64).over(Single { bits: 0x437f_0000 });
            let c = self.levels(t);
            lut.push((byte(c.r), byte(c.g), byte(c.b)));
        }
        assert(lut@ =~= self.lut_spec());
        lut
    }

    /// Nine colours at even distances over the map.
    pub fn gradient_stops(&self) -> (r: Vec<(u8, u8, u8)>)
        ensures
            r@ == Seq::new(9, |i: int| self.entry_spec(i * 255 / 8)),
    {
        let lut = self.lut();
        let mut r: Vec<(u8, u8, u8)> = Vec::new();
        for i in 0..9usize
            invariant
                lut@ == self.lut_spec(),
                r@ =~= Seq::new(i as nat, |k: int| self.entry_spec(k * 255 / 8)),
        {
            r.push(lut[i * 255 / 8]);
        }
        r
    }

    /// The pixels of a strip one pixel wide that shows the map, the highest index at the
    /// top, four bytes each.
    pub fn rgba_strip(&self) -> (r: Vec<u8>)
        ensures
            r@ == strip_spec(*self, 256),
    {
        let lut = self.lut();
        let mut out: Vec<u8> = Vec::new();
        assert(out@ =~= strip_spec(*self, 0));
        for i in 0..256usize
            invariant
                lut@ == self.lut_spec(),
                out@ =~= strip_spec(*self, i as nat),
        {
            let (r, g, b): (u8, u8, u8) = lut[255 - i];
            out.push(r);
            out.push(g);
            out.push(b);
            out.push(255);
            assert(out@ =~= strip_spec(*self, (i + 1) as nat));
        }
        out
    }
}

/// The byte `k` of an opaque pixel of the given colour.
pub open spec fn rgba_byte(c: (u8, u8, u8), k: int) -> u8 {
    if k == 0 {
        c.0
    } else if k == 1 {
        c.1
    } else if k == 2 {
        c.2
    } else {
        255
    }
}

/// The first `n` pixels of the strip that shows a map.
pub open spec fn strip_spec(c: Colormap, n: nat) -> Seq<u8> {
    Seq::new(4 * n, |i: int| rgba_byte(c.entry_spec(255 - i / 4), i % 4))
}

/// A map is found by its name.
pub proof fn name_finds_map(c: Colormap)
    ensures
        Colormap::named(c.name_spec()) == Some(c),
{
    reveal_strlit("grey");
    reveal_strlit("gray");
    reveal_strlit("red");
    reveal_strlit("green");
    reveal_strlit("blue");
    reveal_strlit("heat");
    reveal_strlit("cool");
    reveal_strlit("rainbow");
    reveal_strlit("b");
    reveal_strlit("bb");
    reveal_strlit("sls");
    reveal_strlit("hsv");
    reveal_strlit("a");
    // Names differ in length or in the first character.
    assert("grey"@.len() == 4 && "gray"@.len() == 4 && "red"@.len() == 3);
    assert("green"@.len() == 5 && "blue"@.len() == 4 && "heat"@.len() == 4);
    assert("cool"@.len() == 4 && "rainbow"@.len() == 7 && "b"@.len() == 1);
    assert("bb"@.len() == 2 && "sls"@.len() == 3 && "hsv"@.len() == 3 && "a"@.len() == 1);
    assert("grey"@[0] == 'g' && "gray"@[0] == 'g' && "blue"@[0] == 'b');
    assert("heat"@[0] == 'h' && "cool"@[0] == 'c');
    assert("red"@[0] == 'r' && "sls"@[0] == 's' && "hsv"@[0] == 'h');
    assert("a"@[0] == 'a' && "b"@[0] == 'b');
    match c {
        Colormap::Grey => assert(Colormap::named("grey"@) == Some(c)),
        Colormap::Red => assert(Colormap::named("red"@) == Some(c)),
        Colormap::Green => assert(Colormap::named("green"@) == Some(c)),
        Colormap::Blue => assert(Colormap::named("blue"@) == Some(c)),
        Colormap::Heat => assert(Colormap::named("heat"@) == Some(c)),
        Colormap::Cool => assert(Colormap::named("cool"@) == Some(c)),
        Colormap::Rainbow => assert(Colormap::named("rainbow"@) == Some(c)),
        Colormap::B => assert(Colormap::named("b"@) == Some(c)),
        Colormap::Bb => assert(Colormap::named("bb"@) == Some(c)),
        Colormap::Sls => assert(Colormap::named("sls"@) == Some(c)),
        Colormap::Hsv => assert(Colormap::named("hsv"@) == Some(c)),
        Colormap::A => assert(Colormap::named("a"@) == Some(c)),
    }
}

// ---------------------------------------------------------------------------
// Orientation
// ---------------------------------------------------------------------------

/// The orientation in which an image is shown. None of them changes the size.
#[derive(Clone, Copy, Debug, PartialEq, Eq, Structural)]
pub enum Orientation {
    Identity,
    FlipH,
    FlipV,
    Rot180,
}

impl Default for Orientation {
    fn default() -> (r: Orientation)
        ensures
            r == Orientation::Identity,
    {
        Orientation::Identity
    }
}

impl Orientation {
    /// The name of the orientation.
    pub open spec fn name_spec(self) -> Seq<char> {
        match self {
            Orientation::Identity => "identity"@,
            Orientation::FlipH => "flip-h"@,
            Orientation::FlipV => "flip-v"@,
            Orientation::Rot180 => "rot180"@,
        }
    }

    /// The name of the orientation.
    pub fn name(self) -> (r: &'static str)
        ensures
            r@ == self.name_spec(),
    {
        match self {
            Orientation::Identity => "identity",
            Orientation::FlipH => "flip-h",
            Orientation::FlipV => "flip-v",
            Orientation::Rot180 => "rot180",
        }
    }

    /// Whether the columns change places.
    pub open spec fn mirrors_x(self) -> bool {
        self == Orientation::FlipH || self == Orientation::Rot180
    }

    /// Whether the rows change places.
    pub open spec fn mirrors_y(self) -> bool {
        self == Orientation::FlipV || self == Orientation::Rot180
    }

    /// The place along an axis of the given length after a change of places.
    pub open spec fn mirrored(x: Double, size: Double) -> Double {
        size.minus(Double { bits: 0x3ff0_0000_0000_0000 }).minus(x)
    }

    /// The place in the image as it is stored of a place in the image as it is shown.
    pub open spec fn display_spec(self, x: Double, y: Double, w: Double, h: Double) -> (
        Double,
        Double,
    ) {
        (
            if self.mirrors_x() {
                Orientation::mirrored(x, w)
            } else {
                x
            },
            if self.mirrors_y() {
                Orientation::mirrored(y, h)
            } else {
                y
            },
        )
    }

    /// The place in the image as it is stored of a place in the image as it is shown,
    /// both counted from zero at the top left.
    pub fn invert_display(self, x: Double, y: Double, w: Double, h: Double) -> (r: (
        Double,
        Double,
    ))
        ensures
            r == self.display_spec(x, y, w, h),
    {
        let one = Double { bits: 0x3ff0_0000_0000_0000 };
        match self {
            Orientation::Identity => (x, y),
            Orientation::FlipH => (w.minus(one).minus(x), y),
            Orientation::FlipV => (x, h.minus(one).minus(y)),
            Orientation::Rot180 => (w.minus(one).minus(x), h.minus(one).minus(y)),
        }
    }

    /// The place in the image as it is shown of a place in the image as it is stored:
    /// the same map, which is its own inverse.
    pub fn apply_display(self, x: Double, y: Double, w: Double, h: Double) -> (r: (Double, Double))
        ensures
            r == self.display_spec(x, y, w, h),
    {
        self.invert_display(x, y, w, h)
    }
}

/// The byte of the stored image that goes to the byte `i` of the shown one.
pub open spec fn source_byte(i: int, w: int, h: int, o: Orientation) -> int {
    let p = i / 4;
    let x = p % w;
    let y = p / w;
    let sx = if o.mirrors_x() {
        w - 1 - x
    } else {
        x
    };
    let sy = if o.mirrors_y() {
        h - 1 - y
    } else {
        y
    };
    (sy * w + sx) * 4 + i % 4
}

/// The bytes of an image of `w` by `h` pixels, four bytes each, in an orientation.
pub open spec fn oriented(rgba: Seq<u8>, w: int, h: int, o: Orientation) -> Seq<u8> {
    Seq::new(rgba.len(), |i: int| rgba[source_byte(i, w, h, o)])
}

/// The place of a pixel in its row and column, and back.
pub proof fn pixel_place(x: int, y: int, w: int, h: int)
    requires
        0 <= x < w,
        0 <= y < h,
    ensures
        0 <= y * w + x < w * h,
        (y * w + x) % w == x,
        (y * w + x) / w == y,
{
    assert(0 <= y * w + x < w * h) by (nonlinear_arith)
        requires
            0 <= x < w,
            0 <= y < h,
    ;
    lemma_fundamental_div_mod_converse(y * w + x, w, y, x);
}

/// A place in an image lies in a row and a column of it.
pub proof fn place_pixel(p: int, w: int, h: int)
    requires
        0 <= p < w * h,
        w >= 0,
        h >= 0,
    ensures
        w > 0,
        0 <= p % w < w,
        0 <= p / w < h,
        (p / w) * w + p % w == p,
{
    assert(w > 0) by (nonlinear_arith)
        requires
            0 < w * h,
            w >= 0,
            h >= 0,
    ;
    lemma_fundamental_div_mod(p, w);
    lemma_mod_bound(p, w);
    let (x, y) = (p % w, p / w);
    assert(w * y == y * w) by (nonlinear_arith);
    assert(y < h) by (nonlinear_arith)
        requires
            y * w + x == p,
            p < w * h,
            x >= 0,
            w > 0,
    ;
    assert(y >= 0) by (nonlinear_arith)
        requires
            y * w + x == p,
            p >= 0,
            x < w,
            w > 0,
    ;
}

proof fn source_byte_inside(i: int, w: int, h: int, o: Orientation)
    requires
        0 <= i < w * h * 4,
        w >= 0,
        h >= 0,
    ensures
        0 <= source_byte(i, w, h, o) < w * h * 4,
        source_byte(source_byte(i, w, h, o), w, h, o) == i,
{
    let p = i / 4;
    let k = i % 4;
    place_pixel(p, w, h);
    let (x, y) = (p % w, p / w);
    let sx = if o.mirrors_x() {
        w - 1 - x
    } else {
        x
    };
    let sy = if o.mirrors_y() {
        h - 1 - y
    } else {
        y
    };
    pixel_place(sx, sy, w, h);
    let q = sy * w + sx;
    assert((q * 4 + k) / 4 == q && (q * 4 + k) % 4 == k);
}

/// Showing an image in an orientation twice gives it back.
pub proof fn orientation_is_its_own_inverse(rgba: Seq<u8>, w: int, h: int, o: Orientation)
    requires
        w >= 0,
        h >= 0,
        rgba.len() == w * h * 4,
    ensures
        oriented(oriented(rgba, w, h, o), w, h, o) == rgba,
{
    assert forall|i: int| 0 <= i < rgba.len() implies oriented(
        oriented(rgba, w, h, o),
        w,
        h,
        o,
    )[i] == rgba[i] by {
        source_byte_inside(i, w, h, o);
    }
    assert(oriented(oriented(rgba, w, h, o), w, h, o) =~= rgba);
}

/// Puts an image of `w` by `h` pixels, four bytes each, into an orientation.
pub fn apply_orientation_rgba(rgba: &mut Vec<u8>, w: usize, h: usize, o: Orientation)
    requires
        old(rgba)@.len() == w * h * 4,
    ensures
        final(rgba)@ == oriented(old(rgba)@, w as int, h as int, o),
{
    let ghost before = rgba@;
    let n: usize = rgba.len();
    let mx: bool = match o {
        Orientation::FlipH | Orientation::Rot180 => true,
        _ => false,
    };
    let my: bool = match o {
        Orientation::FlipV | Orientation::Rot180 => true,
        _ => false,
    };
    let mut out: Vec<u8> = Vec::new();
    let mut x: usize = 0;
    let mut y: usize = 0;
    let mut k: usize = 0;
    let mut i: usize = 0;
    while i < n
        invariant
            n == before.len() == w * h * 4,
            rgba@ == before,
            mx == o.mirrors_x(),
            my == o.mirrors_y(),
            i <= n,
            k < 4,
            i < n ==> x < w && y < h && i == (y * w + x) * 4 + k,
            out@ =~= oriented(before, w as int, h as int, o).take(i as int),
        decreases n - i,
    {
        let sx: usize = if mx {
            w - 1 - x
        } else {
            x
        };
        let sy: usize = if my {
            h - 1 - y
        } else {
            y
        };
        proof {
            pixel_place(x as int, y as int, w as int, h as int);
            pixel_place(sx as int, sy as int, w as int, h as int);
            source_byte_inside(i as int, w as int, h as int, o);
            let q = y * w + x;
            assert((q * 4 + k) / 4 == q && (q * 4 + k) % 4 == k);
            assert(0 <= sy * w <= w * h) by (nonlinear_arith)
                requires
                    0 <= sy < h,
                    0 <= w,
            ;
            assert(w * h * 4 == 4 * (w * h)) by (nonlinear_arith);
        }
        out.push(rgba[(sy * w + sx) * 4 + k]);
        i = i + 1;
        if k < 3 {
            k = k + 1;
        } else {
            k = 0;
            if x + 1 < w {
                x = x + 1;
            } else {
                proof {
                    assert((y + 1) * w == y * w + w) by (nonlinear_arith);
                    if i < n {
                        assert(y + 1 < h) by (nonlinear_arith)
                            requires
                                i == (y * w + w) * 4,
                                i < w * h * 4,
                                w > 0,
                        ;
                    }
                }
                x = 0;
                if y < h - 1 {
                    y = y + 1;
                }
            }
        }
    }
    *rgba = out;
}

// ---------------------------------------------------------------------------
// Colour tables from files
// ---------------------------------------------------------------------------

/// Whether three numbers are shares: none is above one.
pub open spec fn are_shares(a: Double, b: Double, c: Double) -> bool {
    let one = Double { bits: 0x3ff0_0000_0000_0000 };
    a.le(one) && b.le(one) && c.le(one)
}

/// A component of a colour as a byte: a share of 255, or a number up to 255.
pub open spec fn component_spec(v: Double, share: bool) -> u8 {
    let scaled = if share {
        v.times(Double { bits: 0x406f_e000_0000_0000 })
    } else {
        v
    };
    scaled.clamp(Double { bits: 0 }, Double { bits: 0x406f_e000_0000_0000 }).whole_spec(Whole::Trunc, 0, 255) as u8
}

fn component(v: Double, share: bool) -> (r: u8)
    ensures
        r == component_spec(v, share),
{
    let scaled: Double = if share {
        v.times(Double { bits: 0x406f_e000_0000_0000 })
    } else {
        v
    };
    scaled.clamp(Double { bits: 0 }, Double { bits: 0x406f_e000_0000_0000 }).whole(Whole::Trunc, 0, 255) as u8
}

/// The words of a line that are numbers.
pub open spec fn numbers_spec(ws: Seq<Seq<char>>) -> Seq<Double>
    decreases ws.len(),
{
    if ws.len() == 0 {
        Seq::empty()
    } else {
        match Double::parse_spec(ws.last()) {
            Some(x) => numbers_spec(ws.drop_last()).push(x),
            None => numbers_spec(ws.drop_last()),
        }
    }
}

fn numbers(ws: &Vec<Vec<char>>) -> (r: Vec<Double>)
    ensures
        r@ == numbers_spec(texts(ws@)),
{
    let mut out: Vec<Double> = Vec::new();
    let n: usize = ws.len();
    assert(texts(ws@).take(0) =~= Seq::empty());
    for i in 0..n
        invariant
            n == ws@.len(),
            out@ == numbers_spec(texts(ws@).take(i as int)),
    {
        let ghost t = texts(ws@);
        assert(t.take(i + 1).drop_last() =~= t.take(i as int));
        assert(t.take(i + 1).last() == ws@[i as int]@);
        if let Some(x) = Double::parse(&ws[i]) {
            out.push(x);
        }
    }
    assert(texts(ws@).take(n as int) =~= texts(ws@));
    out
}

/// The colour that a line gives: its first three numbers, which are shares where none is above
/// one, and else numbers up to 255. An empty line, a comment and a line with fewer numbers give
/// none.
pub open spec fn stop_spec(line: Seq<char>) -> Option<(u8, u8, u8)> {
    let t = trim_spec(line);
    let v = numbers_spec(words_spec(t));
    if t.len() == 0 || t[0] == '#' || v.len() < 3 {
        None
    } else {
        let share = are_shares(v[0], v[1], v[2]);
        Some(
            (
                component_spec(v[0], share),
                component_spec(v[1], share),
                component_spec(v[2], share),
            ),
        )
    }
}

fn stop_of(line: &Vec<char>) -> (r: Option<(u8, u8, u8)>)
    ensures
        r == stop_spec(line@),
{
    let t = trim(line);
    if t.len() == 0 || t[0] == '#' {
        return None;
    }
    let ws = words(&t);
    let v = numbers(&ws);
    if v.len() < 3 {
        return None;
    }
    let one = Double { bits: 0x3ff0_0000_0000_0000 };
    let share: bool = v[0].le(one) && v[1].le(one) && v[2].le(one);
    Some((component(v[0], share), component(v[1], share), component(v[2], share)))
}

/// The colours that the lines give, in order.
pub open spec fn stops_spec(lines: Seq<Seq<char>>) -> Seq<(u8, u8, u8)>
    decreases lines.len(),
{
    if lines.len() == 0 {
        Seq::empty()
    } else {
        match stop_spec(lines.last()) {
            Some(c) => stops_spec(lines.drop_last()).push(c),
            None => stops_spec(lines.drop_last()),
        }
    }
}

/// The value between two bytes at the share `f` of the way.
pub open spec fn mix_spec(a: u8, b: u8, f: Single) -> u8 {
    let (x, y) = (Single::from_int_spec(a as int), Single::from_int_spec(b as int));
    x.plus(y.minus(x).times(f)).clamp(Single { bits: 0 }, Single { bits: 0x437f_0000 }).whole_spec(Whole::Trunc, 0, 255) as u8
}

fn mix(a: u8, b: u8, f: Single) -> (r: u8)
    ensures
        r == mix_spec(a, b, f),
{
    let x: Single = Single::from_int(a as i64);
    let y: Single = Single::from_int(b as i64);
    x.plus(y.minus(x).times(f)).clamp(Single { bits: 0 }, Single { bits: 0x437f_0000 }).whole(Whole::Trunc, 0, 255) as u8
}

/// The entry `i` of 256 of a table with the given colours at even distances.
pub open spec fn resampled(stops: Seq<(u8, u8, u8)>, i: int) -> (u8, u8, u8) {
    let t = Double::from_int_spec(i).over(Double { bits: 0x406f_e000_0000_0000 }).times(Double::from_int_spec(stops.len() - 1));
    let floor = t.whole_spec(Whole::Floor, 0, usize::MAX as int);
    let lo = if floor < stops.len() {
        floor
    } else {
        stops.len() - 1
    };
    let hi = if lo + 1 < stops.len() {
        lo + 1
    } else {
        stops.len() - 1
    };
    let f = t.minus(Double::from_int_spec(lo)).narrow();
    let (a, b) = (stops[lo], stops[hi]);
    (mix_spec(a.0, b.0, f), mix_spec(a.1, b.1, f), mix_spec(a.2, b.2, f))
}

/// The table of 256 colours that a text describes, a colour on each line: its colours at
/// even distances, with those between them mixed. None where there is no colour.
pub fn user_lut(text: &str) -> (r: Option<Vec<(u8, u8, u8)>>)
    ensures
        ({
            let stops = stops_spec(lines_spec(text@));
            match r {
                Some(lut) => stops.len() > 0 && lut@ == Seq::new(
                    256,
                    |i: int| resampled(stops, i),
                ),
                None => stops.len() == 0,
            }
        }),
{
    let v = chars_of(text);
    let all = lines(&v);
    let n: usize = all.len();
    let mut stops: Vec<(u8, u8, u8)> = Vec::new();
    assert(texts(all@).take(0) =~= Seq::empty());
    for i in 0..n
        invariant
            n == all@.len(),
            stops@ == stops_spec(texts(all@).take(i as int)),
    {
        let ghost t = texts(all@);
        assert(t.take(i + 1).drop_last() =~= t.take(i as int));
        assert(t.take(i + 1).last() == all@[i as int]@);
        if let Some(c) = stop_of(&all[i]) {
            stops.push(c);
        }
    }
    assert(texts(all@).take(n as int) =~= texts(all@));
    let k: usize = stops.len();
    if k == 0 {
        return None;
    }
    let mut lut: Vec<(u8, u8, u8)> = Vec::new();
    for i in 0..256usize
        invariant
            k == stops@.len() > 0,
            lut@ =~= Seq::new(i as nat, |j: int| resampled(stops@, j)),
    {
        let t: Double = Double::from_int(i as i64).over(Double { bits: 0x406f_e000_0000_0000 }).times(
            Double::from_nat((k - 1) as u64),
        );
        let floor: usize = t.whole(Whole::Floor, 0, usize::MAX as i128) as usize;
        let lo: usize = if floor < k {
            floor
        } else {
            k - 1
        };
        let hi: usize = if lo + 1 < k {
            lo + 1
        } else {
            k - 1
        };
        let f: Single = t.minus(Double::from_nat(lo as u64)).narrow();
        let (a, b): ((u8, u8, u8), (u8, u8, u8)) = (stops[lo], stops[hi]);
        lut.push((mix(a.0, b.0, f), mix(a.1, b.1, f), mix(a.2, b.2, f)));
    }
    Some(lut)
}

} // verus!
