use vstd::prelude::*;

verus! {

/// A color sample with red, green, blue and alpha channels.
///
/// Colors are ordered by their packed form: the four channels read big-endian as
/// `(alpha, red, green, blue)` make a 32-bit signed integer, and colors compare as
/// those integers do.
#[derive(Clone, Copy, Debug, PartialEq, Eq, Structural)]
pub struct PColor {
    pub red: u8,
    pub green: u8,
    pub blue: u8,
    pub alpha: u8,
}

/// The alpha channel as the top byte of a two's-complement 32-bit integer.
pub open spec fn signed_top(a: u8) -> int {
    if a < 128 {
        a as int
    } else {
        a as int - 256
    }
}

/// The packed integer of a color: `(alpha, red, green, blue)` big-endian, signed.
pub open spec fn raw_of(c: PColor) -> int {
    signed_top(c.alpha) * 0x100_0000 + c.red as int * 0x1_0000 + c.green as int * 0x100
        + c.blue as int
}

/// The color whose packed integer is `v`: the bytes of `v` read big-endian as
/// alpha, red, green and blue.
pub open spec fn unpack(v: i32) -> PColor {
    let w: int = if v < 0 {
        v + 0x1_0000_0000
    } else {
        v as int
    };
    PColor {
        red: (w / 0x1_0000 % 0x100) as u8,
        green: (w / 0x100 % 0x100) as u8,
        blue: (w % 0x100) as u8,
        alpha: (w / 0x100_0000) as u8,
    }
}

/// Packing a color and unpacking the integer gives the color back.
pub proof fn lemma_unpack_raw(c: PColor)
    ensures
        unpack(raw_of(c) as i32) == c,
{
    let v = raw_of(c);
    let w: int = if v < 0 { v + 0x1_0000_0000 } else { v };
    assert(w == c.alpha as int * 0x100_0000 + c.red as int * 0x1_0000 + c.green as int * 0x100
        + c.blue as int);
    assert(w / 0x100_0000 == c.alpha as int && w / 0x1_0000 % 0x100 == c.red as int && w / 0x100
        % 0x100 == c.green as int && w % 0x100 == c.blue as int) by (nonlinear_arith)
        requires
            w == c.alpha as int * 0x100_0000 + c.red as int * 0x1_0000 + c.green as int * 0x100
                + c.blue as int,
            0 <= c.blue < 256,
            0 <= c.green < 256,
            0 <= c.red < 256,
            0 <= c.alpha < 256,
    ;
}

/// Unpacking an integer and packing the color gives the integer back.
pub proof fn lemma_raw_unpack(v: i32)
    ensures
        raw_of(unpack(v)) == v as int,
{
    let w: int = if v < 0 { v + 0x1_0000_0000 } else { v as int };
    assert(0 <= w < 0x1_0000_0000);
    assert(w == (w / 0x100_0000) * 0x100_0000 + (w / 0x1_0000 % 0x100) * 0x1_0000 + (w / 0x100
        % 0x100) * 0x100 + w % 0x100 && 0 <= w / 0x100_0000 < 0x100) by (nonlinear_arith)
        requires
            0 <= w < 0x1_0000_0000,
    ;
}

/// The order in which span contents are sorted.
pub open spec fn color_le(a: PColor, b: PColor) -> bool {
    raw_of(a) <= raw_of(b)
}

/// Brightness: the largest of the three color channels.
pub open spec fn brightness_of(c: PColor) -> u8 {
    if c.red >= c.green && c.red >= c.blue {
        c.red
    } else if c.green >= c.blue {
        c.green
    } else {
        c.blue
    }
}

/// The color with the given channels and full opacity.
pub open spec fn opaque(red: u8, green: u8, blue: u8) -> PColor {
    PColor { red, green, blue, alpha: 255 }
}

/// Two colors with the same packed integer are the same color.
pub proof fn lemma_raw_injective(a: PColor, b: PColor)
    requires
        raw_of(a) == raw_of(b),
    ensures
        a == b,
{
    assert(a.blue == b.blue && a.green == b.green && a.red == b.red && a.alpha == b.alpha)
        by (nonlinear_arith)
        requires
            raw_of(a) == raw_of(b),
            0 <= a.blue < 256,
            0 <= b.blue < 256,
            0 <= a.green < 256,
            0 <= b.green < 256,
            0 <= a.red < 256,
            0 <= b.red < 256,
            0 <= a.alpha < 256,
            0 <= b.alpha < 256,
    ;
}

/// `color_le` is a total order on colors.
pub proof fn lemma_color_le_total()
    ensures
        vstd::relations::total_ordering(|a: PColor, b: PColor| color_le(a, b)),
{
    assert forall|a: PColor, b: PColor|
        #![trigger color_le(a, b), color_le(b, a)]
        color_le(a, b) && color_le(b, a) implies a == b by {
        lemma_raw_injective(a, b);
    }
}

impl Default for PColor {
    /// Black, fully opaque.
    fn default() -> (r: PColor)
        ensures
            r == opaque(0, 0, 0),
    {
        PColor { red: 0, green: 0, blue: 0, alpha: 255 }
    }
}

impl From<i32> for PColor {
    fn from(c: i32) -> (r: PColor)
        ensures
            r == unpack(c),
    {
        PColor::from_raw(c)
    }
}

impl vstd::std_specs::convert::FromSpecImpl<i32> for PColor {
    open spec fn obeys_from_spec() -> bool {
        true
    }

    open spec fn from_spec(c: i32) -> PColor {
        unpack(c)
    }
}

impl PartialOrd for PColor {
    fn partial_cmp(&self, other: &PColor) -> (r: Option<core::cmp::Ordering>)
        ensures
            r == Some(compare_spec(*self, *other)),
    {
        Some(self.cmp(other))
    }
}

impl vstd::std_specs::cmp::PartialOrdSpecImpl for PColor {
    open spec fn obeys_partial_cmp_spec() -> bool {
        true
    }

    open spec fn partial_cmp_spec(&self, other: &PColor) -> Option<core::cmp::Ordering> {
        Some(compare_spec(*self, *other))
    }
}

/// The three-way comparison of two colors by their packed integers.
pub open spec fn compare_spec(a: PColor, b: PColor) -> core::cmp::Ordering {
    if raw_of(a) < raw_of(b) {
        core::cmp::Ordering::Less
    } else if raw_of(a) == raw_of(b) {
        core::cmp::Ordering::Equal
    } else {
        core::cmp::Ordering::Greater
    }
}

impl PColor {
    /// Creates an opaque color from its red, green and blue channels.
    pub fn new(red: u8, green: u8, blue: u8) -> (r: PColor)
        ensures
            r == opaque(red, green, blue),
    {
        PColor { red, green, blue, alpha: 255 }
    }

    /// Creates a color from its packed integer; the inverse of [`PColor::as_raw`].
    pub fn from_raw(color: i32) -> (r: PColor)
        ensures
            r == unpack(color),
    {
        let w: i64 = if color < 0 {
            color as i64 + 0x1_0000_0000
        } else {
            color as i64
        };
        let alpha: i64 = w / 0x100_0000;
        let red: i64 = w / 0x1_0000 % 0x100;
        let green: i64 = w / 0x100 % 0x100;
        let blue: i64 = w % 0x100;
        PColor::new(red as u8, green as u8, blue as u8).with_alpha(alpha as u8)
    }

    /// The same color with the given alpha channel.
    pub fn with_alpha(self, alpha: u8) -> (r: PColor)
        ensures
            r == (PColor { alpha, ..self }),
    {
        let mut c = self;
        c.alpha = alpha;
        c
    }

    /// The packed integer of the color: `(alpha, red, green, blue)` big-endian, signed.
    pub fn as_raw(&self) -> (r: i32)
        ensures
            r as int == raw_of(*self),
    {
        let top: i32 = if self.alpha < 128 {
            self.alpha as i32
        } else {
            self.alpha as i32 - 256
        };
        top * 0x100_0000 + self.red as i32 * 0x1_0000 + self.green as i32 * 0x100
            + self.blue as i32
    }

    /// Brightness between `0` and `255`: the largest of the three color channels.
    pub fn brightness(&self) -> (r: u8)
        ensures
            r == brightness_of(*self),
    {
        let rg = if self.red >= self.green {
            self.red
        } else {
            self.green
        };
        if rg >= self.blue {
            rg
        } else {
            self.blue
        }
    }

    /// Compares two colors by their packed integers.
    pub fn cmp(&self, other: &PColor) -> (r: core::cmp::Ordering)
        ensures
            r == compare_spec(*self, *other),
    {
        let a = self.as_raw();
        let b = other.as_raw();
        if a < b {
            core::cmp::Ordering::Less
        } else if a == b {
            core::cmp::Ordering::Equal
        } else {
            core::cmp::Ordering::Greater
        }
    }
}

} // verus!
