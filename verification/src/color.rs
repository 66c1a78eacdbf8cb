//! Colours of three 8-bit channels, with saturating arithmetic and blending.

use vstd::prelude::*;

verus! {

/// A colour without alpha: red, green and blue, each in `0..=255`.
#[derive(Debug, Clone, Copy, PartialEq, Eq, Structural)]
pub struct Color {
    pub r: u8,
    pub g: u8,
    pub b: u8,
}

/// `v` limited to the range of a channel.
pub open spec fn clamp_channel(v: int) -> u8 {
    if v < 0 {
        0u8
    } else if v > 255 {
        255u8
    } else {
        v as u8
    }
}

/// The channel that lies the fraction `num / den` of the way from `a` to `b`,
/// rounded down and limited to the range of a channel.
pub open spec fn lerp_channel(a: u8, b: u8, num: int, den: int) -> u8
    recommends
        den > 0,
{
    clamp_channel((a * den + (b - a) * num) / den)
}

/// The channel `c` times `num / den`, rounded down and limited to the range of
/// a channel.
pub open spec fn scale_channel(c: u8, num: int, den: int) -> u8
    recommends
        den > 0,
{
    clamp_channel((c * num) / den)
}

impl Color {
    /// The packed form of the colour: `0x00RRGGBB`.
    pub open spec fn hex(self) -> u32 {
        (self.r as int * 65536 + self.g as int * 256 + self.b as int) as u32
    }

    /// The colour that the low 24 bits of `hex` hold; the top byte is ignored.
    pub open spec fn of_hex(hex: u32) -> Color {
        Color {
            r: ((hex as int / 65536) % 256) as u8,
            g: ((hex as int / 256) % 256) as u8,
            b: (hex as int % 256) as u8,
        }
    }

    /// The colour with these channels.
    pub fn new(r: u8, g: u8, b: u8) -> (c: Color)
        ensures
            c == (Color { r, g, b }),
    {
        Color { r, g, b }
    }

    /// Unpacks `0x00RRGGBB`; the top byte is ignored.
    pub fn from_hex(hex: u32) -> (c: Color)
        ensures
            c == Color::of_hex(hex),
    {
        let r: u32 = (hex >> 16) & 0xFF;
        let g: u32 = (hex >> 8) & 0xFF;
        let b: u32 = hex & 0xFF;
        assert(r == (hex / 65536) % 256 && g == (hex / 256) % 256 && b == hex % 256) by (bit_vector)
            requires
                r == (hex >> 16) & 0xFF,
                g == (hex >> 8) & 0xFF,
                b == hex & 0xFF,
        ;
        Color { r: r as u8, g: g as u8, b: b as u8 }
    }

    /// Packs the colour as `0x00RRGGBB`.
    pub fn to_hex(&self) -> (hex: u32)
        ensures
            hex == self.hex(),
            hex < 0x100_0000,
    {
        let r: u32 = self.r as u32;
        let g: u32 = self.g as u32;
        let b: u32 = self.b as u32;
        let hex: u32 = (r << 16) | (g << 8) | b;
        assert(hex == r * 65536 + g * 256 + b) by (bit_vector)
            requires
                hex == (r << 16) | (g << 8) | b,
                r < 256,
                g < 256,
                b < 256,
        ;
        hex
    }

    /// Black: every channel 0.
    pub fn black() -> (c: Color)
        ensures
            c == (Color { r: 0, g: 0, b: 0 }),
    {
        Color { r: 0, g: 0, b: 0 }
    }

    /// Whether every channel is 0.
    pub fn is_black(&self) -> (black: bool)
        ensures
            black == (*self == Color { r: 0, g: 0, b: 0 }),
    {
        self.r == 0 && self.g == 0 && self.b == 0
    }

    /// The colour between `self` and `other` at the fraction `num / den`.
    pub open spec fn spec_lerp(self, other: Color, num: int, den: int) -> Color
        recommends
            den > 0,
    {
        Color {
            r: lerp_channel(self.r, other.r, num, den),
            g: lerp_channel(self.g, other.g, num, den),
            b: lerp_channel(self.b, other.b, num, den),
        }
    }

    /// The colour with each channel multiplied by `num / den`.
    pub open spec fn spec_scale(self, num: int, den: int) -> Color
        recommends
            den > 0,
    {
        Color {
            r: scale_channel(self.r, num, den),
            g: scale_channel(self.g, num, den),
            b: scale_channel(self.b, num, den),
        }
    }

    /// `blend`, unless it is black: then `self`.
    pub open spec fn spec_blend_normal(self, blend: Color) -> Color {
        if blend == (Color { r: 0, g: 0, b: 0 }) {
            self
        } else {
            blend
        }
    }

    /// Each channel times the other colour's, 255 standing for 1, rounded
    /// down.
    pub open spec fn spec_blend_multiply(self, blend: Color) -> Color {
        Color {
            r: ((self.r * blend.r) / 255) as u8,
            g: ((self.g * blend.g) / 255) as u8,
            b: ((self.b * blend.b) / 255) as u8,
        }
    }

    /// The sum of the channels, each limited to 255.
    pub open spec fn spec_blend_add(self, blend: Color) -> Color {
        Color {
            r: clamp_channel(self.r + blend.r),
            g: clamp_channel(self.g + blend.g),
            b: clamp_channel(self.b + blend.b),
        }
    }

    /// The difference of the channels, each limited to 0.
    pub open spec fn spec_blend_subtract(self, blend: Color) -> Color {
        Color {
            r: clamp_channel(self.r - blend.r),
            g: clamp_channel(self.g - blend.g),
            b: clamp_channel(self.b - blend.b),
        }
    }

    /// Linear interpolation from `self` (at `num == 0`) to `other` (at
    /// `num == den`). The fraction is not limited to `0..=1`; each channel of
    /// the result is.
    pub fn lerp(&self, other: &Color, num: i64, den: i64) -> (c: Color)
        requires
            den > 0,
        ensures
            c == self.spec_lerp(*other, num as int, den as int),
    {
        Color {
            r: lerp_u8(self.r, other.r, num, den),
            g: lerp_u8(self.g, other.g, num, den),
            b: lerp_u8(self.b, other.b, num, den),
        }
    }

    /// Every channel multiplied by `num / den` and limited to `0..=255`.
    pub fn scale(&self, num: i64, den: i64) -> (c: Color)
        requires
            den > 0,
        ensures
            c == self.spec_scale(num as int, den as int),
    {
        Color {
            r: scale_u8(self.r, num, den),
            g: scale_u8(self.g, num, den),
            b: scale_u8(self.b, num, den),
        }
    }

    /// `blend` over `self`, where black stands for "nothing to draw".
    pub fn blend_normal(&self, blend: &Color) -> (c: Color)
        ensures
            c == self.spec_blend_normal(*blend),
    {
        if blend.is_black() {
            *self
        } else {
            *blend
        }
    }

    /// The channel-wise product of the two colours, white being 1.
    pub fn blend_multiply(&self, blend: &Color) -> (c: Color)
        ensures
            c == self.spec_blend_multiply(*blend),
    {
        Color {
            r: multiply_u8(self.r, blend.r),
            g: multiply_u8(self.g, blend.g),
            b: multiply_u8(self.b, blend.b),
        }
    }

    /// The channel-wise sum of the two colours, limited to 255.
    pub fn blend_add(&self, blend: &Color) -> (c: Color)
        ensures
            c == self.spec_blend_add(*blend),
    {
        Color {
            r: add_u8(self.r, blend.r),
            g: add_u8(self.g, blend.g),
            b: add_u8(self.b, blend.b),
        }
    }

    /// The channel-wise difference of the two colours, limited to 0.
    pub fn blend_subtract(&self, blend: &Color) -> (c: Color)
        ensures
            c == self.spec_blend_subtract(*blend),
    {
        Color {
            r: sub_u8(self.r, blend.r),
            g: sub_u8(self.g, blend.g),
            b: sub_u8(self.b, blend.b),
        }
    }
}

/// `a + b` on colours adds channel by channel and stops at 255.
impl core::ops::Add for Color {
    type Output = Color;

    fn add(self, other: Color) -> (c: Color) {
        Color {
            r: add_u8(self.r, other.r),
            g: add_u8(self.g, other.g),
            b: add_u8(self.b, other.b),
        }
    }
}

impl vstd::std_specs::ops::AddSpecImpl for Color {
    open spec fn obeys_add_spec() -> bool {
        true
    }

    open spec fn add_req(self, other: Color) -> bool {
        true
    }

    open spec fn add_spec(self, other: Color) -> Color {
        self.spec_blend_add(other)
    }
}

/// A channel difference times a 64-bit factor stays far inside 128 bits.
proof fn lemma_product_bound(c: int, x: int)
    by (nonlinear_arith)
    requires
        -255 <= c <= 255,
        -0x8000_0000_0000_0000 <= x <= 0x8000_0000_0000_0000,
    ensures
        -255 * 0x8000_0000_0000_0000 <= c * x <= 255 * 0x8000_0000_0000_0000,
{
}

fn lerp_u8(a: u8, b: u8, num: i64, den: i64) -> (c: u8)
    requires
        den > 0,
    ensures
        c == lerp_channel(a, b, num as int, den as int),
{
    proof {
        lemma_product_bound(a as int, den as int);
        lemma_product_bound(b as int - a as int, num as int);
    }
    let n: i128 = (a as i128) * (den as i128) + ((b as i128) - (a as i128)) * (num as i128);
    floor_div_clamped(n, den)
}

fn scale_u8(c: u8, num: i64, den: i64) -> (s: u8)
    requires
        den > 0,
    ensures
        s == scale_channel(c, num as int, den as int),
{
    proof {
        lemma_product_bound(c as int, num as int);
    }
    let n: i128 = (c as i128) * (num as i128);
    floor_div_clamped(n, den)
}

/// `n / den` rounded down, limited to the range of a channel.
fn floor_div_clamped(n: i128, den: i64) -> (c: u8)
    requires
        den > 0,
    ensures
        c == clamp_channel(n as int / den as int),
{
    if n < 0 {
        assert(n as int / den as int <= 0) by (nonlinear_arith)
            requires
                n < 0,
                den > 0,
        ;
        0
    } else {
        let q: u128 = (n as u128) / (den as u128);
        if q > 255 {
            255
        } else {
            q as u8
        }
    }
}

fn multiply_u8(a: u8, b: u8) -> (c: u8)
    ensures
        c == ((a * b) / 255) as u8,
        (a * b) / 255 <= 255,
{
    assert(a * b <= 255 * 255) by (nonlinear_arith)
        requires
            a <= 255,
            b <= 255,
    ;
    let p: u32 = a as u32 * b as u32;
    (p / 255) as u8
}

fn add_u8(a: u8, b: u8) -> (c: u8)
    ensures
        c == clamp_channel(a + b),
{
    let s: u16 = a as u16 + b as u16;
    if s > 255 {
        255
    } else {
        s as u8
    }
}

fn sub_u8(a: u8, b: u8) -> (c: u8)
    ensures
        c == clamp_channel(a - b),
{
    if a < b {
        0
    } else {
        a - b
    }
}

/// Adding black changes no colour.
pub proof fn lemma_blend_add_black(a: Color)
    ensures
        a.spec_blend_add(Color { r: 0, g: 0, b: 0 }) == a,
{
}

/// Multiplying by white changes no colour.
pub proof fn lemma_blend_multiply_white(a: Color)
    ensures
        a.spec_blend_multiply(Color { r: 255, g: 255, b: 255 }) == a,
{
}

/// Between a colour and itself lies that colour, whatever the fraction.
pub proof fn lemma_lerp_same(a: Color, num: int, den: int)
    requires
        den > 0,
    ensures
        a.spec_lerp(a, num, den) == a,
{
    assert forall|c: u8| lerp_channel(c, c, num, den) == c by {
        assert((c - c) * num == 0) by (nonlinear_arith);
        vstd::arithmetic::div_mod::lemma_div_multiples_vanish(c as int, den);
        assert(c * den == den * c) by (nonlinear_arith);
    }
}

/// Interpolation starts at the first colour and ends at the second.
pub proof fn lemma_lerp_ends(a: Color, b: Color, den: int)
    requires
        den > 0,
    ensures
        a.spec_lerp(b, 0, den) == a,
        a.spec_lerp(b, den, den) == b,
{
    assert forall|x: u8, y: u8|
        lerp_channel(x, y, 0, den) == x && lerp_channel(x, y, den, den) == y by {
        assert(x * den + (y - x) * 0 == den * x) by (nonlinear_arith);
        assert(x * den + (y - x) * den == den * y) by (nonlinear_arith);
        vstd::arithmetic::div_mod::lemma_div_multiples_vanish(x as int, den);
        vstd::arithmetic::div_mod::lemma_div_multiples_vanish(y as int, den);
    }
}

/// Every channel of every blend lies in `0..=255`: no blend wraps around.
pub proof fn lemma_blend_in_range(a: Color, b: Color)
    ensures
        0 <= a.r * b.r / 255 <= 255,
        0 <= a.g * b.g / 255 <= 255,
        0 <= a.b * b.b / 255 <= 255,
        a.spec_blend_add(b).r == if a.r + b.r > 255 { 255 } else { a.r + b.r },
        a.spec_blend_add(b).g == if a.g + b.g > 255 { 255 } else { a.g + b.g },
        a.spec_blend_add(b).b == if a.b + b.b > 255 { 255 } else { a.b + b.b },
        a.spec_blend_subtract(b).r == if a.r < b.r { 0 } else { a.r - b.r },
        a.spec_blend_subtract(b).g == if a.g < b.g { 0 } else { a.g - b.g },
        a.spec_blend_subtract(b).b == if a.b < b.b { 0 } else { a.b - b.b },
{
    assert forall|x: u8, y: u8| 0 <= #[trigger] (x * y) / 255 <= 255 by {
        assert(0 <= x * y <= 255 * 255) by (nonlinear_arith)
            requires
                0 <= x <= 255,
                0 <= y <= 255,
        ;
    }
}

/// Packing a colour and unpacking it gives the colour back; the packed form
/// leaves the top byte zero.
pub proof fn lemma_hex_round_trip(c: Color)
    ensures
        Color::of_hex(c.hex()) == c,
        c.hex() < 0x100_0000,
{
}

} // verus!
