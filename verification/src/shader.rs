//! Fragment shaders: from a fragment, and from the noise sampled for it, to
//! its colour.
//!
//! The shaders work in fixed point. A noise sample is a fixed-point number in
//! `-1..=1`; so are the other measures handed in. Each shader maps its samples
//! to a small palette by linear interpolation, and multiplies by the light on
//! the fragment, which most of them keep above a floor so that unlit sides do
//! not turn black.

use vstd::prelude::*;
use crate::color::Color;
use crate::fixed::ONE;
use crate::fragment::Fragment;

verus! {

/// The greater of two numbers.
pub open spec fn at_least(v: int, floor: int) -> int {
    if v < floor {
        floor
    } else {
        v
    }
}

/// The lesser of two numbers.
pub open spec fn at_most(v: int, ceiling: int) -> int {
    if v > ceiling {
        ceiling
    } else {
        v
    }
}

/// The distance of a number from zero.
pub open spec fn magnitude(v: int) -> int {
    if v < 0 {
        -v
    } else {
        v
    }
}

/// `color` in the light of the fragment, the light taken as at least 0.4.
pub open spec fn lit_with_floor(color: Color, intensity: i32) -> Color {
    color.spec_scale(at_least(5 * intensity, 2 * ONE), 5 * ONE)
}

/// The colour of the fragment in the light that falls on it.
pub open spec fn simple_color(fragment: Fragment) -> Color {
    fragment.color.spec_scale(fragment.intensity as int, ONE as int)
}

/// The surface of a sun. The mean of the two samples, times 0.3, says how far
/// the colour lies from yellow towards white where it is positive, and from
/// orange towards white where it is not.
pub open spec fn sun_color(noise_x: i32, noise_y: i32) -> Color {
    let yellow = Color { r: 255, g: 186, b: 3 };
    let orange = Color { r: 200, g: 50, b: 0 };
    let white = Color { r: 255, g: 255, b: 255 };
    if noise_x + noise_y > 0 {
        yellow.spec_lerp(white, 3 * (noise_x + noise_y), 20 * ONE)
    } else {
        orange.spec_lerp(white, -3 * (noise_x + noise_y), 20 * ONE)
    }
}

/// The ground of an earth-like planet: ocean below a height of 0, land from
/// 0.5, the shore between the two.
pub open spec fn earth_ground(noise: i32) -> Color {
    let ocean = Color { r: 0, g: 0, b: 255 };
    let terrain = Color { r: 34, g: 139, b: 34 };
    if noise < 0 {
        ocean
    } else if 2 * noise < ONE {
        ocean.spec_lerp(terrain, 2 * noise, ONE as int)
    } else {
        terrain
    }
}

/// An earth-like planet: the ground under white clouds, which are the denser
/// the farther the cloud sample lies from 0.2.
pub open spec fn earth_color(fragment: Fragment, noise: i32, cloud_noise: i32) -> Color {
    let white = Color { r: 255, g: 255, b: 255 };
    let clouded = earth_ground(noise).spec_lerp(white, magnitude(5 * cloud_noise - ONE), 5 * ONE);
    lit_with_floor(clouded, fragment.intensity)
}

/// A cratered moon: light grey where the surface sample is positive, else
/// darkened towards the grey of a crater by the crater sample.
pub open spec fn crater_color(fragment: Fragment, surface_noise: i32, crater_noise: i32) -> Color {
    let surface = Color { r: 160, g: 160, b: 160 };
    let crater = Color { r: 90, g: 90, b: 90 };
    let base = if surface_noise > 0 {
        surface
    } else {
        surface.spec_lerp(crater, 10 * crater_noise + 3 * ONE, 3 * ONE)
    };
    lit_with_floor(base, fragment.intensity)
}

/// The colour of band `stripe` of a banded planet. The bands repeat in
/// threes; below band 0 every band that is no multiple of three is cream.
pub open spec fn stripe_color(stripe: int) -> Color {
    let tan = Color { r: 210, g: 180, b: 140 };
    let brown = Color { r: 160, g: 82, b: 45 };
    let cream = Color { r: 255, g: 228, b: 196 };
    if stripe >= 0 {
        if stripe % 3 == 0 {
            tan
        } else if stripe % 3 == 1 {
            brown
        } else {
            cream
        }
    } else if (-stripe) % 3 == 0 {
        tan
    } else {
        cream
    }
}

/// A banded planet: bands a tenth of a unit high, stacked along y, each
/// fading into the next.
pub open spec fn saturn_color(fragment: Fragment) -> Color {
    let tenths = 10 * fragment.vertex_position.y;
    let stripe = tenths / (ONE as int);
    let fade = magnitude(tenths) % (ONE as int);
    let base = stripe_color(stripe).spec_lerp(stripe_color(stripe + 1), fade, ONE as int);
    lit_with_floor(base, fragment.intensity)
}

/// The grey of the surface of a dwarf planet, a little lighter or darker by
/// the sample.
pub open spec fn pluto_surface(noise: i32) -> Color {
    Color {
        r: crate::color::clamp_channel((40 * noise + 150 * ONE) / (ONE as int)),
        g: crate::color::clamp_channel((50 * noise + 150 * ONE) / (ONE as int)),
        b: crate::color::clamp_channel((30 * noise + 150 * ONE) / (ONE as int)),
    }
}

/// A dwarf planet with a heart. `heart_value` is the value of the heart's
/// curve at the fragment: 0 on the outline. The heart's colour is full on the
/// outline and fades to the surface within a distance of 1.
pub open spec fn pluto_color(fragment: Fragment, noise: i32, heart_value: i32) -> Color {
    let heart = Color { r: 200, g: 80, b: 100 };
    let mask = at_least(ONE - at_most(magnitude(heart_value as int), ONE as int), 0);
    let blended = heart.spec_lerp(pluto_surface(noise), ONE - mask, ONE as int);
    lit_with_floor(blended, fragment.intensity)
}

/// A vortex: within a radius of 0.5 red to purple by the sample, outside
/// purple to dark blue by the distance from that circle.
pub open spec fn vortex_color(fragment: Fragment, noise: i32, radius: i32) -> Color {
    let core = Color { r: 255, g: 50, b: 50 };
    let mid = Color { r: 120, g: 60, b: 240 };
    let rim = Color { r: 10, g: 10, b: 30 };
    let color = if 2 * radius < ONE {
        core.spec_lerp(mid, noise + ONE, 2 * ONE)
    } else {
        mid.spec_lerp(rim, at_most(2 * radius - ONE, 2 * ONE), 2 * ONE)
    };
    color.spec_scale(fragment.intensity as int, ONE as int)
}

/// A dark green planet with a yellow pattern, in light of at most 0.8.
pub open spec fn hypnos_color(fragment: Fragment, noise: i32) -> Color {
    let planet = Color { r: 0, g: 40, b: 0 };
    let fractal = Color { r: 255, g: 255, b: 0 };
    let color = planet.spec_lerp(fractal, noise + ONE, 2 * ONE);
    color.spec_scale(at_most(5 * fragment.intensity, 4 * ONE), 5 * ONE)
}

/// The floor of the light: however little light falls on a fragment, no
/// channel drops below 0.4 of what it is in full light.
pub proof fn lemma_light_has_a_floor(color: Color, intensity: i32)
    ensures
        lit_with_floor(color, intensity).r >= color.spec_scale(2, 5).r,
        lit_with_floor(color, intensity).g >= color.spec_scale(2, 5).g,
        lit_with_floor(color, intensity).b >= color.spec_scale(2, 5).b,
{
    let light = at_least(5 * intensity, 2 * ONE);
    assert forall|c: u8| (c * (2 * ONE)) / (5 * ONE) <= #[trigger] ((c * light) / (5 * ONE)) by {
        assert(c * (2 * ONE) <= c * light) by (nonlinear_arith)
            requires
                0 <= c,
                2 * ONE <= light,
        ;
        vstd::arithmetic::div_mod::lemma_div_is_ordered(c * (2 * ONE), c * light, 5 * ONE);
    }
    assert forall|c: u8| (c * 2) / 5 == #[trigger] ((c * (2 * ONE)) / (5 * ONE)) by {
        assert(c * (2 * ONE) == (c * 2) * 65536) by (nonlinear_arith);
    }
    assert((color.r * light) / (5 * ONE) >= (color.r * 2) / 5);
    assert((color.g * light) / (5 * ONE) >= (color.g * 2) / 5);
    assert((color.b * light) / (5 * ONE) >= (color.b * 2) / 5);
}

fn light_with_floor(color: Color, intensity: i32) -> (c: Color)
    ensures
        c == lit_with_floor(color, intensity),
{
    let light: i64 = 5 * (intensity as i64);
    let floor: i64 = 2 * (ONE as i64);
    color.scale(if light < floor { floor } else { light }, 5 * (ONE as i64))
}

fn stripe(index: i64) -> (c: Color)
    ensures
        c == stripe_color(index as int),
{
    let tan = Color::new(210, 180, 140);
    let brown = Color::new(160, 82, 45);
    let cream = Color::new(255, 228, 196);
    if index >= 0 {
        let m = (index as u64) % 3;
        if m == 0 {
            tan
        } else if m == 1 {
            brown
        } else {
            cream
        }
    } else {
        let m = ((-(index + 1)) as u64 + 1) % 3;
        if m == 0 {
            tan
        } else {
            cream
        }
    }
}

fn grey_channel(weight: i64, noise: i32) -> (c: u8)
    requires
        0 <= weight <= 100,
    ensures
        c == crate::color::clamp_channel((weight * noise + 150 * ONE) / (ONE as int)),
{
    assert(-100 * 0x8000_0000 <= weight * noise <= 100 * 0x8000_0000) by (nonlinear_arith)
        requires
            0 <= weight <= 100,
            -0x8000_0000 <= noise <= 0x8000_0000,
    ;
    let n: i64 = weight * (noise as i64) + 150 * (ONE as i64);
    if n < 0 {
        0
    } else {
        let q: u64 = (n as u64) / 65536;
        if q > 255 {
            255
        } else {
            q as u8
        }
    }
}

/// The fragment's own colour in the light that falls on it.
pub fn simple_shader(fragment: &Fragment) -> (color: Color)
    ensures
        color == simple_color(*fragment),
{
    fragment.color.scale(fragment.intensity as i64, ONE as i64)
}

/// The surface of a sun, from two noise samples.
pub fn sun_shader(noise_x: i32, noise_y: i32) -> (color: Color)
    ensures
        color == sun_color(noise_x, noise_y),
{
    let yellow = Color::new(255, 186, 3);
    let orange = Color::new(200, 50, 0);
    let white = Color::new(255, 255, 255);
    let sum: i64 = noise_x as i64 + noise_y as i64;
    if sum > 0 {
        yellow.lerp(&white, 3 * sum, 20 * (ONE as i64))
    } else {
        orange.lerp(&white, -(3 * sum), 20 * (ONE as i64))
    }
}

/// An earth-like planet, from a height sample and a cloud sample.
pub fn earth_shader(fragment: &Fragment, noise: i32, cloud_noise: i32) -> (color: Color)
    ensures
        color == earth_color(*fragment, noise, cloud_noise),
{
    let ocean = Color::new(0, 0, 255);
    let terrain = Color::new(34, 139, 34);
    let ground = if noise < 0 {
        ocean
    } else if 2 * (noise as i64) < ONE as i64 {
        ocean.lerp(&terrain, 2 * (noise as i64), ONE as i64)
    } else {
        terrain
    };
    let off: i64 = 5 * (cloud_noise as i64) - ONE as i64;
    let opacity: i64 = if off < 0 { -off } else { off };
    let white = Color::new(255, 255, 255);
    let clouded = ground.lerp(&white, opacity, 5 * (ONE as i64));
    light_with_floor(clouded, fragment.intensity)
}

/// A cratered moon, from a surface sample and a crater sample.
pub fn crater_shader(fragment: &Fragment, surface_noise: i32, crater_noise: i32) -> (color: Color)
    ensures
        color == crater_color(*fragment, surface_noise, crater_noise),
{
    let surface = Color::new(160, 160, 160);
    let crater = Color::new(90, 90, 90);
    let base = if surface_noise > 0 {
        surface
    } else {
        surface.lerp(&crater, 10 * (crater_noise as i64) + 3 * (ONE as i64), 3 * (ONE as i64))
    };
    light_with_floor(base, fragment.intensity)
}

/// A banded planet, from the height of the fragment on the model.
pub fn saturn_shader(fragment: &Fragment) -> (color: Color)
    ensures
        color == saturn_color(*fragment),
{
    let tenths: i64 = 10 * (fragment.vertex_position.y as i64);
    let index: i64 = if tenths >= 0 {
        tenths / 65536
    } else {
        -((-tenths + 65535) / 65536)
    };
    let distance: i64 = if tenths >= 0 { tenths } else { -tenths };
    let fade: i64 = distance % 65536;
    let base = stripe(index).lerp(&stripe(index + 1), fade, ONE as i64);
    light_with_floor(base, fragment.intensity)
}

/// A dwarf planet with a heart, from a noise sample and the value of the
/// heart's curve at the fragment.
pub fn pluto_shader(fragment: &Fragment, noise: i32, heart_value: i32) -> (color: Color)
    ensures
        color == pluto_color(*fragment, noise, heart_value),
{
    let surface = Color::new(
        grey_channel(40, noise),
        grey_channel(50, noise),
        grey_channel(30, noise),
    );
    let distance: i64 = if heart_value < 0 { -(heart_value as i64) } else { heart_value as i64 };
    let near: i64 = if distance > ONE as i64 { ONE as i64 } else { distance };
    let mask: i64 = ONE as i64 - near;
    let heart = Color::new(200, 80, 100);
    let blended = heart.lerp(&surface, ONE as i64 - mask, ONE as i64);
    light_with_floor(blended, fragment.intensity)
}

/// A vortex, from a noise sample and the distance of the fragment from the
/// axis of the vortex.
pub fn vortex_shader(fragment: &Fragment, noise: i32, radius: i32) -> (color: Color)
    ensures
        color == vortex_color(*fragment, noise, radius),
{
    let core = Color::new(255, 50, 50);
    let mid = Color::new(120, 60, 240);
    let rim = Color::new(10, 10, 30);
    let color = if 2 * (radius as i64) < ONE as i64 {
        core.lerp(&mid, noise as i64 + ONE as i64, 2 * (ONE as i64))
    } else {
        let beyond: i64 = 2 * (radius as i64) - ONE as i64;
        let limit: i64 = 2 * (ONE as i64);
        mid.lerp(&rim, if beyond > limit { limit } else { beyond }, limit)
    };
    color.scale(fragment.intensity as i64, ONE as i64)
}

/// A dark green planet with a yellow pattern, from a noise sample.
pub fn hypnos_shader(fragment: &Fragment, noise: i32) -> (color: Color)
    ensures
        color == hypnos_color(*fragment, noise),
{
    let planet = Color::new(0, 40, 0);
    let fractal = Color::new(255, 255, 0);
    let color = planet.lerp(&fractal, noise as i64 + ONE as i64, 2 * (ONE as i64));
    let light: i64 = 5 * (fragment.intensity as i64);
    let limit: i64 = 4 * (ONE as i64);
    color.scale(if light > limit { limit } else { light }, 5 * (ONE as i64))
}

} // verus!
