//! Fixed-point scalars and points, and interpolation between them.
//!
//! A scalar is an `i32` that counts steps of `1 / ONE`.

use vstd::prelude::*;

verus! {

/// The fixed-point number 1.
pub const ONE: i32 = 65536;

/// A point or a direction in space, in fixed-point coordinates.
#[derive(Debug, Clone, Copy, PartialEq, Eq, Structural)]
pub struct Point3 {
    pub x: i32,
    pub y: i32,
    pub z: i32,
}

/// The value that lies the fraction `num / den` of the way from `a` to `b`,
/// rounded towards `a`.
pub open spec fn interpolate(a: int, b: int, num: int, den: int) -> int
    recommends
        0 <= num <= den,
        den > 0,
{
    if a <= b {
        a + ((b - a) * num) / den
    } else {
        a - ((a - b) * num) / den
    }
}

/// For a fraction in `0..=1` the interpolated value lies between the two ends.
pub proof fn lemma_interpolate_between(a: int, b: int, num: int, den: int)
    requires
        0 <= num <= den,
        den > 0,
    ensures
        a <= b ==> a <= interpolate(a, b, num, den) <= b,
        b <= a ==> b <= interpolate(a, b, num, den) <= a,
        num == 0 ==> interpolate(a, b, num, den) == a,
        num == den ==> interpolate(a, b, num, den) == b,
{
    let d = if a <= b { b - a } else { a - b };
    lemma_fraction_of(d, num, den);
}

/// A fraction in `0..=1` of a length is a part of that length.
pub proof fn lemma_fraction_of(d: int, num: int, den: int)
    by (nonlinear_arith)
    requires
        0 <= d,
        0 <= num <= den,
        den > 0,
    ensures
        0 <= (d * num) / den <= d,
        0 <= d * num <= d * den,
        num == 0 ==> (d * num) / den == 0,
        num == den ==> (d * num) / den == d,
{
}

impl Point3 {
    /// The point that lies the fraction `num / den` of the way from `self` to
    /// `other`, each coordinate rounded towards `self`.
    pub open spec fn spec_interpolate(self, other: Point3, num: int, den: int) -> Point3
        recommends
            0 <= num <= den,
            den > 0,
    {
        Point3 {
            x: interpolate(self.x as int, other.x as int, num, den) as i32,
            y: interpolate(self.y as int, other.y as int, num, den) as i32,
            z: interpolate(self.z as int, other.z as int, num, den) as i32,
        }
    }

    /// The point with these coordinates.
    pub fn new(x: i32, y: i32, z: i32) -> (p: Point3)
        ensures
            p == (Point3 { x, y, z }),
    {
        Point3 { x, y, z }
    }

    /// Interpolates between two points, coordinate by coordinate.
    pub fn interpolate(&self, other: &Point3, num: u32, den: u32) -> (p: Point3)
        requires
            num <= den,
            den > 0,
        ensures
            p == self.spec_interpolate(*other, num as int, den as int),
    {
        Point3 {
            x: interpolate_i32(self.x, other.x, num, den),
            y: interpolate_i32(self.y, other.y, num, den),
            z: interpolate_i32(self.z, other.z, num, den),
        }
    }
}

/// Interpolates between two scalars: `a` at `num == 0`, `b` at `num == den`.
pub fn interpolate_i32(a: i32, b: i32, num: u32, den: u32) -> (v: i32)
    requires
        num <= den,
        den > 0,
    ensures
        v == interpolate(a as int, b as int, num as int, den as int),
{
    proof {
        lemma_interpolate_between(a as int, b as int, num as int, den as int);
    }
    if a <= b {
        let d: u64 = (b as i64 - a as i64) as u64;
        proof {
            lemma_fraction_of(d as int, num as int, den as int);
            assert(d * num <= 0xFFFF_FFFF * 0xFFFF_FFFF) by (nonlinear_arith)
                requires
                    0 <= d <= 0xFFFF_FFFF,
                    0 <= num <= 0xFFFF_FFFF,
            ;
        }
        let part: u64 = d * (num as u64) / (den as u64);
        (a as i64 + part as i64) as i32
    } else {
        let d: u64 = (a as i64 - b as i64) as u64;
        proof {
            lemma_fraction_of(d as int, num as int, den as int);
            assert(d * num <= 0xFFFF_FFFF * 0xFFFF_FFFF) by (nonlinear_arith)
                requires
                    0 <= d <= 0xFFFF_FFFF,
                    0 <= num <= 0xFFFF_FFFF,
            ;
        }
        let part: u64 = d * (num as u64) / (den as u64);
        (a as i64 - part as i64) as i32
    }
}

} // verus!
