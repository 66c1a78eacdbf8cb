//! Rasterisation of line segments and of triangle outlines.
//!
//! A segment is walked with integer error accumulation. Its contract gives
//! each fragment in closed form: on the longer axis the walk advances one
//! pixel per fragment, on the shorter axis it stands at the exact position
//! rounded to the nearest pixel, a tie going to the pixel nearer the start.

use vstd::prelude::*;
use vstd::arithmetic::div_mod::{
    lemma_basic_div,
    lemma_div_is_ordered,
    lemma_div_plus_one,
    lemma_fundamental_div_mod_converse,
};
use crate::color::lemma_lerp_ends;
use crate::fixed::{interpolate, interpolate_i32, lemma_interpolate_between, ONE};
use crate::fragment::Fragment;
use crate::vertex::Vertex;

verus! {

/// The distance between two coordinates.
pub open spec fn distance(a: int, b: int) -> int {
    if a <= b {
        b - a
    } else {
        a - b
    }
}

/// The coordinate `n` pixels away from `from`, on the side of `to`.
pub open spec fn step_toward(from: int, to: int, n: int) -> int {
    if from < to {
        from + n
    } else {
        from - n
    }
}

/// `a / d` rounded to the nearest integer, a tie rounded down.
pub open spec fn round_half_down(a: int, d: int) -> int
    recommends
        a >= 0,
        d > 0,
{
    (2 * a + d - 1) / (2 * d)
}

/// The number of fragments of the segment from `a` to `b`: one for each pixel
/// of its longer axis, the end point left out.
pub open spec fn line_len(a: Vertex, b: Vertex) -> nat {
    let dx = distance(a.transformed_position.x as int, b.transformed_position.x as int);
    let dy = distance(a.transformed_position.y as int, b.transformed_position.y as int);
    if dx >= dy {
        dx as nat
    } else {
        dy as nat
    }
}

/// How far fragment `k` of the segment from `a` to `b` lies from `a`, in
/// pixels along x and along y.
pub open spec fn line_offset(a: Vertex, b: Vertex, k: int) -> (int, int) {
    let dx = distance(a.transformed_position.x as int, b.transformed_position.x as int);
    let dy = distance(a.transformed_position.y as int, b.transformed_position.y as int);
    if dx >= dy {
        (k, round_half_down(k * dy, dx))
    } else {
        (round_half_down(k * dx, dy), k)
    }
}

/// Fragment `k` of the segment from `a` to `b`.
///
/// Colour, depth and model position are interpolated by the progress along x,
/// or along y where the segment is vertical. A line is not lit: its intensity
/// is 1.
pub open spec fn line_fragment(a: Vertex, b: Vertex, k: int) -> Fragment {
    let dx = distance(a.transformed_position.x as int, b.transformed_position.x as int);
    let dy = distance(a.transformed_position.y as int, b.transformed_position.y as int);
    let (nx, ny) = line_offset(a, b, k);
    let num = if dx > 0 { nx } else { ny };
    let den = if dx > 0 { dx } else { dy };
    Fragment {
        x: step_toward(a.transformed_position.x as int, b.transformed_position.x as int, nx) as i32,
        y: step_toward(a.transformed_position.y as int, b.transformed_position.y as int, ny) as i32,
        color: a.color.spec_lerp(b.color, num, den),
        depth: interpolate(
            a.transformed_position.z as int,
            b.transformed_position.z as int,
            num,
            den,
        ) as i32,
        intensity: ONE,
        vertex_position: a.position.spec_interpolate(b.position, num, den),
    }
}

/// The fragments of the segment from `a` to `b`, in the order of the walk.
pub open spec fn line_fragments(a: Vertex, b: Vertex) -> Seq<Fragment> {
    Seq::new(line_len(a, b), |k: int| line_fragment(a, b, k))
}

/// The fragments of the outline of a triangle: its three edges in turn.
pub open spec fn triangle_fragments(v1: Vertex, v2: Vertex, v3: Vertex) -> Seq<Fragment> {
    line_fragments(v1, v2) + line_fragments(v2, v3) + line_fragments(v1, v3)
}

/// When the walk has reached the end of the longer axis, it has reached the
/// end of the shorter one too.
proof fn lemma_axes_end_together(m: int, n: int, dmaj: int, dmin: int, pm: int, pn: int)
    by (nonlinear_arith)
    requires
        dmaj > 0,
        0 <= dmin <= dmaj,
        0 <= n <= dmin,
        m == dmaj,
        pm == m * dmin,
        pn == n * dmaj,
        2 * pn - dmaj < 2 * pm <= 2 * pn + dmaj,
    ensures
        n == dmin,
{
    assert(dmaj * (2 * n - 1) < dmaj * (2 * dmin));
    assert(dmaj * (2 * dmin) <= dmaj * (2 * n + 1));
}

/// Before the walk has reached the end of the longer axis, a further step on
/// the shorter axis is still inside the segment.
proof fn lemma_minor_axis_stays(m: int, n: int, dmaj: int, dmin: int, pm: int, pn: int)
    by (nonlinear_arith)
    requires
        0 <= m < dmaj,
        0 <= dmin,
        n == dmin,
        pm == m * dmin,
        pn == n * dmaj,
    ensures
        2 * dmin + 2 * pm <= 2 * pn,
{
    assert((m + 1) * dmin <= dmaj * dmin);
}

/// The position on the shorter axis is the rounded exact position.
proof fn lemma_rounded_position(a: int, g: int, d: int, pg: int)
    requires
        d > 0,
        pg == g * d,
        2 * pg - d < 2 * a <= 2 * pg + d,
    ensures
        round_half_down(a, d) == g,
{
    assert(g * (2 * d) == 2 * pg) by (nonlinear_arith)
        requires
            pg == g * d,
    ;
    lemma_fundamental_div_mod_converse(2 * a + d - 1, 2 * d, g, 2 * a + d - 1 - 2 * pg);
}

/// One step along the longer axis moves the rounded position on the shorter
/// axis by one pixel at most, and never back.
proof fn lemma_rounding_steps(k: int, dmin: int, dmaj: int)
    requires
        0 <= k,
        0 <= dmin <= dmaj,
        0 < dmaj,
    ensures
        round_half_down(k * dmin, dmaj) <= round_half_down((k + 1) * dmin, dmaj)
            <= round_half_down(k * dmin, dmaj) + 1,
        round_half_down(0 * dmin, dmaj) == 0,
        0 <= round_half_down(k * dmin, dmaj),
{
    let here = 2 * (k * dmin) + dmaj - 1;
    let next = 2 * ((k + 1) * dmin) + dmaj - 1;
    assert((k + 1) * dmin == k * dmin + dmin) by (nonlinear_arith);
    assert(0 <= k * dmin) by (nonlinear_arith)
        requires
            0 <= k,
            0 <= dmin,
    ;
    assert(0 * dmin == 0);
    lemma_div_is_ordered(here, next, 2 * dmaj);
    lemma_div_is_ordered(next, 2 * dmaj + here, 2 * dmaj);
    lemma_div_plus_one(here, 2 * dmaj);
    lemma_basic_div(dmaj - 1, 2 * dmaj);
    lemma_div_is_ordered(dmaj - 1, here, 2 * dmaj);
}

/// A segment is connected: from one fragment to the next the walk moves by
/// one pixel along the longer axis, and by one pixel at most along the
/// shorter one. It starts at `a`.
pub proof fn lemma_line_is_connected(a: Vertex, b: Vertex, k: int)
    requires
        0 <= k,
        k + 1 < line_len(a, b),
    ensures
        line_offset(a, b, 0) == (0int, 0int),
        ({
            let (x, y) = line_offset(a, b, k);
            let (next_x, next_y) = line_offset(a, b, k + 1);
            &&& x <= next_x <= x + 1
            &&& y <= next_y <= y + 1
            &&& next_x == x + 1 || next_y == y + 1
        }),
{
    let dx = distance(a.transformed_position.x as int, b.transformed_position.x as int);
    let dy = distance(a.transformed_position.y as int, b.transformed_position.y as int);
    if dx >= dy {
        lemma_rounding_steps(k, dy, dx);
        lemma_rounding_steps(0, dy, dx);
    } else {
        lemma_rounding_steps(k, dx, dy);
        lemma_rounding_steps(0, dx, dy);
    }
}

/// A segment starts at `a`: its first fragment has the place, the colour,
/// the depth and the model position of `a`.
pub proof fn lemma_line_starts_at_a(a: Vertex, b: Vertex)
    requires
        line_len(a, b) > 0,
    ensures
        line_fragment(a, b, 0).x == a.transformed_position.x,
        line_fragment(a, b, 0).y == a.transformed_position.y,
        line_fragment(a, b, 0).color == a.color,
        line_fragment(a, b, 0).depth == a.transformed_position.z,
        line_fragment(a, b, 0).vertex_position == a.position,
{
    let dx = distance(a.transformed_position.x as int, b.transformed_position.x as int);
    let dy = distance(a.transformed_position.y as int, b.transformed_position.y as int);
    let den = if dx > 0 { dx } else { dy };
    if dx >= dy {
        lemma_rounding_steps(0, dy, dx);
    } else {
        lemma_rounding_steps(0, dx, dy);
    }
    lemma_lerp_ends(a.color, b.color, den);
    lemma_interpolate_between(
        a.transformed_position.z as int,
        b.transformed_position.z as int,
        0,
        den,
    );
    lemma_interpolate_between(a.position.x as int, b.position.x as int, 0, den);
    lemma_interpolate_between(a.position.y as int, b.position.y as int, 0, den);
    lemma_interpolate_between(a.position.z as int, b.position.z as int, 0, den);
}

/// A horizontal segment has one fragment in each column from its start up
/// to its end, the end left out, and all of them in its row.
pub proof fn lemma_horizontal_line(a: Vertex, b: Vertex, k: int)
    requires
        a.transformed_position.y == b.transformed_position.y,
        0 <= k < line_len(a, b),
    ensures
        line_len(a, b) == distance(
            a.transformed_position.x as int,
            b.transformed_position.x as int,
        ),
        line_fragment(a, b, k).x == step_toward(
            a.transformed_position.x as int,
            b.transformed_position.x as int,
            k,
        ),
        line_fragment(a, b, k).y == a.transformed_position.y,
{
    let dx = distance(a.transformed_position.x as int, b.transformed_position.x as int);
    assert(k * 0 == 0);
    lemma_basic_div(dx - 1, 2 * dx);
}

/// Rasterises the segment from `a` to `b`, `b` itself left out.
pub fn line(a: &Vertex, b: &Vertex) -> (fragments: Vec<Fragment>)
    ensures
        fragments@ == line_fragments(*a, *b),
{
    let mut fragments: Vec<Fragment> = Vec::new();

    let x0: i64 = a.transformed_position.x as i64;
    let y0: i64 = a.transformed_position.y as i64;
    let x1: i64 = b.transformed_position.x as i64;
    let y1: i64 = b.transformed_position.y as i64;

    let dx: i64 = if x0 <= x1 { x1 - x0 } else { x0 - x1 };
    let dy: i64 = if y0 <= y1 { y1 - y0 } else { y0 - y1 };
    let sx: i64 = if x0 < x1 { 1 } else { -1 };
    let sy: i64 = if y0 < y1 { 1 } else { -1 };
    let mut err: i64 = dx - dy;

    let mut x: i64 = x0;
    let mut y: i64 = y0;
    let mut nx: i64 = 0;
    let mut ny: i64 = 0;
    let ghost mut p: int = 0;
    let ghost mut q: int = 0;

    while x != x1 || y != y1
        invariant
            x0 == a.transformed_position.x,
            y0 == a.transformed_position.y,
            x1 == b.transformed_position.x,
            y1 == b.transformed_position.y,
            dx == distance(x0 as int, x1 as int),
            dy == distance(y0 as int, y1 as int),
            sx == (if x0 < x1 { 1i64 } else { -1i64 }),
            sy == (if y0 < y1 { 1i64 } else { -1i64 }),
            0 <= nx <= dx,
            0 <= ny <= dy,
            x == step_toward(x0 as int, x1 as int, nx as int),
            y == step_toward(y0 as int, y1 as int, ny as int),
            p == nx * dy,
            q == ny * dx,
            err == dx - dy - p + q,
            dx >= dy && dx > 0 ==> 2 * q - dx < 2 * p <= 2 * q + dx,
            dx < dy ==> 2 * p - dy < 2 * q <= 2 * p + dy,
            dx == dy ==> nx == ny,
            fragments.len() == (if dx >= dy { nx } else { ny }),
            forall|i: int|
                0 <= i < fragments.len() ==> #[trigger] fragments[i] == line_fragment(*a, *b, i),
        decreases (dx - nx) + (dy - ny),
    {
        proof {
            if dx >= dy {
                if nx == dx {
                    lemma_axes_end_together(nx as int, ny as int, dx as int, dy as int, p, q);
                }
                lemma_rounded_position(p, ny as int, dx as int, q);
            } else {
                if ny == dy {
                    lemma_axes_end_together(ny as int, nx as int, dy as int, dx as int, q, p);
                }
                lemma_rounded_position(q, nx as int, dy as int, p);
            }
            assert(line_offset(*a, *b, fragments.len() as int) == (nx as int, ny as int));
        }
        let num: u32 = if dx > 0 { nx as u32 } else { ny as u32 };
        let den: u32 = if dx > 0 { dx as u32 } else { dy as u32 };
        let color = a.color.lerp(&b.color, num as i64, den as i64);
        let depth = interpolate_i32(a.transformed_position.z, b.transformed_position.z, num, den);
        let vertex_position = a.position.interpolate(&b.position, num, den);
        fragments.push(Fragment::new(x as i32, y as i32, color, depth, ONE, vertex_position));

        let e2: i64 = 2 * err;
        if e2 > -dy {
            proof {
                if dx < dy && nx == dx {
                    lemma_minor_axis_stays(ny as int, nx as int, dy as int, dx as int, q, p);
                }
                assert((nx + 1) * dy == nx * dy + dy) by (nonlinear_arith);
                p = p + dy;
            }
            err -= dy;
            x += sx;
            nx += 1;
        }
        if e2 < dx {
            proof {
                if dx >= dy && ny == dy {
                    lemma_minor_axis_stays(
                        (nx - 1) as int,
                        ny as int,
                        dx as int,
                        dy as int,
                        p - dy,
                        q,
                    );
                }
                assert((ny + 1) * dx == ny * dx + dx) by (nonlinear_arith);
                q = q + dx;
            }
            err += dx;
            y += sy;
            ny += 1;
        }
    }
    assert(fragments@ =~= line_fragments(*a, *b));
    fragments
}

/// Rasterises the outline of a triangle: the edges from `v1` to `v2`, from
/// `v2` to `v3` and from `v1` to `v3`.
pub fn triangle(v1: &Vertex, v2: &Vertex, v3: &Vertex) -> (fragments: Vec<Fragment>)
    ensures
        fragments@ == triangle_fragments(*v1, *v2, *v3),
{
    let mut fragments = line(v1, v2);
    let mut second = line(v2, v3);
    let mut third = line(v1, v3);
    fragments.append(&mut second);
    fragments.append(&mut third);
    fragments
}

} // verus!
