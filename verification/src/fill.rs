//! Rasterisation of filled triangles with flat shading.
//!
//! The pixels of the bounding box are visited row by row. A pixel belongs to
//! the triangle where its three edge functions agree in sign with the area of
//! the triangle. Depth and model position are weighted by the edge functions;
//! colour and light are those of the first vertex.

use vstd::prelude::*;
use vstd::arithmetic::div_mod::{
    lemma_div_is_ordered,
    lemma_div_multiples_vanish,
    lemma_fundamental_div_mod,
    lemma_fundamental_div_mod_converse,
};
use crate::fixed::{Point3, ONE};
use crate::fragment::Fragment;
use crate::vertex::Vertex;

verus! {

/// Twice the signed area of the triangle `a`, `b`, `p`.
pub open spec fn edge(ax: int, ay: int, bx: int, by: int, px: int, py: int) -> int {
    (bx - ax) * (py - ay) - (by - ay) * (px - ax)
}

/// The smallest of three coordinates.
pub open spec fn min3(a: int, b: int, c: int) -> int {
    if a <= b && a <= c {
        a
    } else if b <= c {
        b
    } else {
        c
    }
}

/// The largest of three coordinates.
pub open spec fn max3(a: int, b: int, c: int) -> int {
    if a >= b && a >= c {
        a
    } else if b >= c {
        b
    } else {
        c
    }
}

/// The light that a surface with normal `normal` gets from a light in the
/// direction `light_dir`: their scalar product, limited to `0..=1`.
pub open spec fn lambert(normal: Point3, light_dir: Point3) -> i32 {
    let dot = (normal.x * light_dir.x + normal.y * light_dir.y + normal.z * light_dir.z) / (
    ONE as int);
    if dot < 0 {
        0
    } else if dot > ONE {
        ONE
    } else {
        dot as i32
    }
}

/// The mean of `a`, `b` and `c` with the weights `w1`, `w2` and `w3`, rounded
/// down.
pub open spec fn weighted(a: int, b: int, c: int, w1: int, w2: int, w3: int) -> int
    recommends
        w1 >= 0,
        w2 >= 0,
        w3 >= 0,
        w1 + w2 + w3 > 0,
{
    (w1 * a + w2 * b + w3 * c) / (w1 + w2 + w3)
}

/// Twice the signed area of the triangle on the screen.
pub open spec fn signed_area(v1: Vertex, v2: Vertex, v3: Vertex) -> int {
    edge(
        v1.transformed_position.x as int,
        v1.transformed_position.y as int,
        v2.transformed_position.x as int,
        v2.transformed_position.y as int,
        v3.transformed_position.x as int,
        v3.transformed_position.y as int,
    )
}

/// The weights of the three vertices at the pixel `(x, y)`, each with the
/// sign turned so that it is positive inside the triangle. They add up to
/// twice the area of the triangle.
pub open spec fn weights(v1: Vertex, v2: Vertex, v3: Vertex, x: int, y: int) -> (int, int, int) {
    let a = v1.transformed_position;
    let b = v2.transformed_position;
    let c = v3.transformed_position;
    let w1 = edge(b.x as int, b.y as int, c.x as int, c.y as int, x, y);
    let w2 = edge(c.x as int, c.y as int, a.x as int, a.y as int, x, y);
    let w3 = edge(a.x as int, a.y as int, b.x as int, b.y as int, x, y);
    if signed_area(v1, v2, v3) >= 0 {
        (w1, w2, w3)
    } else {
        (-w1, -w2, -w3)
    }
}

/// Whether the pixel `(x, y)` belongs to the triangle, its border included.
pub open spec fn covers(v1: Vertex, v2: Vertex, v3: Vertex, x: int, y: int) -> bool {
    let (w1, w2, w3) = weights(v1, v2, v3, x, y);
    w1 >= 0 && w2 >= 0 && w3 >= 0
}

/// The fragment of the triangle at the pixel `(x, y)`.
pub open spec fn flat_fragment(
    v1: Vertex,
    v2: Vertex,
    v3: Vertex,
    light_dir: Point3,
    x: int,
    y: int,
) -> Fragment {
    let (w1, w2, w3) = weights(v1, v2, v3, x, y);
    Fragment {
        x: x as i32,
        y: y as i32,
        color: v1.color,
        depth: weighted(
            v1.transformed_position.z as int,
            v2.transformed_position.z as int,
            v3.transformed_position.z as int,
            w1,
            w2,
            w3,
        ) as i32,
        intensity: lambert(v1.transformed_normal, light_dir),
        vertex_position: Point3 {
            x: weighted(v1.position.x as int, v2.position.x as int, v3.position.x as int, w1, w2, w3) as i32,
            y: weighted(v1.position.y as int, v2.position.y as int, v3.position.y as int, w1, w2, w3) as i32,
            z: weighted(v1.position.z as int, v2.position.z as int, v3.position.z as int, w1, w2, w3) as i32,
        },
    }
}

/// The fragments of the triangle in row `y`, among the first `n` pixels of
/// the bounding box, from left to right.
pub open spec fn span_fragments(
    v1: Vertex,
    v2: Vertex,
    v3: Vertex,
    light_dir: Point3,
    y: int,
    n: int,
) -> Seq<Fragment>
    decreases n,
{
    let x = min3(
        v1.transformed_position.x as int,
        v2.transformed_position.x as int,
        v3.transformed_position.x as int,
    ) + n - 1;
    if n <= 0 {
        Seq::empty()
    } else if covers(v1, v2, v3, x, y) {
        span_fragments(v1, v2, v3, light_dir, y, n - 1).push(
            flat_fragment(v1, v2, v3, light_dir, x, y),
        )
    } else {
        span_fragments(v1, v2, v3, light_dir, y, n - 1)
    }
}

/// The width of the bounding box of the triangle, in pixels.
pub open spec fn box_width(v1: Vertex, v2: Vertex, v3: Vertex) -> int {
    max3(
        v1.transformed_position.x as int,
        v2.transformed_position.x as int,
        v3.transformed_position.x as int,
    ) - min3(
        v1.transformed_position.x as int,
        v2.transformed_position.x as int,
        v3.transformed_position.x as int,
    ) + 1
}

/// The height of the bounding box of the triangle, in pixels.
pub open spec fn box_height(v1: Vertex, v2: Vertex, v3: Vertex) -> int {
    max3(
        v1.transformed_position.y as int,
        v2.transformed_position.y as int,
        v3.transformed_position.y as int,
    ) - min3(
        v1.transformed_position.y as int,
        v2.transformed_position.y as int,
        v3.transformed_position.y as int,
    ) + 1
}

/// The fragments of the triangle in the first `m` rows of the bounding box,
/// from the top down.
pub open spec fn rows_fragments(
    v1: Vertex,
    v2: Vertex,
    v3: Vertex,
    light_dir: Point3,
    m: int,
) -> Seq<Fragment>
    decreases m,
{
    let y = min3(
        v1.transformed_position.y as int,
        v2.transformed_position.y as int,
        v3.transformed_position.y as int,
    ) + m - 1;
    if m <= 0 {
        Seq::empty()
    } else {
        rows_fragments(v1, v2, v3, light_dir, m - 1) + span_fragments(
            v1,
            v2,
            v3,
            light_dir,
            y,
            box_width(v1, v2, v3),
        )
    }
}

/// The fragments of the filled triangle: none where its vertices lie on one
/// line, else those of its bounding box, row by row.
pub open spec fn flat_triangle_fragments(
    v1: Vertex,
    v2: Vertex,
    v3: Vertex,
    light_dir: Point3,
) -> Seq<Fragment> {
    if signed_area(v1, v2, v3) == 0 {
        Seq::empty()
    } else {
        rows_fragments(v1, v2, v3, light_dir, box_height(v1, v2, v3))
    }
}

/// Whether the pixel `(x, y)` lies in the bounding box of the triangle.
pub open spec fn in_box(v1: Vertex, v2: Vertex, v3: Vertex, x: int, y: int) -> bool {
    let a = v1.transformed_position;
    let b = v2.transformed_position;
    let c = v3.transformed_position;
    &&& min3(a.x as int, b.x as int, c.x as int) <= x <= max3(a.x as int, b.x as int, c.x as int)
    &&& min3(a.y as int, b.y as int, c.y as int) <= y <= max3(a.y as int, b.y as int, c.y as int)
}

/// Every fragment of a span is the fragment of a pixel of its row that the
/// triangle covers.
proof fn lemma_span_is_sound(
    v1: Vertex,
    v2: Vertex,
    v3: Vertex,
    light_dir: Point3,
    y: int,
    n: int,
    i: int,
)
    requires
        n <= box_width(v1, v2, v3),
        i32::MIN <= y <= i32::MAX,
        0 <= i < span_fragments(v1, v2, v3, light_dir, y, n).len(),
    ensures
        ({
            let f = span_fragments(v1, v2, v3, light_dir, y, n)[i];
            let left = min3(
                v1.transformed_position.x as int,
                v2.transformed_position.x as int,
                v3.transformed_position.x as int,
            );
            &&& f.y == y
            &&& left <= f.x < left + n
            &&& covers(v1, v2, v3, f.x as int, y)
            &&& f == flat_fragment(v1, v2, v3, light_dir, f.x as int, y)
        }),
    decreases n,
{
    if n > 0 {
        let rest = span_fragments(v1, v2, v3, light_dir, y, n - 1);
        if i < rest.len() {
            lemma_span_is_sound(v1, v2, v3, light_dir, y, n - 1, i);
        }
    }
}

/// Every pixel of a row that the triangle covers has its fragment in the
/// span.
proof fn lemma_span_is_complete(
    v1: Vertex,
    v2: Vertex,
    v3: Vertex,
    light_dir: Point3,
    y: int,
    n: int,
    x: int,
)
    requires
        ({
            let left = min3(
                v1.transformed_position.x as int,
                v2.transformed_position.x as int,
                v3.transformed_position.x as int,
            );
            left <= x < left + n
        }),
        covers(v1, v2, v3, x, y),
    ensures
        span_fragments(v1, v2, v3, light_dir, y, n).contains(
            flat_fragment(v1, v2, v3, light_dir, x, y),
        ),
    decreases n,
{
    let left = min3(
        v1.transformed_position.x as int,
        v2.transformed_position.x as int,
        v3.transformed_position.x as int,
    );
    let span = span_fragments(v1, v2, v3, light_dir, y, n);
    let rest = span_fragments(v1, v2, v3, light_dir, y, n - 1);
    let f = flat_fragment(v1, v2, v3, light_dir, x, y);
    if x == left + n - 1 {
        assert(span[span.len() - 1] == f);
    } else {
        lemma_span_is_complete(v1, v2, v3, light_dir, y, n - 1, x);
        let j = choose|j: int| 0 <= j < rest.len() && rest[j] == f;
        assert(span[j] == f);
    }
}

/// Soundness of the fill: every fragment of a filled triangle is the
/// fragment of a pixel of the bounding box that the triangle covers.
pub proof fn lemma_fill_is_sound(v1: Vertex, v2: Vertex, v3: Vertex, light_dir: Point3, i: int)
    requires
        0 <= i < flat_triangle_fragments(v1, v2, v3, light_dir).len(),
    ensures
        ({
            let f = flat_triangle_fragments(v1, v2, v3, light_dir)[i];
            &&& in_box(v1, v2, v3, f.x as int, f.y as int)
            &&& covers(v1, v2, v3, f.x as int, f.y as int)
            &&& f == flat_fragment(v1, v2, v3, light_dir, f.x as int, f.y as int)
        }),
{
    lemma_rows_are_sound(v1, v2, v3, light_dir, box_height(v1, v2, v3), i);
}

proof fn lemma_rows_are_sound(
    v1: Vertex,
    v2: Vertex,
    v3: Vertex,
    light_dir: Point3,
    m: int,
    i: int,
)
    requires
        m <= box_height(v1, v2, v3),
        0 <= i < rows_fragments(v1, v2, v3, light_dir, m).len(),
    ensures
        ({
            let f = rows_fragments(v1, v2, v3, light_dir, m)[i];
            &&& in_box(v1, v2, v3, f.x as int, f.y as int)
            &&& covers(v1, v2, v3, f.x as int, f.y as int)
            &&& f == flat_fragment(v1, v2, v3, light_dir, f.x as int, f.y as int)
        }),
    decreases m,
{
    if m > 0 {
        let rest = rows_fragments(v1, v2, v3, light_dir, m - 1);
        let y = min3(
            v1.transformed_position.y as int,
            v2.transformed_position.y as int,
            v3.transformed_position.y as int,
        ) + m - 1;
        if i < rest.len() {
            lemma_rows_are_sound(v1, v2, v3, light_dir, m - 1, i);
        } else {
            lemma_span_is_sound(
                v1,
                v2,
                v3,
                light_dir,
                y,
                box_width(v1, v2, v3),
                i - rest.len(),
            );
        }
    }
}

/// Completeness of the fill: every pixel of the bounding box that a
/// triangle with an area covers has its fragment among those of the
/// triangle.
pub proof fn lemma_fill_is_complete(
    v1: Vertex,
    v2: Vertex,
    v3: Vertex,
    light_dir: Point3,
    x: int,
    y: int,
)
    requires
        signed_area(v1, v2, v3) != 0,
        in_box(v1, v2, v3, x, y),
        covers(v1, v2, v3, x, y),
    ensures
        flat_triangle_fragments(v1, v2, v3, light_dir).contains(
            flat_fragment(v1, v2, v3, light_dir, x, y),
        ),
{
    lemma_rows_are_complete(v1, v2, v3, light_dir, box_height(v1, v2, v3), x, y);
}

proof fn lemma_rows_are_complete(
    v1: Vertex,
    v2: Vertex,
    v3: Vertex,
    light_dir: Point3,
    m: int,
    x: int,
    y: int,
)
    requires
        in_box(v1, v2, v3, x, y),
        covers(v1, v2, v3, x, y),
        y < min3(
            v1.transformed_position.y as int,
            v2.transformed_position.y as int,
            v3.transformed_position.y as int,
        ) + m,
    ensures
        rows_fragments(v1, v2, v3, light_dir, m).contains(
            flat_fragment(v1, v2, v3, light_dir, x, y),
        ),
    decreases m,
{
    let top = min3(
        v1.transformed_position.y as int,
        v2.transformed_position.y as int,
        v3.transformed_position.y as int,
    );
    let rows = rows_fragments(v1, v2, v3, light_dir, m);
    let rest = rows_fragments(v1, v2, v3, light_dir, m - 1);
    let span = span_fragments(v1, v2, v3, light_dir, top + m - 1, box_width(v1, v2, v3));
    let f = flat_fragment(v1, v2, v3, light_dir, x, y);
    if y == top + m - 1 {
        lemma_span_is_complete(v1, v2, v3, light_dir, y, box_width(v1, v2, v3), x);
        let j = choose|j: int| 0 <= j < span.len() && span[j] == f;
        assert(rows[rest.len() + j] == f);
    } else {
        lemma_rows_are_complete(v1, v2, v3, light_dir, m - 1, x, y);
        let j = choose|j: int| 0 <= j < rest.len() && rest[j] == f;
        assert(rows[j] == f);
    }
}

/// At a vertex the weights are all that vertex's: the fragment there has its
/// depth.
pub proof fn lemma_first_vertex_keeps_its_depth(v1: Vertex, v2: Vertex, v3: Vertex, light_dir: Point3)
    requires
        signed_area(v1, v2, v3) != 0,
    ensures
        covers(
            v1,
            v2,
            v3,
            v1.transformed_position.x as int,
            v1.transformed_position.y as int,
        ),
        flat_fragment(
            v1,
            v2,
            v3,
            light_dir,
            v1.transformed_position.x as int,
            v1.transformed_position.y as int,
        ).depth == v1.transformed_position.z,
{
    let a = v1.transformed_position;
    let b = v2.transformed_position;
    let c = v3.transformed_position;
    let area = signed_area(v1, v2, v3);
    lemma_edges_sum(
        a.x as int,
        a.y as int,
        b.x as int,
        b.y as int,
        c.x as int,
        c.y as int,
        a.x as int,
        a.y as int,
    );
    let w2 = edge(c.x as int, c.y as int, a.x as int, a.y as int, a.x as int, a.y as int);
    let w3 = edge(a.x as int, a.y as int, b.x as int, b.y as int, a.x as int, a.y as int);
    assert(w2 == 0 && w3 == 0) by (nonlinear_arith)
        requires
            w2 == (a.x - c.x) * (a.y - c.y) - (a.y - c.y) * (a.x - c.x),
            w3 == (b.x - a.x) * (a.y - a.y) - (b.y - a.y) * (a.x - a.x),
    ;
    let total = if area >= 0 { area } else { -area };
    assert(total * a.z + 0 * b.z + 0 * c.z == total * a.z) by (nonlinear_arith);
    assert((-0) * b.z == 0 && (-0) * c.z == 0);
    lemma_div_multiples_vanish(a.z as int, total);
}

/// The product of two bounded numbers is bounded by the product of the
/// bounds.
proof fn lemma_mul_range(a: int, b: int, ma: int, mb: int)
    by (nonlinear_arith)
    requires
        -ma <= a <= ma,
        -mb <= b <= mb,
    ensures
        -(ma * mb) <= a * b <= ma * mb,
{
}

/// The three edge functions of a pixel add up to twice the area of the
/// triangle.
proof fn lemma_edges_sum(ax: int, ay: int, bx: int, by: int, cx: int, cy: int, px: int, py: int)
    by (nonlinear_arith)
    ensures
        edge(bx, by, cx, cy, px, py) + edge(cx, cy, ax, ay, px, py) + edge(ax, ay, bx, by, px, py)
            == edge(ax, ay, bx, by, cx, cy),
{
}

/// A weighted mean lies between the least and the greatest of its values.
proof fn lemma_weighted_between(
    a: int,
    b: int,
    c: int,
    w1: int,
    w2: int,
    w3: int,
    lo: int,
    hi: int,
)
    requires
        w1 >= 0,
        w2 >= 0,
        w3 >= 0,
        w1 + w2 + w3 > 0,
        lo <= a <= hi,
        lo <= b <= hi,
        lo <= c <= hi,
    ensures
        lo <= weighted(a, b, c, w1, w2, w3) <= hi,
{
    let total = w1 + w2 + w3;
    let n = w1 * a + w2 * b + w3 * c;
    assert(total * lo <= n <= total * hi) by (nonlinear_arith)
        requires
            w1 >= 0,
            w2 >= 0,
            w3 >= 0,
            total == w1 + w2 + w3,
            n == w1 * a + w2 * b + w3 * c,
            lo <= a <= hi,
            lo <= b <= hi,
            lo <= c <= hi,
    ;
    lemma_div_is_ordered(total * lo, n, total);
    lemma_div_is_ordered(n, total * hi, total);
    lemma_div_multiples_vanish(lo, total);
    lemma_div_multiples_vanish(hi, total);
}

fn edge_value(ax: i32, ay: i32, bx: i32, by: i32, px: i32, py: i32) -> (e: i128)
    ensures
        e == edge(ax as int, ay as int, bx as int, by as int, px as int, py as int),
        -0x2_0000_0000_0000_0000 <= e <= 0x2_0000_0000_0000_0000,
{
    let ux: i128 = bx as i128 - ax as i128;
    let uy: i128 = by as i128 - ay as i128;
    let vx: i128 = px as i128 - ax as i128;
    let vy: i128 = py as i128 - ay as i128;
    proof {
        lemma_mul_range(ux as int, vy as int, 0x1_0000_0000, 0x1_0000_0000);
        lemma_mul_range(uy as int, vx as int, 0x1_0000_0000, 0x1_0000_0000);
    }
    ux * vy - uy * vx
}

/// `n / d`, rounded down.
fn floor_div(n: i128, d: i128) -> (q: i128)
    requires
        d > 0,
        -0x10_0000_0000_0000_0000_0000_0000 <= n <= 0x10_0000_0000_0000_0000_0000_0000,
    ensures
        q == n as int / d as int,
{
    if n >= 0 {
        ((n as u128) / (d as u128)) as i128
    } else {
        let m: u128 = (-(n + 1)) as u128;
        let k: u128 = m / (d as u128);
        proof {
            let r = m as int % d as int;
            lemma_fundamental_div_mod(m as int, d as int);
            assert(0 <= r < d) by (nonlinear_arith)
                requires
                    r == m as int % d as int,
                    d > 0,
            ;
            assert(n == (-(k as int) - 1) * d + (d - 1 - r)) by (nonlinear_arith)
                requires
                    m == d * (k as int) + r,
                    m == -(n + 1),
            ;
            lemma_fundamental_div_mod_converse(n as int, d as int, -(k as int) - 1, d - 1 - r);
        }
        -(k as i128) - 1
    }
}

fn weighted_i32(a: i32, b: i32, c: i32, w1: i128, w2: i128, w3: i128) -> (v: i32)
    requires
        0 <= w1 <= 0x2_0000_0000_0000_0000,
        0 <= w2 <= 0x2_0000_0000_0000_0000,
        0 <= w3 <= 0x2_0000_0000_0000_0000,
        w1 + w2 + w3 > 0,
    ensures
        v == weighted(a as int, b as int, c as int, w1 as int, w2 as int, w3 as int),
{
    proof {
        lemma_mul_range(w1 as int, a as int, 0x2_0000_0000_0000_0000, 0x8000_0000);
        lemma_mul_range(w2 as int, b as int, 0x2_0000_0000_0000_0000, 0x8000_0000);
        lemma_mul_range(w3 as int, c as int, 0x2_0000_0000_0000_0000, 0x8000_0000);
        lemma_weighted_between(
            a as int,
            b as int,
            c as int,
            w1 as int,
            w2 as int,
            w3 as int,
            i32::MIN as int,
            i32::MAX as int,
        );
    }
    let n: i128 = w1 * (a as i128) + w2 * (b as i128) + w3 * (c as i128);
    let q = floor_div(n, w1 + w2 + w3);
    q as i32
}

fn lambert_intensity(normal: &Point3, light_dir: &Point3) -> (intensity: i32)
    ensures
        intensity == lambert(*normal, *light_dir),
{
    proof {
        lemma_mul_range(normal.x as int, light_dir.x as int, 0x8000_0000, 0x8000_0000);
        lemma_mul_range(normal.y as int, light_dir.y as int, 0x8000_0000, 0x8000_0000);
        lemma_mul_range(normal.z as int, light_dir.z as int, 0x8000_0000, 0x8000_0000);
    }
    let dot: i128 = (normal.x as i128) * (light_dir.x as i128) + (normal.y as i128) * (
    light_dir.y as i128) + (normal.z as i128) * (light_dir.z as i128);
    if dot < 0 {
        0
    } else {
        let q: u128 = (dot as u128) / 65536;
        if q > 65536 {
            ONE
        } else {
            q as i32
        }
    }
}

fn least(a: i32, b: i32, c: i32) -> (m: i32)
    ensures
        m == min3(a as int, b as int, c as int),
{
    if a <= b && a <= c {
        a
    } else if b <= c {
        b
    } else {
        c
    }
}

fn greatest(a: i32, b: i32, c: i32) -> (m: i32)
    ensures
        m == max3(a as int, b as int, c as int),
{
    if a >= b && a >= c {
        a
    } else if b >= c {
        b
    } else {
        c
    }
}

/// Rasterises the filled triangle with one colour and one light intensity:
/// those of `v1`, lit from `light_dir`.
pub fn triangle_flat_shade(v1: &Vertex, v2: &Vertex, v3: &Vertex, light_dir: Point3) -> (fragments:
    Vec<Fragment>)
    ensures
        fragments@ == flat_triangle_fragments(*v1, *v2, *v3, light_dir),
{
    let a = v1.transformed_position;
    let b = v2.transformed_position;
    let c = v3.transformed_position;
    let mut fragments: Vec<Fragment> = Vec::new();
    let area = edge_value(a.x, a.y, b.x, b.y, c.x, c.y);
    if area == 0 {
        return fragments;
    }
    let min_x = least(a.x, b.x, c.x);
    let max_x = greatest(a.x, b.x, c.x);
    let min_y = least(a.y, b.y, c.y);
    let max_y = greatest(a.y, b.y, c.y);
    let width: i64 = max_x as i64 - min_x as i64 + 1;
    let height: i64 = max_y as i64 - min_y as i64 + 1;
    let intensity = lambert_intensity(&v1.transformed_normal, &light_dir);

    let mut row: i64 = 0;
    while row < height
        invariant
            a == v1.transformed_position,
            b == v2.transformed_position,
            c == v3.transformed_position,
            area == signed_area(*v1, *v2, *v3),
            area != 0,
            min_x == min3(a.x as int, b.x as int, c.x as int),
            min_y == min3(a.y as int, b.y as int, c.y as int),
            max_x == max3(a.x as int, b.x as int, c.x as int),
            max_y == max3(a.y as int, b.y as int, c.y as int),
            width == box_width(*v1, *v2, *v3),
            height == box_height(*v1, *v2, *v3),
            intensity == lambert(v1.transformed_normal, light_dir),
            0 <= row <= height,
            fragments@ == rows_fragments(*v1, *v2, *v3, light_dir, row as int),
        decreases height - row,
    {
        let y: i32 = (min_y as i64 + row) as i32;
        let ghost before = fragments@;
        let mut col: i64 = 0;
        while col < width
            invariant
                a == v1.transformed_position,
                b == v2.transformed_position,
                c == v3.transformed_position,
                area == signed_area(*v1, *v2, *v3),
                area != 0,
                min_x == min3(a.x as int, b.x as int, c.x as int),
                max_x == max3(a.x as int, b.x as int, c.x as int),
                width == box_width(*v1, *v2, *v3),
                intensity == lambert(v1.transformed_normal, light_dir),
                0 <= col <= width,
                fragments@ == before + span_fragments(*v1, *v2, *v3, light_dir, y as int, col as int),
            decreases width - col,
        {
            let x: i32 = (min_x as i64 + col) as i32;
            let e1 = edge_value(b.x, b.y, c.x, c.y, x, y);
            let e2 = edge_value(c.x, c.y, a.x, a.y, x, y);
            let e3 = edge_value(a.x, a.y, b.x, b.y, x, y);
            let w1 = if area > 0 { e1 } else { -e1 };
            let w2 = if area > 0 { e2 } else { -e2 };
            let w3 = if area > 0 { e3 } else { -e3 };
            proof {
                lemma_edges_sum(
                    a.x as int,
                    a.y as int,
                    b.x as int,
                    b.y as int,
                    c.x as int,
                    c.y as int,
                    x as int,
                    y as int,
                );
                assert(weights(*v1, *v2, *v3, x as int, y as int) == (
                    w1 as int,
                    w2 as int,
                    w3 as int,
                ));
            }
            if w1 >= 0 && w2 >= 0 && w3 >= 0 {
                let depth = weighted_i32(a.z, b.z, c.z, w1, w2, w3);
                let position = Point3::new(
                    weighted_i32(v1.position.x, v2.position.x, v3.position.x, w1, w2, w3),
                    weighted_i32(v1.position.y, v2.position.y, v3.position.y, w1, w2, w3),
                    weighted_i32(v1.position.z, v2.position.z, v3.position.z, w1, w2, w3),
                );
                let fragment = Fragment::new(x, y, v1.color, depth, intensity, position);
                fragments.push(fragment);
                assert(fragments@ =~= before + span_fragments(
                    *v1,
                    *v2,
                    *v3,
                    light_dir,
                    y as int,
                    col as int,
                ).push(fragment));
            }
            col += 1;
        }
        row += 1;
        assert(fragments@ =~= rows_fragments(*v1, *v2, *v3, light_dir, row as int));
    }
    fragments
}

} // verus!
