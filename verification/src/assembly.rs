//! Primitive assembly: vertices grouped into triangles or segments, and the
//! primitives that lie wholly outside the view volume dropped.
//!
//! The test is conservative: a primitive stays where one of its vertices lies
//! in the view volume. One that crosses the volume with every vertex outside
//! is dropped.

use vstd::prelude::*;
use vstd::slice::slice_subrange;
use crate::vertex::Vertex;

verus! {

/// Primitive `k` of `vertices` grouped by `size`.
pub open spec fn primitive_at(vertices: Seq<Vertex>, size: int, k: int) -> Seq<Vertex> {
    vertices.subrange(size * k, size * k + size)
}

/// The runs of `size` vertices in the order of `vertices`; what is left over
/// at the end is dropped.
pub open spec fn primitives(vertices: Seq<Vertex>, size: int) -> Seq<Seq<Vertex>>
    recommends
        size > 0,
{
    Seq::new((vertices.len() as int / size) as nat, |k: int| primitive_at(vertices, size, k))
}

/// Whether a vertex of the primitive lies in the view volume.
pub open spec fn any_in_view(primitive: Seq<Vertex>) -> bool {
    exists|i: int| 0 <= i < primitive.len() && (#[trigger] primitive[i]).spec_in_view()
}

/// The primitives of `vertices`; with `should_optimize`, those only that
/// have a vertex in the view volume.
pub open spec fn assembled(vertices: Seq<Vertex>, size: int, should_optimize: bool) -> Seq<
    Seq<Vertex>,
>
    recommends
        size > 0,
{
    primitives(vertices, size).filter(|p: Seq<Vertex>| !should_optimize || any_in_view(p))
}

/// The vertices behind each slice.
pub open spec fn views(slices: Seq<&[Vertex]>) -> Seq<Seq<Vertex>> {
    slices.map_values(|s: &[Vertex]| s@)
}

/// Every assembled primitive is a run of `size` vertices of the input; with
/// culling it has a vertex in the view volume, and without culling no run is
/// missing.
pub proof fn lemma_assembled_primitives(
    vertices: Seq<Vertex>,
    size: int,
    should_optimize: bool,
    i: int,
)
    requires
        size > 0,
        0 <= i < assembled(vertices, size, should_optimize).len(),
    ensures
        assembled(vertices, size, should_optimize)[i].len() == size,
        exists|k: int|
            0 <= k < vertices.len() as int / size && assembled(vertices, size, should_optimize)[i]
                == #[trigger] primitive_at(vertices, size, k),
        should_optimize ==> any_in_view(assembled(vertices, size, should_optimize)[i]),
        !should_optimize ==> assembled(vertices, size, should_optimize) == primitives(
            vertices,
            size,
        ),
{
    let all = primitives(vertices, size);
    let keep = |p: Seq<Vertex>| !should_optimize || any_in_view(p);
    let kept = all.filter(keep);
    all.lemma_filter_pred(keep, i);
    all.lemma_filter_contains_rev(keep, kept[i]);
    let k = choose|k: int| 0 <= k < all.len() && all[k] == kept[i];
    assert(kept[i] == primitive_at(vertices, size, k));
    lemma_run_inside(vertices.len() as int, size, vertices.len() as int / size, k);
    if !should_optimize {
        lemma_filter_keeps_all(all, keep);
    }
}

/// A filter that every element passes drops nothing.
proof fn lemma_filter_keeps_all(s: Seq<Seq<Vertex>>, keep: spec_fn(Seq<Vertex>) -> bool)
    requires
        forall|i: int| 0 <= i < s.len() ==> keep(#[trigger] s[i]),
    ensures
        s.filter(keep) == s,
    decreases s.len(),
{
    reveal(Seq::filter);
    if s.len() > 0 {
        lemma_filter_keeps_all(s.drop_last(), keep);
        assert(s.drop_last().push(s.last()) =~= s);
    }
}

/// The first `n` runs of `size` vertices lie inside the sequence.
proof fn lemma_run_inside(len: int, size: int, n: int, k: int)
    by (nonlinear_arith)
    requires
        size > 0,
        0 <= len,
        n == len / size,
        0 <= k < n,
    ensures
        0 <= size * k,
        size * k + size <= len,
        size * (k + 1) == size * k + size,
{
    assert(size * n <= len);
    assert(size * (k + 1) <= size * n);
}

/// Whether a vertex of `primitive` lies in the view volume.
pub fn has_vertex_in_view(primitive: &[Vertex]) -> (found: bool)
    ensures
        found == any_in_view(primitive@),
{
    let mut i: usize = 0;
    while i < primitive.len()
        invariant
            i <= primitive.len(),
            forall|j: int| 0 <= j < i ==> !(#[trigger] primitive@[j]).spec_in_view(),
        decreases primitive.len() - i,
    {
        if primitive[i].in_view() {
            return true;
        }
        i += 1;
    }
    false
}

/// Groups `vertices` into primitives of `size` vertices each, in their
/// order, and drops what is left over at the end. With `should_optimize` a
/// primitive is kept only where one of its vertices lies in the view volume.
pub fn assemble<'a>(vertices: &'a [Vertex], size: usize, should_optimize: bool) -> (result: Vec<
    &'a [Vertex],
>)
    requires
        size > 0,
    ensures
        views(result@) == assembled(vertices@, size as int, should_optimize),
        forall|i: int| 0 <= i < result.len() ==> (#[trigger] result[i])@.len() == size,
{
    let len = vertices.len();
    let count = len / size;
    let mut result: Vec<&'a [Vertex]> = Vec::new();
    let ghost keep = |p: Seq<Vertex>| !should_optimize || any_in_view(p);
    let mut k: usize = 0;
    let mut start: usize = 0;
    proof {
        reveal(Seq::filter);
        assert(primitives(vertices@, size as int).take(0).filter(keep) =~= Seq::empty());
    }
    while k < count
        invariant
            size > 0,
            len == vertices@.len(),
            count == len as int / size as int,
            k <= count,
            start == size * k,
            keep == (|p: Seq<Vertex>| !should_optimize || any_in_view(p)),
            views(result@) == primitives(vertices@, size as int).take(k as int).filter(keep),
            forall|i: int| 0 <= i < result.len() ==> (#[trigger] result[i])@.len() == size,
        decreases count - k,
    {
        proof {
            lemma_run_inside(vertices@.len() as int, size as int, count as int, k as int);
        }
        let primitive = slice_subrange(vertices, start, start + size);
        let kept = !should_optimize || has_vertex_in_view(primitive);
        proof {
            let all = primitives(vertices@, size as int);
            let before = all.take(k as int);
            let now = all.take(k as int + 1);
            assert(now.drop_last() =~= before);
            assert(now.last() == primitive@);
            assert(keep(primitive@) == kept);
            reveal(Seq::filter);
            if kept {
                assert(views(result@.push(primitive)) =~= views(result@).push(primitive@));
            }
        }
        if kept {
            result.push(primitive);
        }
        k += 1;
        start += size;
    }
    proof {
        let all = primitives(vertices@, size as int);
        assert(all.take(count as int) =~= all);
    }
    result
}

/// Groups `vertices` into triangles, three vertices each.
pub fn assembly<'a>(vertices: &'a [Vertex], should_optimize: bool) -> (triangles: Vec<
    &'a [Vertex],
>)
    ensures
        views(triangles@) == assembled(vertices@, 3, should_optimize),
        forall|i: int| 0 <= i < triangles.len() ==> (#[trigger] triangles[i])@.len() == 3,
{
    assemble(vertices, 3, should_optimize)
}

} // verus!
