//! The stages behind the transform: assembly, rasterisation, and the
//! depth-tested write of each fragment into the framebuffer.

use vstd::prelude::*;
use crate::assembly::{assembled, assembly, views};
use crate::color::Color;
use crate::fill::{flat_triangle_fragments, triangle_flat_shade};
use crate::fixed::Point3;
use crate::fragment::Fragment;
use crate::framebuffer::{lemma_index_in_grid, Canvas, Framebuffer};
use crate::line::{line, line_fragments};
use crate::vertex::Vertex;

verus! {

impl Canvas {
    /// Whether the fragment falls on the canvas.
    pub open spec fn shows(self, fragment: Fragment) -> bool {
        self.drawable(fragment.x as int, fragment.y as int)
    }

    /// The canvas after the fragment was drawn in the current colour.
    pub open spec fn draw_fragment(self, fragment: Fragment) -> Canvas {
        if self.shows(fragment) {
            self.draw_point(fragment.x as int, fragment.y as int, fragment.depth)
        } else {
            self
        }
    }

    /// The canvas after the fragments were drawn in the current colour, one
    /// after the other.
    pub open spec fn draw_fragments(self, fragments: Seq<Fragment>) -> Canvas
        decreases fragments.len(),
    {
        if fragments.len() == 0 {
            self
        } else {
            self.draw_fragments(fragments.drop_last()).draw_fragment(fragments.last())
        }
    }

    /// The canvas after the fragment was drawn in `color`. A fragment off the
    /// canvas changes nothing, the current colour included.
    pub open spec fn shade_fragment(self, fragment: Fragment, color: Color) -> Canvas {
        if self.shows(fragment) {
            (Canvas { current: color, ..self }).draw_fragment(fragment)
        } else {
            self
        }
    }

    /// The canvas after each fragment was drawn in the colour that stands at
    /// its place in `colors`.
    pub open spec fn shade_fragments(self, fragments: Seq<Fragment>, colors: Seq<Color>) -> Canvas
        recommends
            fragments.len() == colors.len(),
        decreases fragments.len(),
    {
        if fragments.len() == 0 {
            self
        } else {
            self.shade_fragments(fragments.drop_last(), colors.drop_last()).shade_fragment(
                fragments.last(),
                colors.last(),
            )
        }
    }
}

/// Whether segment `i` of the closed path through `path` is drawn: one of its
/// ends lies in the view volume.
pub open spec fn path_segment_kept(path: Seq<Vertex>, i: int) -> bool {
    path[i].spec_in_view() || path[(i + 1) % (path.len() as int)].spec_in_view()
}

/// The fragments of the first `n` segments of the closed path through `path`.
/// Segment `i` runs from vertex `i` to the next one, the last segment back to
/// vertex 0.
pub open spec fn path_fragments(path: Seq<Vertex>, n: int) -> Seq<Fragment>
    decreases n,
{
    if n <= 0 {
        Seq::empty()
    } else if path_segment_kept(path, n - 1) {
        path_fragments(path, n - 1) + line_fragments(
            path[n - 1],
            path[n % (path.len() as int)],
        )
    } else {
        path_fragments(path, n - 1)
    }
}

/// Drawing fragments keeps the size of the canvas and its two colours.
pub proof fn lemma_draw_fragments_keeps_shape(canvas: Canvas, fragments: Seq<Fragment>)
    requires
        canvas.wf(),
    ensures
        canvas.draw_fragments(fragments).wf(),
        canvas.draw_fragments(fragments).width == canvas.width,
        canvas.draw_fragments(fragments).height == canvas.height,
        canvas.draw_fragments(fragments).background == canvas.background,
        canvas.draw_fragments(fragments).current == canvas.current,
    decreases fragments.len(),
{
    if fragments.len() > 0 {
        lemma_draw_fragments_keeps_shape(canvas, fragments.drop_last());
        let before = canvas.draw_fragments(fragments.drop_last());
        let last = fragments.last();
        if before.shows(last) {
            lemma_index_in_grid(
                last.x as int,
                last.y as int,
                before.width as int,
                before.height as int,
            );
        }
    }
}

/// The depth buffer holds the nearest: after fragments were drawn, the pixel
/// of each of them that fell on the canvas holds a depth, and none greater
/// than that of the fragment.
pub proof fn lemma_pixel_holds_the_nearest(canvas: Canvas, fragments: Seq<Fragment>, i: int)
    requires
        canvas.wf(),
        0 <= i < fragments.len(),
        canvas.shows(fragments[i]),
    ensures
        ({
            let at = canvas.index(fragments[i].x as int, fragments[i].y as int);
            canvas.draw_fragments(fragments).depths[at] matches Some(depth) && depth
                <= fragments[i].depth
        }),
    decreases fragments.len(),
{
    let at = canvas.index(fragments[i].x as int, fragments[i].y as int);
    let before = canvas.draw_fragments(fragments.drop_last());
    let last = fragments.last();
    lemma_draw_fragments_keeps_shape(canvas, fragments.drop_last());
    lemma_index_in_grid(
        fragments[i].x as int,
        fragments[i].y as int,
        canvas.width as int,
        canvas.height as int,
    );
    if before.shows(last) {
        lemma_index_in_grid(last.x as int, last.y as int, before.width as int, before.height as int);
    }
    if i < fragments.len() - 1 {
        lemma_pixel_holds_the_nearest(canvas, fragments.drop_last(), i);
    }
}

/// Drawing fragments never moves a pixel away: where a pixel held a depth
/// before, it holds one afterwards that is no greater.
pub proof fn lemma_depth_never_grows(canvas: Canvas, fragments: Seq<Fragment>, at: int)
    requires
        canvas.wf(),
        0 <= at < canvas.depths.len(),
    ensures
        canvas.depths[at] matches Some(before) ==> (canvas.draw_fragments(
            fragments,
        ).depths[at] matches Some(after) && after <= before),
        canvas.draw_fragments(fragments).depths[at] is None ==> canvas.draw_fragments(
            fragments,
        ).pixels[at] == canvas.pixels[at],
    decreases fragments.len(),
{
    if fragments.len() > 0 {
        let before = canvas.draw_fragments(fragments.drop_last());
        let last = fragments.last();
        lemma_draw_fragments_keeps_shape(canvas, fragments.drop_last());
        lemma_depth_never_grows(canvas, fragments.drop_last(), at);
        if before.shows(last) {
            lemma_index_in_grid(
                last.x as int,
                last.y as int,
                before.width as int,
                before.height as int,
            );
        }
    }
}

/// The column and the row of the fragment, where it falls on the
/// framebuffer.
fn pixel_of(framebuffer: &Framebuffer, fragment: &Fragment) -> (pixel: Option<(usize, usize)>)
    ensures
        pixel is Some <==> framebuffer@.shows(*fragment),
        pixel matches Some((x, y)) ==> x == fragment.x && y == fragment.y,
{
    if fragment.x < 0 || fragment.y < 0 {
        return None;
    }
    let x = fragment.x as usize;
    let y = fragment.y as usize;
    if x < framebuffer.width && y < framebuffer.height {
        Some((x, y))
    } else {
        None
    }
}

/// Draws each fragment in the current colour, with the depth test.
pub fn draw_fragments(framebuffer: &mut Framebuffer, fragments: &Vec<Fragment>)
    requires
        old(framebuffer).wf(),
    ensures
        final(framebuffer).wf(),
        final(framebuffer)@ == old(framebuffer)@.draw_fragments(fragments@),
{
    let mut i: usize = 0;
    while i < fragments.len()
        invariant
            i <= fragments.len(),
            framebuffer.wf(),
            framebuffer@ == old(framebuffer)@.draw_fragments(fragments@.take(i as int)),
        decreases fragments.len() - i,
    {
        let fragment = fragments[i];
        proof {
            assert(fragments@.take(i as int + 1).drop_last() =~= fragments@.take(i as int));
        }
        if let Some((x, y)) = pixel_of(framebuffer, &fragment) {
            framebuffer.draw_point(x, y, fragment.depth);
        }
        i += 1;
    }
    assert(fragments@.take(fragments.len() as int) =~= fragments@);
}

/// Draws the closed path through `segments` in `orbit_color`.
///
/// A segment is drawn where one of its ends lies in the view volume. The
/// colour stays the current colour of the framebuffer.
pub fn draw_orbit(framebuffer: &mut Framebuffer, segments: &[Vertex], orbit_color: Color)
    requires
        old(framebuffer).wf(),
    ensures
        final(framebuffer).wf(),
        final(framebuffer)@ == (Canvas { current: orbit_color, ..old(framebuffer)@ }).draw_fragments(
            path_fragments(segments@, segments@.len() as int),
        ),
{
    let n = segments.len();
    let mut fragments: Vec<Fragment> = Vec::new();
    let mut i: usize = 0;
    while i < n
        invariant
            n == segments@.len(),
            i <= n,
            fragments@ == path_fragments(segments@, i as int),
        decreases n - i,
    {
        let start = &segments[i];
        let end = &segments[(i + 1) % n];
        if start.in_view() || end.in_view() {
            let mut piece = line(start, end);
            fragments.append(&mut piece);
        }
        i += 1;
    }
    framebuffer.set_current_color(orbit_color);
    draw_fragments(framebuffer, &fragments);
}

/// The fragments of the filled triangles, one triangle after the other.
pub open spec fn triangles_fragments(triangles: Seq<Seq<Vertex>>, light_dir: Point3) -> Seq<
    Fragment,
>
    decreases triangles.len(),
{
    if triangles.len() == 0 {
        Seq::empty()
    } else {
        triangles_fragments(triangles.drop_last(), light_dir) + flat_triangle_fragments(
            triangles.last()[0],
            triangles.last()[1],
            triangles.last()[2],
            light_dir,
        )
    }
}

/// The fragments of a mesh: those of its triangles that have a vertex in the
/// view volume.
pub open spec fn mesh_fragments(vertices: Seq<Vertex>, light_dir: Point3) -> Seq<Fragment> {
    triangles_fragments(assembled(vertices, 3, true), light_dir)
}

/// Assembles the triangles of a mesh, drops those outside the view volume and
/// rasterises the others, filled and flat-shaded.
pub fn rasterize(vertices: &[Vertex], light_dir: Point3) -> (fragments: Vec<Fragment>)
    ensures
        fragments@ == mesh_fragments(vertices@, light_dir),
{
    let triangles = assembly(vertices, true);
    let mut fragments: Vec<Fragment> = Vec::new();
    let mut i: usize = 0;
    while i < triangles.len()
        invariant
            i <= triangles.len(),
            forall|j: int| 0 <= j < triangles.len() ==> (#[trigger] triangles[j])@.len() == 3,
            fragments@ == triangles_fragments(views(triangles@).take(i as int), light_dir),
        decreases triangles.len() - i,
    {
        let tri = triangles[i];
        let mut piece = triangle_flat_shade(&tri[0], &tri[1], &tri[2], light_dir);
        proof {
            let all = views(triangles@);
            assert(all.take(i as int + 1).drop_last() =~= all.take(i as int));
            assert(all.take(i as int + 1).last() == tri@);
        }
        fragments.append(&mut piece);
        i += 1;
    }
    assert(views(triangles@).take(triangles.len() as int) =~= views(triangles@));
    fragments
}

/// Draws each fragment in the colour that stands at its place in `colors`.
pub fn shade_fragments(
    framebuffer: &mut Framebuffer,
    fragments: &Vec<Fragment>,
    colors: &Vec<Color>,
)
    requires
        old(framebuffer).wf(),
        fragments.len() == colors.len(),
    ensures
        final(framebuffer).wf(),
        final(framebuffer)@ == old(framebuffer)@.shade_fragments(fragments@, colors@),
{
    let mut i: usize = 0;
    while i < fragments.len()
        invariant
            i <= fragments.len(),
            fragments.len() == colors.len(),
            framebuffer.wf(),
            framebuffer@ == old(framebuffer)@.shade_fragments(
                fragments@.take(i as int),
                colors@.take(i as int),
            ),
        decreases fragments.len() - i,
    {
        let fragment = fragments[i];
        proof {
            assert(fragments@.take(i as int + 1).drop_last() =~= fragments@.take(i as int));
            assert(colors@.take(i as int + 1).drop_last() =~= colors@.take(i as int));
        }
        if let Some((x, y)) = pixel_of(framebuffer, &fragment) {
            framebuffer.set_current_color(colors[i]);
            framebuffer.draw_point(x, y, fragment.depth);
        }
        i += 1;
    }
    assert(fragments@.take(fragments.len() as int) =~= fragments@);
    assert(colors@.take(fragments.len() as int) =~= colors@);
}

/// Renders a mesh: assembles and rasterises its triangles, asks `shader` for
/// the colour of each fragment that falls on the framebuffer, and draws it
/// with the depth test.
///
/// The colours are those that `shader` returned; what the framebuffer holds
/// afterwards is what `shade_fragments` makes of the fragments and those
/// colours.
pub fn render<S: Fn(Fragment) -> Color>(
    framebuffer: &mut Framebuffer,
    vertices: &[Vertex],
    light_dir: Point3,
    shader: S,
)
    requires
        old(framebuffer).wf(),
        forall|i: int|
            0 <= i < mesh_fragments(vertices@, light_dir).len() && old(framebuffer)@.shows(
                #[trigger] mesh_fragments(vertices@, light_dir)[i],
            ) ==> shader.requires((mesh_fragments(vertices@, light_dir)[i],)),
    ensures
        final(framebuffer).wf(),
        exists|colors: Seq<Color>|
            {
                &&& colors.len() == mesh_fragments(vertices@, light_dir).len()
                &&& forall|i: int|
                    0 <= i < colors.len() && old(framebuffer)@.shows(
                        mesh_fragments(vertices@, light_dir)[i],
                    ) ==> shader.ensures(
                        (mesh_fragments(vertices@, light_dir)[i],),
                        #[trigger] colors[i],
                    )
                &&& final(framebuffer)@ == old(framebuffer)@.shade_fragments(
                    mesh_fragments(vertices@, light_dir),
                    colors,
                )
            },
{
    let fragments = rasterize(vertices, light_dir);
    let ghost mut colors: Seq<Color> = Seq::empty();
    let mut i: usize = 0;
    while i < fragments.len()
        invariant
            i <= fragments.len(),
            fragments@ == mesh_fragments(vertices@, light_dir),
            forall|j: int|
                0 <= j < fragments.len() && old(framebuffer)@.shows(#[trigger] fragments@[j])
                    ==> shader.requires((fragments@[j],)),
            framebuffer.wf(),
            framebuffer.width == old(framebuffer).width,
            framebuffer.height == old(framebuffer).height,
            colors.len() == i,
            forall|j: int|
                0 <= j < i && old(framebuffer)@.shows(fragments@[j]) ==> shader.ensures(
                    (fragments@[j],),
                    #[trigger] colors[j],
                ),
            framebuffer@ == old(framebuffer)@.shade_fragments(fragments@.take(i as int), colors),
        decreases fragments.len() - i,
    {
        let fragment = fragments[i];
        let ghost before = colors;
        if let Some((x, y)) = pixel_of(framebuffer, &fragment) {
            let color = shader(fragment);
            framebuffer.set_current_color(color);
            framebuffer.draw_point(x, y, fragment.depth);
            proof {
                colors = colors.push(color);
            }
        } else {
            proof {
                colors = colors.push(Color { r: 0, g: 0, b: 0 });
            }
        }
        proof {
            assert(fragments@.take(i as int + 1).drop_last() =~= fragments@.take(i as int));
            assert(colors.drop_last() =~= before);
        }
        i += 1;
    }
    assert(fragments@.take(fragments.len() as int) =~= fragments@);
}

} // verus!
