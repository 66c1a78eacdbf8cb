use diorama::color::Color;
use diorama::fill::triangle_flat_shade;
use diorama::fixed::{Point3, ONE};
use diorama::fragment::Fragment;
use diorama::framebuffer::Framebuffer;
use diorama::render::{draw_fragments, draw_orbit, rasterize, render, shade_fragments};
use diorama::vertex::Vertex;

const UP: Point3 = Point3 { x: 0, y: 0, z: ONE };
const WHITE: Color = Color { r: 255, g: 255, b: 255 };
const RED: Color = Color { r: 255, g: 0, b: 0 };
const GREEN: Color = Color { r: 0, g: 255, b: 0 };

fn vertex(x: i32, y: i32, depth: i32, in_view: bool) -> Vertex {
    Vertex::new(
        Point3::new(0, 0, 0),
        WHITE,
        if in_view { Point3::new(0, 0, 0) } else { Point3::new(2 * ONE, 0, 0) },
        Point3::new(x, y, depth),
        UP,
    )
}

fn fragment(x: i32, y: i32, depth: i32) -> Fragment {
    Fragment::new(x, y, WHITE, depth, ONE, Point3::new(0, 0, 0))
}

fn lit_pixels(fb: &Framebuffer) -> Vec<(usize, usize)> {
    let mut out = Vec::new();
    for y in 0..fb.height {
        for x in 0..fb.width {
            if fb.buffer[y * fb.width + x] != 0 {
                out.push((x, y));
            }
        }
    }
    out
}

#[test]
fn draw_fragments_tests_the_depth() {
    let mut fb = Framebuffer::new(4, 4, Color::new(0, 0, 0));
    fb.set_current_color(RED);
    draw_fragments(&mut fb, &vec![fragment(1, 1, 9), fragment(2, 1, 5), fragment(1, 1, 3)]);
    assert_eq!(lit_pixels(&fb), vec![(1, 1), (2, 1)]);
    assert_eq!(fb.depth[5], Some(3));
    assert_eq!(fb.depth[6], Some(5));
    fb.set_current_color(GREEN);
    draw_fragments(&mut fb, &vec![fragment(1, 1, 3), fragment(2, 1, 4)]);
    assert_eq!(fb.get_point_color(1, 1), RED);
    assert_eq!(fb.get_point_color(2, 1), GREEN);
}

#[test]
fn fragments_off_the_screen_are_dropped() {
    let mut fb = Framebuffer::new(4, 3, Color::new(0, 0, 0));
    fb.set_current_color(RED);
    draw_fragments(
        &mut fb,
        &vec![
            fragment(-1, 1, 0),
            fragment(1, -1, 0),
            fragment(-5, -5, 0),
            fragment(4, 1, 0),
            fragment(1, 3, 0),
            fragment(0, 1, 0),
            fragment(1, 0, 0),
            fragment(i32::MIN, i32::MAX, 0),
            fragment(3, 2, 0),
        ],
    );
    assert_eq!(lit_pixels(&fb), vec![(1, 0), (0, 1), (3, 2)]);
    assert_eq!(fb.depth.iter().filter(|d| d.is_some()).count(), 3);
}

#[test]
fn draw_orbit_closes_the_path() {
    let mut fb = Framebuffer::new(5, 5, Color::new(0, 0, 0));
    let path = vec![
        vertex(1, 1, 0, true),
        vertex(3, 1, 0, true),
        vertex(3, 3, 0, true),
        vertex(1, 3, 0, true),
    ];
    draw_orbit(&mut fb, &path, WHITE);
    assert_eq!(
        lit_pixels(&fb),
        vec![(1, 1), (2, 1), (3, 1), (1, 2), (3, 2), (1, 3), (2, 3), (3, 3)]
    );
    assert_eq!(fb.current_color, WHITE);
    assert_eq!(fb.get_point_color(2, 2), Color::new(0, 0, 0));
}

#[test]
fn draw_orbit_drops_segments_with_both_ends_out_of_view() {
    let mut fb = Framebuffer::new(6, 6, Color::new(0, 0, 0));
    let path = vec![
        vertex(1, 1, 0, false),
        vertex(4, 1, 0, false),
        vertex(4, 4, 0, true),
        vertex(1, 4, 0, false),
    ];
    draw_orbit(&mut fb, &path, RED);
    // the segment from (1, 1) to (4, 1) and the one from (1, 4) back to (1, 1) are dropped
    assert_eq!(lit_pixels(&fb), vec![(4, 1), (4, 2), (4, 3), (2, 4), (3, 4), (4, 4)]);
}

#[test]
fn draw_orbit_of_nothing_sets_the_colour_alone() {
    let mut fb = Framebuffer::new(3, 3, Color::new(0, 0, 0));
    draw_orbit(&mut fb, &[], GREEN);
    assert_eq!(fb.current_color, GREEN);
    assert!(lit_pixels(&fb).is_empty());
    draw_orbit(&mut fb, &[vertex(1, 1, 0, true)], RED);
    assert!(lit_pixels(&fb).is_empty());
}

#[test]
fn draw_orbit_interpolates_the_depth() {
    let mut fb = Framebuffer::new(6, 3, Color::new(0, 0, 0));
    draw_orbit(&mut fb, &[vertex(1, 1, 0, true), vertex(5, 1, 40, true)], RED);
    // forth with depths 0, 10, 20, 30 and back with 40, 30, 20, 10 at columns 5, 4, 3, 2
    assert_eq!(&fb.depth[6..12], &[None, Some(0), Some(10), Some(20), Some(30), Some(40)]);
}

#[test]
fn rasterize_fills_the_triangles_in_view() {
    let shown = [vertex(1, 1, 0, false), vertex(3, 1, 0, true), vertex(1, 3, 0, false)];
    let hidden = [vertex(4, 4, 0, false), vertex(6, 4, 0, false), vertex(4, 6, 0, false)];
    let mut mesh = Vec::new();
    mesh.extend(hidden);
    mesh.extend(shown);
    mesh.extend(shown);
    mesh.push(vertex(0, 0, 0, true));
    let fragments = rasterize(&mesh, UP);
    let mut expected = triangle_flat_shade(&shown[0], &shown[1], &shown[2], UP);
    expected.extend(expected.clone());
    assert_eq!(fragments, expected);
    assert_eq!(fragments.len(), 12);
}

#[test]
fn shade_fragments_gives_each_fragment_its_colour() {
    let mut fb = Framebuffer::new(4, 4, Color::new(0, 0, 0));
    fb.set_current_color(WHITE);
    shade_fragments(
        &mut fb,
        &vec![fragment(1, 1, 5), fragment(2, 2, 5), fragment(1, 1, 1), fragment(9, 9, 0)],
        &vec![RED, GREEN, WHITE, Color::new(1, 2, 3)],
    );
    assert_eq!(fb.get_point_color(1, 1), WHITE);
    assert_eq!(fb.get_point_color(2, 2), GREEN);
    // the fragment off the screen did not change the colour
    assert_eq!(fb.current_color, WHITE);
    shade_fragments(&mut fb, &vec![fragment(3, 3, 9), fragment(1, 1, 1)], &vec![RED, GREEN]);
    assert_eq!(fb.get_point_color(3, 3), RED);
    assert_eq!(fb.get_point_color(1, 1), WHITE);
    // a fragment that loses the depth test still was the last to set the colour
    assert_eq!(fb.current_color, GREEN);
}

#[test]
fn render_shades_and_draws_a_mesh() {
    let mut fb = Framebuffer::new(5, 5, Color::new(0, 0, 0));
    let far = [vertex(1, 1, 50, true), vertex(3, 1, 50, true), vertex(1, 3, 50, true)];
    let near = [vertex(2, 1, 10, true), vertex(4, 1, 10, true), vertex(2, 3, 10, true)];
    let mut mesh = Vec::new();
    mesh.extend(far);
    mesh.extend(near);
    render(&mut fb, &mesh, UP, |f: Fragment| if f.depth < 30 { GREEN } else { RED });
    assert_eq!(fb.get_point_color(1, 1), RED);
    assert_eq!(fb.get_point_color(1, 2), RED);
    assert_eq!(fb.get_point_color(1, 3), RED);
    assert_eq!(fb.get_point_color(2, 1), GREEN);
    assert_eq!(fb.get_point_color(3, 1), GREEN);
    assert_eq!(fb.get_point_color(4, 1), GREEN);
    assert_eq!(fb.get_point_color(2, 2), GREEN);
    assert_eq!(fb.get_point_color(3, 2), GREEN);
    assert_eq!(fb.get_point_color(2, 3), GREEN);
    assert_eq!(fb.get_point_color(3, 3), Color::new(0, 0, 0));
    assert_eq!(lit_pixels(&fb).len(), 9);
}

#[test]
fn render_hands_the_shader_the_light() {
    let mut fb = Framebuffer::new(4, 4, Color::new(0, 0, 0));
    let mesh = [vertex(1, 1, 0, true), vertex(3, 1, 0, true), vertex(1, 3, 0, true)];
    render(&mut fb, &mesh, Point3::new(0, 0, ONE / 2), |f: Fragment| {
        f.color.scale(f.intensity as i64, ONE as i64)
    });
    assert_eq!(fb.get_point_color(1, 1), Color::new(127, 127, 127));
}

#[test]
fn render_asks_the_shader_for_the_fragments_on_the_screen_alone() {
    let mut fb = Framebuffer::new(3, 3, Color::new(0, 0, 0));
    let mesh = [vertex(-3, -3, 0, true), vertex(6, -3, 0, true), vertex(-3, 6, 0, true)];
    let mut seen = Vec::new();
    let asked = std::cell::RefCell::new(&mut seen);
    render(&mut fb, &mesh, UP, |f: Fragment| {
        asked.borrow_mut().push((f.x, f.y));
        WHITE
    });
    // the triangle covers every pixel with x + y <= 3, on the screen and off it
    assert_eq!(seen, vec![(0, 0), (1, 0), (2, 0), (0, 1), (1, 1), (2, 1), (0, 2), (1, 2)]);
    assert_eq!(
        lit_pixels(&fb),
        vec![(0, 0), (1, 0), (2, 0), (0, 1), (1, 1), (2, 1), (0, 2), (1, 2)]
    );
}

#[test]
fn a_fragment_left_of_the_screen_does_not_reach_the_first_column() {
    let mut fb = Framebuffer::new(3, 3, Color::new(0, 0, 0));
    fb.set_current_color(RED);
    draw_fragments(&mut fb, &vec![fragment(-3, 1, 0), fragment(1, -3, 0), fragment(-1, -1, 0)]);
    assert_eq!(fb.buffer, vec![0; 9]);
    assert_eq!(fb.depth, vec![None; 9]);
    shade_fragments(&mut fb, &vec![fragment(-3, 1, 0), fragment(0, 1, 0)], &vec![GREEN, WHITE]);
    assert_eq!(lit_pixels(&fb), vec![(0, 1)]);
    assert_eq!(fb.get_point_color(0, 1), WHITE);
}

#[test]
fn draw_orbit_reaches_the_first_row_and_column() {
    let mut fb = Framebuffer::new(3, 3, Color::new(0, 0, 0));
    draw_orbit(&mut fb, &[vertex(0, 0, 0, true), vertex(2, 0, 0, true), vertex(0, 2, 0, true)], RED);
    assert_eq!(lit_pixels(&fb), vec![(0, 0), (1, 0), (2, 0), (0, 1), (1, 1), (0, 2)]);
}
