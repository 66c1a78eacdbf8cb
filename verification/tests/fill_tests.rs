use diorama::color::Color;
use diorama::fill::triangle_flat_shade;
use diorama::fixed::{Point3, ONE};
use diorama::fragment::Fragment;
use diorama::vertex::Vertex;

const UP: Point3 = Point3 { x: 0, y: 0, z: ONE };

fn vertex(x: i32, y: i32, depth: i32) -> Vertex {
    Vertex::new(
        Point3::new(x * 100, y * 100, depth),
        Color::new(10, 20, 30),
        Point3::new(0, 0, 0),
        Point3::new(x, y, depth),
        UP,
    )
}

fn pixels(fragments: &[Fragment]) -> Vec<(i32, i32)> {
    fragments.iter().map(|f| (f.x, f.y)).collect()
}

#[test]
fn right_triangle_is_filled_row_by_row() {
    let fragments = triangle_flat_shade(&vertex(0, 0, 0), &vertex(3, 0, 0), &vertex(0, 3, 0), UP);
    assert_eq!(
        pixels(&fragments),
        vec![
            (0, 0), (1, 0), (2, 0), (3, 0),
            (0, 1), (1, 1), (2, 1),
            (0, 2), (1, 2),
            (0, 3),
        ]
    );
}

#[test]
fn the_order_of_the_vertices_does_not_change_the_pixels() {
    let (a, b, c) = (vertex(-2, 1, 0), vertex(5, 3, 0), vertex(1, -4, 0));
    let one = pixels(&triangle_flat_shade(&a, &b, &c, UP));
    assert!(!one.is_empty());
    assert_eq!(pixels(&triangle_flat_shade(&a, &c, &b, UP)), one);
    assert_eq!(pixels(&triangle_flat_shade(&c, &a, &b, UP)), one);
    assert!(one.contains(&(-2, 1)));
    assert!(one.contains(&(5, 3)));
    assert!(one.contains(&(1, -4)));
    assert!(one.contains(&(1, 0)));
    assert!(!one.contains(&(-2, -4)));
    assert!(!one.contains(&(5, -4)));
}

#[test]
fn vertices_on_one_line_give_no_fragment() {
    assert!(triangle_flat_shade(&vertex(0, 0, 0), &vertex(2, 2, 0), &vertex(5, 5, 0), UP).is_empty());
    assert!(triangle_flat_shade(&vertex(1, 1, 0), &vertex(1, 1, 0), &vertex(1, 1, 0), UP).is_empty());
    assert!(triangle_flat_shade(&vertex(0, 7, 0), &vertex(9, 7, 0), &vertex(4, 7, 0), UP).is_empty());
}

#[test]
fn depth_and_model_position_are_weighted_by_the_vertices() {
    let fragments =
        triangle_flat_shade(&vertex(0, 0, 0), &vertex(4, 0, 40), &vertex(0, 4, 80), UP);
    assert_eq!(fragments.len(), 15);
    for f in &fragments {
        assert_eq!(f.depth, 10 * f.x + 20 * f.y);
        assert_eq!(f.vertex_position, Point3::new(100 * f.x, 100 * f.y, 10 * f.x + 20 * f.y));
    }
}

#[test]
fn weighted_depth_is_rounded_down() {
    // at (1, 1) the three weights are 1, 1 and 1 of 3
    let fragments =
        triangle_flat_shade(&vertex(0, 0, 1), &vertex(3, 0, 0), &vertex(0, 3, 0), UP);
    let f = fragments.iter().find(|f| (f.x, f.y) == (1, 1)).unwrap();
    assert_eq!(f.depth, 0);
    let fragments =
        triangle_flat_shade(&vertex(0, 0, -1), &vertex(3, 0, 0), &vertex(0, 3, 0), UP);
    let f = fragments.iter().find(|f| (f.x, f.y) == (1, 1)).unwrap();
    assert_eq!(f.depth, -1);
}

#[test]
fn colour_is_that_of_the_first_vertex() {
    let mut a = vertex(0, 0, 0);
    let mut b = vertex(2, 0, 0);
    let c = vertex(0, 2, 0);
    a.color = Color::new(1, 2, 3);
    b.color = Color::new(200, 200, 200);
    for f in triangle_flat_shade(&a, &b, &c, UP) {
        assert_eq!(f.color, Color::new(1, 2, 3));
    }
}

#[test]
fn light_is_the_scalar_product_of_normal_and_light_direction() {
    let (a, b, c) = (vertex(0, 0, 0), vertex(2, 0, 0), vertex(0, 2, 0));
    let lit = |light: Point3| triangle_flat_shade(&a, &b, &c, light)[0].intensity;
    assert_eq!(lit(UP), ONE);
    assert_eq!(lit(Point3::new(0, 0, ONE / 2)), ONE / 2);
    assert_eq!(lit(Point3::new(ONE, ONE, 0)), 0);
    assert_eq!(lit(Point3::new(0, 0, -ONE)), 0);
    assert_eq!(lit(Point3::new(0, 0, 3 * ONE)), ONE);
    assert_eq!(lit(Point3::new(0, 0, i32::MAX)), ONE);
    assert_eq!(lit(Point3::new(0, 0, i32::MIN)), 0);
}

#[test]
fn light_takes_the_normal_of_the_first_vertex() {
    let mut a = vertex(0, 0, 0);
    let (b, c) = (vertex(2, 0, 0), vertex(0, 2, 0));
    a.transformed_normal = Point3::new(ONE / 2, ONE / 4, 0);
    let fragments = triangle_flat_shade(&a, &b, &c, Point3::new(ONE, ONE, ONE));
    for f in &fragments {
        assert_eq!(f.intensity, ONE / 2 + ONE / 4);
    }
}

#[test]
fn triangle_at_the_corner_of_the_coordinate_range() {
    let a = vertex(i32::MAX, i32::MAX, i32::MAX);
    let b = vertex(i32::MAX - 2, i32::MAX, i32::MIN);
    let c = vertex(i32::MAX, i32::MAX - 2, 0);
    let fragments = triangle_flat_shade(&a, &b, &c, UP);
    assert_eq!(fragments.len(), 6);
    assert_eq!(fragments[0].x, i32::MAX);
    assert_eq!(fragments[0].y, i32::MAX - 2);
    assert_eq!(fragments[0].depth, 0);
    assert_eq!(fragments[5].depth, i32::MAX);
}
