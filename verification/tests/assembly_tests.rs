use diorama::assembly::{assemble, assembly, has_vertex_in_view};
use diorama::color::Color;
use diorama::fixed::{Point3, ONE};
use diorama::vertex::Vertex;

fn vertex(id: i32, frustum: Point3) -> Vertex {
    Vertex::new(
        Point3::new(id, 0, 0),
        Color::new(255, 255, 255),
        frustum,
        Point3::new(0, 0, 0),
        Point3::new(0, 0, ONE),
    )
}

fn inside(id: i32) -> Vertex {
    vertex(id, Point3::new(0, ONE / 2, -ONE / 2))
}

fn outside(id: i32) -> Vertex {
    vertex(id, Point3::new(0, 0, ONE + 1))
}

fn ids(primitives: &[&[Vertex]]) -> Vec<Vec<i32>> {
    primitives.iter().map(|p| p.iter().map(|v| v.position.x).collect()).collect()
}

#[test]
fn the_view_volume_includes_its_faces() {
    assert!(vertex(0, Point3::new(ONE, -ONE, ONE)).in_view());
    assert!(vertex(0, Point3::new(-ONE, ONE, -ONE)).in_view());
    assert!(vertex(0, Point3::new(0, 0, 0)).in_view());
    assert!(!vertex(0, Point3::new(ONE + 1, 0, 0)).in_view());
    assert!(!vertex(0, Point3::new(0, -ONE - 1, 0)).in_view());
    assert!(!vertex(0, Point3::new(0, 0, ONE + 1)).in_view());
    assert!(!vertex(0, Point3::new(i32::MIN, 0, 0)).in_view());
    assert!(!vertex(0, Point3::new(0, i32::MAX, 0)).in_view());
}

#[test]
fn triangles_are_runs_of_three() {
    let vertices: Vec<Vertex> = (0..6).map(inside).collect();
    let triangles = assembly(&vertices, false);
    assert_eq!(ids(&triangles), vec![vec![0, 1, 2], vec![3, 4, 5]]);
}

#[test]
fn a_partial_triangle_at_the_end_is_dropped() {
    let vertices: Vec<Vertex> = (0..8).map(inside).collect();
    assert_eq!(ids(&assembly(&vertices, false)), vec![vec![0, 1, 2], vec![3, 4, 5]]);
    assert_eq!(ids(&assembly(&vertices, true)), vec![vec![0, 1, 2], vec![3, 4, 5]]);
    assert!(assembly(&vertices[..2], false).is_empty());
    assert!(assembly(&vertices[..0], true).is_empty());
}

#[test]
fn one_vertex_in_view_keeps_the_triangle() {
    let vertices = vec![
        outside(0), outside(1), outside(2),
        outside(3), inside(4), outside(5),
        inside(6), inside(7), inside(8),
        outside(9), outside(10), inside(11),
        inside(12), outside(13), outside(14),
    ];
    assert_eq!(
        ids(&assembly(&vertices, true)),
        vec![vec![3, 4, 5], vec![6, 7, 8], vec![9, 10, 11], vec![12, 13, 14]]
    );
}

#[test]
fn without_culling_every_triangle_stays() {
    let vertices = vec![outside(0), outside(1), outside(2), outside(3), inside(4), outside(5)];
    assert_eq!(ids(&assembly(&vertices, false)), vec![vec![0, 1, 2], vec![3, 4, 5]]);
}

#[test]
fn segments_are_runs_of_two() {
    let vertices = vec![inside(0), outside(1), outside(2), outside(3), outside(4), inside(5), inside(6)];
    assert_eq!(
        ids(&assemble(&vertices, 2, false)),
        vec![vec![0, 1], vec![2, 3], vec![4, 5]]
    );
    assert_eq!(ids(&assemble(&vertices, 2, true)), vec![vec![0, 1], vec![4, 5]]);
}

#[test]
fn runs_of_one_and_of_many() {
    let vertices = vec![inside(0), outside(1), inside(2)];
    assert_eq!(ids(&assemble(&vertices, 1, true)), vec![vec![0], vec![2]]);
    assert_eq!(ids(&assemble(&vertices, 3, true)), vec![vec![0, 1, 2]]);
    assert!(assemble(&vertices, 4, false).is_empty());
    assert!(assemble(&vertices, usize::MAX, false).is_empty());
}

#[test]
fn has_vertex_in_view_looks_at_every_vertex() {
    assert!(!has_vertex_in_view(&[]));
    assert!(!has_vertex_in_view(&[outside(0), outside(1)]));
    assert!(has_vertex_in_view(&[outside(0), outside(1), inside(2)]));
    assert!(has_vertex_in_view(&[inside(0)]));
}
