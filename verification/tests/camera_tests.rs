use diorama::camera::Camera;

type Point = [f32; 3];

fn camera() -> Camera<Point, f32> {
    Camera::new(
        [0.0, 10.0, 60.0],
        [0.0, 0.0, -1.0],
        [0.0, 1.0, 0.0],
        1.0,
        15.0,
        15.0,
        [-5.0, 110.0, -10.0],
        [0.0, 0.0, 0.0],
    )
}

#[test]
fn new_camera_is_in_the_normal_view_and_changed() {
    let c = camera();
    assert_eq!(c.eye, [0.0, 10.0, 60.0]);
    assert_eq!(c.center, [0.0, 0.0, -1.0]);
    assert_eq!(c.up, [0.0, 1.0, 0.0]);
    assert!(c.has_changed);
    assert!(!c.is_bird_view);
    assert_eq!(c.cache_eye_view, c.eye);
    assert_eq!(c.cache_center_view, c.center);
    assert_eq!((c.min_radius, c.max_radius, c.current_radius), (1.0, 15.0, 15.0));
}

#[test]
fn toggle_enters_the_bird_view() {
    let mut c = camera();
    c.toogle_bird_view();
    assert!(c.is_bird_view);
    assert_eq!(c.eye, [-5.0, 110.0, -10.0]);
    assert_eq!(c.center, [0.0, 0.0, 0.0]);
    assert_eq!(c.cache_eye_view, [0.0, 10.0, 60.0]);
    assert_eq!(c.cache_center_view, [0.0, 0.0, -1.0]);
}

#[test]
fn toggle_twice_restores_eye_and_center() {
    let mut c = camera();
    c.eye = [1.5, -2.25, 3.125];
    c.center = [0.1, 0.2, 0.3];
    c.toogle_bird_view();
    c.toogle_bird_view();
    assert!(!c.is_bird_view);
    assert_eq!(c.eye, [1.5, -2.25, 3.125]);
    assert_eq!(c.center, [0.1, 0.2, 0.3]);
}

#[test]
fn leaving_the_bird_view_forgets_a_move_within_it() {
    let mut c = camera();
    c.toogle_bird_view();
    c.eye = [9.0, 9.0, 9.0];
    c.toogle_bird_view();
    assert_eq!(c.eye, [0.0, 10.0, 60.0]);
    c.toogle_bird_view();
    assert_eq!(c.eye, [-5.0, 110.0, -10.0]);
}

#[test]
fn a_change_is_reported_once() {
    let mut c = camera();
    assert!(c.check_if_changed());
    assert!(!c.check_if_changed());
    assert!(!c.check_if_changed());
    c.toogle_bird_view();
    assert!(c.check_if_changed());
    assert!(!c.check_if_changed());
}

#[test]
fn check_if_changed_leaves_the_view_alone() {
    let mut c = camera();
    c.check_if_changed();
    assert_eq!(c.eye, [0.0, 10.0, 60.0]);
    assert_eq!(c.center, [0.0, 0.0, -1.0]);
    assert!(!c.is_bird_view);
}
