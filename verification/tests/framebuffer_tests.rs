use diorama::color::Color;
use diorama::framebuffer::Framebuffer;

const RED: Color = Color { r: 255, g: 0, b: 0 };
const GREEN: Color = Color { r: 0, g: 255, b: 0 };
const BLUE: Color = Color { r: 0, g: 0, b: 255 };

#[test]
fn new_fills_with_the_background() {
    let fb = Framebuffer::new(4, 3, RED);
    assert_eq!(fb.width, 4);
    assert_eq!(fb.height, 3);
    assert_eq!(fb.buffer, vec![0xFF0000; 12]);
    assert_eq!(fb.depth, vec![None; 12]);
    assert_eq!(fb.background_color, RED);
    assert_eq!(fb.current_color, Color::new(0, 0, 0));
}

#[test]
fn new_default_is_white() {
    let fb = Framebuffer::new_default(2, 5);
    assert_eq!(fb.buffer, vec![0xFFFFFF; 10]);
    assert_eq!(fb.background_color, Color::new(255, 255, 255));
}

#[test]
fn new_without_pixels() {
    let fb = Framebuffer::new(0, 7, RED);
    assert!(fb.buffer.is_empty());
    assert_eq!(fb.get_point_color(0, 0), Color::new(0, 0, 0));
}

#[test]
fn draw_point_writes_the_current_colour() {
    let mut fb = Framebuffer::new(4, 3, RED);
    fb.set_current_color(GREEN);
    fb.draw_point(2, 1, 10);
    assert_eq!(fb.buffer[1 * 4 + 2], 0x00FF00);
    assert_eq!(fb.depth[1 * 4 + 2], Some(10));
    assert_eq!(fb.get_point_color(2, 1), GREEN);
    assert_eq!(fb.buffer.iter().filter(|&&p| p == 0xFF0000).count(), 11);
}

#[test]
fn far_then_near_shows_the_near_point() {
    let mut fb = Framebuffer::new(4, 4, Color::new(0, 0, 0));
    fb.set_current_color(RED);
    fb.draw_point(2, 2, 50);
    fb.set_current_color(GREEN);
    fb.draw_point(2, 2, 10);
    assert_eq!(fb.get_point_color(2, 2), GREEN);
    assert_eq!(fb.depth[2 * 4 + 2], Some(10));
}

#[test]
fn near_then_far_keeps_the_near_point() {
    let mut fb = Framebuffer::new(4, 4, Color::new(0, 0, 0));
    fb.set_current_color(GREEN);
    fb.draw_point(2, 2, 10);
    fb.set_current_color(RED);
    fb.draw_point(2, 2, 50);
    assert_eq!(fb.get_point_color(2, 2), GREEN);
    assert_eq!(fb.depth[2 * 4 + 2], Some(10));
}

#[test]
fn equal_depth_keeps_the_first_point() {
    let mut fb = Framebuffer::new(4, 4, Color::new(0, 0, 0));
    fb.set_current_color(GREEN);
    fb.draw_point(1, 3, -7);
    fb.set_current_color(RED);
    fb.draw_point(1, 3, -7);
    assert_eq!(fb.get_point_color(1, 3), GREEN);
}

#[test]
fn an_empty_pixel_takes_any_depth() {
    let mut fb = Framebuffer::new(3, 3, Color::new(0, 0, 0));
    fb.set_current_color(BLUE);
    fb.draw_point(1, 1, i32::MAX);
    assert_eq!(fb.get_point_color(1, 1), BLUE);
    fb.set_current_color(RED);
    fb.draw_point(2, 2, i32::MIN);
    assert_eq!(fb.get_point_color(2, 2), RED);
}

#[test]
fn first_row_and_first_column_are_drawn() {
    let mut fb = Framebuffer::new(4, 4, Color::new(0, 0, 0));
    fb.set_current_color(RED);
    fb.draw_point(0, 0, 1);
    fb.draw_point(0, 2, 2);
    fb.draw_point(3, 0, 3);
    let mut pixels = vec![0; 16];
    let mut depths = vec![None; 16];
    for (index, depth) in [(0, 1), (8, 2), (3, 3)] {
        pixels[index] = 0xFF0000;
        depths[index] = Some(depth);
    }
    assert_eq!(fb.buffer, pixels);
    assert_eq!(fb.depth, depths);
}

#[test]
fn a_point_in_the_corner_of_a_small_framebuffer() {
    let mut fb = Framebuffer::new(2, 2, Color::new(0, 0, 0));
    fb.set_current_color(RED);
    fb.draw_point(0, 0, 0);
    assert_eq!(fb.get_point_color(0, 0), RED);
    assert_eq!(fb.buffer, vec![0xFF0000, 0, 0, 0]);
}

#[test]
fn the_depth_test_holds_in_the_first_row_and_column() {
    for (x, y) in [(0, 0), (0, 2), (2, 0)] {
        let mut fb = Framebuffer::new(3, 3, Color::new(0, 0, 0));
        fb.set_current_color(RED);
        fb.draw_point(x, y, 50);
        fb.set_current_color(GREEN);
        fb.draw_point(x, y, 10);
        assert_eq!(fb.get_point_color(x, y), GREEN);
        fb.set_current_color(BLUE);
        fb.draw_point(x, y, 50);
        assert_eq!(fb.get_point_color(x, y), GREEN);
        assert_eq!(fb.depth[y * 3 + x], Some(10));
    }
}

#[test]
fn points_off_the_buffer_are_dropped() {
    let mut fb = Framebuffer::new(4, 3, Color::new(0, 0, 0));
    fb.set_current_color(RED);
    fb.draw_point(4, 1, 1);
    fb.draw_point(1, 3, 1);
    fb.draw_point(usize::MAX, usize::MAX, 1);
    assert_eq!(fb.buffer, vec![0; 12]);
    fb.draw_point(3, 2, 1);
    assert_eq!(fb.buffer[11], 0xFF0000);
}

#[test]
fn get_point_color_is_black_off_the_buffer() {
    let fb = Framebuffer::new(4, 3, RED);
    assert_eq!(fb.get_point_color(0, 0), RED);
    assert_eq!(fb.get_point_color(3, 2), RED);
    assert_eq!(fb.get_point_color(4, 2), Color::new(0, 0, 0));
    assert_eq!(fb.get_point_color(3, 3), Color::new(0, 0, 0));
}

#[test]
fn clear_restores_background_and_forgets_depth() {
    let mut fb = Framebuffer::new(3, 3, BLUE);
    fb.set_current_color(RED);
    fb.draw_point(1, 1, 5);
    fb.clear();
    assert_eq!(fb.buffer, vec![0x0000FF; 9]);
    assert_eq!(fb.depth, vec![None; 9]);
    assert_eq!(fb.current_color, RED);
    fb.draw_point(1, 1, 100);
    assert_eq!(fb.get_point_color(1, 1), RED);
}

#[test]
fn set_background_color_clears() {
    let mut fb = Framebuffer::new(3, 3, BLUE);
    fb.set_current_color(RED);
    fb.draw_point(1, 1, 5);
    fb.set_background_color(GREEN);
    assert_eq!(fb.background_color, GREEN);
    assert_eq!(fb.buffer, vec![0x00FF00; 9]);
    assert_eq!(fb.depth, vec![None; 9]);
}

#[test]
fn set_background_color_hex_clears() {
    let mut fb = Framebuffer::new(3, 3, BLUE);
    fb.set_current_color(RED);
    fb.draw_point(1, 1, 5);
    fb.set_background_color_hex(0xAA102030);
    assert_eq!(fb.background_color, Color::new(0x10, 0x20, 0x30));
    assert_eq!(fb.buffer, vec![0x102030; 9]);
    assert_eq!(fb.depth, vec![None; 9]);
}

#[test]
fn set_current_color_changes_no_pixel() {
    let mut fb = Framebuffer::new(3, 3, BLUE);
    fb.set_current_color(RED);
    assert_eq!(fb.current_color, RED);
    fb.set_current_color_hex(0x010203);
    assert_eq!(fb.current_color, Color::new(1, 2, 3));
    assert_eq!(fb.buffer, vec![0x0000FF; 9]);
}
