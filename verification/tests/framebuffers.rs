use space_travel::framebuffer::{Color, Framebuffer as SceneFramebuffer};
use space_travel::planet_lab::framebuffer::{Framebuffer, FAR_DEPTH};

#[test]
fn lab_new_is_black_and_far() {
    let fb = Framebuffer::new(4, 3);
    assert_eq!((fb.w, fb.h), (4, 3));
    assert_eq!(fb.color, vec![0; 12]);
    assert_eq!(fb.depth, vec![FAR_DEPTH; 12]);
}

#[test]
fn lab_idx_is_row_major_and_clips() {
    let fb = Framebuffer::new(4, 3);
    assert_eq!(fb.idx(0, 0), Some(0));
    assert_eq!(fb.idx(3, 0), Some(3));
    assert_eq!(fb.idx(1, 2), Some(9));
    assert_eq!(fb.idx(4, 0), None);
    assert_eq!(fb.idx(0, 3), None);
    assert_eq!(fb.idx(-1, 1), None);
    assert_eq!(fb.idx(1, -1), None);
}

#[test]
fn lab_put_keeps_the_nearest_fragment() {
    let mut fb = Framebuffer::new(2, 2);
    fb.put(1, 1, 500, 0xFF00_00FF);
    assert_eq!((fb.color[3], fb.depth[3]), (0xFF00_00FF, 500));
    fb.put(1, 1, 700, 0xFFFF_0000);
    assert_eq!((fb.color[3], fb.depth[3]), (0xFF00_00FF, 500));
    fb.put(1, 1, 500, 0xFFFF_0000);
    assert_eq!((fb.color[3], fb.depth[3]), (0xFF00_00FF, 500));
    fb.put(1, 1, 100, 0xFF00_FF00);
    assert_eq!((fb.color[3], fb.depth[3]), (0xFF00_FF00, 100));
    fb.put(2, 1, 0, 0xFFFF_FFFF);
    fb.put(-1, 0, 0, 0xFFFF_FFFF);
    assert_eq!(fb.color[..3], [0, 0, 0]);
}

#[test]
fn lab_depth_buffer_is_order_independent() {
    let frags = [(0, 0, 30u32), (1, 0, 10), (0, 0, 20), (1, 0, 40), (0, 0, 25)];
    let mut a = Framebuffer::new(2, 1);
    let mut b = Framebuffer::new(2, 1);
    for &(x, y, z) in &frags {
        a.put(x, y, z, z);
    }
    for &(x, y, z) in frags.iter().rev() {
        b.put(x, y, z, z);
    }
    assert_eq!(a.depth, b.depth);
    assert_eq!(a.depth, vec![20, 10]);
}

#[test]
fn lab_clear_resets_everything() {
    let mut fb = Framebuffer::new(3, 2);
    fb.put(2, 1, 5, 7);
    fb.clear(0xFF0B_0E13);
    assert_eq!(fb.color, vec![0xFF0B_0E13; 6]);
    assert_eq!(fb.depth, vec![FAR_DEPTH; 6]);
}

#[test]
fn lab_size_reports_width_and_height() {
    let fb = Framebuffer::new(800, 600);
    let s = fb.size();
    assert_eq!((s.x, s.y), (800, 600));
}

#[test]
fn scene_new_is_black_with_white_pen() {
    let mut fb = SceneFramebuffer::new(3, 2);
    assert_eq!(fb.color_buffer, vec![Color::black(); 6]);
    assert_eq!(fb.depth_buffer, vec![FAR_DEPTH; 6]);
    fb.set_pixel(2, 1);
    assert_eq!(fb.color_buffer[5], Color::white());
}

#[test]
fn scene_pixels_off_the_grid_are_ignored() {
    let mut fb = SceneFramebuffer::new(3, 2);
    fb.set_pixel(3, 0);
    fb.set_pixel(0, 2);
    fb.set_pixel_color(5, 5, Color::new(1, 2, 3, 4));
    assert_eq!(fb.color_buffer, vec![Color::black(); 6]);
}

#[test]
fn scene_colours_follow_the_pens() {
    let mut fb = SceneFramebuffer::new(3, 2);
    let star = Color::new(120, 120, 120, 255);
    fb.set_current_color(star);
    fb.set_pixel(1, 0);
    fb.set_pixel_color(0, 1, Color::new(9, 8, 7, 255));
    assert_eq!(fb.color_buffer[1], star);
    assert_eq!(fb.color_buffer[3], Color::new(9, 8, 7, 255));
    fb.set_background_color(Color::new(5, 5, 20, 255));
    fb.clear();
    assert_eq!(fb.color_buffer, vec![Color::new(5, 5, 20, 255); 6]);
    assert_eq!(fb.depth_buffer, vec![FAR_DEPTH; 6]);
}

#[test]
fn scene_depth_test() {
    let mut fb = SceneFramebuffer::new(3, 2);
    assert_eq!(fb.depth_index(2, 1), 5);
    assert!(fb.test_and_set_depth(2, 1, 1000));
    assert_eq!(fb.depth_buffer[5], 1000);
    assert!(!fb.test_and_set_depth(2, 1, 1000));
    assert!(!fb.test_and_set_depth(2, 1, 2000));
    assert!(fb.test_and_set_depth(2, 1, 999));
    assert_eq!(fb.depth_buffer[5], 999);
    assert!(!fb.test_and_set_depth(3, 1, 0));
    assert!(!fb.test_and_set_depth(0, 2, 0));
}
