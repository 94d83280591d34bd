use raycaster::framebuffer::{Framebuffer, draw_rectangle};

#[test]
fn new_fills_every_pixel() {
    let fb = Framebuffer::new(4, 3, 7);
    assert_eq!(fb.pixels.len(), 12);
    assert!(fb.pixels.iter().all(|&p| p == 7));
}

#[test]
fn fill_rect_inside_sets_exactly_the_rectangle() {
    let mut fb = Framebuffer::new(5, 4, 0);
    fb.fill_rect(1, 1, 2, 2, 9);
    for y in 0..4 {
        for x in 0..5 {
            let inside = (1..3).contains(&x) && (1..3).contains(&y);
            assert_eq!(fb.get_pixel(x, y), if inside { 9 } else { 0 });
        }
    }
}

#[test]
fn fill_rect_partly_outside_is_clipped() {
    let mut fb = Framebuffer::new(4, 4, 0);
    fb.fill_rect(2, 3, 10, 10, 5);
    assert_eq!(fb.pixels.len(), 16);
    for y in 0..4 {
        for x in 0..4 {
            let inside = x >= 2 && y >= 3;
            assert_eq!(fb.get_pixel(x, y), if inside { 5 } else { 0 });
        }
    }
}

#[test]
fn fill_rect_fully_outside_changes_nothing() {
    let mut fb = Framebuffer::new(4, 4, 1);
    fb.fill_rect(4, 0, 3, 3, 5);
    fb.fill_rect(0, 100, 3, 3, 5);
    fb.fill_rect(usize::MAX, usize::MAX, usize::MAX, usize::MAX, 5);
    fb.fill_rect(1, 1, 0, 3, 5);
    assert!(fb.pixels.iter().all(|&p| p == 1));
}

#[test]
fn fill_rect_huge_extent_covers_to_the_edge() {
    let mut fb = Framebuffer::new(3, 2, 0);
    fb.fill_rect(1, 0, usize::MAX, usize::MAX, 4);
    assert_eq!(fb.pixels, vec![0, 4, 4, 0, 4, 4]);
}

#[test]
fn draw_rectangle_on_a_plain_vector() {
    let mut image = vec![0u32; 6];
    draw_rectangle(&mut image, 3, 2, 2, 1, 5, 5, 8);
    assert_eq!(image, vec![0, 0, 0, 0, 0, 8]);
}

#[test]
fn clear_resets_every_pixel() {
    let mut fb = Framebuffer::new(3, 3, 0);
    fb.fill_rect(0, 0, 2, 2, 6);
    fb.set_pixel(2, 2, 9);
    fb.clear(3);
    assert!(fb.pixels.iter().all(|&p| p == 3));
}

#[test]
fn set_pixel_out_of_bounds_is_dropped() {
    let mut fb = Framebuffer::new(2, 2, 0);
    fb.set_pixel(2, 0, 1);
    fb.set_pixel(0, 2, 1);
    assert_eq!(fb.pixels, vec![0, 0, 0, 0]);
    fb.set_pixel(1, 1, 1);
    assert_eq!(fb.pixels, vec![0, 0, 0, 1]);
}
