use xiao_epaper::framebuffer::{Framebuffer, FB_SIZE, HEIGHT, WIDTH};

#[test]
fn new_framebuffer_is_black() {
    let fb = Framebuffer::new();
    assert_eq!(fb.bytes().len(), FB_SIZE);
    assert!(fb.bytes().iter().all(|&b| b == 0));
    assert!(fb.is_black(0, 0));
    assert!(fb.is_black(WIDTH - 1, HEIGHT - 1));
}

#[test]
fn clear_white_sets_every_byte() {
    let mut fb = Framebuffer::new();
    fb.clear_white();
    assert!(fb.bytes().iter().all(|&b| b == 0xFF));
    assert!(!fb.is_black(400, 240));
}

#[test]
fn read_after_write() {
    let mut fb = Framebuffer::new();
    fb.clear_white();
    fb.set_pixel(9, 1, true);
    assert!(fb.is_black(9, 1));
    assert_eq!(fb.bytes()[100 + 1], 0xFF & !0x40);
    assert!(!fb.is_black(8, 1));
    assert!(!fb.is_black(10, 1));
    fb.set_pixel(9, 1, false);
    assert!(!fb.is_black(9, 1));
    assert_eq!(fb.bytes()[101], 0xFF);
}

#[test]
fn off_panel_pixels_are_ignored() {
    let mut fb = Framebuffer::new();
    fb.clear_white();
    fb.set_pixel(WIDTH, 0, true);
    fb.set_pixel(0, HEIGHT, true);
    fb.draw_point(-1, 5, true);
    fb.draw_point(5, -1, true);
    assert!(fb.bytes().iter().all(|&b| b == 0xFF));
    assert!(!fb.is_black(WIDTH, 0));
}

#[test]
fn draw_point_on_panel() {
    let mut fb = Framebuffer::new();
    fb.clear_white();
    fb.draw_point(799, 479, true);
    assert!(fb.is_black(799, 479));
    assert_eq!(fb.bytes()[FB_SIZE - 1], 0xFE);
}

#[test]
fn last_write_wins_and_writes_commute() {
    let mut a = Framebuffer::new();
    let mut b = Framebuffer::new();
    a.set_pixel(3, 3, true);
    a.set_pixel(4, 3, false);
    b.set_pixel(4, 3, false);
    b.set_pixel(3, 3, true);
    assert_eq!(a.bytes(), b.bytes());
    a.set_pixel(3, 3, false);
    a.set_pixel(3, 3, true);
    assert_eq!(a.bytes(), b.bytes());
}

#[test]
fn from_bytes_checks_length() {
    assert!(Framebuffer::from_bytes(vec![0u8; FB_SIZE - 1]).is_none());
    let fb = Framebuffer::from_bytes(vec![0xAAu8; FB_SIZE]).unwrap();
    assert!(fb.is_black(1, 0));
    assert!(!fb.is_black(0, 0));
}
