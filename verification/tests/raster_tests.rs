use xiao_epaper::canvas::{fill_square, GrayCanvas};
use xiao_epaper::demo::{demo_scene, Paint, Shape};
use xiao_epaper::framebuffer::{Framebuffer, FB_SIZE};
use xiao_epaper::raster::{fit_to_panel, pack_1bpp, place_centered};

#[test]
fn canvas_round_trip() {
    let mut c = GrayCanvas::from_pixel(3, 2, 9);
    assert_eq!(c.dimensions(), (3, 2));
    c.put_pixel(2, 1, 42);
    assert_eq!(c.get_pixel(2, 1), 42);
    assert_eq!(c.get_pixel(0, 1), 9);
    assert_eq!(c.into_raw(), vec![9, 9, 9, 9, 9, 42]);
    assert!(GrayCanvas::from_raw(3, 2, vec![0; 5]).is_none());
    let d = GrayCanvas::from_raw(2, 2, vec![1, 2, 3, 4, 5]).unwrap();
    assert_eq!(d.get_pixel(1, 1), 4);
}

#[test]
fn square_fill_clips() {
    let mut c = GrayCanvas::from_pixel(4, 4, 0);
    fill_square(&mut c, 2, -1, 3, 7);
    assert_eq!(c.into_raw(), vec![0, 0, 7, 7, 0, 0, 7, 7, 0, 0, 0, 0, 0, 0, 0, 0]);
}

#[test]
fn pack_small_picture() {
    let black = vec![true, false, false, true, false, false, false, false, false, true, false, false];
    let fb = pack_1bpp(12, 1, &black);
    assert_eq!(fb.len(), FB_SIZE);
    assert_eq!(fb[0], 0b0110_1111);
    assert_eq!(fb[1], 0b1011_1111);
    assert!(fb[2..].iter().all(|&b| b == 0xFF));
}

#[test]
fn pack_two_rows_reads_back() {
    let w = 800;
    let h = 2;
    let mut black = vec![false; w * h];
    black[799] = true;
    black[800 + 5] = true;
    let fb = Framebuffer::from_bytes(pack_1bpp(w, h, &black)).unwrap();
    assert!(fb.is_black(799, 0));
    assert!(fb.is_black(5, 1));
    assert!(!fb.is_black(4, 1));
    assert!(!fb.is_black(5, 0));
}

#[test]
fn pack_wide_picture_wraps_into_next_row() {
    let mut black = vec![false; 801];
    black[800] = true;
    let fb = pack_1bpp(801, 1, &black);
    assert_eq!(fb[100], 0x7F);
}

#[test]
fn centered_placement() {
    let pic = GrayCanvas::from_raw(2, 1, vec![3, 4]).unwrap();
    let c = place_centered(&pic);
    assert_eq!(c.dimensions(), (800, 480));
    let p = c.into_raw();
    assert_eq!(p[239 * 800 + 399], 3);
    assert_eq!(p[239 * 800 + 400], 4);
    assert_eq!(p.iter().filter(|&&v| v != 255).count(), 2);
    let odd = GrayCanvas::from_raw(3, 3, vec![0; 9]).unwrap();
    let q = place_centered(&odd).into_raw();
    assert_eq!(q[238 * 800 + 398], 0);
    assert_eq!(q[238 * 800 + 397], 255);
    assert_eq!(q[240 * 800 + 400], 0);
    assert_eq!(q[241 * 800 + 400], 255);
}

#[test]
fn demo_scene_contents() {
    let s = demo_scene();
    assert_eq!(s.len(), 13 + 50);
    assert_eq!(s[0], Shape::Rect { x: 0, y: 0, w: 800, h: 480, paint: Paint::Stroke { width: 3, inside: true } });
    assert_eq!(s[1], Shape::Text { text: "XIAO 7.5\" ePaper Panel", x: 40, y: 50 });
    assert_eq!(s[10], Shape::Triangle { x1: 560, y1: 270, x2: 520, y2: 190, x3: 600, y3: 190, paint: Paint::Fill });
    assert_eq!(s[13], Shape::Rect { x: 40, y: 340, w: 20, h: 20, paint: Paint::Fill });
    assert_eq!(s[23], Shape::Rect { x: 60, y: 360, w: 20, h: 20, paint: Paint::Fill });
    assert_eq!(s[62], Shape::Rect { x: 400, y: 420, w: 20, h: 20, paint: Paint::Fill });
}

#[test]
fn fit_shrinks_and_centers() {
    let pic = GrayCanvas::from_pixel(40, 20, 100);
    let c = fit_to_panel(&pic, 4, 2);
    assert_eq!(c.dimensions(), (800, 480));
    let p = c.into_raw();
    assert_eq!(p.iter().filter(|&&v| v != 255).count(), 8);
    assert_eq!(p[239 * 800 + 398], 100);
    assert_eq!(p[240 * 800 + 401], 100);
    assert_eq!(p[238 * 800 + 398], 255);
}

#[test]
fn fit_keeps_a_picture_of_the_target_size() {
    let pic = GrayCanvas::from_raw(2, 2, vec![10, 20, 30, 40]).unwrap();
    let p = fit_to_panel(&pic, 2, 2).into_raw();
    assert_eq!(p[239 * 800 + 399], 10);
    assert_eq!(p[239 * 800 + 400], 20);
    assert_eq!(p[240 * 800 + 399], 30);
    assert_eq!(p[240 * 800 + 400], 40);
}
