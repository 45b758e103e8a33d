use xiao_epaper::canvas::GrayCanvas;
use xiao_epaper::pet::{
    cold, draw_pet, happy, hot, make_grid, pet_fits_check, pick_state, rainy, sleeping, stargazing, PetState, SH,
    SW,
};

fn pixels(c: GrayCanvas) -> Vec<u8> {
    c.into_raw()
}

#[test]
fn make_grid_codes() {
    let mut rows = [""; SH];
    rows[0] = "#. x";
    rows[1] = "################";
    let g = make_grid(rows);
    assert_eq!(&g[0][..5], &[1, 2, 0, 0, 0]);
    assert!(g[1].iter().all(|&c| c == 1));
    assert_eq!(g[1].len(), SW);
    assert!(g[2].iter().all(|&c| c == 0));
}

#[test]
fn happy_sprite_cells() {
    let g = happy();
    assert_eq!(g[0], [0, 0, 0, 1, 1, 0, 0, 0, 0, 0, 1, 1, 0, 0, 0]);
    assert_eq!(g[7], [0, 1, 2, 2, 2, 1, 1, 1, 1, 2, 2, 2, 1, 0, 0]);
    assert_eq!(g[15], [0, 0, 0, 1, 1, 0, 0, 0, 1, 1, 0, 0, 0, 0, 0]);
}

#[test]
fn sprites_differ_in_their_faces() {
    assert_eq!(sleeping()[7], [0, 1, 2, 2, 2, 2, 1, 1, 2, 2, 2, 2, 1, 0, 0]);
    assert_eq!(rainy()[7], [0, 1, 2, 2, 2, 1, 2, 2, 1, 2, 2, 2, 1, 0, 0]);
    assert_eq!(hot()[6], [0, 1, 2, 1, 2, 1, 2, 2, 1, 2, 1, 2, 1, 0, 0]);
    assert_eq!(cold()[10], [0, 1, 2, 2, 1, 2, 2, 2, 2, 1, 2, 2, 1, 0, 0]);
    assert_eq!(stargazing()[10], [1, 2, 2, 2, 2, 2, 2, 2, 2, 2, 2, 2, 2, 1, 0]);
    for g in [happy(), sleeping(), rainy(), hot(), cold(), stargazing()] {
        assert_eq!(g[12], [0, 0, 1, 1, 1, 1, 1, 1, 1, 1, 1, 1, 0, 0, 0]);
    }
}

#[test]
fn pick_state_night() {
    assert_eq!(pick_state(23, 0, false, false, false), PetState::Sleeping);
    assert_eq!(pick_state(5, 61, true, false, false), PetState::Sleeping);
    assert_eq!(pick_state(22, 0, false, false, true), PetState::Stargazing);
    assert_eq!(pick_state(6, 0, false, false, false), PetState::Happy);
}

#[test]
fn pick_state_weather() {
    for code in [51, 55, 61, 67, 80, 82, 95, 96, 99] {
        assert_eq!(pick_state(12, code, true, false, true), PetState::Rainy, "code {}", code);
    }
    for code in [71, 75, 77, 85, 86] {
        assert_eq!(pick_state(12, code, true, false, false), PetState::Cold, "code {}", code);
    }
    for code in [0, 3, 50, 68, 79, 83, 97, 98, -1] {
        assert_eq!(pick_state(12, code, false, false, false), PetState::Happy, "code {}", code);
    }
}

#[test]
fn pick_state_temperature_and_moon() {
    assert_eq!(pick_state(12, 0, true, false, false), PetState::Hot);
    assert_eq!(pick_state(12, 0, false, true, false), PetState::Cold);
    assert_eq!(pick_state(17, 0, false, false, true), PetState::Happy);
    assert_eq!(pick_state(18, 0, false, false, true), PetState::Stargazing);
    assert_eq!(pick_state(21, 2, false, false, true), PetState::Stargazing);
}

#[test]
fn draw_happy_pet_at_scale_one() {
    let mut c = GrayCanvas::from_pixel(20, 20, 100);
    draw_pet(&mut c, PetState::Happy, 2, 1, 1, false);
    let p = pixels(c);
    let at = |x: usize, y: usize| p[y * 20 + x];
    assert_eq!(at(2 + 3, 1), 0);
    assert_eq!(at(2 + 0, 1), 100);
    assert_eq!(at(2 + 2, 1 + 2), 0);
    assert_eq!(at(2 + 3, 1 + 2), 255);
    assert_eq!(at(2 + 3, 1 + 3), 255);
    assert_eq!(at(0, 0), 100);
    assert_eq!(p.iter().filter(|&&v| v != 100).count(), 150);
}

#[test]
fn flipped_pet_is_a_mirror() {
    let mut a = GrayCanvas::from_pixel(40, 40, 100);
    let mut b = GrayCanvas::from_pixel(40, 40, 100);
    draw_pet(&mut a, PetState::Hot, 5, 5, 2, false);
    draw_pet(&mut b, PetState::Cold, 5, 5, 2, true);
    let mut c = GrayCanvas::from_pixel(40, 40, 100);
    draw_pet(&mut c, PetState::Cold, 5, 5, 2, false);
    let pb = pixels(b);
    let pc = pixels(c);
    for y in 5..37 {
        for x in 5..35 {
            let mx = 2 * 5 + 15 * 2 - 1 - x;
            assert_eq!(pb[y * 40 + x], pc[y * 40 + mx], "({}, {})", x, y);
        }
    }
    assert_ne!(pixels(a), pc);
}

#[test]
fn sleeping_pet_has_zzz_on_the_right() {
    let mut c = GrayCanvas::from_pixel(60, 30, 100);
    draw_pet(&mut c, PetState::Sleeping, 0, 10, 1, false);
    let p = pixels(c);
    for x in 16..20 {
        assert_eq!(p[12 * 60 + x], 0);
    }
    assert_eq!(p[13 * 60 + 18], 0);
    assert_eq!(p[13 * 60 + 16], 100);
    assert_eq!(p[5 * 60 + 25], 0);
    let mut f = GrayCanvas::from_pixel(60, 30, 100);
    draw_pet(&mut f, PetState::Sleeping, 20, 10, 1, true);
    let q = pixels(f);
    assert_eq!(q[12 * 60 + 14], 0);
    assert_eq!(q[12 * 60 + 36], 100);
}

#[test]
fn pet_clipped_at_the_edges() {
    let mut c = GrayCanvas::from_pixel(10, 10, 7);
    draw_pet(&mut c, PetState::Stargazing, -20, -20, 3, false);
    draw_pet(&mut c, PetState::Rainy, 8, 8, 2, true);
    let p = pixels(c);
    assert_eq!(p.len(), 100);
    let mut d = GrayCanvas::from_pixel(10, 10, 7);
    draw_pet(&mut d, PetState::Happy, 0, 0, 0, false);
    draw_pet(&mut d, PetState::Happy, 0, 0, -4, true);
    assert!(pixels(d).iter().all(|&v| v == 7));
}

fn grid_rows(g: &[[u8; SW]; SH]) -> Vec<String> {
    g.iter()
        .map(|row| {
            row.iter()
                .map(|&c| match c {
                    1 => '#',
                    2 => '.',
                    _ => ' ',
                })
                .collect()
        })
        .collect()
}

#[test]
fn sprite_text_round_trip() {
    for g in [happy(), sleeping(), rainy(), hot(), cold(), stargazing()] {
        let text = grid_rows(&g);
        let mut rows = [""; SH];
        for (y, row) in text.iter().enumerate() {
            rows[y] = row.as_str();
        }
        assert_eq!(make_grid(rows), g);
    }
}

#[test]
fn sprites_share_the_happy_body() {
    let h = happy();
    for (g, differing) in [
        (sleeping(), vec![7]),
        (rainy(), vec![7]),
        (hot(), vec![6, 8]),
        (cold(), vec![10]),
        (stargazing(), vec![7, 8, 10]),
    ] {
        for y in 0..SH {
            if !differing.contains(&y) {
                assert_eq!(g[y], h[y], "row {y}");
            }
        }
    }
    assert_eq!(stargazing()[7], h[6]);
}

#[test]
fn pet_fits_near_the_i32_limit() {
    let edge = i32::MAX - 16;
    assert!(pet_fits_check(PetState::Happy, edge, 0, 1, false));
    assert!(!pet_fits_check(PetState::Happy, edge + 1, 0, 1, false));
    assert!(pet_fits_check(PetState::Cold, edge, 0, 1, true));
    assert!(!pet_fits_check(PetState::Sleeping, edge, 0, 1, false));
    assert!(!pet_fits_check(PetState::Happy, 0, 0, 0x1000_0000, false));
    assert!(pet_fits_check(PetState::Happy, 0, 0, 4, false));
}

#[test]
fn pet_far_off_the_image_draws_nothing() {
    let mut img = GrayCanvas::from_pixel(20, 20, 255);
    draw_pet(&mut img, PetState::Happy, i32::MAX - 16, 0, 1, false);
    assert!(pixels(img).iter().all(|&v| v == 255));
}
