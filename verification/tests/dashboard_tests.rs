use xiao_epaper::calendar::{clock_line, date_line, days_in_month, first_weekday, month_name};
use xiao_epaper::canvas::GrayCanvas;
use xiao_epaper::dashboard::{
    calendar_layout, draw_circle_outline, draw_moon, pet_walk, shade_cell, sun_time, time_of_day,
    wmo_description, MOON_DARK, MOON_LIT, TODAY_SHADE,
};

#[test]
fn weather_descriptions() {
    let cases: &[(i64, &str)] = &[
        (0, "Clear"), (1, "Mostly clear"), (2, "Partly cloudy"), (3, "Overcast"), (45, "Fog"),
        (48, "Fog"), (51, "Drizzle"), (55, "Drizzle"), (56, "Freezing drizzle"), (57, "Freezing drizzle"),
        (61, "Light rain"), (63, "Rain"), (65, "Heavy rain"), (66, "Freezing rain"), (67, "Freezing rain"),
        (71, "Light snow"), (73, "Snow"), (75, "Heavy snow"), (77, "Snow grains"), (80, "Showers"),
        (82, "Showers"), (85, "Snow showers"), (86, "Snow showers"), (95, "Thunderstorm"),
        (96, "T-storm + hail"), (99, "T-storm + hail"), (4, "Unknown"), (62, "Unknown"), (-1, "Unknown"),
    ];
    for &(code, text) in cases {
        assert_eq!(wmo_description(code), text, "code {}", code);
    }
}

#[test]
fn month_lengths() {
    assert_eq!(days_in_month(2024, 2), 29);
    assert_eq!(days_in_month(2023, 2), 28);
    assert_eq!(days_in_month(1900, 2), 28);
    assert_eq!(days_in_month(2000, 2), 29);
    assert_eq!(days_in_month(2025, 4), 30);
    assert_eq!(days_in_month(2025, 12), 31);
    assert_eq!(days_in_month(2025, 1), 31);
    assert_eq!(days_in_month(2025, 0), 31);
}

#[test]
fn first_weekdays() {
    assert_eq!(first_weekday(2024, 1), 1);
    assert_eq!(first_weekday(2025, 6), 0);
    assert_eq!(first_weekday(2025, 11), 6);
    assert_eq!(first_weekday(1, 1), 1);
}

#[test]
fn pet_walk_bounces() {
    assert_eq!(pet_walk(0, 0), (20, false));
    assert_eq!(pet_walk(0, 1), (21, false));
    assert_eq!(pet_walk(3, 31), (231, false));
    assert_eq!(pet_walk(3, 32), (232, true));
    assert_eq!(pet_walk(7, 3), (21, true));
    assert_eq!(pet_walk(7, 4), (20, false));
    for t in 0..(24 * 60) {
        let (x, _) = pet_walk(t / 60, t % 60);
        assert!((20..=232).contains(&x));
    }
}

#[test]
fn calendar_for_june_2025() {
    let l = calendar_layout(0, 30, 15);
    assert_eq!(l.rows, 5);
    assert_eq!(l.cell_h, 77);
    assert_eq!((l.today_w, l.today_h), (69, 75));
    assert_eq!(l.cells.len(), 30);
    let c = &l.cells[0];
    assert_eq!((c.day, c.x, c.y, c.is_today, c.moon_x, c.moon_y), (1, 282, 76, false, 342, 87));
    let t = &l.cells[14];
    assert_eq!((t.day, t.x, t.y, t.is_today), (15, 282, 76 + 2 * 77, true));
    let last = &l.cells[29];
    assert_eq!((last.x, last.y), (282 + 71, 76 + 4 * 77));
    assert_eq!(l.row_lines, vec![76, 153, 230, 307, 384, 461]);
    assert_eq!(l.column_lines, vec![282, 353, 424, 495, 566, 637, 708, 779]);
    assert_eq!(l.grid_bottom, 461);
}

#[test]
fn calendar_six_rows() {
    let l = calendar_layout(6, 31, 0);
    assert_eq!(l.rows, 6);
    assert_eq!(l.cell_h, 64);
    assert_eq!(l.cells[30].y, 76 + 5 * 64);
    assert!(l.cells.iter().all(|c| !c.is_today));
}

#[test]
fn moon_glyph() {
    let mut c = GrayCanvas::from_pixel(800, 480, 255);
    let lit: Vec<bool> = (-2..=2).map(|dx| dx > 0).collect();
    draw_moon(&mut c, 10, 10, 2, &lit);
    let p = c.into_raw();
    let at = |x: usize, y: usize| p[y * 800 + x];
    assert_eq!(at(10, 10), MOON_DARK);
    assert_eq!(at(12, 10), MOON_LIT);
    assert_eq!(at(11, 11), MOON_LIT);
    assert_eq!(at(8, 10), MOON_DARK);
    assert_eq!(at(12, 12), 255);
    assert_eq!(at(10, 13), 255);
    assert_eq!(p.iter().filter(|&&v| v != 255).count(), 13);
}

#[test]
fn moon_clipped_and_empty() {
    let mut c = GrayCanvas::from_pixel(800, 480, 255);
    draw_moon(&mut c, 0, 479, 1, &vec![true, true, true]);
    draw_moon(&mut c, 5, 5, 0, &Vec::new());
    let p = c.into_raw();
    assert_eq!(p.iter().filter(|&&v| v != 255).count(), 3);
    assert_eq!(p[479 * 800], MOON_LIT);
}

#[test]
fn sunrise_times() {
    assert_eq!(time_of_day("2025-01-31T07:42"), "07:42");
    assert_eq!(time_of_day("07:42"), "07:42");
    assert_eq!(time_of_day("aTbTc"), "b");
    assert_eq!(time_of_day("T"), "");
    assert_eq!(sun_time(Some(vec!["2025-06-01T05:01".to_string(), "x".to_string()])), "05:01");
    assert_eq!(sun_time(Some(vec![])), "--:--");
    assert_eq!(sun_time(None), "--:--");
}

#[test]
fn month_names() {
    assert_eq!(month_name(2025, 1), "January");
    assert_eq!(month_name(2025, 6), "June");
    assert_eq!(month_name(2024, 9), "September");
    assert_eq!(month_name(2024, 12), "December");
}

#[test]
fn date_lines() {
    assert_eq!(date_line(2024, 3, 5), "Tue, Mar 5");
    assert_eq!(date_line(2025, 6, 15), "Sun, Jun 15");
    assert_eq!(date_line(2000, 2, 29), "Tue, Feb 29");
    assert_eq!(date_line(2025, 12, 31), "Wed, Dec 31");
}

#[test]
fn clock_lines() {
    assert_eq!(clock_line(7, 5), "07:05");
    assert_eq!(clock_line(0, 0), "00:00");
    assert_eq!(clock_line(23, 59), "23:59");
    assert_eq!(clock_line(12, 30), "12:30");
}

#[test]
fn today_cell_is_shaded() {
    let l = calendar_layout(0, 30, 15);
    let t = &l.cells[14];
    let mut img = GrayCanvas::from_pixel(800, 480, 255);
    shade_cell(&mut img, t, &l);
    let p = img.into_raw();
    let at = |x: i32, y: i32| p[(y * 800 + x) as usize];
    assert_eq!(at(t.x + 1, t.y + 1), TODAY_SHADE);
    assert_eq!(at(t.x + 69, t.y + 75), TODAY_SHADE);
    assert_eq!(at(t.x, t.y), 255);
    assert_eq!(at(t.x + 70, t.y + 1), 255);
    assert_eq!(at(t.x + 1, t.y + 76), 255);
    assert_eq!(p.iter().filter(|&&v| v == TODAY_SHADE).count(), 69 * 75);
}

#[test]
fn shading_is_clipped_to_the_image() {
    let l = calendar_layout(0, 30, 15);
    let t = &l.cells[14];
    let mut img = GrayCanvas::from_pixel(300, 240, 255);
    shade_cell(&mut img, t, &l);
    let p = img.into_raw();
    assert_eq!(p.iter().filter(|&&v| v == TODAY_SHADE).count(), (300 - 283) * (240 - 231));
}

#[test]
fn circle_outline_points() {
    let mut img = GrayCanvas::from_pixel(800, 480, 255);
    draw_circle_outline(&mut img, 10, 10, 3, 0);
    let p = img.into_raw();
    let at = |x: usize, y: usize| p[y * 800 + x];
    for (x, y) in [(13, 10), (7, 10), (10, 13), (10, 7), (13, 11), (12, 12), (11, 13)] {
        assert_eq!(at(x, y), 0, "({x}, {y})");
    }
    assert_eq!(at(10, 10), 255);
    assert_eq!(at(13, 13), 255);
}

#[test]
fn circle_outline_clipped_and_empty() {
    let mut img = GrayCanvas::from_pixel(800, 480, 255);
    draw_circle_outline(&mut img, 0, 0, 2, 7);
    let p = img.into_raw();
    assert_eq!(p[2], 7);
    assert_eq!(p[2 * 800], 7);
    assert_eq!(p[800 + 2], 7);
    let mut none = GrayCanvas::from_pixel(800, 480, 255);
    draw_circle_outline(&mut none, 100, 100, -1, 0);
    assert!(none.into_raw().iter().all(|&v| v == 255));
}

#[test]
fn low_rows_leave_no_shading() {
    let l = calendar_layout(0, 1400, 1);
    assert_eq!(l.rows, 200);
    assert_eq!(l.cell_h, 1);
    assert_eq!(l.today_h, u32::MAX);
    let mut img = GrayCanvas::from_pixel(800, 480, 255);
    shade_cell(&mut img, &l.cells[0], &l);
    assert!(img.into_raw().iter().all(|&v| v == 255));
    let flat = calendar_layout(0, 1352, 1);
    assert_eq!((flat.rows, flat.cell_h, flat.today_h), (194, 2, 0));
}
