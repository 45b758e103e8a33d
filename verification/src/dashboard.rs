//! The dashboard's own computations: weather descriptions, the pet's walk,
//! the calendar layout, the moon glyph and the sunrise/sunset times.
use vstd::prelude::*;
use vstd::string::StrSliceExecFns;
use crate::canvas::{GrayCanvas, filled_rect, image_fill_rect, wrapping_i32, canvas_dims, canvas_pixels, canvas_width, canvas_height, lemma_coords, lemma_index_of_coords};

verus! {

/// The description of a WMO weather code.
pub open spec fn wmo_text(code: i64) -> Seq<char> {
    if code == 0 {
        "Clear"@
    } else if code == 1 {
        "Mostly clear"@
    } else if code == 2 {
        "Partly cloudy"@
    } else if code == 3 {
        "Overcast"@
    } else if code == 45 || code == 48 {
        "Fog"@
    } else if 51 <= code <= 55 {
        "Drizzle"@
    } else if code == 56 || code == 57 {
        "Freezing drizzle"@
    } else if code == 61 {
        "Light rain"@
    } else if code == 63 {
        "Rain"@
    } else if code == 65 {
        "Heavy rain"@
    } else if code == 66 || code == 67 {
        "Freezing rain"@
    } else if code == 71 {
        "Light snow"@
    } else if code == 73 {
        "Snow"@
    } else if code == 75 {
        "Heavy snow"@
    } else if code == 77 {
        "Snow grains"@
    } else if 80 <= code <= 82 {
        "Showers"@
    } else if code == 85 || code == 86 {
        "Snow showers"@
    } else if code == 95 {
        "Thunderstorm"@
    } else if code == 96 || code == 99 {
        "T-storm + hail"@
    } else {
        "Unknown"@
    }
}

/// The weather codes are described by group: 0 clear, 1 mostly clear, 2
/// partly cloudy, 3 overcast, 45 and 48 fog, 51 to 55 drizzle, 56 and 57
/// freezing drizzle, 61, 63 and 65 light, plain and heavy rain, 66 and 67
/// freezing rain, 71, 73 and 75 light, plain and heavy snow, 77 snow grains,
/// 80 to 82 showers, 85 and 86 snow showers, 95 thunderstorm, 96 and 99
/// thunderstorm with hail; every other code is "Unknown".
pub proof fn law_wmo_descriptions(code: i64)
    ensures
        code == 0 ==> wmo_text(code) == "Clear"@,
        code == 1 ==> wmo_text(code) == "Mostly clear"@,
        code == 2 ==> wmo_text(code) == "Partly cloudy"@,
        code == 3 ==> wmo_text(code) == "Overcast"@,
        code == 45 || code == 48 ==> wmo_text(code) == "Fog"@,
        51 <= code <= 55 ==> wmo_text(code) == "Drizzle"@,
        code == 56 || code == 57 ==> wmo_text(code) == "Freezing drizzle"@,
        code == 61 ==> wmo_text(code) == "Light rain"@,
        code == 63 ==> wmo_text(code) == "Rain"@,
        code == 65 ==> wmo_text(code) == "Heavy rain"@,
        code == 66 || code == 67 ==> wmo_text(code) == "Freezing rain"@,
        code == 71 ==> wmo_text(code) == "Light snow"@,
        code == 73 ==> wmo_text(code) == "Snow"@,
        code == 75 ==> wmo_text(code) == "Heavy snow"@,
        code == 77 ==> wmo_text(code) == "Snow grains"@,
        80 <= code <= 82 ==> wmo_text(code) == "Showers"@,
        code == 85 || code == 86 ==> wmo_text(code) == "Snow showers"@,
        code == 95 ==> wmo_text(code) == "Thunderstorm"@,
        code == 96 || code == 99 ==> wmo_text(code) == "T-storm + hail"@,
        !(0 <= code <= 3 || code == 45 || code == 48 || 51 <= code <= 57 || code == 61 || code == 63
            || 65 <= code <= 67 || code == 71 || code == 73 || code == 75 || code == 77 || 80 <= code
            <= 82 || code == 85 || code == 86 || code == 95 || code == 96 || code == 99) ==> wmo_text(
            code,
        ) == "Unknown"@,
{
}

/// Describes a WMO weather code in a few words; unknown codes are "Unknown".
pub fn wmo_description(code: i64) -> (s: &'static str)
    ensures
        s@ == wmo_text(code),
{
    match code {
        0 => "Clear",
        1 => "Mostly clear",
        2 => "Partly cloudy",
        3 => "Overcast",
        45 | 48 => "Fog",
        51..=55 => "Drizzle",
        56 | 57 => "Freezing drizzle",
        61 => "Light rain",
        63 => "Rain",
        65 => "Heavy rain",
        66 | 67 => "Freezing rain",
        71 => "Light snow",
        73 => "Snow",
        75 => "Heavy snow",
        77 => "Snow grains",
        80..=82 => "Showers",
        85 | 86 => "Snow showers",
        95 => "Thunderstorm",
        96 | 99 => "T-storm + hail",
        _ => "Unknown",
    }
}

/// Width of the dashboard image.
pub const DASH_W: i32 = 800;

/// Height of the dashboard image.
pub const DASH_H: i32 = 480;

/// Width of the left panel (weather, time, pet).
pub const LEFT_W: i32 = 270;

/// Margin around the panels.
pub const MARGIN: i32 = 16;

/// Left edge of the calendar.
pub const CAL_X: i32 = 282;

/// Width of one calendar column: the calendar's width (`DASH_W - CAL_X - MARGIN`) over seven.
pub const CELL_W: i32 = 71;

/// Top of the calendar grid: the month title and the weekday labels are above it.
pub const GRID_TOP: i32 = 76;

/// Height that the calendar grid may take (`DASH_H - GRID_TOP - MARGIN`).
pub const GRID_AVAILABLE_H: i32 = 388;

/// Scale of the pet on the dashboard.
pub const PET_SCALE: i32 = 2;

/// Leftmost position of the walking pet.
pub const WALK_MIN: i32 = 20;

/// Rightmost position of the walking pet: the pet (15 cells at scale 2)
/// stops 8 pixels before the panel divider.
pub const WALK_MAX: i32 = 232;

/// Vertical position of the pet.
pub const PET_Y: i32 = 416;

/// Radius of the moon glyph in a calendar cell.
pub const MOON_R: i32 = 7;

/// The remainder of a division that rounds toward zero, as Rust's `%` does.
pub open spec fn trunc_rem(a: int, b: int) -> int {
    if a >= 0 {
        a % b
    } else {
        -((-a) % b)
    }
}

/// The quotient of a division that rounds toward zero, as Rust's `/` does.
pub open spec fn trunc_div(a: int, b: int) -> int {
    if a >= 0 {
        a / b
    } else {
        -((-a) / b)
    }
}

/// The pet's clock: minutes since midnight, as an `i32`.
pub open spec fn walk_tick(hour: u32, minute: u32) -> i32 {
    (hour * 60 + minute) as i32
}

/// Where the pet stands at a tick, and whether it walks left: it walks one
/// pixel a minute from `WALK_MIN` right to `WALK_MAX`, then back.
pub open spec fn walk_position(tick: int) -> (int, bool) {
    let range = WALK_MAX - WALK_MIN;
    let cycle = 2 * range;
    let pos = trunc_rem(tick, cycle);
    if pos < range {
        (WALK_MIN + pos, false)
    } else {
        (WALK_MIN + cycle - pos, true)
    }
}

/// The pet's position (its left edge) and whether it faces left, at
/// `hour:minute`.
pub fn pet_walk(hour: u32, minute: u32) -> (r: (i32, bool))
    requires
        hour * 60 + minute <= u32::MAX,
    ensures
        r.0 == walk_position(walk_tick(hour, minute) as int).0,
        r.1 == walk_position(walk_tick(hour, minute) as int).1,
{
    let pet_w = 15 * PET_SCALE;
    let walk_min = MARGIN + 4;
    let walk_max = LEFT_W - pet_w - 8;
    let walk_range = walk_max - walk_min;
    let tick = (hour * 60 + minute) as i32;
    let cycle = 2 * walk_range;
    let pos_in_cycle = tick % cycle;
    if pos_in_cycle < walk_range {
        (walk_min + pos_in_cycle, false)
    } else {
        (walk_min + cycle - pos_in_cycle, true)
    }
}

/// At any time of a day (any tick from zero up), the pet stays within the
/// left panel, between `WALK_MIN` and `WALK_MAX`.
pub proof fn law_pet_stays_in_panel(tick: int)
    requires
        tick >= 0,
    ensures
        WALK_MIN <= walk_position(tick).0 <= WALK_MAX,
        walk_position(tick).0 + 15 * PET_SCALE + 8 <= LEFT_W,
{
}

/// The pet's walk: it starts at the left end (x = 20) facing right, its
/// position repeats every 424 minutes, it faces right exactly while the next
/// minute takes it one pixel to the right, and it turns only at the ends,
/// x = 20 and x = 232.
pub proof fn law_pet_walk_direction(tick: int)
    requires
        tick >= 0,
    ensures
        walk_position(0) == (20int, false),
        walk_position(tick + 424) == walk_position(tick),
        !walk_position(tick).1 <==> walk_position(tick + 1).0 == walk_position(tick).0 + 1,
        walk_position(tick + 1).1 != walk_position(tick).1 ==> walk_position(tick + 1).0 == 20
            || walk_position(tick + 1).0 == 232,
{
    let c = 424int;
    vstd::arithmetic::div_mod::lemma_fundamental_div_mod(tick, c);
    vstd::arithmetic::div_mod::lemma_fundamental_div_mod(tick + 1, c);
    vstd::arithmetic::div_mod::lemma_fundamental_div_mod(tick + c, c);
    law_pet_walks_one_pixel(tick);
}

/// The pet moves one pixel a minute: from one tick to the next its position
/// changes by exactly one.
pub proof fn law_pet_walks_one_pixel(tick: int)
    requires
        tick >= 0,
    ensures
        walk_position(tick + 1).0 - walk_position(tick).0 == 1 || walk_position(tick).0
            - walk_position(tick + 1).0 == 1,
{
    let c = 2 * (WALK_MAX - WALK_MIN);
    vstd::arithmetic::div_mod::lemma_fundamental_div_mod(tick, c);
    vstd::arithmetic::div_mod::lemma_fundamental_div_mod(tick + 1, c);
    vstd::arithmetic::div_mod::lemma_mod_bound(tick, c);
    vstd::arithmetic::div_mod::lemma_mod_bound(tick + 1, c);
    if tick % c == c - 1 {
        assert((tick / c + 1) * c == c * (tick / c) + c) by (nonlinear_arith);
        vstd::arithmetic::div_mod::lemma_fundamental_div_mod_converse(tick + 1, c, tick / c + 1, 0);
    } else {
        assert((tick / c) * c == c * (tick / c)) by (nonlinear_arith);
        vstd::arithmetic::div_mod::lemma_fundamental_div_mod_converse(
            tick + 1,
            c,
            tick / c,
            tick % c + 1,
        );
    }
}

/// One day of the month view.
pub struct DayCell {
    /// Day of the month, from 1.
    pub day: u32,
    /// Left edge of the day's cell.
    pub x: i32,
    /// Top edge of the day's cell.
    pub y: i32,
    /// Whether the day is today, whose cell is shaded.
    pub is_today: bool,
    /// Center of the moon glyph in the top-right corner of the cell.
    pub moon_x: i32,
    pub moon_y: i32,
}

/// Where the month view's parts go.
pub struct CalendarLayout {
    /// Number of week rows.
    pub rows: i32,
    /// Height of a week row.
    pub cell_h: i32,
    /// Size of the shading of today's cell, one pixel inside the cell.
    pub today_w: u32,
    pub today_h: u32,
    /// The days, first to last.
    pub cells: Vec<DayCell>,
    /// Heights of the horizontal grid lines, top to bottom.
    pub row_lines: Vec<i32>,
    /// Positions of the vertical grid lines, left to right.
    pub column_lines: Vec<i32>,
    /// Bottom of the grid, where the vertical lines end.
    pub grid_bottom: i32,
}

/// The number of week rows of a month that starts on weekday `first_weekday`
/// (Sunday 0) and has `days` days.
pub open spec fn week_rows(first_weekday: int, days: int) -> int {
    (first_weekday + days + 6) / 7
}

/// The height of a week row.
pub open spec fn row_height(rows: int) -> int {
    GRID_AVAILABLE_H as int / rows
}

/// The slot of a day in the grid, counted from the top-left cell.
pub open spec fn day_slot(first_weekday: int, day: int) -> int {
    first_weekday + day - 1
}

/// A slot as an `i32`: slots past `i32::MAX` wrap around to negative values.
pub open spec fn slot_i32(slot: int) -> int {
    if slot <= i32::MAX {
        slot
    } else {
        slot - 0x1_0000_0000
    }
}

/// The cell of a day: its column is the slot's weekday, its row the slot's
/// week, the slot taken as an `i32`.
pub open spec fn day_cell_spec(first_weekday: int, days: int, today: int, day: int) -> (int, int, bool, int, int) {
    let slot = slot_i32(day_slot(first_weekday, day));
    let x = CAL_X + trunc_rem(slot, 7) * CELL_W;
    let y = GRID_TOP + trunc_div(slot, 7) * row_height(week_rows(first_weekday, days));
    (x, y, day == today, x + CELL_W - MOON_R - 4, y + MOON_R + 4)
}

/// Whether a layout's cell is that of `day`.
pub open spec fn cell_is(c: DayCell, first_weekday: int, days: int, today: int, day: int) -> bool {
    let s = day_cell_spec(first_weekday, days, today, day);
    c.day == day && c.x == s.0 && c.y == s.1 && c.is_today == s.2 && c.moon_x == s.3 && c.moon_y
        == s.4
}

/// The gray that today's cell is shaded with.
pub const TODAY_SHADE: u8 = 210;

/// Shades a day's cell: `today_w` by `today_h` pixels, one pixel in from the
/// cell's top-left corner. A size past `i32::MAX` (what a row height below
/// two leaves of `today_h`) shades nothing.
pub fn shade_cell(img: &mut GrayCanvas, cell: &DayCell, layout: &CalendarLayout)
    requires
        1 <= layout.today_w,
        1 <= layout.today_h,
        cell.x + 1 <= i32::MAX,
        cell.y + 1 <= i32::MAX,
        i32::MIN + 1 <= cell.x + 1 + wrapping_i32(layout.today_w) <= i32::MAX,
        i32::MIN + 1 <= cell.y + 1 + wrapping_i32(layout.today_h) <= i32::MAX,
        1 <= canvas_width(*old(img)) <= i32::MAX,
        1 <= canvas_height(*old(img)) <= i32::MAX,
    ensures
        canvas_dims(*final(img)) == canvas_dims(*old(img)),
        canvas_pixels(*final(img)) == (if layout.today_w <= i32::MAX && layout.today_h <= i32::MAX {
            filled_rect(
                canvas_pixels(*old(img)),
                canvas_width(*old(img)),
                cell.x + 1,
                cell.y + 1,
                layout.today_w as int,
                layout.today_h as int,
                TODAY_SHADE,
            )
        } else {
            canvas_pixels(*old(img))
        }),
{
    image_fill_rect(img, cell.x + 1, cell.y + 1, layout.today_w, layout.today_h, TODAY_SHADE)
}

/// Lays out the month view for a month that starts on weekday
/// `first_weekday` (Sunday 0) and has `days_in_month` days, shading
/// `today_day`.
pub fn calendar_layout(first_weekday: u32, days_in_month: u32, today_day: u32) -> (l: CalendarLayout)
    requires
        1 <= first_weekday + days_in_month,
        first_weekday + days_in_month + 6 <= u32::MAX,
    ensures
        l.rows == week_rows(first_weekday as int, days_in_month as int),
        l.cell_h == row_height(l.rows as int),
        l.today_w == (CELL_W - 2) as u32,
        l.today_h == (if l.cell_h >= 2 { l.cell_h - 2 } else { l.cell_h - 2 + 0x1_0000_0000 }),
        l.cells@.len() == days_in_month,
        forall|i: int|
            0 <= i < days_in_month ==> cell_is(
                #[trigger] l.cells@[i],
                first_weekday as int,
                days_in_month as int,
                today_day as int,
                i + 1,
            ),
        l.row_lines@ == Seq::new((l.rows + 1) as nat, |r: int| (GRID_TOP + r * l.cell_h) as i32),
        l.column_lines@ == Seq::new(8, |c: int| (CAL_X + c * CELL_W) as i32),
        l.grid_bottom == GRID_TOP + l.rows * l.cell_h,
{
    let total_slots = first_weekday + days_in_month;
    let rows = ((total_slots + 6) / 7) as i32;
    let cell_h = GRID_AVAILABLE_H / rows;
    assert(0 < rows <= 613566756 && 0 <= cell_h <= 388);
    assert(rows * cell_h <= 388) by (nonlinear_arith)
        requires rows > 0, cell_h == 388int / (rows as int);
    let mut cells: Vec<DayCell> = Vec::new();
    let mut day: u32 = 1;
    while day <= days_in_month
        invariant
            1 <= day <= days_in_month + 1,
            first_weekday + days_in_month + 6 <= u32::MAX,
            rows == week_rows(first_weekday as int, days_in_month as int),
            cell_h == row_height(rows as int),
            rows > 0,
            rows * cell_h <= 388,
            0 <= cell_h,
            cells@.len() == day - 1,
            forall|i: int|
                0 <= i < day - 1 ==> cell_is(
                    #[trigger] cells@[i],
                    first_weekday as int,
                    days_in_month as int,
                    today_day as int,
                    i + 1,
                ),
        decreases days_in_month + 1 - day,
    {
        let slot_u: u32 = first_weekday + day - 1;
        let (col, row): (i32, i32) = if slot_u <= 0x7fff_ffff {
            ((slot_u % 7) as i32, (slot_u / 7) as i32)
        } else {
            let neg: u32 = (0xffff_ffffu32 - slot_u) + 1;
            (-((neg % 7) as i32), -((neg / 7) as i32))
        };
        assert(col == trunc_rem(slot_i32(slot_u as int), 7));
        assert(row == trunc_div(slot_i32(slot_u as int), 7));
        if slot_u > 0x7fff_ffff {
            assert(rows > 388);
            proof {
                vstd::arithmetic::div_mod::lemma_basic_div(388, rows as int);
            }
            assert(cell_h == 0);
        } else {
            assert(row < rows);
        }
        assert(-388 <= row * cell_h <= 388) by (nonlinear_arith)
            requires
                row < rows,
                0 <= cell_h,
                rows * cell_h <= 388,
                row < 0 ==> cell_h == 0,
                row >= -0x2000_0000;
        let cx = CAL_X + col * CELL_W;
        let cy = GRID_TOP + row * cell_h;
        cells.push(DayCell {
            day,
            x: cx,
            y: cy,
            is_today: day == today_day,
            moon_x: cx + CELL_W - MOON_R - 4,
            moon_y: cy + MOON_R + 4,
        });
        day = day + 1;
    }
    let mut row_lines: Vec<i32> = Vec::new();
    let mut r: i32 = 0;
    while r <= rows
        invariant
            0 <= r <= rows + 1,
            rows > 0,
            rows <= 613566756,
            rows * cell_h <= 388,
            0 <= cell_h,
            row_lines@ == Seq::new(r as nat, |k: int| (GRID_TOP + k * cell_h) as i32),
        decreases rows + 1 - r,
    {
        assert(0 <= r * cell_h <= 388) by (nonlinear_arith)
            requires 0 <= r <= rows, 0 <= cell_h, rows * cell_h <= 388;
        row_lines.push(GRID_TOP + r * cell_h);
        assert(row_lines@ =~= Seq::new((r + 1) as nat, |k: int| (GRID_TOP + k * cell_h) as i32));
        r = r + 1;
    }
    let mut column_lines: Vec<i32> = Vec::new();
    let mut c: i32 = 0;
    while c <= 7
        invariant
            0 <= c <= 8,
            column_lines@ == Seq::new(c as nat, |k: int| (CAL_X + k * CELL_W) as i32),
        decreases 8 - c,
    {
        column_lines.push(CAL_X + c * CELL_W);
        assert(column_lines@ =~= Seq::new((c + 1) as nat, |k: int| (CAL_X + k * CELL_W) as i32));
        c = c + 1;
    }
    let hm2: i32 = cell_h - 2;
    let today_h = #[verifier::truncate] (hm2 as u32);
    assert(hm2 >= 0 ==> today_h == hm2) by (bit_vector)
        requires today_h == hm2 as u32;
    assert(hm2 < 0 ==> today_h == hm2 + 0x1_0000_0000) by (bit_vector)
        requires today_h == hm2 as u32;
    CalendarLayout {
        rows,
        cell_h,
        today_w: (CELL_W - 2) as u32,
        today_h,
        cells,
        row_lines,
        column_lines,
        grid_bottom: GRID_TOP + rows * cell_h,
    }
}

/// For any real month (starting on a weekday, 1 to 31 days long), the grid
/// has at most six week rows, each at least 64 pixels high, fits above the
/// bottom margin, and every day's cell lies inside the grid: in one of the
/// seven columns, left of the right margin, and in one of the rows.
pub proof fn law_calendar_fits(first_weekday: int, days: int, day: int)
    requires
        0 <= first_weekday < 7,
        1 <= days <= 31,
        1 <= day <= days,
    ensures
        1 <= week_rows(first_weekday, days) <= 6,
        row_height(week_rows(first_weekday, days)) >= 64,
        GRID_TOP + week_rows(first_weekday, days) * row_height(week_rows(first_weekday, days))
            <= DASH_H - MARGIN,
        0 <= day_slot(first_weekday, day) % 7 < 7,
        0 <= day_slot(first_weekday, day) / 7 < week_rows(first_weekday, days),
        CAL_X <= day_cell_spec(first_weekday, days, 0, day).0,
        day_cell_spec(first_weekday, days, 0, day).0 + CELL_W <= DASH_W - MARGIN,
        GRID_TOP <= day_cell_spec(first_weekday, days, 0, day).1,
        day_cell_spec(first_weekday, days, 0, day).1 + row_height(week_rows(first_weekday, days))
            <= GRID_TOP + week_rows(first_weekday, days) * row_height(week_rows(first_weekday, days)),
{
    let rows = week_rows(first_weekday, days);
    let h = row_height(rows);
    let row = day_slot(first_weekday, day) / 7;
    assert(rows * h <= 388 && h * rows > 388 - rows) by (nonlinear_arith)
        requires 1 <= rows <= 6, h == 388int / rows;
    assert(h >= 64) by (nonlinear_arith)
        requires 1 <= rows <= 6, h == 388int / rows;
    assert((row + 1) * h <= rows * h) by (nonlinear_arith)
        requires 0 <= row < rows, h >= 0;
    assert(0 <= row * h) by (nonlinear_arith)
        requires 0 <= row, h >= 0;
    assert((row + 1) * h == row * h + h) by (nonlinear_arith);
}

/// For every real month (starting on weekday `first_weekday`, Sunday 0, and
/// `days` long), the month has `(first_weekday + days + 6) / 7` week rows of
/// `388 / rows` pixels, and day `d` sits in the column of its weekday,
/// `(first_weekday + d - 1) % 7` (day 1 in column `first_weekday`), and in
/// week row `(first_weekday + d - 1) / 7`; it is shaded exactly when it is
/// today, and its moon sits in the cell's top-right corner.
pub proof fn law_day_cells(first_weekday: int, days: int, today: int, d: int)
    requires
        0 <= first_weekday < 7,
        1 <= days <= 31,
        1 <= d <= days,
    ensures
        week_rows(first_weekday, days) == (first_weekday + days + 6) / 7,
        row_height(week_rows(first_weekday, days)) == 388int / ((first_weekday + days + 6) / 7),
        day_cell_spec(first_weekday, days, today, d).0 == 282 + ((first_weekday + d - 1) % 7) * 71,
        day_cell_spec(first_weekday, days, today, d).1 == 76 + ((first_weekday + d - 1) / 7) * (388int / ((
            first_weekday + days + 6) / 7)),
        day_cell_spec(first_weekday, days, today, d).2 == (d == today),
        day_cell_spec(first_weekday, days, today, d).3 == day_cell_spec(first_weekday, days, today, d).0
            + 71 - 7 - 4,
        day_cell_spec(first_weekday, days, today, d).4 == day_cell_spec(first_weekday, days, today, d).1
            + 7 + 4,
        d == 1 ==> day_cell_spec(first_weekday, days, today, d).0 == 282 + first_weekday * 71,
{
}

/// Different days of a month have different cells.
pub proof fn law_days_have_distinct_cells(first_weekday: int, days: int, d1: int, d2: int)
    requires
        0 <= first_weekday < 7,
        days <= 31,
        1 <= d1 <= days,
        1 <= d2 <= days,
        d1 != d2,
    ensures
        day_cell_spec(first_weekday, days, 0, d1).0 != day_cell_spec(first_weekday, days, 0, d2).0
            || day_cell_spec(first_weekday, days, 0, d1).1 != day_cell_spec(
            first_weekday,
            days,
            0,
            d2,
        ).1,
{
    let rows = week_rows(first_weekday, days);
    let h = row_height(rows);
    let s1 = day_slot(first_weekday, d1);
    let s2 = day_slot(first_weekday, d2);
    vstd::arithmetic::div_mod::lemma_fundamental_div_mod(s1, 7);
    vstd::arithmetic::div_mod::lemma_fundamental_div_mod(s2, 7);
    if s1 % 7 == s2 % 7 {
        assert(s1 / 7 != s2 / 7);
        assert(1 <= rows <= 6);
        assert(h >= 1) by (nonlinear_arith)
            requires h == 388int / rows, 1 <= rows <= 6;
        assert((s1 / 7) * h != (s2 / 7) * h) by (nonlinear_arith)
            requires s1 / 7 != s2 / 7, h >= 1;
    }
}

/// Gray value of the lit part of the moon.
pub const MOON_LIT: u8 = 0;

/// Gray value of the dark part of the moon.
pub const MOON_DARK: u8 = 200;

/// Whether pixel `(x, y)` of a `w`-wide image belongs to the moon disc of
/// radius `r` around `(cx, cy)`, lies on the dashboard, and comes before row
/// offset `ddy`, column offset `ddx` in the drawing order.
pub open spec fn moon_covers(x: int, y: int, cx: int, cy: int, r: int, ddy: int, ddx: int) -> bool {
    let dx = x - cx;
    let dy = y - cy;
    &&& r > 0
    &&& -r <= dx <= r
    &&& -r <= dy <= r
    &&& dx * dx + dy * dy <= r * r
    &&& 0 <= x < DASH_W
    &&& 0 <= y < DASH_H
    &&& (dy < ddy || (dy == ddy && dx < ddx))
}

/// The pixels after drawing the part of the moon before `(ddx, ddy)`: a
/// pixel of the disc is `MOON_LIT` where `lit` says its column is lit and
/// `MOON_DARK` elsewhere.
pub open spec fn moon_upto(
    p: Seq<u8>,
    w: int,
    cx: int,
    cy: int,
    r: int,
    lit: Seq<bool>,
    ddy: int,
    ddx: int,
) -> Seq<u8> {
    Seq::new(
        p.len(),
        |i: int|
            if moon_covers(i % w, i / w, cx, cy, r, ddy, ddx) {
                if lit[i % w - cx + r] {
                    MOON_LIT
                } else {
                    MOON_DARK
                }
            } else {
                p[i]
            },
    )
}

/// The pixels after drawing the moon disc of radius `r` around `(cx, cy)`,
/// clipped to the dashboard; `lit[dx + r]` tells whether column offset `dx`
/// is lit.
pub open spec fn moon_picture(p: Seq<u8>, w: int, cx: int, cy: int, r: int, lit: Seq<bool>) -> Seq<u8> {
    moon_upto(p, w, cx, cy, r, lit, r + 1, -r)
}

/// The arguments for which drawing the moon computes no value beyond `i32`
/// and paints no pixel off the image.
pub open spec fn moon_fits(c: GrayCanvas, cx: int, cy: int, r: int, lit_len: int) -> bool {
    r <= 0 || (r <= 32767 && lit_len == 2 * r + 1 && i32::MIN <= cx - r && cx + r <= i32::MAX
        && i32::MIN <= cy - r && cy + r <= i32::MAX && canvas_width(c) >= DASH_W && canvas_height(c)
        >= DASH_H)
}

/// Draws the moon glyph: the disc of radius `r` around `(cx, cy)`, clipped
/// to the dashboard, each pixel lit or dark by its column (`lit[dx + r]` for
/// column offset `dx`); the lit part shows the moon's phase.
pub fn draw_moon(img: &mut GrayCanvas, cx: i32, cy: i32, r: i32, lit: &Vec<bool>)
    requires
        moon_fits(*old(img), cx as int, cy as int, r as int, lit@.len() as int),
    ensures
        canvas_dims(*final(img)) == canvas_dims(*old(img)),
        canvas_pixels(*final(img)) == moon_picture(
            canvas_pixels(*old(img)),
            canvas_width(*old(img)),
            cx as int,
            cy as int,
            r as int,
            lit@,
        ),
{
    let ghost start = canvas_pixels(*img);
    let ghost w = canvas_width(*img);
    if r <= 0 {
        assert(moon_picture(start, w, cx as int, cy as int, r as int, lit@) =~= start);
        return;
    }
    let (iw, ih) = img.dimensions();
    let mut dy: i32 = -r;
    assert(moon_upto(start, w, cx as int, cy as int, r as int, lit@, -r as int, -r as int) =~= start);
    while dy <= r
        invariant
            -r <= dy <= r + 1,
            0 < r <= 32767,
            moon_fits(*img, cx as int, cy as int, r as int, lit@.len() as int),
            canvas_dims(*img) == (iw, ih),
            w == iw,
            start.len() == iw * ih,
            canvas_pixels(*img) == moon_upto(start, w, cx as int, cy as int, r as int, lit@, dy as int, -r as int),
        decreases r + 1 - dy,
    {
        let ghost row_start = canvas_pixels(*img);
        let mut dx: i32 = -r;
        while dx <= r
            invariant
                -r <= dx <= r + 1,
                -r <= dy <= r,
                0 < r <= 32767,
                moon_fits(*img, cx as int, cy as int, r as int, lit@.len() as int),
                canvas_dims(*img) == (iw, ih),
                w == iw,
                start.len() == iw * ih,
                canvas_pixels(*img) == moon_upto(start, w, cx as int, cy as int, r as int, lit@, dy as int, dx as int),
            decreases r + 1 - dx,
        {
            let ghost before = canvas_pixels(*img);
            assert(0 <= dx * dx <= r * r && 0 <= dy * dy <= r * r && r * r <= 32767 * 32767) by (nonlinear_arith)
                requires -r <= dx <= r, -r <= dy <= r, 0 < r <= 32767;
            if dx * dx + dy * dy <= r * r {
                let px = cx + dx;
                let py = cy + dy;
                if !(px < 0 || py < 0 || px >= DASH_W || py >= DASH_H) {
                    let on = lit[(dx + r) as usize];
                    let color = if on { MOON_LIT } else { MOON_DARK };
                    img.put_pixel(px as u32, py as u32, color);
                    proof {
                        let idx = py * w + px;
                        lemma_coords(w, px as int, py as int);
                        assert(0 <= idx < iw * ih) by (nonlinear_arith)
                            requires idx == py * w + px, 0 <= px < w, 0 <= py < ih, w == iw;
                        assert forall|i: int| 0 <= i < start.len() implies canvas_pixels(*img)[i]
                            == moon_upto(start, w, cx as int, cy as int, r as int, lit@, dy as int, dx + 1)[i] by {
                            lemma_index_of_coords(w, i);
                            if i != idx {
                                assert(i % w != px || i / w != py);
                            }
                        }
                        assert(canvas_pixels(*img) =~= moon_upto(start, w, cx as int, cy as int, r as int, lit@, dy as int, dx + 1));
                    }
                } else {
                    proof {
                        assert forall|i: int| 0 <= i < start.len() implies before[i]
                            == moon_upto(start, w, cx as int, cy as int, r as int, lit@, dy as int, dx + 1)[i] by {
                            lemma_index_of_coords(w, i);
                        }
                        assert(before =~= moon_upto(start, w, cx as int, cy as int, r as int, lit@, dy as int, dx + 1));
                    }
                }
            } else {
                proof {
                    assert forall|i: int| 0 <= i < start.len() implies before[i]
                        == moon_upto(start, w, cx as int, cy as int, r as int, lit@, dy as int, dx + 1)[i] by {
                        lemma_index_of_coords(w, i);
                    }
                    assert(before =~= moon_upto(start, w, cx as int, cy as int, r as int, lit@, dy as int, dx + 1));
                }
            }
            dx = dx + 1;
        }
        proof {
            assert(canvas_pixels(*img) =~= moon_upto(start, w, cx as int, cy as int, r as int, lit@, dy + 1, -r as int));
        }
        dy = dy + 1;
    }
}

/// Index of the first `'T'` of a text, or its length when it has none.
pub open spec fn index_of_t(s: Seq<char>) -> int
    decreases s.len(),
{
    if s.len() == 0 {
        0
    } else if s[0] == 'T' {
        0
    } else {
        1 + index_of_t(s.drop_first())
    }
}

proof fn lemma_index_of_t(s: Seq<char>, i: int)
    requires
        0 <= i <= s.len(),
        i == s.len() || s[i] == 'T',
        forall|k: int| 0 <= k < i ==> s[k] != 'T',
    ensures
        index_of_t(s) == i,
    decreases i,
{
    if i > 0 {
        let t = s.drop_first();
        assert forall|k: int| 0 <= k < i - 1 implies t[k] != 'T' by {
            assert(t[k] == s[k + 1]);
        }
        lemma_index_of_t(t, i - 1);
    }
}

/// The time of day of an ISO date-time such as `2025-01-31T07:42`: the
/// text after its first `'T'`, up to the next `'T'`; a text with no `'T'`
/// is kept whole.
pub open spec fn time_part(s: Seq<char>) -> Seq<char> {
    let i = index_of_t(s);
    if i == s.len() {
        s
    } else {
        let rest = s.subrange(i + 1, s.len() as int);
        rest.subrange(0, index_of_t(rest))
    }
}

/// The time of day of an ISO date-time: for a date and a time that hold no
/// `'T'`, the time of day of `date + "T" + time` is `time`.
pub proof fn law_time_after_t(date: Seq<char>, time: Seq<char>)
    requires
        forall|k: int| 0 <= k < date.len() ==> date[k] != 'T',
        forall|k: int| 0 <= k < time.len() ==> time[k] != 'T',
    ensures
        time_part(date + seq!['T'] + time) == time,
{
    let s = date + seq!['T'] + time;
    lemma_index_of_t(s, date.len() as int);
    let rest = s.subrange(date.len() as int + 1, s.len() as int);
    assert(rest =~= time);
    lemma_index_of_t(rest, rest.len() as int);
    assert(rest.subrange(0, rest.len() as int) =~= rest);
}

/// First index at or after `from` that holds `'T'`, or the length.
fn find_t(s: &str, from: usize) -> (i: usize)
    requires
        from <= s@.len(),
    ensures
        from <= i <= s@.len(),
        i == s@.len() || s@[i as int] == 'T',
        forall|k: int| from <= k < i ==> s@[k] != 'T',
{
    let n = s.unicode_len();
    let mut i = from;
    while i < n
        invariant
            from <= i <= n,
            n == s@.len(),
            forall|k: int| from <= k < i ==> s@[k] != 'T',
        decreases n - i,
    {
        if s.get_char(i) == 'T' {
            return i;
        }
        i = i + 1;
    }
    i
}

/// The time of day of a sunrise or sunset time stamp.
pub fn time_of_day(stamp: &str) -> (t: String)
    ensures
        t@ == time_part(stamp@),
{
    let n = stamp.unicode_len();
    let i = find_t(stamp, 0);
    proof {
        lemma_index_of_t(stamp@, i as int);
    }
    if i == n {
        return stamp.to_owned();
    }
    let j = find_t(stamp, i + 1);
    let piece = stamp.substring_char(i + 1, j);
    proof {
        let rest = stamp@.subrange(i + 1, n as int);
        assert forall|k: int| 0 <= k < j - (i + 1) implies rest[k] != 'T' by {
            assert(rest[k] == stamp@[k + i + 1]);
        }
        if j < n {
            assert(rest[j - (i + 1)] == stamp@[j as int]);
        }
        lemma_index_of_t(rest, j - (i + 1));
        assert(piece@ =~= rest.subrange(0, index_of_t(rest)));
    }
    piece.to_owned()
}

/// The text shown for a missing sunrise or sunset time.
pub open spec fn no_time() -> Seq<char> {
    "--:--"@
}

/// The sunrise or sunset shown on the dashboard: the time of day of the
/// first of the forecast's time stamps, or `--:--` when there is none.
pub fn sun_time(stamps: Option<Vec<String>>) -> (t: String)
    ensures
        t@ == (match stamps {
            Some(v) if v@.len() > 0 => time_part(v@[0]@),
            _ => no_time(),
        }),
{
    match stamps {
        Some(v) => {
            if v.len() > 0 {
                time_of_day(v[0].as_str())
            } else {
                "--:--".to_owned()
            }
        },
        None => "--:--".to_owned(),
    }
}

/// One step of the midpoint circle walk over the octant from the x axis:
/// `y` goes up by one; `x` goes down by one when the error term says so.
pub open spec fn midpoint_next(s: (int, int, int)) -> (int, int, int) {
    let (x, y, err) = s;
    let y1 = y + 1;
    if err < 0 {
        (x, y1, err + 2 * y1 + 1)
    } else {
        (x - 1, y1, err + 2 * (y1 - (x - 1)) + 1)
    }
}

/// The walk's point `(x, y)` and error term after `k` steps, starting at
/// `(r, 0)` with error `1 - r`.
pub open spec fn midpoint_state(r: int, k: nat) -> (int, int, int)
    decreases k,
{
    if k == 0 {
        (r, 0, 1 - r)
    } else {
        midpoint_next(midpoint_state(r, (k - 1) as nat))
    }
}

/// Whether the walk is still on after `k` steps: it goes on while `x >= y`.
pub open spec fn midpoint_on(r: int, k: nat) -> bool {
    forall|j: nat| j <= k ==> #[trigger] midpoint_state(r, j).0 >= midpoint_state(r, j).1
}

/// The eight points that mirror `(x, y)` across the axes and diagonals.
pub open spec fn eight_points(x: int, y: int) -> Seq<(int, int)> {
    seq![(x, y), (-x, y), (x, -y), (-x, -y), (y, x), (-y, x), (y, -x), (-y, -x)]
}

/// Whether offset `(dx, dy)` from the center is among the first `m` mirror
/// points of one of the first `k` points of the walk, or of all its points
/// when `k` is beyond its end.
pub open spec fn circle_covers(r: int, k: nat, m: int, dx: int, dy: int) -> bool {
    ||| exists|j: nat|
        j < k && midpoint_on(r, j) && #[trigger] eight_points(
            midpoint_state(r, j).0,
            midpoint_state(r, j).1,
        ).contains((dx, dy))
    ||| (midpoint_on(r, k) && exists|n: int|
        0 <= n < m && #[trigger] eight_points(midpoint_state(r, k).0, midpoint_state(r, k).1)[n]
            == (dx, dy))
}

/// Whether offset `(dx, dy)` from the center is on the midpoint circle of
/// radius `r`: a mirror of a point of the walk.
pub open spec fn on_midpoint_circle(r: int, dx: int, dy: int) -> bool {
    exists|j: nat|
        midpoint_on(r, j) && #[trigger] eight_points(
            midpoint_state(r, j).0,
            midpoint_state(r, j).1,
        ).contains((dx, dy))
}

/// The pixels after drawing the part of the circle outline that
/// `circle_covers` describes, clipped to the dashboard.
pub open spec fn circle_upto(
    p: Seq<u8>,
    w: int,
    cx: int,
    cy: int,
    r: int,
    color: u8,
    k: nat,
    m: int,
) -> Seq<u8> {
    Seq::new(
        p.len(),
        |i: int|
            if 0 <= i % w < DASH_W && 0 <= i / w < DASH_H && circle_covers(
                r,
                k,
                m,
                i % w - cx,
                i / w - cy,
            ) {
                color
            } else {
                p[i]
            },
    )
}

/// The pixels after drawing the whole circle outline, clipped to the dashboard.
pub open spec fn circle_picture(p: Seq<u8>, w: int, cx: int, cy: int, r: int, color: u8) -> Seq<u8> {
    Seq::new(
        p.len(),
        |i: int|
            if 0 <= i % w < DASH_W && 0 <= i / w < DASH_H && on_midpoint_circle(
                r,
                i % w - cx,
                i / w - cy,
            ) {
                color
            } else {
                p[i]
            },
    )
}

/// The largest radius for which the midpoint walk's error term is shown to
/// stay within `i32` (it comes within about `2 * r` of zero).
pub const CIRCLE_MAX_R: i32 = 0x3fff_fff0;

/// The arguments for which drawing the circle computes no value beyond
/// `i32` and paints no pixel off the image: `1 - r` fits, and a circle that
/// is drawn at all keeps its points within `i32` on a dashboard-sized image.
pub open spec fn circle_fits(c: GrayCanvas, cx: int, cy: int, r: int) -> bool {
    &&& i32::MIN + 2 <= r <= CIRCLE_MAX_R
    &&& r >= 0 ==> {
        &&& i32::MIN <= cx - r
        &&& cx + r <= i32::MAX
        &&& i32::MIN <= cy - r
        &&& cy + r <= i32::MAX
        &&& canvas_width(c) >= DASH_W
        &&& canvas_height(c) >= DASH_H
    }
}

proof fn lemma_midpoint_step(r: int, k: nat)
    requires
        midpoint_on(r, k),
        midpoint_state(r, k).2 == midpoint_state(r, k).0 * midpoint_state(r, k).0 + midpoint_state(
            r,
            k,
        ).1 * midpoint_state(r, k).1 - r * r - midpoint_state(r, k).0 + 2 * midpoint_state(r, k).1 + 1,
    ensures
        midpoint_state(r, k + 1).2 == midpoint_state(r, k + 1).0 * midpoint_state(r, k + 1).0
            + midpoint_state(r, k + 1).1 * midpoint_state(r, k + 1).1 - r * r - midpoint_state(
            r,
            k + 1,
        ).0 + 2 * midpoint_state(r, k + 1).1 + 1,
        midpoint_state(r, k + 1).1 == midpoint_state(r, k).1 + 1,
        midpoint_state(r, k + 1).0 == midpoint_state(r, k).0 || midpoint_state(r, k + 1).0
            == midpoint_state(r, k).0 - 1,
{
    let (x, y, err) = midpoint_state(r, k);
    assert(midpoint_state(r, k + 1) == midpoint_next(midpoint_state(r, k)));
    assert((y + 1) * (y + 1) == y * y + 2 * y + 1) by (nonlinear_arith);
    assert((x - 1) * (x - 1) == x * x - 2 * x + 1) by (nonlinear_arith);
}

/// Draws a circle outline of radius `r` around `(cx, cy)` in `color` with
/// the midpoint algorithm, clipped to the dashboard.
pub fn draw_circle_outline(img: &mut GrayCanvas, cx: i32, cy: i32, r: i32, color: u8)
    requires
        circle_fits(*old(img), cx as int, cy as int, r as int),
    ensures
        canvas_dims(*final(img)) == canvas_dims(*old(img)),
        canvas_pixels(*final(img)) == circle_picture(
            canvas_pixels(*old(img)),
            canvas_width(*old(img)),
            cx as int,
            cy as int,
            r as int,
            color,
        ),
{
    let ghost start = canvas_pixels(*img);
    let ghost w = canvas_width(*img);
    let (iw, ih) = img.dimensions();
    if r < 0 {
        proof {
            assert(midpoint_state(r as int, 0).0 < midpoint_state(r as int, 0).1);
            assert forall|i: int| 0 <= i < start.len() implies !#[trigger] on_midpoint_circle(r as int, i % w - cx, i / w - cy) by {
                if on_midpoint_circle(r as int, i % w - cx, i / w - cy) {
                    let j = choose|j: nat| midpoint_on(r as int, j) && #[trigger] eight_points(midpoint_state(r as int, j).0, midpoint_state(r as int, j).1).contains((i % w - cx, i / w - cy));
                    assert(midpoint_state(r as int, 0).0 >= midpoint_state(r as int, 0).1);
                }
            }
            assert(circle_picture(start, w, cx as int, cy as int, r as int, color) =~= start);
        }
        return;
    }
    let mut x = r;
    let mut y: i32 = 0;
    let mut err = 1 - r;
    let ghost mut k: nat = 0;
    proof {
        assert(err == x * x + y * y - r * r - x + 2 * y + 1);
        assert(circle_upto(start, w, cx as int, cy as int, r as int, color, 0, 0) =~= start);
    }
    while x >= y
        invariant
            circle_fits(*img, cx as int, cy as int, r as int),
            canvas_dims(*img) == (iw, ih),
            w == iw,
            start.len() == iw * ih,
            (x as int, y as int, err as int) == midpoint_state(r as int, k),
            r >= 0,
            err == x * x + y * y - r * r - x + 2 * y + 1,
            x * x + x + y * y - r * r >= 0,
            x >= y ==> x * x - x + y * y - r * r <= 0,
            0 <= y,
            y <= r + 1,
            x <= r,
            x >= y - 2,
            k == 0 || midpoint_on(r as int, (k - 1) as nat),
            canvas_pixels(*img) == circle_upto(start, w, cx as int, cy as int, r as int, color, k, 0),
        decreases x - y + 2,
    {
        proof {
            assert(midpoint_on(r as int, k)) by {
                assert forall|j: nat| j <= k implies #[trigger] midpoint_state(r as int, j).0 >= midpoint_state(r as int, j).1 by {
                    if j < k {
                        assert(midpoint_on(r as int, (k - 1) as nat));
                    }
                }
            }
        }
        assert(-2 * r + 1 <= err <= 2 * y + 1);
        let points = [
            (cx + x, cy + y),
            (cx - x, cy + y),
            (cx + x, cy - y),
            (cx - x, cy - y),
            (cx + y, cy + x),
            (cx - y, cy + x),
            (cx + y, cy - x),
            (cx - y, cy - x),
        ];
        let ghost eight = eight_points(x as int, y as int);
        let mut m: usize = 0;
        while m < 8
            invariant
                m <= 8,
                circle_fits(*img, cx as int, cy as int, r as int),
                canvas_dims(*img) == (iw, ih),
                w == iw,
                start.len() == iw * ih,
                (x as int, y as int, err as int) == midpoint_state(r as int, k),
                r >= 0,
                midpoint_on(r as int, k),
                eight == eight_points(x as int, y as int),
                forall|n: int| 0 <= n < 8 ==> (#[trigger] points[n]).0 == cx + eight[n].0 && points[n].1 == cy + eight[n].1,
                canvas_pixels(*img) == circle_upto(start, w, cx as int, cy as int, r as int, color, k, m as int),
            decreases 8 - m,
        {
            let (px, py) = points[m];
            let ghost before = canvas_pixels(*img);
            assert(points[m as int].0 == cx + eight[m as int].0 && points[m as int].1 == cy + eight[m as int].1);
            assert(eight == eight_points(midpoint_state(r as int, k).0, midpoint_state(r as int, k).1));
            if px >= 0 && py >= 0 && (px as u32) < DASH_W as u32 && (py as u32) < DASH_H as u32 {
                img.put_pixel(px as u32, py as u32, color);
                proof {
                    let idx = py * w + px;
                    lemma_coords(w, px as int, py as int);
                    assert(0 <= idx < iw * ih) by (nonlinear_arith)
                        requires idx == py * w + px, 0 <= px < w, 0 <= py < ih, w == iw;
                    assert forall|i: int| 0 <= i < start.len() implies canvas_pixels(*img)[i]
                        == circle_upto(start, w, cx as int, cy as int, r as int, color, k, m + 1)[i] by {
                        lemma_index_of_coords(w, i);
                        if i == idx {
                            assert(eight[m as int] == (i % w - cx, i / w - cy));
                            assert(eight_points(midpoint_state(r as int, k).0, midpoint_state(r as int, k).1)[m as int] == (i % w - cx, i / w - cy));
                            assert(circle_covers(r as int, k, m + 1, i % w - cx, i / w - cy));
                        } else {
                            if circle_covers(r as int, k, m + 1, i % w - cx, i / w - cy) && !circle_covers(r as int, k, m as int, i % w - cx, i / w - cy) {
                                let n = choose|n: int| 0 <= n < m + 1 && #[trigger] eight_points(midpoint_state(r as int, k).0, midpoint_state(r as int, k).1)[n] == (i % w - cx, i / w - cy);
                                if n < m {
                                    assert(circle_covers(r as int, k, m as int, i % w - cx, i / w - cy));
                                }
                                assert(n == m);
                                assert(i % w == px && i / w == py);
                                assert(false);
                            }
                        }
                    }
                    assert(canvas_pixels(*img) =~= circle_upto(start, w, cx as int, cy as int, r as int, color, k, m + 1));
                }
            } else {
                proof {
                    assert forall|i: int| 0 <= i < start.len() implies before[i]
                        == circle_upto(start, w, cx as int, cy as int, r as int, color, k, m + 1)[i] by {
                        lemma_index_of_coords(w, i);
                        if circle_covers(r as int, k, m + 1, i % w - cx, i / w - cy) && !circle_covers(r as int, k, m as int, i % w - cx, i / w - cy) {
                            let n = choose|n: int| 0 <= n < m + 1 && #[trigger] eight_points(midpoint_state(r as int, k).0, midpoint_state(r as int, k).1)[n] == (i % w - cx, i / w - cy);
                            assert(n == m);
                        }
                    }
                    assert(before =~= circle_upto(start, w, cx as int, cy as int, r as int, color, k, m + 1));
                }
            }
            m = m + 1;
        }
        let ghost (x0, y0, e0) = (x as int, y as int, err as int);
        y += 1;
        if err < 0 {
            err += 2 * y + 1;
            proof {
                assert(x0 * x0 + x0 + (y0 + 1) * (y0 + 1) - r * r >= 0) by (nonlinear_arith)
                    requires x0 * x0 + x0 + y0 * y0 - r * r >= 0, y0 >= 0;
                assert(x0 * x0 - x0 + (y0 + 1) * (y0 + 1) - r * r <= 0) by (nonlinear_arith)
                    requires e0 == x0 * x0 + y0 * y0 - r * r - x0 + 2 * y0 + 1, e0 < 0;
            }
        } else {
            x -= 1;
            err += 2 * (y - x) + 1;
            proof {
                assert((x0 - 1) * (x0 - 1) + (x0 - 1) + (y0 + 1) * (y0 + 1) - r * r >= 0) by (nonlinear_arith)
                    requires e0 == x0 * x0 + y0 * y0 - r * r - x0 + 2 * y0 + 1, e0 >= 0;
                assert(x0 - 1 >= y0 + 1 ==> (x0 - 1) * (x0 - 1) - (x0 - 1) + (y0 + 1) * (y0 + 1) - r * r <= 0) by (nonlinear_arith)
                    requires x0 * x0 - x0 + y0 * y0 - r * r <= 0;
            }
        }
        proof {
            lemma_midpoint_step(r as int, k);
            let pic8 = circle_upto(start, w, cx as int, cy as int, r as int, color, k, 8);
            let next = circle_upto(start, w, cx as int, cy as int, r as int, color, k + 1, 0);
            assert forall|i: int| 0 <= i < start.len() implies pic8[i] == next[i] by {
                let dx = i % w - cx;
                let dy = i / w - cy;
                if circle_covers(r as int, k, 8, dx, dy) {
                    if midpoint_on(r as int, k) && exists|n: int| 0 <= n < 8 && #[trigger] eight_points(midpoint_state(r as int, k).0, midpoint_state(r as int, k).1)[n] == (dx, dy) {
                        let n = choose|n: int| 0 <= n < 8 && #[trigger] eight_points(midpoint_state(r as int, k).0, midpoint_state(r as int, k).1)[n] == (dx, dy);
                        assert(eight_points(midpoint_state(r as int, k).0, midpoint_state(r as int, k).1).contains((dx, dy)));
                    } else {
                        let j = choose|j: nat| j < k && midpoint_on(r as int, j) && #[trigger] eight_points(midpoint_state(r as int, j).0, midpoint_state(r as int, j).1).contains((dx, dy));
                        assert(j < k + 1);
                    }
                }
                if circle_covers(r as int, k + 1, 0, dx, dy) {
                    let j = choose|j: nat| j < k + 1 && midpoint_on(r as int, j) && #[trigger] eight_points(midpoint_state(r as int, j).0, midpoint_state(r as int, j).1).contains((dx, dy));
                    if j == k {
                        let n = choose|n: int| 0 <= n < 8 && eight_points(midpoint_state(r as int, k).0, midpoint_state(r as int, k).1)[n] == (dx, dy);
                        assert(circle_covers(r as int, k, 8, dx, dy));
                    } else {
                        assert(circle_covers(r as int, k, 8, dx, dy));
                    }
                }
            }
            assert(pic8 =~= next);
            k = k + 1;
        }
    }
    proof {
        assert(midpoint_state(r as int, k).0 < midpoint_state(r as int, k).1);
        assert(!midpoint_on(r as int, k));
        let fin = circle_upto(start, w, cx as int, cy as int, r as int, color, k, 0);
        let want = circle_picture(start, w, cx as int, cy as int, r as int, color);
        assert forall|i: int| 0 <= i < start.len() implies fin[i] == want[i] by {
            let dx = i % w - cx;
            let dy = i / w - cy;
            if on_midpoint_circle(r as int, dx, dy) {
                let j = choose|j: nat| midpoint_on(r as int, j) && #[trigger] eight_points(midpoint_state(r as int, j).0, midpoint_state(r as int, j).1).contains((dx, dy));
                if j >= k {
                    assert(midpoint_state(r as int, k).0 >= midpoint_state(r as int, k).1);
                }
                assert(circle_covers(r as int, k, 0, dx, dy));
            }
            if circle_covers(r as int, k, 0, dx, dy) {
                let j = choose|j: nat| j < k && midpoint_on(r as int, j) && #[trigger] eight_points(midpoint_state(r as int, j).0, midpoint_state(r as int, j).1).contains((dx, dy));
                assert(on_midpoint_circle(r as int, dx, dy));
            }
        }
        assert(fin =~= want);
    }
}

} // verus!
