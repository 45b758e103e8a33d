//! Tamagotchi-style pixel-art pet sprites.
use vstd::prelude::*;
use vstd::string::StrSliceExecFns;
use vstd::arithmetic::div_mod::{lemma_fundamental_div_mod, lemma_fundamental_div_mod_converse};
use crate::canvas::{lemma_coords, lemma_index_of_coords,
    GrayCanvas, canvas_dims, canvas_pixels, canvas_width, fill_square, filled_rect, painted,
    lemma_paint_cell, lemma_paint_same, lemma_paint_nothing,
};

verus! {

/// Sprite width in grid cells.
pub const SW: usize = 15;

/// Sprite height in grid cells.
pub const SH: usize = 16;

/// The code of one sprite cell: `'#'` is outline (1), `'.'` is fill (2),
/// anything else is transparent (0).
pub open spec fn cell_code(ch: char) -> u8 {
    if ch == '#' {
        1
    } else if ch == '.' {
        2
    } else {
        0
    }
}

/// The code of cell `(x, y)` of a sprite drawn as text rows; cells past the
/// end of a row are transparent.
pub open spec fn grid_cell(rows: Seq<Seq<char>>, x: int, y: int) -> u8 {
    if 0 <= x < rows[y].len() {
        cell_code(rows[y][x])
    } else {
        0
    }
}

/// Whether a cell grid holds the cells of these text rows.
pub open spec fn grid_matches(grid: [[u8; SW]; SH], rows: Seq<Seq<char>>) -> bool {
    forall|x: int, y: int| 0 <= x < SW && 0 <= y < SH ==> grid[y][x] == grid_cell(rows, x, y)
}

fn code_of(ch: char) -> (c: u8)
    ensures
        c == cell_code(ch),
{
    if ch == '#' {
        1
    } else if ch == '.' {
        2
    } else {
        0
    }
}

/// Turns sixteen text rows into a cell grid; only the first `SW` characters
/// of a row count.
pub fn make_grid(rows: [&str; SH]) -> (grid: [[u8; SW]; SH])
    ensures
        grid_matches(grid, Seq::new(SH as nat, |y: int| rows[y]@)),
{
    let mut grid = [[0u8; SW]; SH];
    let mut y: usize = 0;
    while y < SH
        invariant
            y <= SH,
            forall|x: int, yy: int|
                0 <= x < SW && 0 <= yy < y ==> grid[yy][x] == grid_cell(
                    Seq::new(SH as nat, |y: int| rows[y]@),
                    x,
                    yy,
                ),
        decreases SH - y,
    {
        let row = rows[y];
        let n = row.unicode_len();
        let mut line = [0u8; SW];
        let mut x: usize = 0;
        while x < n && x < SW
            invariant
                x <= SW,
                x <= n,
                n == row@.len(),
                row == rows[y as int],
                y < SH,
                forall|xx: int| 0 <= xx < SW ==> line[xx] == (if xx < x { cell_code(row@[xx]) } else { 0u8 }),
            decreases SW - x,
        {
            line[x] = code_of(row.get_char(x));
            x = x + 1;
        }
        let ghost rows_view = Seq::new(SH as nat, |y: int| rows[y]@);
        assert(rows_view[y as int] == row@);
        let ghost before = grid;
        assert(x >= n || x >= SW);
        grid[y] = line;
        assert forall|xx: int, yy: int|
            0 <= xx < SW && 0 <= yy < y + 1 implies grid[yy][xx] == grid_cell(rows_view, xx, yy) by {
            if yy == y {
                assert(grid[yy] == line);
                assert(line[xx] == (if xx < x { cell_code(row@[xx]) } else { 0u8 }));
                assert(rows_view[yy] == row@);
                assert(xx < x <==> xx < n);
            } else {
                assert(grid[yy] == before[yy]);
                assert(before[yy][xx] == grid_cell(rows_view, xx, yy));
            }
        }
        y = y + 1;
    }
    grid
}

/// The six moods of the pet.
#[derive(Debug, Clone, Copy, PartialEq, Eq, Structural)]
pub enum PetState {
    Happy,
    Sleeping,
    Rainy,
    Hot,
    Cold,
    Stargazing,
}

/// Text rows of the happy sprite.
pub open spec fn happy_rows() -> Seq<Seq<char>> {
    seq![
        "   ##     ##   "@,
        "  ###    ###   "@,
        "  #.#    #.#   "@,
        "  #.######.#   "@,
        "  #........#   "@,
        " #..........#  "@,
        " #..#....#..#  "@,
        " #...####...#  "@,
        " #..........#  "@,
        " #..........#  "@,
        " #..........#  "@,
        "  #........#   "@,
        "  ##########   "@,
        "  ##.###.##    "@,
        "  ##.###.##    "@,
        "   ##   ##     "@,
    ]
}

/// Text rows of the sleeping sprite.
pub open spec fn sleeping_rows() -> Seq<Seq<char>> {
    seq![
        "   ##     ##   "@,
        "  ###    ###   "@,
        "  #.#    #.#   "@,
        "  #.######.#   "@,
        "  #........#   "@,
        " #..........#  "@,
        " #..#....#..#  "@,
        " #....##....#  "@,
        " #..........#  "@,
        " #..........#  "@,
        " #..........#  "@,
        "  #........#   "@,
        "  ##########   "@,
        "  ##.###.##    "@,
        "  ##.###.##    "@,
        "   ##   ##     "@,
    ]
}

/// Text rows of the rainy sprite.
pub open spec fn rainy_rows() -> Seq<Seq<char>> {
    seq![
        "   ##     ##   "@,
        "  ###    ###   "@,
        "  #.#    #.#   "@,
        "  #.######.#   "@,
        "  #........#   "@,
        " #..........#  "@,
        " #..#....#..#  "@,
        " #...#..#...#  "@,
        " #..........#  "@,
        " #..........#  "@,
        " #..........#  "@,
        "  #........#   "@,
        "  ##########   "@,
        "  ##.###.##    "@,
        "  ##.###.##    "@,
        "   ##   ##     "@,
    ]
}

/// Text rows of the hot sprite.
pub open spec fn hot_rows() -> Seq<Seq<char>> {
    seq![
        "   ##     ##   "@,
        "  ###    ###   "@,
        "  #.#    #.#   "@,
        "  #.######.#   "@,
        "  #........#   "@,
        " #..........#  "@,
        " #.#.#..#.#.#  "@,
        " #...####...#  "@,
        " #...#..#...#  "@,
        " #..........#  "@,
        " #..........#  "@,
        "  #........#   "@,
        "  ##########   "@,
        "  ##.###.##    "@,
        "  ##.###.##    "@,
        "   ##   ##     "@,
    ]
}

/// Text rows of the cold sprite.
pub open spec fn cold_rows() -> Seq<Seq<char>> {
    seq![
        "   ##     ##   "@,
        "  ###    ###   "@,
        "  #.#    #.#   "@,
        "  #.######.#   "@,
        "  #........#   "@,
        " #..........#  "@,
        " #..#....#..#  "@,
        " #...####...#  "@,
        " #..........#  "@,
        " #..........#  "@,
        " #..#....#..#  "@,
        "  #........#   "@,
        "  ##########   "@,
        "  ##.###.##    "@,
        "  ##.###.##    "@,
        "   ##   ##     "@,
    ]
}

/// Text rows of the stargazing sprite.
pub open spec fn stargazing_rows() -> Seq<Seq<char>> {
    seq![
        "   ##     ##   "@,
        "  ###    ###   "@,
        "  #.#    #.#   "@,
        "  #.######.#   "@,
        "  #........#   "@,
        " #..........#  "@,
        " #..#....#..#  "@,
        " #..#....#..#  "@,
        " #....##....#  "@,
        " #..........#  "@,
        "#............# "@,
        "  #........#   "@,
        "  ##########   "@,
        "  ##.###.##    "@,
        "  ##.###.##    "@,
        "   ##   ##     "@,
    ]
}

/// The text rows of the sprite for a mood.
pub open spec fn sprite_rows(state: PetState) -> Seq<Seq<char>> {
    match state {
        PetState::Happy => happy_rows(),
        PetState::Sleeping => sleeping_rows(),
        PetState::Rainy => rainy_rows(),
        PetState::Hot => hot_rows(),
        PetState::Cold => cold_rows(),
        PetState::Stargazing => stargazing_rows(),
    }
}

/// The everyday face: wide-set eyes, a broad mouth.
pub fn happy() -> (grid: [[u8; SW]; SH])
    ensures
        grid_matches(grid, sprite_rows(PetState::Happy)),
{
    let rows = [
        "   ##     ##   ",
        "  ###    ###   ",
        "  #.#    #.#   ",
        "  #.######.#   ",
        "  #........#   ",
        " #..........#  ",
        " #..#....#..#  ",
        " #...####...#  ",
        " #..........#  ",
        " #..........#  ",
        " #..........#  ",
        "  #........#   ",
        "  ##########   ",
        "  ##.###.##    ",
        "  ##.###.##    ",
        "   ##   ##     ",
    ];
    assert(Seq::new(SH as nat, |y: int| rows[y]@) =~= happy_rows());
    make_grid(rows)
}

/// Asleep: closed eyes and a small round mouth.
pub fn sleeping() -> (grid: [[u8; SW]; SH])
    ensures
        grid_matches(grid, sprite_rows(PetState::Sleeping)),
{
    let rows = [
        "   ##     ##   ",
        "  ###    ###   ",
        "  #.#    #.#   ",
        "  #.######.#   ",
        "  #........#   ",
        " #..........#  ",
        " #..#....#..#  ",
        " #....##....#  ",
        " #..........#  ",
        " #..........#  ",
        " #..........#  ",
        "  #........#   ",
        "  ##########   ",
        "  ##.###.##    ",
        "  ##.###.##    ",
        "   ##   ##     ",
    ];
    assert(Seq::new(SH as nat, |y: int| rows[y]@) =~= sleeping_rows());
    make_grid(rows)
}

/// Worried eyes and a zigzag mouth.
pub fn rainy() -> (grid: [[u8; SW]; SH])
    ensures
        grid_matches(grid, sprite_rows(PetState::Rainy)),
{
    let rows = [
        "   ##     ##   ",
        "  ###    ###   ",
        "  #.#    #.#   ",
        "  #.######.#   ",
        "  #........#   ",
        " #..........#  ",
        " #..#....#..#  ",
        " #...#..#...#  ",
        " #..........#  ",
        " #..........#  ",
        " #..........#  ",
        "  #........#   ",
        "  ##########   ",
        "  ##.###.##    ",
        "  ##.###.##    ",
        "   ##   ##     ",
    ];
    assert(Seq::new(SH as nat, |y: int| rows[y]@) =~= rainy_rows());
    make_grid(rows)
}

/// X_X eyes and an open, panting mouth.
pub fn hot() -> (grid: [[u8; SW]; SH])
    ensures
        grid_matches(grid, sprite_rows(PetState::Hot)),
{
    let rows = [
        "   ##     ##   ",
        "  ###    ###   ",
        "  #.#    #.#   ",
        "  #.######.#   ",
        "  #........#   ",
        " #..........#  ",
        " #.#.#..#.#.#  ",
        " #...####...#  ",
        " #...#..#...#  ",
        " #..........#  ",
        " #..........#  ",
        "  #........#   ",
        "  ##########   ",
        "  ##.###.##    ",
        "  ##.###.##    ",
        "   ##   ##     ",
    ];
    assert(Seq::new(SH as nat, |y: int| rows[y]@) =~= hot_rows());
    make_grid(rows)
}

/// A grimace and a scarf.
pub fn cold() -> (grid: [[u8; SW]; SH])
    ensures
        grid_matches(grid, sprite_rows(PetState::Cold)),
{
    let rows = [
        "   ##     ##   ",
        "  ###    ###   ",
        "  #.#    #.#   ",
        "  #.######.#   ",
        "  #........#   ",
        " #..........#  ",
        " #..#....#..#  ",
        " #...####...#  ",
        " #..........#  ",
        " #..........#  ",
        " #..#....#..#  ",
        "  #........#   ",
        "  ##########   ",
        "  ##.###.##    ",
        "  ##.###.##    ",
        "   ##   ##     ",
    ];
    assert(Seq::new(SH as nat, |y: int| rows[y]@) =~= cold_rows());
    make_grid(rows)
}

/// Big eyes, an awed round mouth and arms spread out.
pub fn stargazing() -> (grid: [[u8; SW]; SH])
    ensures
        grid_matches(grid, sprite_rows(PetState::Stargazing)),
{
    let rows = [
        "   ##     ##   ",
        "  ###    ###   ",
        "  #.#    #.#   ",
        "  #.######.#   ",
        "  #........#   ",
        " #..........#  ",
        " #..#....#..#  ",
        " #..#....#..#  ",
        " #....##....#  ",
        " #..........#  ",
        "#............# ",
        "  #........#   ",
        "  ##########   ",
        "  ##.###.##    ",
        "  ##.###.##    ",
        "   ##   ##     ",
    ];
    assert(Seq::new(SH as nat, |y: int| rows[y]@) =~= stargazing_rows());
    make_grid(rows)
}

/// Gray value of outline pixels.
pub const BLACK: u8 = 0;

/// Gray value of fill pixels.
pub const WHITE: u8 = 255;

/// What a sprite cell draws: outline black, fill white, the rest nothing.
pub open spec fn grid_color(code: u8) -> Option<u8> {
    if code == 1 {
        Some(BLACK)
    } else if code == 2 {
        Some(WHITE)
    } else {
        None
    }
}

/// The grid column drawn at column `gx`: the same, or its mirror image.
pub open spec fn mirrored(gx: int, flipped: bool) -> int {
    if flipped {
        SW - 1 - gx
    } else {
        gx
    }
}

/// The colors of a sprite's cells as drawn, mirrored if `flipped`.
pub open spec fn sprite_colors(grid: [[u8; SW]; SH], flipped: bool) -> spec_fn(int, int) -> Option<
    u8,
> {
    |gx: int, gy: int|
        if 0 <= gx < SW && 0 <= gy < SH {
            grid_color(grid[gy][mirrored(gx, flipped)])
        } else {
            None
        }
}

/// The cells of a sprite that the drawing loop has done once it reaches
/// grid cell `(gx0, gy0)`.
spec fn sprite_colors_upto(grid: [[u8; SW]; SH], flipped: bool, gx0: int, gy0: int) -> spec_fn(
    int,
    int,
) -> Option<u8> {
    |gx: int, gy: int|
        if 0 <= gx < SW && 0 <= gy < SH && (gy < gy0 || (gy == gy0 && mirrored(gx, flipped)
            < gx0)) {
            grid_color(grid[gy][mirrored(gx, flipped)])
        } else {
            None
        }
}

/// Coordinates at which a drawing of `cols` by `rows` cells at scale `scale`
/// stays within `i32`.
pub open spec fn cells_fit(px: int, py: int, scale: int, cols: int, rows: int) -> bool {
    scale <= 0 || (cols * scale <= i32::MAX && rows * scale <= i32::MAX && px + cols * scale
        <= i32::MAX + 1 && py + rows * scale <= i32::MAX + 1)
}

/// Draws a sprite grid with its top-left corner at `(px, py)`, each cell
/// `scale` by `scale` pixels, mirrored if `flipped`; pixels off the image are
/// skipped.
fn draw_grid(img: &mut GrayCanvas, grid: &[[u8; SW]; SH], px: i32, py: i32, scale: i32, flipped: bool)
    requires
        cells_fit(px as int, py as int, scale as int, SW as int, SH as int),
        px >= i32::MIN,
    ensures
        canvas_dims(*final(img)) == canvas_dims(*old(img)),
        canvas_pixels(*final(img)) == painted(
            canvas_pixels(*old(img)),
            canvas_width(*old(img)),
            px as int,
            py as int,
            scale as int,
            sprite_colors(*grid, flipped),
        ),
{
    let (iw, ih) = img.dimensions();
    let ghost w = iw as int;
    let ghost start = canvas_pixels(*img);
    proof {
        lemma_paint_nothing(start, w, px as int, py as int, scale as int, sprite_colors_upto(*grid, flipped, 0, 0));
    }
    let mut gy: usize = 0;
    while gy < SH
        invariant
            gy <= SH,
            cells_fit(px as int, py as int, scale as int, SW as int, SH as int),
            canvas_dims(*img) == (iw, ih),
            w == iw,
            canvas_pixels(*img) == painted(start, w, px as int, py as int, scale as int, sprite_colors_upto(*grid, flipped, 0, gy as int)),
        decreases SH - gy,
    {
        let mut gx: usize = 0;
        while gx < SW
            invariant
                gx <= SW,
                gy < SH,
                cells_fit(px as int, py as int, scale as int, SW as int, SH as int),
                canvas_dims(*img) == (iw, ih),
                w == iw,
                canvas_pixels(*img) == painted(start, w, px as int, py as int, scale as int, sprite_colors_upto(*grid, flipped, gx as int, gy as int)),
            decreases SW - gx,
        {
            let code = grid[gy][gx];
            let draw_gx: usize = if flipped { SW - 1 - gx } else { gx };
            let ghost before = sprite_colors_upto(*grid, flipped, gx as int, gy as int);
            let ghost after = sprite_colors_upto(*grid, flipped, gx + 1, gy as int);
            assert(mirrored(draw_gx as int, flipped) == gx);
            assert forall|a: int, b: int| (a != draw_gx || b != gy) implies #[trigger] after(a, b) == before(a, b) by {
                if 0 <= a < SW && b == gy && mirrored(a, flipped) == gx {
                    assert(a == draw_gx);
                }
            }
            if code == 1 || code == 2 {
                let color = if code == 1 { BLACK } else { WHITE };
                if scale > 0 {
                    assert(0 <= (draw_gx as int) * (scale as int) <= 14 * (scale as int)) by (nonlinear_arith)
                        requires 0 <= draw_gx < 15, scale > 0;
                    assert(0 <= (gy as int) * (scale as int) <= 15 * (scale as int)) by (nonlinear_arith)
                        requires 0 <= gy < 16, scale > 0;
                    let x0 = px + (draw_gx as i32) * scale;
                    let y0 = py + (gy as i32) * scale;
                    fill_square(img, x0, y0, scale, color);
                    proof {
                        lemma_paint_cell(start, w, px as int, py as int, scale as int, before, after, draw_gx as int, gy as int, color);
                    }
                } else {
                    proof {
                        assert(painted(start, w, px as int, py as int, scale as int, before) =~= start);
                        assert(painted(start, w, px as int, py as int, scale as int, after) =~= start);
                    }
                }
            } else {
                proof {
                    assert forall|a: int, b: int| #[trigger] after(a, b) == before(a, b) by {
                        if a == draw_gx && b == gy {
                        }
                    }
                    lemma_paint_same(start, w, px as int, py as int, scale as int, before, after);
                }
            }
            gx = gx + 1;
        }
        proof {
            assert forall|a: int, b: int| #[trigger] sprite_colors_upto(*grid, flipped, 0, gy + 1)(a, b)
                == sprite_colors_upto(*grid, flipped, SW as int, gy as int)(a, b) by {
                if 0 <= a < SW {
                    assert(0 <= mirrored(a, flipped) < SW);
                }
            }
            lemma_paint_same(start, w, px as int, py as int, scale as int,
                sprite_colors_upto(*grid, flipped, SW as int, gy as int),
                sprite_colors_upto(*grid, flipped, 0, gy + 1));
        }
        gy = gy + 1;
    }
    proof {
        lemma_paint_same(start, w, px as int, py as int, scale as int,
            sprite_colors_upto(*grid, flipped, 0, SH as int), sprite_colors(*grid, flipped));
    }
}

/// The colors of a block pattern: cells holding 1 are black, the rest draw nothing.
pub open spec fn block_colors(pattern: Seq<Seq<u8>>) -> spec_fn(int, int) -> Option<u8> {
    |gx: int, gy: int|
        if 0 <= gy < pattern.len() && 0 <= gx < pattern[gy].len() && pattern[gy][gx] == 1 {
            Some(BLACK)
        } else {
            None
        }
}

spec fn block_colors_upto(pattern: Seq<Seq<u8>>, gx0: int, gy0: int) -> spec_fn(int, int) -> Option<u8> {
    |gx: int, gy: int|
        if 0 <= gy < pattern.len() && 0 <= gx < pattern[gy].len() && pattern[gy][gx] == 1 && (gy
            < gy0 || (gy == gy0 && gx < gx0)) {
            Some(BLACK)
        } else {
            None
        }
}

/// The rows of a pattern as sequences.
pub open spec fn pattern_rows(p: Seq<Vec<u8>>) -> Seq<Seq<u8>> {
    p.map_values(|r: Vec<u8>| r@)
}

/// The length of a pattern's longest row.
pub open spec fn pattern_width(p: Seq<Seq<u8>>) -> int
    decreases p.len(),
{
    if p.len() == 0 {
        0
    } else {
        let rest = pattern_width(p.drop_last());
        if p.last().len() > rest {
            p.last().len() as int
        } else {
            rest
        }
    }
}

proof fn lemma_pattern_width(p: Seq<Seq<u8>>, r: int)
    requires
        0 <= r < p.len(),
    ensures
        p[r].len() <= pattern_width(p),
    decreases p.len(),
{
    if r < p.len() - 1 {
        lemma_pattern_width(p.drop_last(), r);
        assert(p.drop_last()[r] == p[r]);
    }
}

/// Coordinates at which a block pattern drawn at scale `scale` stays within `i32`.
pub open spec fn block_fits(px: int, py: int, scale: int, p: Seq<Seq<u8>>) -> bool {
    cells_fit(px, py, scale, pattern_width(p), p.len() as int)
}

/// Draws the 1-cells of a block pattern in black, each cell `scale` by
/// `scale` pixels, with its top-left corner at `(px, py)`.
fn draw_block(img: &mut GrayCanvas, pattern: &Vec<Vec<u8>>, px: i32, py: i32, scale: i32)
    requires
        block_fits(px as int, py as int, scale as int, pattern_rows(pattern@)),
    ensures
        canvas_dims(*final(img)) == canvas_dims(*old(img)),
        canvas_pixels(*final(img)) == painted(
            canvas_pixels(*old(img)),
            canvas_width(*old(img)),
            px as int,
            py as int,
            scale as int,
            block_colors(pattern_rows(pattern@)),
        ),
{
    let (iw, ih) = img.dimensions();
    let ghost w = iw as int;
    let ghost start = canvas_pixels(*img);
    let ghost pat = pattern_rows(pattern@);
    proof {
        lemma_paint_nothing(start, w, px as int, py as int, scale as int, block_colors_upto(pat, 0, 0));
    }
    let mut gy: usize = 0;
    while gy < pattern.len()
        invariant
            gy <= pattern.len(),
            pat == pattern_rows(pattern@),
            block_fits(px as int, py as int, scale as int, pat),
            canvas_dims(*img) == (iw, ih),
            w == iw,
            canvas_pixels(*img) == painted(start, w, px as int, py as int, scale as int, block_colors_upto(pat, 0, gy as int)),
        decreases pattern.len() - gy,
    {
        let row = &pattern[gy];
        assert(row@ == pat[gy as int]);
        let mut gx: usize = 0;
        while gx < row.len()
            invariant
                gx <= row.len(),
                gy < pattern.len(),
                row@ == pat[gy as int],
                pat == pattern_rows(pattern@),
                block_fits(px as int, py as int, scale as int, pat),
                canvas_dims(*img) == (iw, ih),
                w == iw,
                canvas_pixels(*img) == painted(start, w, px as int, py as int, scale as int, block_colors_upto(pat, gx as int, gy as int)),
            decreases row.len() - gx,
        {
            let val = row[gx];
            let ghost before = block_colors_upto(pat, gx as int, gy as int);
            let ghost after = block_colors_upto(pat, gx + 1, gy as int);
            proof {
                lemma_pattern_width(pat, gy as int);
            }
            if val == 1 {
                if scale > 0 {
                    let ghost pw = pattern_width(pat);
                    let ghost ph = pat.len() as int;
                    assert(0 <= (gx as int) * (scale as int) && (gx as int) * (scale as int) + scale <= pw * scale) by (nonlinear_arith)
                        requires 0 <= gx < pw, scale > 0;
                    assert(0 <= (gy as int) * (scale as int) && (gy as int) * (scale as int) + scale <= ph * scale) by (nonlinear_arith)
                        requires 0 <= gy < ph, scale > 0;
                    assert(gx <= (gx as int) * (scale as int) && gy <= (gy as int) * (scale as int)) by (nonlinear_arith)
                        requires 0 <= gx, 0 <= gy, scale > 0;
                    let x0 = px + (gx as i32) * scale;
                    let y0 = py + (gy as i32) * scale;
                    fill_square(img, x0, y0, scale, BLACK);
                    proof {
                        assert forall|a: int, b: int| (a != gx || b != gy) implies #[trigger] after(a, b) == before(a, b) by {}
                        lemma_paint_cell(start, w, px as int, py as int, scale as int, before, after, gx as int, gy as int, BLACK);
                    }
                } else {
                    proof {
                        assert(painted(start, w, px as int, py as int, scale as int, before) =~= start);
                        assert(painted(start, w, px as int, py as int, scale as int, after) =~= start);
                    }
                }
            } else {
                proof {
                    assert forall|a: int, b: int| #[trigger] after(a, b) == before(a, b) by {}
                    lemma_paint_same(start, w, px as int, py as int, scale as int, before, after);
                }
            }
            gx = gx + 1;
        }
        proof {
            assert forall|a: int, b: int| #[trigger] block_colors_upto(pat, 0, gy + 1)(a, b)
                == block_colors_upto(pat, row.len() as int, gy as int)(a, b) by {}
            lemma_paint_same(start, w, px as int, py as int, scale as int,
                block_colors_upto(pat, row.len() as int, gy as int),
                block_colors_upto(pat, 0, gy + 1));
        }
        gy = gy + 1;
    }
    proof {
        assert forall|a: int, b: int| #[trigger] block_colors(pat)(a, b)
            == block_colors_upto(pat, 0, pattern.len() as int)(a, b) by {}
        lemma_paint_same(start, w, px as int, py as int, scale as int,
            block_colors_upto(pat, 0, pattern.len() as int), block_colors(pat));
    }
}

/// The large "Z" of the sleeping decoration.
pub open spec fn zzz_large_cells() -> Seq<Seq<u8>> {
    seq![seq![1u8, 1u8, 1u8, 1u8], seq![0u8, 0u8, 1u8, 0u8], seq![0u8, 1u8, 0u8, 0u8], seq![1u8, 1u8, 1u8, 1u8]]
}

fn zzz_large_pattern() -> (p: Vec<Vec<u8>>)
    ensures
        pattern_rows(p@) == zzz_large_cells(),
{
    let r0 = vec![1u8, 1u8, 1u8, 1u8];
    assert(r0@ =~= seq![1u8, 1u8, 1u8, 1u8]);
    let r1 = vec![0u8, 0u8, 1u8, 0u8];
    assert(r1@ =~= seq![0u8, 0u8, 1u8, 0u8]);
    let r2 = vec![0u8, 1u8, 0u8, 0u8];
    assert(r2@ =~= seq![0u8, 1u8, 0u8, 0u8]);
    let r3 = vec![1u8, 1u8, 1u8, 1u8];
    assert(r3@ =~= seq![1u8, 1u8, 1u8, 1u8]);
    let p = vec![r0, r1, r2, r3];
    assert(pattern_rows(p@) =~= zzz_large_cells());
    p
}

/// The middle "Z" of the sleeping decoration.
pub open spec fn zzz_medium_cells() -> Seq<Seq<u8>> {
    seq![seq![1u8, 1u8, 1u8], seq![0u8, 1u8, 0u8], seq![1u8, 1u8, 1u8]]
}

fn zzz_medium_pattern() -> (p: Vec<Vec<u8>>)
    ensures
        pattern_rows(p@) == zzz_medium_cells(),
{
    let r0 = vec![1u8, 1u8, 1u8];
    assert(r0@ =~= seq![1u8, 1u8, 1u8]);
    let r1 = vec![0u8, 1u8, 0u8];
    assert(r1@ =~= seq![0u8, 1u8, 0u8]);
    let r2 = vec![1u8, 1u8, 1u8];
    assert(r2@ =~= seq![1u8, 1u8, 1u8]);
    let p = vec![r0, r1, r2];
    assert(pattern_rows(p@) =~= zzz_medium_cells());
    p
}

/// The small square ending the sleeping decoration.
pub open spec fn zzz_small_cells() -> Seq<Seq<u8>> {
    seq![seq![1u8, 1u8], seq![1u8, 1u8]]
}

fn zzz_small_pattern() -> (p: Vec<Vec<u8>>)
    ensures
        pattern_rows(p@) == zzz_small_cells(),
{
    let r0 = vec![1u8, 1u8];
    assert(r0@ =~= seq![1u8, 1u8]);
    let r1 = vec![1u8, 1u8];
    assert(r1@ =~= seq![1u8, 1u8]);
    let p = vec![r0, r1];
    assert(pattern_rows(p@) =~= zzz_small_cells());
    p
}

/// A rain drop (also a drop of sweat).
pub open spec fn drop_cells() -> Seq<Seq<u8>> {
    seq![seq![0u8, 1u8, 0u8], seq![1u8, 1u8, 1u8], seq![1u8, 1u8, 1u8], seq![0u8, 1u8, 0u8]]
}

fn drop_pattern() -> (p: Vec<Vec<u8>>)
    ensures
        pattern_rows(p@) == drop_cells(),
{
    let r0 = vec![0u8, 1u8, 0u8];
    assert(r0@ =~= seq![0u8, 1u8, 0u8]);
    let r1 = vec![1u8, 1u8, 1u8];
    assert(r1@ =~= seq![1u8, 1u8, 1u8]);
    let r2 = vec![1u8, 1u8, 1u8];
    assert(r2@ =~= seq![1u8, 1u8, 1u8]);
    let r3 = vec![0u8, 1u8, 0u8];
    assert(r3@ =~= seq![0u8, 1u8, 0u8]);
    let p = vec![r0, r1, r2, r3];
    assert(pattern_rows(p@) =~= drop_cells());
    p
}

/// A large star.
pub open spec fn star_cells() -> Seq<Seq<u8>> {
    seq![seq![0u8, 0u8, 1u8, 0u8, 0u8], seq![0u8, 0u8, 1u8, 0u8, 0u8], seq![1u8, 1u8, 1u8, 1u8, 1u8], seq![0u8, 0u8, 1u8, 0u8, 0u8], seq![0u8, 0u8, 1u8, 0u8, 0u8]]
}

fn star_pattern() -> (p: Vec<Vec<u8>>)
    ensures
        pattern_rows(p@) == star_cells(),
{
    let r0 = vec![0u8, 0u8, 1u8, 0u8, 0u8];
    assert(r0@ =~= seq![0u8, 0u8, 1u8, 0u8, 0u8]);
    let r1 = vec![0u8, 0u8, 1u8, 0u8, 0u8];
    assert(r1@ =~= seq![0u8, 0u8, 1u8, 0u8, 0u8]);
    let r2 = vec![1u8, 1u8, 1u8, 1u8, 1u8];
    assert(r2@ =~= seq![1u8, 1u8, 1u8, 1u8, 1u8]);
    let r3 = vec![0u8, 0u8, 1u8, 0u8, 0u8];
    assert(r3@ =~= seq![0u8, 0u8, 1u8, 0u8, 0u8]);
    let r4 = vec![0u8, 0u8, 1u8, 0u8, 0u8];
    assert(r4@ =~= seq![0u8, 0u8, 1u8, 0u8, 0u8]);
    let p = vec![r0, r1, r2, r3, r4];
    assert(pattern_rows(p@) =~= star_cells());
    p
}

/// A small star.
pub open spec fn small_star_cells() -> Seq<Seq<u8>> {
    seq![seq![0u8, 1u8, 0u8], seq![1u8, 1u8, 1u8], seq![0u8, 1u8, 0u8]]
}

fn small_star_pattern() -> (p: Vec<Vec<u8>>)
    ensures
        pattern_rows(p@) == small_star_cells(),
{
    let r0 = vec![0u8, 1u8, 0u8];
    assert(r0@ =~= seq![0u8, 1u8, 0u8]);
    let r1 = vec![1u8, 1u8, 1u8];
    assert(r1@ =~= seq![1u8, 1u8, 1u8]);
    let r2 = vec![0u8, 1u8, 0u8];
    assert(r2@ =~= seq![0u8, 1u8, 0u8]);
    let p = vec![r0, r1, r2];
    assert(pattern_rows(p@) =~= small_star_cells());
    p
}

/// Whether a value fits in an `i32`.
pub open spec fn in_i32(v: int) -> bool {
    i32::MIN <= v <= i32::MAX
}

/// Whether the offset `p + k * scale`, and the product `|k| * scale` that it
/// adds or subtracts, fit in an `i32`.
pub open spec fn shift_fits(p: int, k: int, scale: int) -> bool {
    in_i32((if k < 0 { -k } else { k }) * scale) && in_i32(p + k * scale)
}

/// The coordinates that drawing the "Zzz" decoration at `(px, py)` computes fit in an `i32`.
pub open spec fn zzz_fits(px: int, py: int, scale: int) -> bool {
    &&& block_fits(px, py, scale, zzz_large_cells())
    &&& shift_fits(px, 5, scale) && shift_fits(py, -4, scale)
    &&& block_fits(px + 5 * scale, py - 4 * scale, scale, zzz_medium_cells())
    &&& shift_fits(px, 9, scale) && shift_fits(py, -7, scale)
    &&& block_fits(px + 9 * scale, py - 7 * scale, scale, zzz_small_cells())
}

/// The coordinates that drawing two rain drops at `(px, py)` computes fit in an `i32`.
pub open spec fn drops_fits(px: int, py: int, scale: int) -> bool {
    &&& block_fits(px, py, scale, drop_cells())
    &&& shift_fits(px, 5, scale) && shift_fits(py, 3, scale)
    &&& block_fits(px + 5 * scale, py + 3 * scale, scale, drop_cells())
}

/// The coordinates that drawing a drop of sweat at `(px, py)` computes fit in an `i32`.
pub open spec fn sweat_fits(px: int, py: int, scale: int) -> bool {
    block_fits(px, py, scale, drop_cells())
}

/// The coordinates that drawing two stars at `(px, py)` computes fit in an `i32`.
pub open spec fn stars_fits(px: int, py: int, scale: int) -> bool {
    &&& block_fits(px, py, scale, star_cells())
    &&& shift_fits(px, 7, scale) && shift_fits(py, 2, scale)
    &&& block_fits(px + 7 * scale, py + 2 * scale, scale, small_star_cells())
}

/// The "Zzz" decoration: a large Z, a middle Z up and to the right, and a
/// small square further up and right.
pub open spec fn zzz_picture(p: Seq<u8>, w: int, px: int, py: int, scale: int) -> Seq<u8> {
    painted(
        painted(
            painted(p, w, px, py, scale, block_colors(zzz_large_cells())),
            w,
            px + 5 * scale,
            py - 4 * scale,
            scale,
            block_colors(zzz_medium_cells()),
        ),
        w,
        px + 9 * scale,
        py - 7 * scale,
        scale,
        block_colors(zzz_small_cells()),
    )
}

/// Two rain drops, the second down and to the right of the first.
pub open spec fn drops_picture(p: Seq<u8>, w: int, px: int, py: int, scale: int) -> Seq<u8> {
    painted(
        painted(p, w, px, py, scale, block_colors(drop_cells())),
        w,
        px + 5 * scale,
        py + 3 * scale,
        scale,
        block_colors(drop_cells()),
    )
}

/// One drop of sweat.
pub open spec fn sweat_picture(p: Seq<u8>, w: int, px: int, py: int, scale: int) -> Seq<u8> {
    painted(p, w, px, py, scale, block_colors(drop_cells()))
}

/// A large star and a small one down and to the right.
pub open spec fn stars_picture(p: Seq<u8>, w: int, px: int, py: int, scale: int) -> Seq<u8> {
    painted(
        painted(p, w, px, py, scale, block_colors(star_cells())),
        w,
        px + 7 * scale,
        py + 2 * scale,
        scale,
        block_colors(small_star_cells()),
    )
}

fn draw_zzz(img: &mut GrayCanvas, px: i32, py: i32, scale: i32)
    requires
        zzz_fits(px as int, py as int, scale as int),
    ensures
        canvas_dims(*final(img)) == canvas_dims(*old(img)),
        canvas_pixels(*final(img)) == zzz_picture(
            canvas_pixels(*old(img)),
            canvas_width(*old(img)),
            px as int,
            py as int,
            scale as int,
        ),
{
    let z1 = zzz_large_pattern();
    let z2 = zzz_medium_pattern();
    let z3 = zzz_small_pattern();
    draw_block(img, &z1, px, py, scale);
    draw_block(img, &z2, px + 5 * scale, py - 4 * scale, scale);
    draw_block(img, &z3, px + 9 * scale, py - 7 * scale, scale);
}

fn draw_drops(img: &mut GrayCanvas, px: i32, py: i32, scale: i32)
    requires
        drops_fits(px as int, py as int, scale as int),
    ensures
        canvas_dims(*final(img)) == canvas_dims(*old(img)),
        canvas_pixels(*final(img)) == drops_picture(
            canvas_pixels(*old(img)),
            canvas_width(*old(img)),
            px as int,
            py as int,
            scale as int,
        ),
{
    let d = drop_pattern();
    draw_block(img, &d, px, py, scale);
    draw_block(img, &d, px + 5 * scale, py + 3 * scale, scale);
}

fn draw_sweat(img: &mut GrayCanvas, px: i32, py: i32, scale: i32)
    requires
        sweat_fits(px as int, py as int, scale as int),
    ensures
        canvas_dims(*final(img)) == canvas_dims(*old(img)),
        canvas_pixels(*final(img)) == sweat_picture(
            canvas_pixels(*old(img)),
            canvas_width(*old(img)),
            px as int,
            py as int,
            scale as int,
        ),
{
    let d = drop_pattern();
    draw_block(img, &d, px, py, scale);
}

fn draw_stars(img: &mut GrayCanvas, px: i32, py: i32, scale: i32)
    requires
        stars_fits(px as int, py as int, scale as int),
    ensures
        canvas_dims(*final(img)) == canvas_dims(*old(img)),
        canvas_pixels(*final(img)) == stars_picture(
            canvas_pixels(*old(img)),
            canvas_width(*old(img)),
            px as int,
            py as int,
            scale as int,
        ),
{
    let st = star_pattern();
    let sm = small_star_pattern();
    draw_block(img, &st, px, py, scale);
    draw_block(img, &sm, px + 7 * scale, py + 2 * scale, scale);
}

/// The colors of the sprite for a mood, as drawn, mirrored if `flipped`.
pub open spec fn pet_colors(state: PetState, flipped: bool) -> spec_fn(int, int) -> Option<u8> {
    |gx: int, gy: int|
        if 0 <= gx < SW && 0 <= gy < SH {
            grid_color(grid_cell(sprite_rows(state), mirrored(gx, flipped), gy))
        } else {
            None
        }
}

/// Where the decorations go on the pet's facing side: to its right, or to
/// its left when it is mirrored.
pub open spec fn pet_right(x: int, scale: int, flipped: bool) -> int {
    if flipped {
        x - 6 * scale
    } else {
        x + (SW + 1) * scale
    }
}

/// Where the decorations go on the pet's other side.
pub open spec fn pet_left(x: int, scale: int, flipped: bool) -> int {
    if flipped {
        x + (SW + 1) * scale
    } else {
        x - 5 * scale
    }
}

/// The pixels after drawing the pet: its sprite, then the decorations of
/// its mood (Zzz when sleeping, rain drops on both sides when rainy, a drop
/// of sweat when hot, stars on both sides when stargazing).
pub open spec fn pet_picture(
    p: Seq<u8>,
    w: int,
    state: PetState,
    x: int,
    y: int,
    scale: int,
    flipped: bool,
) -> Seq<u8> {
    let base = painted(p, w, x, y, scale, pet_colors(state, flipped));
    let right = pet_right(x, scale, flipped);
    let left = pet_left(x, scale, flipped);
    match state {
        PetState::Sleeping => zzz_picture(base, w, right, y + 2 * scale, scale),
        PetState::Rainy => drops_picture(
            drops_picture(base, w, left, y + 3 * scale, scale),
            w,
            right + scale,
            y + 5 * scale,
            scale,
        ),
        PetState::Hot => sweat_picture(base, w, right, y + 4 * scale, scale),
        PetState::Stargazing => stars_picture(
            stars_picture(base, w, left + 2 * scale, y - 4 * scale, scale),
            w,
            right,
            y - 3 * scale,
            scale,
        ),
        _ => base,
    }
}

/// Positions and scales for which every coordinate that drawing the pet in
/// this mood computes fits in an `i32`: the sprite's cells, the two
/// decoration anchors, and the decorations of the mood.
pub open spec fn pet_fits(state: PetState, x: int, y: int, scale: int, flipped: bool) -> bool {
    let right = pet_right(x, scale, flipped);
    let left = pet_left(x, scale, flipped);
    &&& cells_fit(x, y, scale, SW as int, SH as int)
    &&& shift_fits(x, SW + 1, scale)
    &&& if flipped {
        shift_fits(x, -6, scale)
    } else {
        shift_fits(x, -5, scale)
    }
    &&& match state {
        PetState::Sleeping => shift_fits(y, 2, scale) && zzz_fits(right, y + 2 * scale, scale),
        PetState::Rainy => shift_fits(y, 3, scale) && drops_fits(left, y + 3 * scale, scale)
            && shift_fits(right, 1, scale) && shift_fits(y, 5, scale) && drops_fits(
            right + scale,
            y + 5 * scale,
            scale,
        ),
        PetState::Hot => shift_fits(y, 4, scale) && sweat_fits(right, y + 4 * scale, scale),
        PetState::Stargazing => shift_fits(left, 2, scale) && shift_fits(y, -4, scale) && stars_fits(
            left + 2 * scale,
            y - 4 * scale,
            scale,
        ) && shift_fits(y, -3, scale) && stars_fits(right, y - 3 * scale, scale),
        _ => true,
    }
}

/// Draws the pet with its top-left corner at `(x, y)`, `scale` pixels per
/// grid cell. If `flipped`, the sprite is mirrored horizontally (walking
/// left) and its decorations change sides.
pub fn draw_pet(img: &mut GrayCanvas, state: PetState, x: i32, y: i32, scale: i32, flipped: bool)
    requires
        pet_fits(state, x as int, y as int, scale as int, flipped),
    ensures
        canvas_dims(*final(img)) == canvas_dims(*old(img)),
        canvas_pixels(*final(img)) == pet_picture(
            canvas_pixels(*old(img)),
            canvas_width(*old(img)),
            state,
            x as int,
            y as int,
            scale as int,
            flipped,
        ),
{
    let grid = match state {
        PetState::Happy => happy(),
        PetState::Sleeping => sleeping(),
        PetState::Rainy => rainy(),
        PetState::Hot => hot(),
        PetState::Cold => cold(),
        PetState::Stargazing => stargazing(),
    };
    let ghost w = canvas_width(*img);
    let ghost start = canvas_pixels(*img);
    draw_grid(img, &grid, x, y, scale, flipped);
    proof {
        assert forall|a: int, b: int| #[trigger] sprite_colors(grid, flipped)(a, b) == pet_colors(
            state,
            flipped,
        )(a, b) by {
            if 0 <= a < SW && 0 <= b < SH {
                assert(0 <= mirrored(a, flipped) < SW);
            }
        }
        lemma_paint_same(start, w, x as int, y as int, scale as int, sprite_colors(grid, flipped),
            pet_colors(state, flipped));
    }
    let right = if flipped { x - 6 * scale } else { x + (SW as i32 + 1) * scale };
    let left = if flipped { x + (SW as i32 + 1) * scale } else { x - 5 * scale };
    match state {
        PetState::Sleeping => draw_zzz(img, right, y + 2 * scale, scale),
        PetState::Rainy => {
            draw_drops(img, left, y + 3 * scale, scale);
            draw_drops(img, right + scale, y + 5 * scale, scale);
        },
        PetState::Hot => draw_sweat(img, right, y + 4 * scale, scale),
        PetState::Stargazing => {
            draw_stars(img, left + 2 * scale, y - 4 * scale, scale);
            draw_stars(img, right, y - 3 * scale, scale);
        },
        _ => {},
    }
}

/// Whether it is night: from 22:00 to 06:00.
pub open spec fn is_night(hour: u32) -> bool {
    hour >= 22 || hour < 6
}

/// WMO weather codes of rain: drizzle, rain, freezing rain, showers, thunderstorms.
pub open spec fn is_rain_code(code: i64) -> bool {
    (51 <= code <= 67) || (80 <= code <= 82) || code == 95 || code == 96 || code == 99
}

/// WMO weather codes of snow: snowfall, snow grains, snow showers.
pub open spec fn is_snow_code(code: i64) -> bool {
    (71 <= code <= 77) || code == 85 || code == 86
}

/// The pet's mood for the hour, the weather code, whether it is hot (above
/// 30 °C), whether it is freezing (below 0 °C), and whether the moon is near
/// full (its phase strictly between 0.47 and 0.53).
pub open spec fn mood(hour: u32, weather_code: i64, hot: bool, freezing: bool, near_full_moon: bool) -> PetState {
    if is_night(hour) {
        if near_full_moon {
            PetState::Stargazing
        } else {
            PetState::Sleeping
        }
    } else if is_rain_code(weather_code) {
        PetState::Rainy
    } else if is_snow_code(weather_code) {
        PetState::Cold
    } else if hot {
        PetState::Hot
    } else if freezing {
        PetState::Cold
    } else if near_full_moon && hour >= 18 {
        PetState::Stargazing
    } else {
        PetState::Happy
    }
}

/// Picks the pet's mood. At night the pet sleeps, or gazes at a near-full
/// moon; by day rain makes it rainy, snow cold, heat hot, frost cold, and a
/// near-full moon from 18:00 makes it stargaze; otherwise it is happy.
pub fn pick_state(hour: u32, weather_code: i64, hot: bool, freezing: bool, near_full_moon: bool) -> (state: PetState)
    ensures
        state == mood(hour, weather_code, hot, freezing, near_full_moon),
{
    if hour >= 22 || hour < 6 {
        if near_full_moon {
            return PetState::Stargazing;
        }
        return PetState::Sleeping;
    }
    if (51 <= weather_code && weather_code <= 67) || (80 <= weather_code && weather_code <= 82)
        || weather_code == 95 || weather_code == 96 || weather_code == 99 {
        return PetState::Rainy;
    }
    if (71 <= weather_code && weather_code <= 77) || weather_code == 85 || weather_code == 86 {
        return PetState::Cold;
    }
    if hot {
        return PetState::Hot;
    }
    if freezing {
        return PetState::Cold;
    }
    if near_full_moon && hour >= 18 {
        return PetState::Stargazing;
    }
    PetState::Happy
}

/// The color the pet's sprite gives pixel `(px_x, px_y)` when drawn at
/// `(x, y)`, if any.
pub open spec fn sprite_pixel(
    state: PetState,
    x: int,
    y: int,
    scale: int,
    flipped: bool,
    px_x: int,
    px_y: int,
) -> Option<u8> {
    pet_colors(state, flipped)((px_x - x) / scale, (px_y - y) / scale)
}

/// Flipping mirrors the sprite: the flipped sprite colors each pixel as the
/// unflipped one colors its mirror image across the sprite's vertical middle.
pub proof fn law_flipped_sprite_is_mirror(
    state: PetState,
    x: int,
    y: int,
    scale: int,
    px_x: int,
    px_y: int,
)
    requires
        scale > 0,
    ensures
        sprite_pixel(state, x, y, scale, true, px_x, px_y) == sprite_pixel(
            state,
            x,
            y,
            scale,
            false,
            2 * x + SW * scale - 1 - px_x,
            px_y,
        ),
{
    let u = px_x - x;
    let q = u / scale;
    let r = u % scale;
    lemma_fundamental_div_mod(u, scale);
    vstd::arithmetic::div_mod::lemma_mod_bound(u, scale);
    assert(u == q * scale + r) by (nonlinear_arith)
        requires u == scale * q + r;
    let m = 2 * x + SW * scale - 1 - px_x - x;
    assert(m == (SW - q - 1) * scale + (scale - 1 - r)) by (nonlinear_arith)
        requires m == SW * scale - 1 - u, u == q * scale + r;
    lemma_fundamental_div_mod_converse(m, scale, SW - q - 1, scale - 1 - r);
}

/// The sprite colors only pixels within its box of `SW` by `SH` cells.
pub proof fn law_sprite_stays_in_box(
    state: PetState,
    x: int,
    y: int,
    scale: int,
    flipped: bool,
    px_x: int,
    px_y: int,
)
    requires
        scale > 0,
        sprite_pixel(state, x, y, scale, flipped, px_x, px_y) is Some,
    ensures
        x <= px_x < x + SW * scale,
        y <= px_y < y + SH * scale,
{
    let gx = (px_x - x) / scale;
    let gy = (px_y - y) / scale;
    crate::canvas::lemma_cell_of(px_x, x, scale, gx);
    crate::canvas::lemma_cell_of(px_y, y, scale, gy);
    assert(0 <= gx < SW && 0 <= gy < SH);
    assert(x + gx * scale + scale <= x + SW * scale) by (nonlinear_arith)
        requires gx < SW, scale > 0;
    assert(x <= x + gx * scale) by (nonlinear_arith)
        requires gx >= 0, scale > 0;
    assert(y + gy * scale + scale <= y + SH * scale) by (nonlinear_arith)
        requires gy < SH, scale > 0;
    assert(y <= y + gy * scale) by (nonlinear_arith)
        requires gy >= 0, scale > 0;
}

/// The decorations change sides with the pet: flipped, its far-side
/// decorations go where the facing-side ones of the unflipped pet go, and
/// its facing-side ones one cell further out than the unflipped far side.
pub proof fn law_decorations_flip_sides(x: int, scale: int)
    ensures
        pet_left(x, scale, true) == pet_right(x, scale, false),
        pet_right(x, scale, true) == pet_left(x, scale, false) - scale,
{
}

/// At night (22:00 to 06:00) the pet sleeps, or gazes at a near-full moon,
/// whatever the weather.
pub proof fn law_night_moods(hour: u32, weather_code: i64, hot: bool, freezing: bool, near_full_moon: bool)
    requires
        is_night(hour),
    ensures
        mood(hour, weather_code, hot, freezing, near_full_moon) == (if near_full_moon {
            PetState::Stargazing
        } else {
            PetState::Sleeping
        }),
{
}

/// By day (6:00 to 21:59) rain codes (51 to 67, 80 to 82, 95, 96, 99) make
/// the pet rainy and snow codes (71 to 77, 85, 86) cold, whatever the
/// temperature and the moon; otherwise heat makes it hot, frost cold, a
/// near-full moon from 18:00 makes it stargaze, and it is happy else.
pub proof fn law_day_moods(hour: u32, weather_code: i64, hot: bool, freezing: bool, near_full_moon: bool)
    requires
        6 <= hour < 22,
    ensures
        (51 <= weather_code <= 67 || 80 <= weather_code <= 82 || weather_code == 95 || weather_code == 96
            || weather_code == 99) ==> mood(hour, weather_code, hot, freezing, near_full_moon)
            == PetState::Rainy,
        (71 <= weather_code <= 77 || weather_code == 85 || weather_code == 86) ==> mood(
            hour,
            weather_code,
            hot,
            freezing,
            near_full_moon,
        ) == PetState::Cold,
        !(51 <= weather_code <= 67 || 80 <= weather_code <= 82 || weather_code == 95 || weather_code
            == 96 || weather_code == 99 || 71 <= weather_code <= 77 || weather_code == 85 || weather_code
            == 86) ==> mood(hour, weather_code, hot, freezing, near_full_moon) == (if hot {
            PetState::Hot
        } else if freezing {
            PetState::Cold
        } else if near_full_moon && hour >= 18 {
            PetState::Stargazing
        } else {
            PetState::Happy
        }),
{
}

/// Painting a block pattern in black keeps black pixels black, and makes
/// black every pixel in a 1-cell of the pattern.
proof fn lemma_block_layer_black(q: Seq<u8>, w: int, px: int, py: int, scale: int, pat: Seq<Seq<u8>>, i: int)
    requires
        scale >= 1,
        0 <= i < q.len(),
        q[i] == BLACK || block_colors(pat)((i % w - px) / scale, (i / w - py) / scale) is Some,
    ensures
        painted(q, w, px, py, scale, block_colors(pat))[i] == BLACK,
{
}

/// A rainy pet has a pair of rain drops on each side: drop cells (the middle
/// cell of the top and bottom rows, all three cells of the two middle rows)
/// are black at `(x - 5 * scale, y + 3 * scale)` and, the second drop of the
/// pair, `5` cells right and `3` down; and at `(x + 17 * scale, y + 5 * scale)`
/// and `5` right, `3` down from there. Flipped, the pairs change sides: at
/// `(x + 16 * scale, y + 3 * scale)` and at `(x - 5 * scale, y + 5 * scale)`.
pub proof fn law_rainy_pet_has_drops(
    p: Seq<u8>,
    w: int,
    x: int,
    y: int,
    scale: int,
    flipped: bool,
    ax: int,
    ay: int,
    gx: int,
    gy: int,
    dx: int,
    dy: int,
)
    requires
        scale >= 1,
        w > 0,
        0 <= dx < scale,
        0 <= dy < scale,
        ((gy == 0 || gy == 3) && gx == 1) || ((gy == 1 || gy == 2) && 0 <= gx < 3),
        (ax == (if flipped { x + 16 * scale } else { x - 5 * scale }) && ay == y + 3 * scale)
            || (ax == (if flipped { x + 21 * scale } else { x }) && ay == y + 6 * scale)
            || (ax == (if flipped { x - 5 * scale } else { x + 17 * scale }) && ay == y + 5 * scale)
            || (ax == (if flipped { x } else { x + 22 * scale }) && ay == y + 8 * scale),
        0 <= ax + gx * scale + dx < w,
        0 <= ay + gy * scale + dy,
        (ay + gy * scale + dy) * w + ax + gx * scale + dx < p.len(),
    ensures
        pet_picture(p, w, PetState::Rainy, x, y, scale, flipped)[(ay + gy * scale + dy) * w + ax + gx
            * scale + dx] == 0,
{
    let px = ax + gx * scale + dx;
    let py = ay + gy * scale + dy;
    let i = py * w + px;
    lemma_coords(w, px, py);
    assert(0 <= i) by (nonlinear_arith)
        requires i == py * w + px, 0 <= py, 0 <= px, w > 0;
    crate::canvas::lemma_cell_of(px, ax, scale, gx);
    crate::canvas::lemma_cell_of(py, ay, scale, gy);
    assert(block_colors(drop_cells())(gx, gy) is Some);
    let base = painted(p, w, x, y, scale, pet_colors(PetState::Rainy, flipped));
    let left = pet_left(x, scale, flipped);
    let right = pet_right(x, scale, flipped);
    let l1 = painted(base, w, left, y + 3 * scale, scale, block_colors(drop_cells()));
    let l2 = painted(l1, w, left + 5 * scale, y + 6 * scale, scale, block_colors(drop_cells()));
    let l3 = painted(l2, w, right + scale, y + 5 * scale, scale, block_colors(drop_cells()));
    let l4 = painted(l3, w, right + scale + 5 * scale, y + 5 * scale + 3 * scale, scale, block_colors(drop_cells()));
    assert(pet_picture(p, w, PetState::Rainy, x, y, scale, flipped) == l4);
    if ax == left && ay == y + 3 * scale {
        lemma_block_layer_black(base, w, left, y + 3 * scale, scale, drop_cells(), i);
        lemma_block_layer_black(l1, w, left + 5 * scale, y + 6 * scale, scale, drop_cells(), i);
        lemma_block_layer_black(l2, w, right + scale, y + 5 * scale, scale, drop_cells(), i);
        lemma_block_layer_black(l3, w, right + scale + 5 * scale, y + 5 * scale + 3 * scale, scale, drop_cells(), i);
    } else if ax == left + 5 * scale && ay == y + 6 * scale {
        lemma_block_layer_black(l1, w, left + 5 * scale, y + 6 * scale, scale, drop_cells(), i);
        lemma_block_layer_black(l2, w, right + scale, y + 5 * scale, scale, drop_cells(), i);
        lemma_block_layer_black(l3, w, right + scale + 5 * scale, y + 5 * scale + 3 * scale, scale, drop_cells(), i);
    } else if ax == right + scale && ay == y + 5 * scale {
        lemma_block_layer_black(l2, w, right + scale, y + 5 * scale, scale, drop_cells(), i);
        lemma_block_layer_black(l3, w, right + scale + 5 * scale, y + 5 * scale + 3 * scale, scale, drop_cells(), i);
    } else {
        lemma_block_layer_black(l3, w, right + scale + 5 * scale, y + 5 * scale + 3 * scale, scale, drop_cells(), i);
    }
}

/// A sleeping pet has its "Zzz" on its facing side, each letter smaller and
/// higher up: a 4-cell Z (full top and bottom rows, the diagonal at cells
/// (2, 1) and (1, 2)) at `(x + 16 * scale, y + 2 * scale)`, a 3-cell Z (full
/// top and bottom rows, the middle cell between) 5 cells right and 4 up, and
/// a 2 by 2 block 9 cells right and 7 up of the first; flipped, the first Z
/// is at `(x - 6 * scale, y + 2 * scale)`. Every cell of them is black.
pub proof fn law_sleeping_pet_has_zzz(
    p: Seq<u8>,
    w: int,
    x: int,
    y: int,
    scale: int,
    flipped: bool,
    k: int,
    gx: int,
    gy: int,
    dx: int,
    dy: int,
)
    requires
        scale >= 1,
        w > 0,
        0 <= dx < scale,
        0 <= dy < scale,
        0 <= k < 3,
        k == 0 ==> ((gy == 0 || gy == 3) && 0 <= gx < 4) || (gy == 1 && gx == 2) || (gy == 2 && gx == 1),
        k == 1 ==> ((gy == 0 || gy == 2) && 0 <= gx < 3) || (gy == 1 && gx == 1),
        k == 2 ==> 0 <= gx < 2 && 0 <= gy < 2,
        0 <= (if flipped { x - 6 * scale } else { x + 16 * scale }) + (if k == 0 { 0int } else if k == 1 { 5int } else { 9int }) * scale + gx * scale + dx < w,
        0 <= y + 2 * scale - (if k == 0 { 0int } else if k == 1 { 4int } else { 7int }) * scale + gy * scale + dy,
        (y + 2 * scale - (if k == 0 { 0int } else if k == 1 { 4int } else { 7int }) * scale + gy * scale + dy) * w
            + (if flipped { x - 6 * scale } else { x + 16 * scale }) + (if k == 0 { 0int } else if k == 1 { 5int } else { 9int }) * scale + gx * scale + dx < p.len(),
    ensures
        pet_picture(p, w, PetState::Sleeping, x, y, scale, flipped)[(y + 2 * scale - (if k == 0 { 0int } else if k == 1 { 4int } else { 7int }) * scale + gy * scale + dy) * w
            + (if flipped { x - 6 * scale } else { x + 16 * scale }) + (if k == 0 { 0int } else if k == 1 { 5int } else { 9int }) * scale + gx * scale + dx] == 0,
{
    let right = pet_right(x, scale, flipped);
    let ax = right + (if k == 0 { 0int } else if k == 1 { 5int } else { 9int }) * scale;
    let ay = y + 2 * scale - (if k == 0 { 0int } else if k == 1 { 4int } else { 7int }) * scale;
    let px = ax + gx * scale + dx;
    let py = ay + gy * scale + dy;
    let i = py * w + px;
    lemma_coords(w, px, py);
    assert(0 <= i) by (nonlinear_arith)
        requires i == py * w + px, 0 <= py, 0 <= px, w > 0;
    crate::canvas::lemma_cell_of(px, ax, scale, gx);
    crate::canvas::lemma_cell_of(py, ay, scale, gy);
    let base = painted(p, w, x, y, scale, pet_colors(PetState::Sleeping, flipped));
    let l1 = painted(base, w, right, y + 2 * scale, scale, block_colors(zzz_large_cells()));
    let l2 = painted(l1, w, right + 5 * scale, y + 2 * scale - 4 * scale, scale, block_colors(zzz_medium_cells()));
    let l3 = painted(l2, w, right + 9 * scale, y + 2 * scale - 7 * scale, scale, block_colors(zzz_small_cells()));
    assert(pet_picture(p, w, PetState::Sleeping, x, y, scale, flipped) == l3);
    if k == 0 {
        assert(block_colors(zzz_large_cells())(gx, gy) is Some);
        lemma_block_layer_black(base, w, right, y + 2 * scale, scale, zzz_large_cells(), i);
        lemma_block_layer_black(l1, w, right + 5 * scale, y + 2 * scale - 4 * scale, scale, zzz_medium_cells(), i);
        lemma_block_layer_black(l2, w, right + 9 * scale, y + 2 * scale - 7 * scale, scale, zzz_small_cells(), i);
    } else if k == 1 {
        assert(block_colors(zzz_medium_cells())(gx, gy) is Some);
        lemma_block_layer_black(l1, w, right + 5 * scale, y + 2 * scale - 4 * scale, scale, zzz_medium_cells(), i);
        lemma_block_layer_black(l2, w, right + 9 * scale, y + 2 * scale - 7 * scale, scale, zzz_small_cells(), i);
    } else {
        assert(block_colors(zzz_small_cells())(gx, gy) is Some);
        lemma_block_layer_black(l2, w, right + 9 * scale, y + 2 * scale - 7 * scale, scale, zzz_small_cells(), i);
    }
}

/// A hot pet has a drop of sweat on its facing side: drop cells (the middle
/// cell of the top and bottom rows, all three cells of the two middle rows)
/// at `(x + 16 * scale, y + 4 * scale)`, or `(x - 6 * scale, y + 4 * scale)`
/// flipped, are black.
pub proof fn law_hot_pet_sweats(
    p: Seq<u8>,
    w: int,
    x: int,
    y: int,
    scale: int,
    flipped: bool,
    gx: int,
    gy: int,
    dx: int,
    dy: int,
)
    requires
        scale >= 1,
        w > 0,
        0 <= dx < scale,
        0 <= dy < scale,
        ((gy == 0 || gy == 3) && gx == 1) || ((gy == 1 || gy == 2) && 0 <= gx < 3),
        0 <= (if flipped { x - 6 * scale } else { x + 16 * scale }) + gx * scale + dx < w,
        0 <= y + 4 * scale + gy * scale + dy,
        (y + 4 * scale + gy * scale + dy) * w + (if flipped { x - 6 * scale } else { x + 16 * scale })
            + gx * scale + dx < p.len(),
    ensures
        pet_picture(p, w, PetState::Hot, x, y, scale, flipped)[(y + 4 * scale + gy * scale + dy) * w
            + (if flipped { x - 6 * scale } else { x + 16 * scale }) + gx * scale + dx] == 0,
{
    let ax = pet_right(x, scale, flipped);
    let ay = y + 4 * scale;
    let px = ax + gx * scale + dx;
    let py = ay + gy * scale + dy;
    let i = py * w + px;
    lemma_coords(w, px, py);
    assert(0 <= i) by (nonlinear_arith)
        requires i == py * w + px, 0 <= py, 0 <= px, w > 0;
    crate::canvas::lemma_cell_of(px, ax, scale, gx);
    crate::canvas::lemma_cell_of(py, ay, scale, gy);
    assert(block_colors(drop_cells())(gx, gy) is Some);
    let base = painted(p, w, x, y, scale, pet_colors(PetState::Hot, flipped));
    lemma_block_layer_black(base, w, ax, ay, scale, drop_cells(), i);
}

/// A stargazing pet has two pairs of stars, a large plus sign (five cells
/// across and five down through the middle) and a small one (three and
/// three) 7 cells right and 2 down of it: one pair with the large star at
/// `(x - 3 * scale, y - 4 * scale)` and one at `(x + 16 * scale, y - 3 * scale)`;
/// flipped, at `(x + 18 * scale, y - 4 * scale)` and `(x - 6 * scale, y - 3 * scale)`.
/// Every cell of them is black.
pub proof fn law_stargazing_pet_has_stars(
    p: Seq<u8>,
    w: int,
    x: int,
    y: int,
    scale: int,
    flipped: bool,
    pair: int,
    small: bool,
    gx: int,
    gy: int,
    dx: int,
    dy: int,
)
    requires
        scale >= 1,
        w > 0,
        0 <= dx < scale,
        0 <= dy < scale,
        pair == 0 || pair == 1,
        !small ==> (gy == 2 && 0 <= gx < 5) || (gx == 2 && 0 <= gy < 5),
        small ==> (gy == 1 && 0 <= gx < 3) || (gx == 1 && 0 <= gy < 3),
        0 <= (if pair == 0 { if flipped { x + 18 * scale } else { x - 3 * scale } } else { if flipped { x - 6 * scale } else { x + 16 * scale } })
            + (if small { 7 * scale } else { 0int }) + gx * scale + dx < w,
        0 <= (if pair == 0 { y - 4 * scale } else { y - 3 * scale }) + (if small { 2 * scale } else { 0int }) + gy * scale + dy,
        ((if pair == 0 { y - 4 * scale } else { y - 3 * scale }) + (if small { 2 * scale } else { 0int }) + gy * scale + dy) * w
            + (if pair == 0 { if flipped { x + 18 * scale } else { x - 3 * scale } } else { if flipped { x - 6 * scale } else { x + 16 * scale } })
            + (if small { 7 * scale } else { 0int }) + gx * scale + dx < p.len(),
    ensures
        pet_picture(p, w, PetState::Stargazing, x, y, scale, flipped)[((if pair == 0 { y - 4 * scale } else { y - 3 * scale }) + (if small { 2 * scale } else { 0int }) + gy * scale + dy) * w
            + (if pair == 0 { if flipped { x + 18 * scale } else { x - 3 * scale } } else { if flipped { x - 6 * scale } else { x + 16 * scale } })
            + (if small { 7 * scale } else { 0int }) + gx * scale + dx] == 0,
{
    let left = pet_left(x, scale, flipped);
    let right = pet_right(x, scale, flipped);
    let bx = if pair == 0 { left + 2 * scale } else { right };
    let by = if pair == 0 { y - 4 * scale } else { y - 3 * scale };
    let ax = bx + (if small { 7 * scale } else { 0int });
    let ay = by + (if small { 2 * scale } else { 0int });
    let px = ax + gx * scale + dx;
    let py = ay + gy * scale + dy;
    let i = py * w + px;
    lemma_coords(w, px, py);
    assert(0 <= i) by (nonlinear_arith)
        requires i == py * w + px, 0 <= py, 0 <= px, w > 0;
    crate::canvas::lemma_cell_of(px, ax, scale, gx);
    crate::canvas::lemma_cell_of(py, ay, scale, gy);
    let base = painted(p, w, x, y, scale, pet_colors(PetState::Stargazing, flipped));
    let l1 = painted(base, w, left + 2 * scale, y - 4 * scale, scale, block_colors(star_cells()));
    let l2 = painted(l1, w, left + 2 * scale + 7 * scale, y - 4 * scale + 2 * scale, scale, block_colors(small_star_cells()));
    let l3 = painted(l2, w, right, y - 3 * scale, scale, block_colors(star_cells()));
    let l4 = painted(l3, w, right + 7 * scale, y - 3 * scale + 2 * scale, scale, block_colors(small_star_cells()));
    assert(pet_picture(p, w, PetState::Stargazing, x, y, scale, flipped) == l4);
    if small {
        assert(block_colors(small_star_cells())(gx, gy) is Some);
    } else {
        assert(block_colors(star_cells())(gx, gy) is Some);
    }
    if pair == 0 && !small {
        lemma_block_layer_black(base, w, left + 2 * scale, y - 4 * scale, scale, star_cells(), i);
    }
    if pair == 0 {
        lemma_block_layer_black(l1, w, left + 2 * scale + 7 * scale, y - 4 * scale + 2 * scale, scale, small_star_cells(), i);
    }
    if pair == 0 || !small {
        lemma_block_layer_black(l2, w, right, y - 3 * scale, scale, star_cells(), i);
    }
    lemma_block_layer_black(l3, w, right + 7 * scale, y - 3 * scale + 2 * scale, scale, small_star_cells(), i);
}

/// Sprite text: `'#'` is an outline cell (code 1), `'.'` a filled cell
/// (code 2), any other character an empty one (code 0); outline cells are
/// drawn black, filled cells white, and empty cells not at all.
pub proof fn law_cell_codes(ch: char)
    ensures
        cell_code(ch) == (if ch == '#' {
            1u8
        } else if ch == '.' {
            2u8
        } else {
            0u8
        }),
        grid_color(1) == Some(0u8),
        grid_color(2) == Some(255u8),
        grid_color(0) is None,
{
}

/// A happy or cold pet, drawn unflipped, paints the cell in column `gx`
/// and row `gy` of its sprite black where the cell's code is 1 (outline),
/// white where it is 2 (fill), and leaves the pixels of the other cells as
/// they were; flipped, cell `gx` shows the code of column `14 - gx`.
pub proof fn law_pet_sprite_cells(
    p: Seq<u8>,
    w: int,
    state: PetState,
    x: int,
    y: int,
    scale: int,
    flipped: bool,
    gx: int,
    gy: int,
    dx: int,
    dy: int,
)
    requires
        state == PetState::Happy || state == PetState::Cold,
        scale >= 1,
        w > 0,
        0 <= gx < 15,
        0 <= gy < 16,
        0 <= dx < scale,
        0 <= dy < scale,
        0 <= x + gx * scale + dx < w,
        0 <= y + gy * scale + dy,
        (y + gy * scale + dy) * w + x + gx * scale + dx < p.len(),
    ensures
        ({
            let code = grid_cell(sprite_rows(state), if flipped { 14 - gx } else { gx }, gy);
            let i = (y + gy * scale + dy) * w + x + gx * scale + dx;
            pet_picture(p, w, state, x, y, scale, flipped)[i] == (if code == 1 {
                0u8
            } else if code == 2 {
                255u8
            } else {
                p[i]
            })
        }),
{
    let px = x + gx * scale + dx;
    let py = y + gy * scale + dy;
    let i = py * w + px;
    lemma_coords(w, px, py);
    assert(0 <= i) by (nonlinear_arith)
        requires i == py * w + px, 0 <= py, 0 <= px, w > 0;
    crate::canvas::lemma_cell_of(px, x, scale, gx);
    crate::canvas::lemma_cell_of(py, y, scale, gy);
}

/// Widths and heights of the decoration patterns.
proof fn lemma_pattern_sizes()
    ensures
        pattern_width(zzz_large_cells()) == 4 && zzz_large_cells().len() == 4,
        pattern_width(zzz_medium_cells()) == 3 && zzz_medium_cells().len() == 3,
        pattern_width(zzz_small_cells()) == 2 && zzz_small_cells().len() == 2,
        pattern_width(drop_cells()) == 3 && drop_cells().len() == 4,
        pattern_width(star_cells()) == 5 && star_cells().len() == 5,
        pattern_width(small_star_cells()) == 3 && small_star_cells().len() == 3,
{
    reveal_with_fuel(pattern_width, 6);
    assert(zzz_large_cells().drop_last().drop_last().drop_last().drop_last() =~= Seq::<Seq<u8>>::empty());
    assert(zzz_medium_cells().drop_last().drop_last().drop_last() =~= Seq::<Seq<u8>>::empty());
    assert(zzz_small_cells().drop_last().drop_last() =~= Seq::<Seq<u8>>::empty());
    assert(drop_cells().drop_last().drop_last().drop_last().drop_last() =~= Seq::<Seq<u8>>::empty());
    assert(star_cells().drop_last().drop_last().drop_last().drop_last().drop_last() =~= Seq::<Seq<u8>>::empty());
    assert(small_star_cells().drop_last().drop_last().drop_last() =~= Seq::<Seq<u8>>::empty());
}

/// Bound on the magnitudes that the overflow checks below compute with.
spec fn small(v: int) -> bool {
    -0x100_0000_0000 <= v <= 0x100_0000_0000
}

fn fits_i32(v: i64) -> (b: bool)
    ensures
        b == in_i32(v as int),
{
    v >= -2147483648i64 && v <= 2147483647i64
}

fn shift_check(p: i64, k: i64, scale: i64) -> (b: bool)
    requires
        small(p as int),
        -32 <= k <= 32,
        -0x1_0000_0000 <= scale <= 0x1_0000_0000,
    ensures
        b == shift_fits(p as int, k as int, scale as int),
{
    assert(-0x20_0000_0000 <= (k as int) * (scale as int) <= 0x20_0000_0000) by (nonlinear_arith)
        requires -32 <= k <= 32, -0x1_0000_0000 <= scale <= 0x1_0000_0000;
    let ak = if k < 0 { -k } else { k };
    assert(-0x20_0000_0000 <= (ak as int) * (scale as int) <= 0x20_0000_0000) by (nonlinear_arith)
        requires 0 <= ak <= 32, -0x1_0000_0000 <= scale <= 0x1_0000_0000;
    fits_i32(ak * scale) && fits_i32(p + k * scale)
}

fn cells_check(px: i64, py: i64, scale: i64, cols: i64, rows: i64) -> (b: bool)
    requires
        small(px as int),
        small(py as int),
        -0x1_0000_0000 <= scale <= 0x1_0000_0000,
        0 <= cols <= 32,
        0 <= rows <= 32,
    ensures
        b == cells_fit(px as int, py as int, scale as int, cols as int, rows as int),
{
    if scale <= 0 {
        return true;
    }
    assert(0 <= (cols as int) * (scale as int) <= 0x20_0000_0000 && 0 <= (rows as int) * (scale as int) <= 0x20_0000_0000) by (nonlinear_arith)
        requires 0 <= cols <= 32, 0 <= rows <= 32, 0 < scale <= 0x1_0000_0000;
    cols * scale <= 2147483647 && rows * scale <= 2147483647 && px + cols * scale <= 2147483648
        && py + rows * scale <= 2147483648
}

/// Whether every coordinate that drawing the pet in this mood computes fits
/// in an `i32`; the condition under which `draw_pet` may be called.
pub fn pet_fits_check(state: PetState, x: i32, y: i32, scale: i32, flipped: bool) -> (b: bool)
    ensures
        b == pet_fits(state, x as int, y as int, scale as int, flipped),
{
    proof {
        lemma_pattern_sizes();
    }
    let x = x as i64;
    let y = y as i64;
    let s = scale as i64;
    let right = if flipped { x - 6 * s } else { x + 16 * s };
    let left = if flipped { x + 16 * s } else { x - 5 * s };
    let base = cells_check(x, y, s, 15, 16) && shift_check(x, 16, s) && (if flipped {
        shift_check(x, -6, s)
    } else {
        shift_check(x, -5, s)
    });
    if !base {
        return false;
    }
    match state {
        PetState::Sleeping => {
            let py = y + 2 * s;
            shift_check(y, 2, s) && cells_check(right, py, s, 4, 4) && shift_check(right, 5, s)
                && shift_check(py, -4, s) && cells_check(right + 5 * s, py - 4 * s, s, 3, 3)
                && shift_check(right, 9, s) && shift_check(py, -7, s) && cells_check(
                right + 9 * s,
                py - 7 * s,
                s,
                2,
                2,
            )
        },
        PetState::Rainy => {
            let py1 = y + 3 * s;
            let px2 = right + s;
            let py2 = y + 5 * s;
            shift_check(y, 3, s) && cells_check(left, py1, s, 3, 4) && shift_check(left, 5, s)
                && shift_check(py1, 3, s) && cells_check(left + 5 * s, py1 + 3 * s, s, 3, 4)
                && shift_check(right, 1, s) && shift_check(y, 5, s) && cells_check(px2, py2, s, 3, 4)
                && shift_check(px2, 5, s) && shift_check(py2, 3, s) && cells_check(
                px2 + 5 * s,
                py2 + 3 * s,
                s,
                3,
                4,
            )
        },
        PetState::Hot => shift_check(y, 4, s) && cells_check(right, y + 4 * s, s, 3, 4),
        PetState::Stargazing => {
            let px1 = left + 2 * s;
            let py1 = y - 4 * s;
            let py2 = y - 3 * s;
            shift_check(left, 2, s) && shift_check(y, -4, s) && cells_check(px1, py1, s, 5, 5)
                && shift_check(px1, 7, s) && shift_check(py1, 2, s) && cells_check(
                px1 + 7 * s,
                py1 + 2 * s,
                s,
                3,
                3,
            ) && shift_check(y, -3, s) && cells_check(right, py2, s, 5, 5) && shift_check(right, 7, s)
                && shift_check(py2, 2, s) && cells_check(right + 7 * s, py2 + 2 * s, s, 3, 3)
        },
        _ => true,
    }
}

/// The character that stands for a cell code in a sprite's text rows.
pub open spec fn code_char(code: u8) -> char {
    if code == 1 {
        '#'
    } else if code == 2 {
        '.'
    } else {
        ' '
    }
}

/// A cell grid written back as sixteen text rows of fifteen characters.
pub open spec fn grid_text(g: [[u8; SW]; SH]) -> Seq<Seq<char>> {
    Seq::new(SH as nat, |y: int| Seq::new(SW as nat, |x: int| code_char(g[y][x])))
}

/// Writing a parsed grid back as text rows and parsing those again gives the
/// same grid.
pub proof fn law_make_grid_round_trip(rows: Seq<Seq<char>>, g: [[u8; SW]; SH], g2: [[u8; SW]; SH])
    requires
        grid_matches(g, rows),
        grid_matches(g2, grid_text(g)),
    ensures
        forall|x: int, y: int| 0 <= x < SW && 0 <= y < SH ==> g2[y][x] == g[y][x],
{
    assert forall|x: int, y: int| 0 <= x < SW && 0 <= y < SH implies g2[y][x] == g[y][x] by {
        assert(g[y][x] == grid_cell(rows, x, y));
        assert(g2[y][x] == grid_cell(grid_text(g), x, y));
        assert(grid_text(g)[y][x] == code_char(g[y][x]));
    }
}

/// Row `y` of the sprite for a mood, as cell codes.
pub open spec fn sprite_row(state: PetState, y: int) -> Seq<u8> {
    Seq::new(SW as nat, |x: int| grid_cell(sprite_rows(state), x, y))
}

/// The sleeping sprite is the happy body with a small round mouth: it
/// differs from the happy one in row 7 only.
pub proof fn law_sleeping_sprite()
    ensures
        forall|y: int| 0 <= y < SH && y != 7 ==> #[trigger] sprite_row(PetState::Sleeping, y) == sprite_row(PetState::Happy, y),
        sprite_row(PetState::Sleeping, 7) == seq![0u8, 1u8, 2u8, 2u8, 2u8, 2u8, 1u8, 1u8, 2u8, 2u8, 2u8, 2u8, 1u8, 0u8, 0u8],
{
    assert forall|y: int| 0 <= y < SH && y != 7 implies #[trigger] sprite_row(PetState::Sleeping, y) == sprite_row(PetState::Happy, y) by {
        assert(sprite_rows(PetState::Sleeping)[y] == sprite_rows(PetState::Happy)[y]);
    }
    reveal_strlit(" #....##....#  ");
    assert(sprite_rows(PetState::Sleeping)[7] == " #....##....#  "@);
    assert(sprite_row(PetState::Sleeping, 7) =~= seq![0u8, 1u8, 2u8, 2u8, 2u8, 2u8, 1u8, 1u8, 2u8, 2u8, 2u8, 2u8, 1u8, 0u8, 0u8]);
}

/// The rainy sprite is the happy body with a zigzag mouth: it differs from
/// the happy one in row 7 only.
pub proof fn law_rainy_sprite()
    ensures
        forall|y: int| 0 <= y < SH && y != 7 ==> #[trigger] sprite_row(PetState::Rainy, y) == sprite_row(PetState::Happy, y),
        sprite_row(PetState::Rainy, 7) == seq![0u8, 1u8, 2u8, 2u8, 2u8, 1u8, 2u8, 2u8, 1u8, 2u8, 2u8, 2u8, 1u8, 0u8, 0u8],
{
    assert forall|y: int| 0 <= y < SH && y != 7 implies #[trigger] sprite_row(PetState::Rainy, y) == sprite_row(PetState::Happy, y) by {
        assert(sprite_rows(PetState::Rainy)[y] == sprite_rows(PetState::Happy)[y]);
    }
    reveal_strlit(" #...#..#...#  ");
    assert(sprite_rows(PetState::Rainy)[7] == " #...#..#...#  "@);
    assert(sprite_row(PetState::Rainy, 7) =~= seq![0u8, 1u8, 2u8, 2u8, 2u8, 1u8, 2u8, 2u8, 1u8, 2u8, 2u8, 2u8, 1u8, 0u8, 0u8]);
}

/// The hot sprite is the happy body with X_X eyes and a panting mouth: it
/// differs from the happy one in rows 6 and 8 only.
pub proof fn law_hot_sprite()
    ensures
        forall|y: int| 0 <= y < SH && y != 6 && y != 8 ==> #[trigger] sprite_row(PetState::Hot, y) == sprite_row(PetState::Happy, y),
        sprite_row(PetState::Hot, 6) == seq![0u8, 1u8, 2u8, 1u8, 2u8, 1u8, 2u8, 2u8, 1u8, 2u8, 1u8, 2u8, 1u8, 0u8, 0u8],
        sprite_row(PetState::Hot, 8) == seq![0u8, 1u8, 2u8, 2u8, 2u8, 1u8, 2u8, 2u8, 1u8, 2u8, 2u8, 2u8, 1u8, 0u8, 0u8],
{
    assert forall|y: int| 0 <= y < SH && y != 6 && y != 8 implies #[trigger] sprite_row(PetState::Hot, y) == sprite_row(PetState::Happy, y) by {
        assert(sprite_rows(PetState::Hot)[y] == sprite_rows(PetState::Happy)[y]);
    }
    reveal_strlit(" #.#.#..#.#.#  ");
    assert(sprite_rows(PetState::Hot)[6] == " #.#.#..#.#.#  "@);
    assert(sprite_row(PetState::Hot, 6) =~= seq![0u8, 1u8, 2u8, 1u8, 2u8, 1u8, 2u8, 2u8, 1u8, 2u8, 1u8, 2u8, 1u8, 0u8, 0u8]);
    reveal_strlit(" #...#..#...#  ");
    assert(sprite_rows(PetState::Hot)[8] == " #...#..#...#  "@);
    assert(sprite_row(PetState::Hot, 8) =~= seq![0u8, 1u8, 2u8, 2u8, 2u8, 1u8, 2u8, 2u8, 1u8, 2u8, 2u8, 2u8, 1u8, 0u8, 0u8]);
}

/// The cold sprite is the happy face and body with a scarf: it differs from
/// the happy one in row 10 only.
pub proof fn law_cold_sprite()
    ensures
        forall|y: int| 0 <= y < SH && y != 10 ==> #[trigger] sprite_row(PetState::Cold, y) == sprite_row(PetState::Happy, y),
        sprite_row(PetState::Cold, 10) == seq![0u8, 1u8, 2u8, 2u8, 1u8, 2u8, 2u8, 2u8, 2u8, 1u8, 2u8, 2u8, 1u8, 0u8, 0u8],
{
    assert forall|y: int| 0 <= y < SH && y != 10 implies #[trigger] sprite_row(PetState::Cold, y) == sprite_row(PetState::Happy, y) by {
        assert(sprite_rows(PetState::Cold)[y] == sprite_rows(PetState::Happy)[y]);
    }
    reveal_strlit(" #..#....#..#  ");
    assert(sprite_rows(PetState::Cold)[10] == " #..#....#..#  "@);
    assert(sprite_row(PetState::Cold, 10) =~= seq![0u8, 1u8, 2u8, 2u8, 1u8, 2u8, 2u8, 2u8, 2u8, 1u8, 2u8, 2u8, 1u8, 0u8, 0u8]);
}

/// The stargazing sprite is the happy body with big eyes, an awed mouth and
/// arms spread out: it differs from the happy one in rows 7, 8 and 10 only.
pub proof fn law_stargazing_sprite()
    ensures
        forall|y: int| 0 <= y < SH && y != 7 && y != 8 && y != 10 ==> #[trigger] sprite_row(PetState::Stargazing, y) == sprite_row(PetState::Happy, y),
        sprite_row(PetState::Stargazing, 7) == seq![0u8, 1u8, 2u8, 2u8, 1u8, 2u8, 2u8, 2u8, 2u8, 1u8, 2u8, 2u8, 1u8, 0u8, 0u8],
        sprite_row(PetState::Stargazing, 8) == seq![0u8, 1u8, 2u8, 2u8, 2u8, 2u8, 1u8, 1u8, 2u8, 2u8, 2u8, 2u8, 1u8, 0u8, 0u8],
        sprite_row(PetState::Stargazing, 10) == seq![1u8, 2u8, 2u8, 2u8, 2u8, 2u8, 2u8, 2u8, 2u8, 2u8, 2u8, 2u8, 2u8, 1u8, 0u8],
{
    assert forall|y: int| 0 <= y < SH && y != 7 && y != 8 && y != 10 implies #[trigger] sprite_row(PetState::Stargazing, y) == sprite_row(PetState::Happy, y) by {
        assert(sprite_rows(PetState::Stargazing)[y] == sprite_rows(PetState::Happy)[y]);
    }
    reveal_strlit(" #..#....#..#  ");
    assert(sprite_rows(PetState::Stargazing)[7] == " #..#....#..#  "@);
    assert(sprite_row(PetState::Stargazing, 7) =~= seq![0u8, 1u8, 2u8, 2u8, 1u8, 2u8, 2u8, 2u8, 2u8, 1u8, 2u8, 2u8, 1u8, 0u8, 0u8]);
    reveal_strlit(" #....##....#  ");
    assert(sprite_rows(PetState::Stargazing)[8] == " #....##....#  "@);
    assert(sprite_row(PetState::Stargazing, 8) =~= seq![0u8, 1u8, 2u8, 2u8, 2u8, 2u8, 1u8, 1u8, 2u8, 2u8, 2u8, 2u8, 1u8, 0u8, 0u8]);
    reveal_strlit("#............# ");
    assert(sprite_rows(PetState::Stargazing)[10] == "#............# "@);
    assert(sprite_row(PetState::Stargazing, 10) =~= seq![1u8, 2u8, 2u8, 2u8, 2u8, 2u8, 2u8, 2u8, 2u8, 2u8, 2u8, 2u8, 2u8, 1u8, 0u8]);
}

/// Drawn on a plain background, a pet in a mood without decorations
/// (happy or cold) and its flipped drawing are mirror images of each other
/// within the sprite's box.
pub proof fn law_pet_drawing_is_mirrored(
    p: Seq<u8>,
    w: int,
    h: int,
    v: u8,
    state: PetState,
    x: int,
    y: int,
    scale: int,
    i: int,
    j: int,
)
    requires
        state == PetState::Happy || state == PetState::Cold,
        scale >= 1,
        0 <= x,
        0 <= y,
        x + SW * scale <= w,
        y + SH * scale <= h,
        p.len() == w * h,
        forall|k: int| 0 <= k < p.len() ==> p[k] == v,
        0 <= i < SW * scale,
        0 <= j < SH * scale,
    ensures
        pet_picture(p, w, state, x, y, scale, true)[(y + j) * w + x + i] == pet_picture(
            p,
            w,
            state,
            x,
            y,
            scale,
            false,
        )[(y + j) * w + (x + SW * scale - 1 - i)],
{
    let a = (y + j) * w + x + i;
    let b = (y + j) * w + (x + SW * scale - 1 - i);
    lemma_coords(w, x + i, y + j);
    lemma_coords(w, x + SW * scale - 1 - i, y + j);
    assert(0 <= a < w * h && 0 <= b < w * h) by (nonlinear_arith)
        requires a == (y + j) * w + x + i, b == (y + j) * w + (x + SW * scale - 1 - i), 0 <= x + i < w,
        0 <= x + SW * scale - 1 - i < w, 0 <= y + j < h;
    law_flipped_sprite_is_mirror(state, x, y, scale, x + i, y + j);
    assert(2 * x + SW * scale - 1 - (x + i) == x + SW * scale - 1 - i);
}

/// A pet in a mood without decorations (happy or cold) leaves every pixel
/// outside its sprite's box as it was, flipped or not.
pub proof fn law_pet_keeps_outside_box(
    p: Seq<u8>,
    w: int,
    state: PetState,
    x: int,
    y: int,
    scale: int,
    flipped: bool,
    k: int,
)
    requires
        state == PetState::Happy || state == PetState::Cold,
        scale >= 1,
        w > 0,
        0 <= k < p.len(),
        !(x <= k % w < x + SW * scale && y <= k / w < y + SH * scale),
    ensures
        pet_picture(p, w, state, x, y, scale, flipped)[k] == p[k],
{
    if sprite_pixel(state, x, y, scale, flipped, k % w, k / w) is Some {
        law_sprite_stays_in_box(state, x, y, scale, flipped, k % w, k / w);
    }
}

} // verus!
