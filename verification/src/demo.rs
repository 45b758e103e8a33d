//! The demo picture: a border, three lines of title, a divider, six shapes
//! and a checkerboard, all in black ("on") on the 800x480 panel.
use vstd::prelude::*;

verus! {

/// How a shape is painted.
#[derive(Debug, Clone, Copy, PartialEq, Eq, Structural)]
pub enum Paint {
    /// Filled.
    Fill,
    /// Outlined with a stroke of this width, drawn inside the shape's edge
    /// when `inside`, centered on it otherwise.
    Stroke { width: u32, inside: bool },
}

/// One element of the demo picture, in panel pixels.
#[derive(Debug, Clone, Copy, PartialEq, Eq)]
pub enum Shape {
    /// A rectangle with top-left corner `(x, y)`.
    Rect { x: i32, y: i32, w: u32, h: u32, paint: Paint },
    /// A circle whose bounding box has top-left corner `(x, y)`.
    Circle { x: i32, y: i32, diameter: u32, paint: Paint },
    /// A triangle through three points.
    Triangle { x1: i32, y1: i32, x2: i32, y2: i32, x3: i32, y3: i32, paint: Paint },
    /// A line of text in the 10x20 monospace font, baseline-left at `(x, y)`.
    Text { text: &'static str, x: i32, y: i32 },
}

/// The outer border: three pixels wide, inside the panel's edge.
pub open spec fn border() -> Paint {
    Paint::Stroke { width: 3, inside: true }
}

/// The outline of the outlined shapes: two pixels wide, on the edge.
pub open spec fn outline() -> Paint {
    Paint::Stroke { width: 2, inside: false }
}

/// Side of a checkerboard square.
pub const SQUARE: u32 = 20;

/// Square `n` of the checkerboard: ten black squares on each of five rows of
/// twenty, starting at the left of the even rows and one square in on the
/// odd rows, so that a square's row plus column is even.
pub open spec fn checker_square(n: int) -> Shape {
    let row = n / 10;
    let col = row % 2 + 2 * (n % 10);
    Shape::Rect {
        x: (40 + col * SQUARE) as i32,
        y: (340 + row * SQUARE) as i32,
        w: SQUARE,
        h: SQUARE,
        paint: Paint::Fill,
    }
}

/// The demo picture's elements before the checkerboard, in drawing order.
pub open spec fn demo_head() -> Seq<Shape> {
    seq![
        Shape::Rect { x: 0, y: 0, w: 800, h: 480, paint: border() },
        Shape::Text { text: "XIAO 7.5\" ePaper Panel", x: 40, y: 50 },
        Shape::Text { text: "800x480 . UC8179 . ESP32-C3", x: 40, y: 80 },
        Shape::Text { text: "Rust no_std + esp-hal + embedded-graphics", x: 40, y: 110 },
        Shape::Rect { x: 30, y: 130, w: 740, h: 2, paint: Paint::Fill },
        Shape::Text { text: "shapes:", x: 40, y: 170 },
        Shape::Circle { x: 40, y: 190, diameter: 80, paint: Paint::Fill },
        Shape::Circle { x: 160, y: 190, diameter: 80, paint: outline() },
        Shape::Rect { x: 280, y: 190, w: 80, h: 80, paint: Paint::Fill },
        Shape::Rect { x: 400, y: 190, w: 80, h: 80, paint: outline() },
        Shape::Triangle { x1: 560, y1: 270, x2: 520, y2: 190, x3: 600, y3: 190, paint: Paint::Fill },
        Shape::Triangle { x1: 700, y1: 270, x2: 660, y2: 190, x3: 740, y3: 190, paint: outline() },
        Shape::Text { text: "pattern:", x: 40, y: 320 },
    ]
}

/// The whole demo picture, in drawing order.
pub open spec fn demo_picture() -> Seq<Shape> {
    demo_head() + Seq::new(50, |n: int| checker_square(n))
}

/// The demo picture's elements, in drawing order.
pub fn demo_scene() -> (scene: Vec<Shape>)
    ensures
        scene@ == demo_picture(),
{
    let filled = Paint::Fill;
    let border = Paint::Stroke { width: 3, inside: true };
    let outline = Paint::Stroke { width: 2, inside: false };
    let mut scene: Vec<Shape> = Vec::new();
    scene.push(Shape::Rect { x: 0, y: 0, w: 800, h: 480, paint: border });
    scene.push(Shape::Text { text: "XIAO 7.5\" ePaper Panel", x: 40, y: 50 });
    scene.push(Shape::Text { text: "800x480 . UC8179 . ESP32-C3", x: 40, y: 80 });
    scene.push(Shape::Text { text: "Rust no_std + esp-hal + embedded-graphics", x: 40, y: 110 });
    scene.push(Shape::Rect { x: 30, y: 130, w: 740, h: 2, paint: filled });
    scene.push(Shape::Text { text: "shapes:", x: 40, y: 170 });
    scene.push(Shape::Circle { x: 40, y: 190, diameter: 80, paint: filled });
    scene.push(Shape::Circle { x: 160, y: 190, diameter: 80, paint: outline });
    scene.push(Shape::Rect { x: 280, y: 190, w: 80, h: 80, paint: filled });
    scene.push(Shape::Rect { x: 400, y: 190, w: 80, h: 80, paint: outline });
    scene.push(
        Shape::Triangle { x1: 560, y1: 270, x2: 520, y2: 190, x3: 600, y3: 190, paint: filled },
    );
    scene.push(
        Shape::Triangle { x1: 700, y1: 270, x2: 660, y2: 190, x3: 740, y3: 190, paint: outline },
    );
    scene.push(Shape::Text { text: "pattern:", x: 40, y: 320 });
    assert(scene@ =~= demo_head());
    let sq = SQUARE;
    let mut row: u32 = 0;
    while row < 5
        invariant
            row <= 5,
            sq == SQUARE,
            filled == Paint::Fill,
            scene@ =~= demo_head() + Seq::new((10 * row) as nat, |n: int| checker_square(n)),
        decreases 5 - row,
    {
        let mut col: u32 = 0;
        while col < 20
            invariant
                col <= 20,
                row < 5,
                sq == SQUARE,
                filled == Paint::Fill,
            filled == Paint::Fill,
                scene@ =~= demo_head() + Seq::new(
                    (10 * row + (if row % 2 == 0 { (col + 1) / 2 } else { col as int / 2 })) as nat,
                    |n: int| checker_square(n),
                ),
            decreases 20 - col,
        {
            let ghost cnt: int = 10 * row + (if row % 2 == 0 { (col + 1) / 2 } else { col as int / 2 });
            let ghost cnt2: int = 10 * row + (if row % 2 == 0 { (col + 2) / 2 } else { (col + 1) as int / 2 });
            let ghost before = scene@;
            if (row + col) % 2 == 0 {
                let n = 10 * row + col / 2;
                proof {
                    assert(n / 10 == row);
                    assert(n % 10 == col / 2);
                    assert(row % 2 + 2 * (col / 2) == col);
                    assert((if row % 2 == 0 { (col + 1) / 2 } else { col as int / 2 }) == col / 2);
                }
                let item = Shape::Rect {
                    x: 40 + (col * sq) as i32,
                    y: 340 + (row * sq) as i32,
                    w: sq,
                    h: sq,
                    paint: filled,
                };
                proof {
                    let r = (n as int) / 10;
                    let c = r % 2 + 2 * ((n as int) % 10);
                    assert(r == row && c == col);
                    assert(col * sq <= 380);
                    assert(((40 + c * 20) as i32) == 40 + (col * sq) as i32);
                    assert(((340 + r * 20) as i32) == 340 + (row * sq) as i32);
                    assert(item == checker_square(n as int));
                }
                scene.push(item);
                proof {
                    assert(cnt == n && cnt2 == n + 1);
                    assert(Seq::new((n + 1) as nat, |k: int| checker_square(k)) =~= Seq::new(n as nat, |k: int| checker_square(k)).push(checker_square(n as int)));
                    assert(scene@ =~= before.push(checker_square(n as int)));
                }
            } else {
                assert(cnt == cnt2);
            }
            col = col + 1;
        }
        row = row + 1;
    }
    scene
}

/// The checkerboard has fifty squares of twenty pixels, all on its five
/// rows of twenty columns, each at an even row-plus-column, no two alike.
pub proof fn law_checkerboard(n: int, m: int)
    requires
        0 <= n < 50,
        0 <= m < 50,
        n != m,
    ensures
        checker_square(n) != checker_square(m),
        ((n / 10) + (n / 10) % 2 + 2 * (n % 10)) % 2 == 0,
        0 <= (n / 10) % 2 + 2 * (n % 10) < 20,
        0 <= n / 10 < 5,
{
}

} // verus!
