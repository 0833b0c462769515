//! The region that each command covers, and the rasteriser that paints it.
//!
//! Every shape takes its size from `height` as it stands: no multiplier is
//! applied to it, for erasing neither.  A region is a predicate on grid
//! points; painting it touches the pixels of the region that lie on the
//! canvas and no others.

use crate::canvas::{
    fill_span, in_canvas, lemma_paint_same, lemma_paint_then, lemma_pixel_offset, paint, put_pixel,
    BUFFER_LEN, HEIGHT, WIDTH,
};
use crate::codec::{all_valid, Action, ClientMessage};
use crate::line::{draw_line_fast, Segment};
use vstd::prelude::*;

verus! {

/// Width of the ring of a hollow circle, measured along the radius.
pub const RING_WIDTH: u8 = 2;

/// The square whose top-left pixel is `(x0, y0)` and whose bottom-right pixel
/// is `(x0 + side, y0 + side)`.
pub open spec fn in_square(x0: int, y0: int, side: int, px: int, py: int) -> bool {
    x0 <= px <= x0 + side && y0 <= py <= y0 + side
}

/// The last column of a span that starts on the canvas and would end at `x`.
pub open spec fn clip_column(x: int) -> int {
    if x < WIDTH - 1 {
        x
    } else {
        WIDTH - 1
    }
}

/// The last row of a span that starts on the canvas and would end at `y`.
pub open spec fn clip_row(y: int) -> int {
    if y < HEIGHT - 1 {
        y
    } else {
        HEIGHT - 1
    }
}

/// The border of the square `in_square(x, y, side, ..)` after it has been
/// clipped to the canvas: its first and last row and column, and beside each
/// of them the next row below or the next column to the right.
pub open spec fn in_frame(x: int, y: int, side: int, px: int, py: int) -> bool {
    let ex = clip_column(x + side);
    let ey = clip_row(y + side);
    ||| x <= px <= ex && (py == y || py == y + 1 || py == ey || py == ey + 1)
    ||| y <= py <= ey && (px == x || px == x + 1 || px == ex || px == ex + 1)
}

/// Square of the distance between `(px, py)` and `(cx, cy)`.
pub open spec fn distance_squared(cx: int, cy: int, px: int, py: int) -> int {
    (px - cx) * (px - cx) + (py - cy) * (py - cy)
}

/// The disc of radius `radius` around `(cx, cy)`.
pub open spec fn in_disc(cx: int, cy: int, radius: int, px: int, py: int) -> bool {
    distance_squared(cx, cy, px, py) <= radius * radius
}

/// The ring between the radius `radius - RING_WIDTH` and the radius `radius`
/// around `(cx, cy)`, both circles included.
pub open spec fn in_ring(cx: int, cy: int, radius: int, px: int, py: int) -> bool {
    (radius - RING_WIDTH) * (radius - RING_WIDTH) <= distance_squared(cx, cy, px, py) <= radius
        * radius
}

/// Cross product that tells on which side of the edge from `(ax, ay)` to
/// `(bx, by)` the point `(px, py)` lies.
pub open spec fn edge_side(px: int, py: int, ax: int, ay: int, bx: int, by: int) -> int {
    (px - ax) * (by - ay) - (py - ay) * (bx - ax)
}

/// The triangle with the three given corners, its edges included, whichever
/// way round the corners are given.
pub open spec fn in_triangle(
    px: int,
    py: int,
    x1: int,
    y1: int,
    x2: int,
    y2: int,
    x3: int,
    y3: int,
) -> bool {
    let e1 = edge_side(px, py, x1, y1, x2, y2);
    let e2 = edge_side(px, py, x2, y2, x3, y3);
    let e3 = edge_side(px, py, x3, y3, x1, y1);
    (e1 >= 0 && e2 >= 0 && e3 >= 0) || (e1 <= 0 && e2 <= 0 && e3 <= 0)
}

/// The outline of the triangle with the apex `(x, y)` and the base corners
/// `(x - h, y + 2h)` and `(x + h, y + 2h)`: three thick lines.
pub open spec fn on_triangle_outline(x: int, y: int, h: int, px: int, py: int) -> bool {
    ||| (Segment { x1: x, y1: y, x2: x - h, y2: y + 2 * h }).thick_covers(px, py)
    ||| (Segment { x1: x - h, y1: y + 2 * h, x2: x + h, y2: y + 2 * h }).thick_covers(px, py)
    ||| (Segment { x1: x + h, y1: y + 2 * h, x2: x, y2: y }).thick_covers(px, py)
}

/// Half of `v`, rounded toward zero.
pub open spec fn half_toward_zero(v: int) -> int {
    if v >= 0 {
        v / 2
    } else {
        -((-v) / 2)
    }
}

/// Distance between `a` and `b`.
pub open spec fn gap(a: int, b: int) -> int {
    if a >= b {
        a - b
    } else {
        b - a
    }
}

/// First column of the filled hexagon of size `s` around column `cx`, in a
/// row that lies `k` rows above or below the centre: where the slanted left
/// edge crosses the row, rounded toward zero.
pub open spec fn hexagon_left(cx: int, s: int, k: int) -> int {
    half_toward_zero(2 * cx - 2 * s + k)
}

/// Last column of the filled hexagon in such a row: where the slanted right
/// edge crosses the row, rounded toward zero.
pub open spec fn hexagon_right(cx: int, s: int, k: int) -> int {
    half_toward_zero(2 * cx + 2 * s - k)
}

/// The flat-topped hexagon of size `s` around `(cx, cy)`.  Its corners are
/// `(cx ± s, cy)` and `(cx ± s/2, cy ± s)`.  It holds the rows from `cy - s`
/// up to `cy + s`, the last one left out, and in each row the columns between
/// the two slanted edges.
pub open spec fn in_hexagon(cx: int, cy: int, s: int, px: int, py: int) -> bool {
    &&& cy - s <= py < cy + s
    &&& hexagon_left(cx, s, gap(py, cy)) <= px <= hexagon_right(cx, s, gap(py, cy))
}

/// Corner `i` of that hexagon, counted from the right-hand corner against
/// the clock, with its column rounded toward zero.
pub open spec fn hexagon_corner(cx: int, cy: int, s: int, i: int) -> (int, int) {
    if i == 0 {
        (cx + s, cy)
    } else if i == 1 {
        (half_toward_zero(2 * cx + s), cy - s)
    } else if i == 2 {
        (half_toward_zero(2 * cx - s), cy - s)
    } else if i == 3 {
        (cx - s, cy)
    } else if i == 4 {
        (half_toward_zero(2 * cx - s), cy + s)
    } else {
        (half_toward_zero(2 * cx + s), cy + s)
    }
}

/// The edge of that hexagon from corner `i` to the corner after it.
pub open spec fn hexagon_edge(cx: int, cy: int, s: int, i: int) -> Segment {
    let from = hexagon_corner(cx, cy, s, i);
    let to = hexagon_corner(cx, cy, s, (i + 1) % 6);
    Segment { x1: from.0, y1: from.1, x2: to.0, y2: to.1 }
}

/// Whether one of the first `n` edges of that hexagon, drawn as a thick line,
/// passes through `(px, py)`.
pub open spec fn on_hexagon_edges(cx: int, cy: int, s: int, n: int, px: int, py: int) -> bool
    decreases n,
{
    n > 0 && (on_hexagon_edges(cx, cy, s, n - 1, px, py) || hexagon_edge(
        cx,
        cy,
        s,
        n - 1,
    ).thick_covers(px, py))
}

/// The outline of that hexagon: its six edges as thick lines.
pub open spec fn on_hexagon_outline(cx: int, cy: int, s: int, px: int, py: int) -> bool {
    on_hexagon_edges(cx, cy, s, 6, px, py)
}

impl ClientMessage {
    /// Whether the command paints the grid point `(px, py)`, should it lie on
    /// the canvas.  With the click point `(x, y)` and the size `h`:
    ///
    /// * erasing covers the square of side `h` around the click point, which
    ///   starts `h / 2` pixels left of it and above it;
    /// * a filled cube covers the square of side `h` that starts at the click
    ///   point, a hollow cube its frame;
    /// * a filled circle covers the disc of radius `h` around the click
    ///   point, a hollow circle the ring of that radius;
    /// * a filled triangle covers the triangle that hangs from the click
    ///   point, `2h` high and `2h` wide at its base, a hollow triangle its
    ///   outline;
    /// * a filled hexagon covers the flat-topped hexagon of size `h` around
    ///   the click point, a hollow hexagon its outline.
    pub open spec fn covers(&self, px: int, py: int) -> bool {
        let x = self.x as int;
        let y = self.y as int;
        let h = self.height as int;
        match self.action {
            Action::Erase => in_square(x - h / 2, y - h / 2, h, px, py),
            Action::DrawCubeNormal => in_square(x, y, h, px, py),
            Action::DrawCubeHollow => in_frame(x, y, h, px, py),
            Action::DrawCircleNormal => in_disc(x, y, h, px, py),
            Action::DrawCircleHollow => in_ring(x, y, h, px, py),
            Action::DrawTriangleNormal => in_triangle(px, py, x, y, x - h, y + 2 * h, x + h, y + 2 * h),
            Action::DrawTriangleHollow => on_triangle_outline(x, y, h, px, py),
            Action::DrawHexagonNormal => in_hexagon(x, y, h, px, py),
            Action::DrawHexagonHollow => on_hexagon_outline(x, y, h, px, py),
        }
    }

    /// The colour that the command paints with: black where it erases, its
    /// own colour otherwise.
    pub open spec fn ink(&self) -> Seq<u8> {
        if self.action is Erase {
            seq![0u8, 0u8, 0u8]
        } else {
            self.color@
        }
    }
}

/// The canvas after one command.
pub open spec fn rasterized(canvas: Seq<u8>, message: ClientMessage) -> Seq<u8> {
    paint(canvas, |px: int, py: int| message.covers(px, py), message.ink())
}

/// The canvas after a batch of commands, applied in order.
pub open spec fn rasterized_all(canvas: Seq<u8>, batch: Seq<ClientMessage>) -> Seq<u8>
    decreases batch.len(),
{
    if batch.len() == 0 {
        canvas
    } else {
        rasterized(rasterized_all(canvas, batch.drop_last()), batch.last())
    }
}

/// Sets the pixels of the rows `y0` to `y1` in the columns `x0` to `x1`, all
/// four included, to `color`.
pub fn fill_rect(data: &mut [u8], x0: usize, x1: usize, y0: usize, y1: usize, color: &[u8; 3])
    requires
        old(data)@.len() == BUFFER_LEN,
        x1 < WIDTH,
        y1 < HEIGHT,
    ensures
        final(data)@ == paint(
            old(data)@,
            |px: int, py: int| x0 <= px <= x1 && y0 <= py <= y1,
            color@,
        ),
{
    let mut y: usize = y0;
    while y <= y1
        invariant
            data@.len() == BUFFER_LEN,
            x1 < WIDTH,
            y1 < HEIGHT,
            y0 <= y,
            y == y0 || y <= y1 + 1,
            data@ == paint(old(data)@, |px: int, py: int| x0 <= px <= x1 && y0 <= py < y, color@),
        decreases y1 + 1 - y,
    {
        fill_span(data, y, x0, x1, color);
        y += 1;
    }
    assert(data@ =~= paint(
        old(data)@,
        |px: int, py: int| x0 <= px <= x1 && y0 <= py <= y1,
        color@,
    ));
}

/// Paints the part on the canvas of the square that starts at `(x0, y0)`.
fn fill_square(data: &mut [u8], x0: i32, y0: i32, side: i32, color: &[u8; 3])
    requires
        old(data)@.len() == BUFFER_LEN,
        0 <= side <= 255,
        -255 <= x0 < WIDTH,
        -255 <= y0 < HEIGHT,
        x0 + side >= 0,
        y0 + side >= 0,
    ensures
        final(data)@ == paint(
            old(data)@,
            |px: int, py: int| in_square(x0 as int, y0 as int, side as int, px, py),
            color@,
        ),
{
    let start_x: usize = if x0 < 0 {
        0
    } else {
        x0 as usize
    };
    let start_y: usize = if y0 < 0 {
        0
    } else {
        y0 as usize
    };
    let end_x: usize = if x0 + side < WIDTH as i32 - 1 {
        (x0 + side) as usize
    } else {
        WIDTH - 1
    };
    let end_y: usize = if y0 + side < HEIGHT as i32 - 1 {
        (y0 + side) as usize
    } else {
        HEIGHT - 1
    };
    fill_rect(data, start_x, end_x, start_y, end_y, color);
    proof {
        lemma_paint_same(
            old(data)@,
            |px: int, py: int| start_x <= px <= end_x && start_y <= py <= end_y,
            |px: int, py: int| in_square(x0 as int, y0 as int, side as int, px, py),
            color@,
        );
    }
}

/// Paints the border of the square that starts at `(x, y)`.
fn draw_frame(data: &mut [u8], x: usize, y: usize, side: usize, color: &[u8; 3])
    requires
        old(data)@.len() == BUFFER_LEN,
        x < WIDTH,
        y < HEIGHT,
        side <= 255,
    ensures
        final(data)@ == paint(
            old(data)@,
            |px: int, py: int| in_frame(x as int, y as int, side as int, px, py),
            color@,
        ),
{
    let end_x: usize = if x + side < WIDTH - 1 {
        x + side
    } else {
        WIDTH - 1
    };
    let end_y: usize = if y + side < HEIGHT - 1 {
        y + side
    } else {
        HEIGHT - 1
    };
    fill_span(data, y, x, end_x, color);
    if y + 1 < HEIGHT {
        fill_span(data, y + 1, x, end_x, color);
    }
    fill_span(data, end_y, x, end_x, color);
    if end_y + 1 < HEIGHT {
        fill_span(data, end_y + 1, x, end_x, color);
    }
    fill_rect(data, x, x, y, end_y, color);
    if x + 1 < WIDTH {
        fill_rect(data, x + 1, x + 1, y, end_y, color);
    }
    fill_rect(data, end_x, end_x, y, end_y, color);
    if end_x + 1 < WIDTH {
        fill_rect(data, end_x + 1, end_x + 1, y, end_y, color);
    }
    proof {
        let frame = |px: int, py: int| in_frame(x as int, y as int, side as int, px, py);
        assert forall|i: int| 0 <= i < BUFFER_LEN implies data@[i] == paint(
            old(data)@,
            frame,
            color@,
        )[i] by {
            lemma_pixel_offset(i);
        }
        assert(data@ =~= paint(old(data)@, frame, color@));
    }
}

/// A product of two differences of `i32` values lies within these bounds.
proof fn lemma_product_fits(a: int, b: int)
    by (nonlinear_arith)
    requires
        -0x1_0000_0000 <= a <= 0x1_0000_0000,
        -0x1_0000_0000 <= b <= 0x1_0000_0000,
    ensures
        -0x1_0000_0000_0000_0000 <= a * b <= 0x1_0000_0000_0000_0000,
{
}

/// Computes `edge_side`.
fn side_of_edge(px: i32, py: i32, ax: i32, ay: i32, bx: i32, by: i32) -> (side: i128)
    ensures
        side == edge_side(px as int, py as int, ax as int, ay as int, bx as int, by as int),
{
    let ux: i128 = px as i128 - ax as i128;
    let uy: i128 = py as i128 - ay as i128;
    let vx: i128 = bx as i128 - ax as i128;
    let vy: i128 = by as i128 - ay as i128;
    proof {
        lemma_product_fits(ux as int, vy as int);
        lemma_product_fits(uy as int, vx as int);
    }
    ux * vy - uy * vx
}

/// Whether `(px, py)` lies in the triangle with the three given corners, its
/// edges included.  The point is inside where the three edge cross products
/// are all at least zero or all at most zero, so the order of the corners
/// does not matter.
pub fn point_in_triangle_fast(
    px: i32,
    py: i32,
    x1: i32,
    y1: i32,
    x2: i32,
    y2: i32,
    x3: i32,
    y3: i32,
) -> (inside: bool)
    ensures
        inside == in_triangle(
            px as int,
            py as int,
            x1 as int,
            y1 as int,
            x2 as int,
            y2 as int,
            x3 as int,
            y3 as int,
        ),
{
    let edge1: i128 = side_of_edge(px, py, x1, y1, x2, y2);
    let edge2: i128 = side_of_edge(px, py, x2, y2, x3, y3);
    let edge3: i128 = side_of_edge(px, py, x3, y3, x1, y1);
    (edge1 >= 0 && edge2 >= 0 && edge3 >= 0) || (edge1 <= 0 && edge2 <= 0 && edge3 <= 0)
}

/// A test that is made pixel by pixel.
enum Stencil {
    Disc { cx: i32, cy: i32, radius: i32 },
    Ring { cx: i32, cy: i32, radius: i32 },
    Triangle { x1: i32, y1: i32, x2: i32, y2: i32, x3: i32, y3: i32 },
}

impl Stencil {
    /// Whether the stencil lets `(px, py)` through.
    spec fn admits(self, px: int, py: int) -> bool {
        match self {
            Stencil::Disc { cx, cy, radius } => in_disc(cx as int, cy as int, radius as int, px, py),
            Stencil::Ring { cx, cy, radius } => in_ring(cx as int, cy as int, radius as int, px, py),
            Stencil::Triangle { x1, y1, x2, y2, x3, y3 } => in_triangle(
                px,
                py,
                x1 as int,
                y1 as int,
                x2 as int,
                y2 as int,
                x3 as int,
                y3 as int,
            ),
        }
    }

    /// Computes `admits`.
    fn test(&self, px: i32, py: i32) -> (hit: bool)
        ensures
            hit == self.admits(px as int, py as int),
    {
        match self {
            Stencil::Disc { cx, cy, radius } => {
                let d: i128 = square_distance(*cx, *cy, px, py);
                let r: i128 = *radius as i128;
                proof {
                    lemma_product_fits(r as int, r as int);
                }
                d <= r * r
            },
            Stencil::Ring { cx, cy, radius } => {
                let d: i128 = square_distance(*cx, *cy, px, py);
                let r: i128 = *radius as i128;
                let inner: i128 = r - RING_WIDTH as i128;
                proof {
                    lemma_product_fits(r as int, r as int);
                    lemma_product_fits(inner as int, inner as int);
                }
                inner * inner <= d && d <= r * r
            },
            Stencil::Triangle { x1, y1, x2, y2, x3, y3 } => point_in_triangle_fast(
                px,
                py,
                *x1,
                *y1,
                *x2,
                *y2,
                *x3,
                *y3,
            ),
        }
    }
}

/// Computes `distance_squared`.
fn square_distance(cx: i32, cy: i32, px: i32, py: i32) -> (d: i128)
    ensures
        d == distance_squared(cx as int, cy as int, px as int, py as int),
{
    let dx: i128 = px as i128 - cx as i128;
    let dy: i128 = py as i128 - cy as i128;
    proof {
        lemma_product_fits(dx as int, dx as int);
        lemma_product_fits(dy as int, dy as int);
    }
    dx * dx + dy * dy
}

/// Tests every pixel of the rows `y0` to `y1` in the columns `x0` to `x1`,
/// and paints those that the stencil lets through.
fn scan(
    data: &mut [u8],
    stencil: &Stencil,
    x0: usize,
    x1: usize,
    y0: usize,
    y1: usize,
    color: &[u8; 3],
)
    requires
        old(data)@.len() == BUFFER_LEN,
        x1 < WIDTH,
        y1 < HEIGHT,
    ensures
        final(data)@ == paint(
            old(data)@,
            |px: int, py: int| stencil.admits(px, py) && x0 <= px <= x1 && y0 <= py <= y1,
            color@,
        ),
{
    let mut y: usize = y0;
    while y <= y1
        invariant
            data@.len() == BUFFER_LEN,
            x1 < WIDTH,
            y1 < HEIGHT,
            y0 <= y,
            y == y0 || y <= y1 + 1,
            data@ == paint(
                old(data)@,
                |px: int, py: int| stencil.admits(px, py) && x0 <= px <= x1 && y0 <= py < y,
                color@,
            ),
        decreases y1 + 1 - y,
    {
        let mut x: usize = x0;
        while x <= x1
            invariant
                data@.len() == BUFFER_LEN,
                x1 < WIDTH,
                y1 < HEIGHT,
                y0 <= y <= y1,
                x0 <= x,
                x == x0 || x <= x1 + 1,
                data@ == paint(
                    old(data)@,
                    |px: int, py: int|
                        stencil.admits(px, py) && x0 <= px <= x1 && (y0 <= py < y || (py == y && px
                            < x)),
                    color@,
                ),
            decreases x1 + 1 - x,
        {
            if stencil.test(x as i32, y as i32) {
                put_pixel(data, x, y, color);
            }
            x += 1;
        }
        y += 1;
    }
    assert(data@ =~= paint(
        old(data)@,
        |px: int, py: int| stencil.admits(px, py) && x0 <= px <= x1 && y0 <= py <= y1,
        color@,
    ));
}

/// A disc lies within the square around it.
pub proof fn lemma_disc_in_box(cx: int, cy: int, radius: int, px: int, py: int)
    by (nonlinear_arith)
    requires
        radius >= 0,
        (px - cx) * (px - cx) + (py - cy) * (py - cy) <= radius * radius,
    ensures
        cx - radius <= px <= cx + radius,
        cy - radius <= py <= cy + radius,
{
}

/// The triangle with the apex `(x, y)` and the base corners `(x - h, y + 2h)`
/// and `(x + h, y + 2h)` holds the points between the apex and the base that
/// lie no further from the column of the apex than half their depth below it.
pub proof fn lemma_triangle_shape(x: int, y: int, h: int, px: int, py: int)
    requires
        h >= 1,
    ensures
        in_triangle(px, py, x, y, x - h, y + 2 * h, x + h, y + 2 * h) <==> (0 <= py - y <= 2 * h && -(py
            - y) <= 2 * (px - x) <= py - y),
{
    let u = px - x;
    let v = py - y;
    let e1 = edge_side(px, py, x, y, x - h, y + 2 * h);
    let e2 = edge_side(px, py, x - h, y + 2 * h, x + h, y + 2 * h);
    let e3 = edge_side(px, py, x + h, y + 2 * h, x, y);
    assert(e1 == h * (2 * u + v) && e2 == 2 * h * (2 * h - v) && e3 == h * (v - 2 * u))
        by (nonlinear_arith)
        requires
            u == px - x,
            v == py - y,
            e1 == (px - x) * ((y + 2 * h) - y) - (py - y) * ((x - h) - x),
            e2 == (px - (x - h)) * ((y + 2 * h) - (y + 2 * h)) - (py - (y + 2 * h)) * ((x + h) - (x
                - h)),
            e3 == (px - (x + h)) * (y - (y + 2 * h)) - (py - (y + 2 * h)) * (x - (x + h)),
    ;
    assert((e1 >= 0 <==> 2 * u + v >= 0) && (e1 <= 0 <==> 2 * u + v <= 0)) by (nonlinear_arith)
        requires
            h >= 1,
            e1 == h * (2 * u + v),
    ;
    assert((e2 >= 0 <==> 2 * h - v >= 0) && (e2 <= 0 <==> 2 * h - v <= 0)) by (nonlinear_arith)
        requires
            h >= 1,
            e2 == 2 * h * (2 * h - v),
    ;
    assert((e3 >= 0 <==> v - 2 * u >= 0) && (e3 <= 0 <==> v - 2 * u <= 0)) by (nonlinear_arith)
        requires
            h >= 1,
            e3 == h * (v - 2 * u),
    ;
}

/// Paints the disc or the ring of radius `radius` around `(cx, cy)`.
fn draw_circle(data: &mut [u8], cx: i32, cy: i32, radius: i32, hollow: bool, color: &[u8; 3])
    requires
        old(data)@.len() == BUFFER_LEN,
        0 <= cx < WIDTH,
        0 <= cy < HEIGHT,
        0 <= radius <= 255,
    ensures
        final(data)@ == paint(
            old(data)@,
            |px: int, py: int|
                if hollow {
                    in_ring(cx as int, cy as int, radius as int, px, py)
                } else {
                    in_disc(cx as int, cy as int, radius as int, px, py)
                },
            color@,
        ),
{
    let start_x: usize = if cx >= radius {
        (cx - radius) as usize
    } else {
        0
    };
    let start_y: usize = if cy >= radius {
        (cy - radius) as usize
    } else {
        0
    };
    let end_x: usize = if cx + radius < WIDTH as i32 - 1 {
        (cx + radius) as usize
    } else {
        WIDTH - 1
    };
    let end_y: usize = if cy + radius < HEIGHT as i32 - 1 {
        (cy + radius) as usize
    } else {
        HEIGHT - 1
    };
    let stencil: Stencil = if hollow {
        Stencil::Ring { cx, cy, radius }
    } else {
        Stencil::Disc { cx, cy, radius }
    };
    scan(data, &stencil, start_x, end_x, start_y, end_y, color);
    proof {
        let scanned = |px: int, py: int|
            stencil.admits(px, py) && start_x <= px <= end_x && start_y <= py <= end_y;
        let circle = |px: int, py: int|
            if hollow {
                in_ring(cx as int, cy as int, radius as int, px, py)
            } else {
                in_disc(cx as int, cy as int, radius as int, px, py)
            };
        assert forall|px: int, py: int| in_canvas(px, py) implies #[trigger] scanned(px, py)
            == #[trigger] circle(px, py) by {
            if circle(px, py) {
                lemma_disc_in_box(cx as int, cy as int, radius as int, px, py);
            }
        }
        lemma_paint_same(old(data)@, scanned, circle, color@);
    }
}

/// Paints the triangle with the apex `(x, y)` and the base corners
/// `(x - h, y + 2h)` and `(x + h, y + 2h)`, or its outline.
fn draw_triangle(data: &mut [u8], x: i32, y: i32, h: i32, hollow: bool, color: &[u8; 3])
    requires
        old(data)@.len() == BUFFER_LEN,
        0 <= x < WIDTH,
        0 <= y < HEIGHT,
        1 <= h <= 255,
    ensures
        final(data)@ == paint(
            old(data)@,
            |px: int, py: int|
                if hollow {
                    on_triangle_outline(x as int, y as int, h as int, px, py)
                } else {
                    in_triangle(
                        px,
                        py,
                        x as int,
                        y as int,
                        x - h,
                        y + 2 * h,
                        x + h,
                        y + 2 * h,
                    )
                },
            color@,
        ),
{
    let x1: i32 = x;
    let y1: i32 = y;
    let x2: i32 = x - h;
    let y2: i32 = y + h * 2;
    let x3: i32 = x + h;
    let y3: i32 = y2;
    if hollow {
        draw_line_fast(data, x1, y1, x2, y2, color);
        draw_line_fast(data, x2, y2, x3, y3, color);
        draw_line_fast(data, x3, y3, x1, y1, color);
        assert(data@ =~= paint(
            old(data)@,
            |px: int, py: int| on_triangle_outline(x as int, y as int, h as int, px, py),
            color@,
        ));
    } else {
        let min_x: usize = if x2 < 0 {
            0
        } else {
            x2 as usize
        };
        let max_x: usize = if x3 < WIDTH as i32 - 1 {
            x3 as usize
        } else {
            WIDTH - 1
        };
        let min_y: usize = y1 as usize;
        let max_y: usize = if y2 < HEIGHT as i32 - 1 {
            y2 as usize
        } else {
            HEIGHT - 1
        };
        let stencil: Stencil = Stencil::Triangle { x1, y1, x2, y2, x3, y3 };
        scan(data, &stencil, min_x, max_x, min_y, max_y, color);
        proof {
            let scanned = |px: int, py: int|
                stencil.admits(px, py) && min_x <= px <= max_x && min_y <= py <= max_y;
            let triangle = |px: int, py: int|
                in_triangle(px, py, x as int, y as int, x - h, y + 2 * h, x + h, y + 2 * h);
            assert forall|px: int, py: int| in_canvas(px, py) implies #[trigger] scanned(px, py)
                == #[trigger] triangle(px, py) by {
                lemma_triangle_shape(x as int, y as int, h as int, px, py);
            }
            lemma_paint_same(old(data)@, scanned, triangle, color@);
        }
    }
}

/// Computes `half_toward_zero`.
fn half(v: i32) -> (r: i32)
    requires
        v > i32::MIN,
    ensures
        r == half_toward_zero(v as int),
{
    if v >= 0 {
        v / 2
    } else {
        -((-v) / 2)
    }
}

/// Computes `hexagon_corner`.
fn corner(cx: i32, cy: i32, s: i32, i: usize) -> (c: (i32, i32))
    requires
        0 <= cx < WIDTH,
        0 <= cy < HEIGHT,
        0 <= s <= 255,
    ensures
        c.0 == hexagon_corner(cx as int, cy as int, s as int, i as int).0,
        c.1 == hexagon_corner(cx as int, cy as int, s as int, i as int).1,
{
    if i == 0 {
        (cx + s, cy)
    } else if i == 1 {
        (half(2 * cx + s), cy - s)
    } else if i == 2 {
        (half(2 * cx - s), cy - s)
    } else if i == 3 {
        (cx - s, cy)
    } else if i == 4 {
        (half(2 * cx - s), cy + s)
    } else {
        (half(2 * cx + s), cy + s)
    }
}

/// Paints the flat-topped hexagon of size `s` around `(cx, cy)`, or its
/// outline.  The filled hexagon is painted row by row, between the two
/// slanted edges that cross the row.
fn draw_hexagon(data: &mut [u8], cx: i32, cy: i32, s: i32, hollow: bool, color: &[u8; 3])
    requires
        old(data)@.len() == BUFFER_LEN,
        0 <= cx < WIDTH,
        0 <= cy < HEIGHT,
        0 <= s <= 255,
    ensures
        final(data)@ == paint(
            old(data)@,
            |px: int, py: int|
                if hollow {
                    on_hexagon_outline(cx as int, cy as int, s as int, px, py)
                } else {
                    in_hexagon(cx as int, cy as int, s as int, px, py)
                },
            color@,
        ),
{
    if hollow {
        let mut i: usize = 0;
        while i < 6
            invariant
                data@.len() == BUFFER_LEN,
                0 <= cx < WIDTH,
                0 <= cy < HEIGHT,
                0 <= s <= 255,
                i <= 6,
                data@ == paint(
                    old(data)@,
                    |px: int, py: int| on_hexagon_edges(cx as int, cy as int, s as int, i as int, px, py),
                    color@,
                ),
            decreases 6 - i,
        {
            let from: (i32, i32) = corner(cx, cy, s, i);
            let to: (i32, i32) = corner(cx, cy, s, (i + 1) % 6);
            draw_line_fast(data, from.0, from.1, to.0, to.1, color);
            i += 1;
        }
        assert(data@ =~= paint(
            old(data)@,
            |px: int, py: int| on_hexagon_outline(cx as int, cy as int, s as int, px, py),
            color@,
        ));
    } else {
        let top: i32 = if cy - s < 0 {
            0
        } else {
            cy - s
        };
        let bottom: i32 = if cy + s - 1 < HEIGHT as i32 - 1 {
            cy + s - 1
        } else {
            HEIGHT as i32 - 1
        };
        let mut y: i32 = top;
        while y <= bottom
            invariant
                data@.len() == BUFFER_LEN,
                0 <= cx < WIDTH,
                0 <= cy < HEIGHT,
                0 <= s <= 255,
                top == (if cy - s < 0 {
                    0
                } else {
                    cy - s
                }),
                bottom == (if cy + s - 1 < HEIGHT - 1 {
                    cy + s - 1
                } else {
                    HEIGHT - 1
                }),
                top <= y,
                y == top || y <= bottom + 1,
                data@ == paint(
                    old(data)@,
                    |px: int, py: int| in_hexagon(cx as int, cy as int, s as int, px, py) && py < y,
                    color@,
                ),
            decreases bottom + 1 - y,
        {
            let k: i32 = if y >= cy {
                y - cy
            } else {
                cy - y
            };
            let left: i32 = half(2 * cx - 2 * s + k);
            let right: i32 = half(2 * cx + 2 * s - k);
            let start: usize = if left < 0 {
                0
            } else {
                left as usize
            };
            let end: usize = if right < WIDTH as i32 - 1 {
                right as usize
            } else {
                WIDTH - 1
            };
            let ghost before = data@;
            fill_span(data, y as usize, start, end, color);
            proof {
                lemma_paint_then(
                    old(data)@,
                    |px: int, py: int| in_hexagon(cx as int, cy as int, s as int, px, py) && py < y,
                    |px: int, py: int| py == y as usize && start <= px <= end,
                    |px: int, py: int| in_hexagon(cx as int, cy as int, s as int, px, py) && py < y + 1,
                    color@,
                );
            }
            y += 1;
        }
        proof {
            lemma_paint_same(
                old(data)@,
                |px: int, py: int| in_hexagon(cx as int, cy as int, s as int, px, py) && py < y,
                |px: int, py: int| in_hexagon(cx as int, cy as int, s as int, px, py),
                color@,
            );
        }
    }
}

/// Applies one command to the canvas.
pub fn rasterize(data: &mut [u8], message: &ClientMessage)
    requires
        old(data)@.len() == BUFFER_LEN,
        message.valid(),
    ensures
        final(data)@ == rasterized(old(data)@, *message),
{
    let x: i32 = message.x as i32;
    let y: i32 = message.y as i32;
    let h: i32 = message.height as i32;
    match message.action {
        Action::Erase => {
            let black: [u8; 3] = [0, 0, 0];
            fill_square(data, x - h / 2, y - h / 2, h, &black);
            assert(black@ =~= message.ink());
        },
        Action::DrawCubeNormal => {
            fill_square(data, x, y, h, &message.color);
        },
        Action::DrawCubeHollow => {
            draw_frame(data, message.x as usize, message.y as usize, message.height as usize, &message.color);
        },
        Action::DrawCircleNormal => {
            draw_circle(data, x, y, h, false, &message.color);
        },
        Action::DrawCircleHollow => {
            draw_circle(data, x, y, h, true, &message.color);
        },
        Action::DrawTriangleNormal => {
            draw_triangle(data, x, y, h, false, &message.color);
        },
        Action::DrawTriangleHollow => {
            draw_triangle(data, x, y, h, true, &message.color);
        },
        Action::DrawHexagonNormal => {
            draw_hexagon(data, x, y, h, false, &message.color);
        },
        Action::DrawHexagonHollow => {
            draw_hexagon(data, x, y, h, true, &message.color);
        },
    }
    assert(data@ =~= rasterized(old(data)@, *message));
}

/// Applies a batch of commands to the canvas, in order.  A later command
/// paints over an earlier one.
pub fn rasterize_all(data: &mut [u8], batch: &[ClientMessage])
    requires
        old(data)@.len() == BUFFER_LEN,
        all_valid(batch@),
    ensures
        final(data)@ == rasterized_all(old(data)@, batch@),
        final(data)@.len() == BUFFER_LEN,
{
    let mut i: usize = 0;
    while i < batch.len()
        invariant
            data@.len() == BUFFER_LEN,
            all_valid(batch@),
            i <= batch.len(),
            data@ == rasterized_all(old(data)@, batch@.take(i as int)),
        decreases batch.len() - i,
    {
        rasterize(data, &batch[i]);
        proof {
            assert(batch@.take(i + 1).drop_last() =~= batch@.take(i as int));
        }
        i += 1;
    }
    assert(batch@.take(i as int) =~= batch@);
}

} // verus!
