//! Line strokes.
//!
//! A one-pixel line is traced by Bresenham's integer algorithm: a cursor walks
//! from the first end point to the second, and an error term decides at each
//! step whether it moves along x, along y, or along both.  Pixels off the
//! canvas are skipped; the walk goes on.  A thick line is four one-pixel
//! lines, shifted by `(0,0)`, `(1,0)`, `(0,1)` and `(1,1)`.

use crate::canvas::{lemma_pixel_offset, paint, put_pixel, BUFFER_LEN, HEIGHT, WIDTH};
use vstd::prelude::*;

verus! {

/// A segment between two grid points, from `(x1, y1)` to `(x2, y2)`.
pub struct Segment {
    pub x1: int,
    pub y1: int,
    pub x2: int,
    pub y2: int,
}

/// Where the walk along a segment stands: a grid point and the error term.
pub struct Cursor {
    pub x: int,
    pub y: int,
    pub err: int,
}

impl Segment {
    /// Horizontal extent of the segment.
    pub open spec fn dx(self) -> int {
        if self.x2 >= self.x1 {
            self.x2 - self.x1
        } else {
            self.x1 - self.x2
        }
    }

    /// Vertical extent of the segment.
    pub open spec fn dy(self) -> int {
        if self.y2 >= self.y1 {
            self.y2 - self.y1
        } else {
            self.y1 - self.y2
        }
    }

    /// Direction of the walk along x.
    pub open spec fn sx(self) -> int {
        if self.x1 < self.x2 {
            1
        } else {
            -1
        }
    }

    /// Direction of the walk along y.
    pub open spec fn sy(self) -> int {
        if self.y1 < self.y2 {
            1
        } else {
            -1
        }
    }

    /// The cursor before the first step.
    pub open spec fn start(self) -> Cursor {
        Cursor { x: self.x1, y: self.y1, err: self.dx() - self.dy() }
    }

    /// Whether the cursor stands on the second end point.
    pub open spec fn at_end(self, c: Cursor) -> bool {
        c.x == self.x2 && c.y == self.y2
    }

    /// One step of the walk.  At the second end point the cursor stays.
    pub open spec fn step(self, c: Cursor) -> Cursor {
        if self.at_end(c) {
            c
        } else {
            let along_x = 2 * c.err >= -self.dy();
            let along_y = 2 * c.err <= self.dx();
            Cursor {
                x: if along_x {
                    c.x + self.sx()
                } else {
                    c.x
                },
                y: if along_y {
                    c.y + self.sy()
                } else {
                    c.y
                },
                err: c.err - (if along_x {
                    self.dy()
                } else {
                    0
                }) + (if along_y {
                    self.dx()
                } else {
                    0
                }),
            }
        }
    }

    /// The cursor after `k` steps.
    pub open spec fn cursor(self, k: nat) -> Cursor
        decreases k,
    {
        if k == 0 {
            self.start()
        } else {
            self.step(self.cursor((k - 1) as nat))
        }
    }

    /// Whether the cursor stands on `(px, py)` after some number of steps from
    /// 0 to `k`.
    pub open spec fn visits(self, k: nat, px: int, py: int) -> bool
        decreases k,
    {
        (self.cursor(k).x == px && self.cursor(k).y == py) || (k > 0 && self.visits(
            (k - 1) as nat,
            px,
            py,
        ))
    }

    /// A number of steps after which the walk has ended.
    pub open spec fn reach(self) -> nat {
        (self.dx() + self.dy()) as nat
    }

    /// Whether the one-pixel line along the segment passes through `(px, py)`.
    pub open spec fn covers(self, px: int, py: int) -> bool {
        self.visits(self.reach(), px, py)
    }

    /// The segment moved by `(ox, oy)`.
    pub open spec fn shifted(self, ox: int, oy: int) -> Segment {
        Segment { x1: self.x1 + ox, y1: self.y1 + oy, x2: self.x2 + ox, y2: self.y2 + oy }
    }

    /// Whether the thick line along the segment passes through `(px, py)`.
    pub open spec fn thick_covers(self, px: int, py: int) -> bool {
        ||| self.covers(px, py)
        ||| self.shifted(1, 0).covers(px, py)
        ||| self.shifted(0, 1).covers(px, py)
        ||| self.shifted(1, 1).covers(px, py)
    }

    /// Columns that the cursor has moved by.
    pub open spec fn run_x(self, c: Cursor) -> int {
        if self.x1 < self.x2 {
            c.x - self.x1
        } else {
            self.x1 - c.x
        }
    }

    /// Rows that the cursor has moved by.
    pub open spec fn run_y(self, c: Cursor) -> int {
        if self.y1 < self.y2 {
            c.y - self.y1
        } else {
            self.y1 - c.y
        }
    }

    /// What holds of the cursor all along the walk: it stays between the end
    /// points, and the error term is the one that its position gives.
    pub open spec fn on_track(self, c: Cursor) -> bool {
        &&& 0 <= self.run_x(c) <= self.dx()
        &&& 0 <= self.run_y(c) <= self.dy()
        &&& c.err == (self.run_y(c) + 1) * self.dx() - (self.run_x(c) + 1) * self.dy()
        &&& -3 * self.dy() <= 2 * c.err <= 3 * self.dx()
    }

    /// A step keeps the cursor on track, and moves it unless the walk has
    /// ended.
    pub proof fn lemma_step(self, c: Cursor)
        requires
            self.on_track(c),
        ensures
            self.on_track(self.step(c)),
            !self.at_end(c) ==> self.run_x(self.step(c)) + self.run_y(self.step(c)) > self.run_x(c)
                + self.run_y(c),
            self.at_end(c) <==> self.run_x(c) == self.dx() && self.run_y(c) == self.dy(),
    {
        let next = self.step(c);
        lemma_products(self.run_x(c), self.run_y(c), self.dx(), self.dy());
        if !self.at_end(c) {
            if self.run_x(next) <= self.dx() && self.run_y(next) <= self.dy() {
                lemma_products(self.run_x(next), self.run_y(next), self.dx(), self.dy());
            }
        }
    }

    /// Every cursor of the walk is on track, and until the walk ends the
    /// cursor has moved at least once per step.
    pub proof fn lemma_walk(self, k: nat)
        ensures
            self.on_track(self.cursor(k)),
            self.at_end(self.cursor(k)) || self.run_x(self.cursor(k)) + self.run_y(self.cursor(k))
                >= k,
        decreases k,
    {
        if k == 0 {
            lemma_products(0, 0, self.dx(), self.dy());
        } else {
            self.lemma_walk((k - 1) as nat);
            self.lemma_step(self.cursor((k - 1) as nat));
        }
    }

    /// Once the walk has ended, more steps visit nothing new.
    pub proof fn lemma_settled(self, k: nat, n: nat)
        requires
            self.at_end(self.cursor(k)),
            k <= n,
        ensures
            self.cursor(n) == self.cursor(k),
            forall|px: int, py: int| self.visits(n, px, py) == self.visits(k, px, py),
        decreases n,
    {
        if n > k {
            self.lemma_settled(k, (n - 1) as nat);
        }
    }
}

/// The coordinates that an end point of a traced line may have: the range of
/// `i32`, widened by the shift of a thick line.
spec fn traceable(v: int) -> bool {
    -0x8000_0000 <= v <= 0x8000_0000
}

/// Traces the one-pixel line from `(x1, y1)` to `(x2, y2)`.
fn trace(data: &mut [u8], x1: i64, y1: i64, x2: i64, y2: i64, color: &[u8; 3])
    requires
        old(data)@.len() == BUFFER_LEN,
        traceable(x1 as int),
        traceable(y1 as int),
        traceable(x2 as int),
        traceable(y2 as int),
    ensures
        final(data)@ == paint(
            old(data)@,
            |px: int, py: int|
                (Segment { x1: x1 as int, y1: y1 as int, x2: x2 as int, y2: y2 as int }).covers(px, py),
            color@,
        ),
{
    let ghost seg = Segment { x1: x1 as int, y1: y1 as int, x2: x2 as int, y2: y2 as int };
    let dx: i64 = if x2 >= x1 {
        x2 - x1
    } else {
        x1 - x2
    };
    let dy: i64 = if y2 >= y1 {
        y2 - y1
    } else {
        y1 - y2
    };
    let sx: i64 = if x1 < x2 {
        1
    } else {
        -1
    };
    let sy: i64 = if y1 < y2 {
        1
    } else {
        -1
    };
    let mut x: i64 = x1;
    let mut y: i64 = y1;
    let mut err: i64 = dx - dy;
    let mut done: bool = false;
    let ghost mut k: nat = 0;
    proof {
        seg.lemma_walk(0);
    }
    while !done
        invariant
            data@.len() == BUFFER_LEN,
            seg == (Segment { x1: x1 as int, y1: y1 as int, x2: x2 as int, y2: y2 as int }),
            traceable(x1 as int),
            traceable(y1 as int),
            traceable(x2 as int),
            traceable(y2 as int),
            dx == seg.dx(),
            dy == seg.dy(),
            sx == seg.sx(),
            sy == seg.sy(),
            seg.cursor(k) == (Cursor { x: x as int, y: y as int, err: err as int }),
            seg.on_track(seg.cursor(k)),
            k <= seg.run_x(seg.cursor(k)) + seg.run_y(seg.cursor(k)),
            !done ==> data@ == paint(
                old(data)@,
                |px: int, py: int| k > 0 && seg.visits((k - 1) as nat, px, py),
                color@,
            ),
            done ==> seg.at_end(seg.cursor(k)) && data@ == paint(
                old(data)@,
                |px: int, py: int| seg.visits(k, px, py),
                color@,
            ),
        decreases
            (if done {
                0
            } else {
                1 + (seg.dx() - seg.run_x(seg.cursor(k))) + (seg.dy() - seg.run_y(seg.cursor(k)))
            }),
    {
        let ghost before = data@;
        if 0 <= x && x < WIDTH as i64 && 0 <= y && y < HEIGHT as i64 {
            put_pixel(data, x as usize, y as usize, color);
        }
        proof {
            let seen = |px: int, py: int| seg.visits(k, px, py);
            assert forall|i: int| 0 <= i < BUFFER_LEN implies data@[i] == paint(
                old(data)@,
                seen,
                color@,
            )[i] by {
                lemma_pixel_offset(i);
            }
            assert(data@ =~= paint(old(data)@, seen, color@));
            seg.lemma_step(seg.cursor(k));
        }
        if x == x2 && y == y2 {
            done = true;
        } else {
            let e2: i64 = 2 * err;
            if e2 >= -dy {
                err = err - dy;
                x = x + sx;
            }
            if e2 <= dx {
                err = err + dx;
                y = y + sy;
            }
            proof {
                k = k + 1;
            }
        }
    }
    proof {
        seg.lemma_settled(k, seg.reach());
        assert(data@ =~= paint(old(data)@, |px: int, py: int| seg.covers(px, py), color@));
    }
}

/// Draws the one-pixel line from `(x1, y1)` to `(x2, y2)` in `color`.
pub fn draw_single_line(data: &mut [u8], x1: i32, y1: i32, x2: i32, y2: i32, color: &[u8; 3])
    requires
        old(data)@.len() == BUFFER_LEN,
    ensures
        final(data)@ == paint(
            old(data)@,
            |px: int, py: int|
                (Segment { x1: x1 as int, y1: y1 as int, x2: x2 as int, y2: y2 as int }).covers(px, py),
            color@,
        ),
{
    trace(data, x1 as i64, y1 as i64, x2 as i64, y2 as i64, color);
}

/// Draws the thick line from `(x1, y1)` to `(x2, y2)` in `color`.
pub fn draw_line_fast(data: &mut [u8], x1: i32, y1: i32, x2: i32, y2: i32, color: &[u8; 3])
    requires
        old(data)@.len() == BUFFER_LEN,
    ensures
        final(data)@ == paint(
            old(data)@,
            |px: int, py: int|
                (Segment { x1: x1 as int, y1: y1 as int, x2: x2 as int, y2: y2 as int }).thick_covers(
                    px,
                    py,
                ),
            color@,
        ),
{
    let ghost seg = Segment { x1: x1 as int, y1: y1 as int, x2: x2 as int, y2: y2 as int };
    trace(data, x1 as i64, y1 as i64, x2 as i64, y2 as i64, color);
    trace(data, x1 as i64 + 1, y1 as i64, x2 as i64 + 1, y2 as i64, color);
    trace(data, x1 as i64, y1 as i64 + 1, x2 as i64, y2 as i64 + 1, color);
    trace(data, x1 as i64 + 1, y1 as i64 + 1, x2 as i64 + 1, y2 as i64 + 1, color);
    assert(data@ =~= paint(old(data)@, |px: int, py: int| seg.thick_covers(px, py), color@));
}

proof fn lemma_products(i: int, j: int, dx: int, dy: int)
    by (nonlinear_arith)
    requires
        0 <= i <= dx,
        0 <= j <= dy,
    ensures
        (j + 1) * dx == j * dx + dx,
        (i + 1) * dy == i * dy + dy,
        i == dx ==> i * dy == dx * dy,
        j == dy ==> j * dx == dx * dy,
        j < dy ==> j * dx + dx <= dx * dy,
        i < dx ==> i * dy + dy <= dx * dy,
{
}

} // verus!
