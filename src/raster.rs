//! Raster primitives: a row-major pixel buffer, a midpoint circle and a
//! filled view cone, all clipped to the buffer.
use vstd::prelude::*;
use crate::geometry::{FieldOfView, norm2, offset_in_radius, lemma_far_offset};

verus! {

/// (a, b) is one of the eight reflections of the octant point (x, y).
pub open spec fn mirrored(x: int, y: int, a: int, b: int) -> bool {
    ((a == x || a == -x) && (b == y || b == -y)) || ((a == y || a == -y) && (b == x || b == -x))
}

pub open spec fn octant_measure(x: int, y: int) -> int {
    if x >= y {
        x - y + 1
    } else {
        0
    }
}

/// The offsets painted by the midpoint circle walk from state (x, y, err)
/// on: each step paints the eight reflections of (x, y), moves y up by one,
/// and moves x in by one when the decision value is not negative.
pub open spec fn midpoint_hits(x: int, y: int, err: int, a: int, b: int) -> bool
    decreases octant_measure(x, y),
{
    if x < y {
        false
    } else {
        let y1 = y + 1;
        mirrored(x, y, a, b) || if err < 0 {
            midpoint_hits(x, y1, err + 2 * y1 + 1, a, b)
        } else {
            midpoint_hits(x - 1, y1, err + 2 * (y1 - (x - 1)) + 1, a, b)
        }
    }
}

/// The offset (a, b) from the centre is on the midpoint circle of radius `r`.
pub open spec fn on_circle(r: int, a: int, b: int) -> bool {
    midpoint_hits(r, 0, 1 - r, a, b)
}

/// The pixel at offset (a, b) from the apex is painted by a cone of radius
/// `r` facing as `fov` does.
pub open spec fn in_cone(r: int, fov: FieldOfView, a: int, b: int) -> bool {
    norm2(a, b) <= r * r && fov.contains_offset(a, b)
}

/// A row-major buffer of packed 0xRRGGBB colours.
pub struct FrameBuffer {
    pub pixels: Vec<u32>,
    pub width: usize,
    pub height: usize,
}

impl FrameBuffer {
    pub open spec fn wf(&self) -> bool {
        self.pixels@.len() == self.width * self.height && self.width * self.height <= usize::MAX
    }

    pub open spec fn in_bounds(&self, x: int, y: int) -> bool {
        0 <= x < self.width && 0 <= y < self.height
    }

    /// The colour at column `x`, row `y`.
    pub open spec fn pixel(&self, x: int, y: int) -> u32 {
        self.pixels@[y * self.width + x]
    }

    /// A buffer of the given size filled with `color`.
    pub fn new(width: usize, height: usize, color: u32) -> (fb: Self)
        requires
            width * height <= usize::MAX,
        ensures
            fb.wf(),
            fb.width == width,
            fb.height == height,
            forall|x: int, y: int| fb.in_bounds(x, y) ==> #[trigger] fb.pixel(x, y) == color,
    {
        let n = width * height;
        let pixels = vec![color; n];
        let fb = FrameBuffer { pixels, width, height };
        proof {
            assert forall|x: int, y: int| fb.in_bounds(x, y) implies #[trigger] fb.pixel(x, y)
                == color by {
                lemma_index_in_range(width as int, height as int, x, y);
            }
        }
        fb
    }

    /// The colour at (x, y).
    pub fn get(&self, x: usize, y: usize) -> (c: u32)
        requires
            self.wf(),
            self.in_bounds(x as int, y as int),
        ensures
            c == self.pixel(x as int, y as int),
    {
        proof {
            lemma_index_in_range(self.width as int, self.height as int, x as int, y as int);
        }
        self.pixels[y * self.width + x]
    }

    /// Paints every pixel with `color`.
    pub fn clear(&mut self, color: u32)
        requires
            old(self).wf(),
        ensures
            final(self).wf(),
            final(self).width == old(self).width,
            final(self).height == old(self).height,
            forall|i: int| 0 <= i < final(self).pixels@.len() ==> final(self).pixels@[i] == color,
            forall|x: int, y: int| #[trigger]
                final(self).in_bounds(x, y) ==> final(self).pixel(x, y) == color,
    {
        let n = self.pixels.len();
        let mut i: usize = 0;
        while i < n
            invariant
                self.wf(),
                n == self.pixels@.len(),
                self.width == old(self).width,
                self.height == old(self).height,
                i <= n,
                forall|j: int| 0 <= j < i ==> self.pixels@[j] == color,
            decreases n - i,
        {
            self.pixels[i] = color;
            i += 1;
        }
        proof {
            assert forall|x: int, y: int| #[trigger] self.in_bounds(x, y) implies self.pixel(x, y)
                == color by {
                lemma_index_in_range(self.width as int, self.height as int, x, y);
            }
        }
    }

    /// Paints (x, y) when it lies inside the buffer; does nothing otherwise.
    pub fn set_pixel(&mut self, x: i64, y: i64, color: u32)
        requires
            old(self).wf(),
        ensures
            final(self).wf(),
            final(self).width == old(self).width,
            final(self).height == old(self).height,
            forall|qx: int, qy: int|
                final(self).in_bounds(qx, qy) ==> #[trigger] final(self).pixel(qx, qy) == if qx == x && qy
                    == y {
                    color
                } else {
                    old(self).pixel(qx, qy)
                },
    {
        if 0 <= x && 0 <= y && (x as u64 as u128) < (self.width as u128) && (y as u64 as u128) < (
        self.height as u128) {
            let xu = x as usize;
            let yu = y as usize;
            proof {
                lemma_index_in_range(self.width as int, self.height as int, x as int, y as int);
            }
            self.pixels[yu * self.width + xu] = color;
            proof {
                assert forall|qx: int, qy: int| self.in_bounds(qx, qy) implies #[trigger] self.pixel(
                    qx,
                    qy,
                ) == if qx == x && qy == y {
                    color
                } else {
                    old(self).pixel(qx, qy)
                } by {
                    lemma_index_in_range(self.width as int, self.height as int, qx, qy);
                    lemma_index_injective(self.width as int, qx, qy, x as int, y as int);
                }
            }
        }
    }

    /// Paints the eight reflections of the offset (x, y) around (cx, cy).
    fn plot_mirrored(&mut self, cx: i32, cy: i32, x: i64, y: i64, color: u32)
        requires
            old(self).wf(),
            -0x2_0000_0000 <= x <= 0x2_0000_0000,
            -0x2_0000_0000 <= y <= 0x2_0000_0000,
        ensures
            final(self).wf(),
            final(self).width == old(self).width,
            final(self).height == old(self).height,
            forall|qx: int, qy: int|
                final(self).in_bounds(qx, qy) ==> #[trigger] final(self).pixel(qx, qy) == if mirrored(
                    x as int,
                    y as int,
                    qx - cx,
                    qy - cy,
                ) {
                    color
                } else {
                    old(self).pixel(qx, qy)
                },
    {
        let cx = cx as i64;
        let cy = cy as i64;
        self.set_pixel(cx + x, cy + y, color);
        self.set_pixel(cx - x, cy + y, color);
        self.set_pixel(cx + x, cy - y, color);
        self.set_pixel(cx - x, cy - y, color);
        self.set_pixel(cx + y, cy + x, color);
        self.set_pixel(cx - y, cy + x, color);
        self.set_pixel(cx + y, cy - x, color);
        self.set_pixel(cx - y, cy - x, color);
    }

    /// Draws the outline of a circle of radius `radius` around (cx, cy) with
    /// the midpoint algorithm; pixels outside the buffer are skipped.
    pub fn draw_circle(&mut self, cx: i32, cy: i32, radius: u32, color: u32)
        requires
            old(self).wf(),
        ensures
            final(self).wf(),
            final(self).width == old(self).width,
            final(self).height == old(self).height,
            forall|qx: int, qy: int|
                final(self).in_bounds(qx, qy) ==> #[trigger] final(self).pixel(qx, qy) == if on_circle(
                    radius as int,
                    qx - cx,
                    qy - cy,
                ) {
                    color
                } else {
                    old(self).pixel(qx, qy)
                },
    {
        let r = radius as i64;
        let mut x: i64 = r;
        let mut y: i64 = 0;
        let mut err: i64 = 1 - r;
        let ghost mut done: Set<(int, int)> = Set::empty();
        while x >= y
            invariant
                self.wf(),
                self.width == old(self).width,
                self.height == old(self).height,
                0 <= y <= x + 2,
                x <= r,
                r == radius,
                -2 * r - 1 <= err <= 2 * r + 3 + 5 * y,
                forall|a: int, b: int| #[trigger]
                    on_circle(r as int, a, b) == (done.contains((a, b)) || midpoint_hits(
                        x as int,
                        y as int,
                        err as int,
                        a,
                        b,
                    )),
                forall|qx: int, qy: int|
                    self.in_bounds(qx, qy) ==> #[trigger] self.pixel(qx, qy) == if done.contains(
                        (qx - cx, qy - cy),
                    ) {
                        color
                    } else {
                        old(self).pixel(qx, qy)
                    },
            decreases x - y + 2,
        {
            self.plot_mirrored(cx, cy, x, y, color);
            let ghost (x0, y0) = (x as int, y as int);
            proof {
                done = Set::new(|p: (int, int)| done.contains(p) || mirrored(x0, y0, p.0, p.1));
            }
            y += 1;
            if err < 0 {
                err += 2 * y + 1;
            } else {
                x -= 1;
                err += 2 * (y - x) + 1;
            }
        }
        proof {
            assert forall|qx: int, qy: int| self.in_bounds(qx, qy) implies #[trigger] self.pixel(
                qx,
                qy,
            ) == if on_circle(radius as int, qx - cx, qy - cy) {
                color
            } else {
                old(self).pixel(qx, qy)
            } by {
                assert(on_circle(r as int, qx - cx, qy - cy) == done.contains((qx - cx, qy - cy)));
            }
        }
    }

    /// Fills the view cone with apex (cx, cy): every pixel within `radius` of
    /// the apex whose direction from it lies inside `fov`. Pixels outside the
    /// buffer are skipped.
    pub fn draw_cone(&mut self, cx: i32, cy: i32, radius: u32, fov: &FieldOfView, color: u32)
        requires
            old(self).wf(),
        ensures
            final(self).wf(),
            final(self).width == old(self).width,
            final(self).height == old(self).height,
            forall|qx: int, qy: int|
                final(self).in_bounds(qx, qy) ==> #[trigger] final(self).pixel(qx, qy) == if in_cone(
                    radius as int,
                    *fov,
                    qx - cx,
                    qy - cy,
                ) {
                    color
                } else {
                    old(self).pixel(qx, qy)
                },
            forall|qx: int, qy: int|
                final(self).in_bounds(qx, qy) && #[trigger] final(self).pixel(qx, qy) != old(self).pixel(qx, qy) ==> norm2(qx - cx, qy - cy) <= radius * radius
                    && fov.contains_offset(qx - cx, qy - cy),
    {
        let r = radius as i64;
        let cx64 = cx as i64;
        let cy64 = cy as i64;
        let x0: usize = if cx64 - r < 0 {
            0
        } else {
            (cx64 - r) as usize
        };
        let y0: usize = if cy64 - r < 0 {
            0
        } else {
            (cy64 - r) as usize
        };
        let x_end = cx64 + r + 1;
        let y_end = cy64 + r + 1;
        let x1: usize = if x_end < 0 {
            0
        } else if (x_end as u64 as u128) < self.width as u128 {
            x_end as usize
        } else {
            self.width
        };
        let y1: usize = if y_end < 0 {
            0
        } else if (y_end as u64 as u128) < self.height as u128 {
            y_end as usize
        } else {
            self.height
        };
        proof {
            assert forall|qx: int, qy: int|
                self.in_bounds(qx, qy) && (qy < y0 || qy >= y1 || qx < x0 || qx >= x1) implies !#[trigger] in_cone(
                radius as int,
                *fov,
                qx - cx,
                qy - cy,
            ) by {
                lemma_far_offset(qx - cx, qy - cy, radius as int);
            }
        }
        let mut row = y0;
        while row < y1
            invariant
                self.wf(),
                self.width == old(self).width,
                self.height == old(self).height,
                y0 <= row,
                cx64 == cx,
                cy64 == cy,
                y1 <= self.height,
                x1 <= self.width,
                y0 >= cy - radius,
                x0 >= cx - radius,
                y1 > 0 ==> y1 <= cy + radius + 1,
                x1 > 0 ==> x1 <= cx + radius + 1,
                forall|qx: int, qy: int|
                    self.in_bounds(qx, qy) && (qy < y0 || qy >= y1 || qx < x0 || qx >= x1) ==> !#[trigger] in_cone(radius as int, *fov, qx - cx, qy - cy),
                forall|qx: int, qy: int|
                    self.in_bounds(qx, qy) ==> #[trigger] self.pixel(qx, qy) == if qy < row
                        && in_cone(radius as int, *fov, qx - cx, qy - cy) {
                        color
                    } else {
                        old(self).pixel(qx, qy)
                    },
            decreases y1 - row,
        {
            let mut col = x0;
            while col < x1
                invariant
                    self.wf(),
                    self.width == old(self).width,
                    self.height == old(self).height,
                    y0 <= row < y1,
                    x0 <= col,
                    cx64 == cx,
                    cy64 == cy,
                    y1 <= self.height,
                    x1 <= self.width,
                    y0 >= cy - radius,
                    x0 >= cx - radius,
                    y1 > 0 ==> y1 <= cy + radius + 1,
                    x1 > 0 ==> x1 <= cx + radius + 1,
                    forall|qx: int, qy: int|
                        self.in_bounds(qx, qy) && (qy < y0 || qy >= y1 || qx < x0 || qx >= x1) ==> !#[trigger] in_cone(
                            radius as int,
                            *fov,
                            qx - cx,
                            qy - cy,
                        ),
                    forall|qx: int, qy: int|
                        self.in_bounds(qx, qy) ==> #[trigger] self.pixel(qx, qy) == if (qy < row || (
                        qy == row && qx < col)) && in_cone(radius as int, *fov, qx - cx, qy - cy) {
                            color
                        } else {
                            old(self).pixel(qx, qy)
                        },
                decreases x1 - col,
            {
                let dx = col as i64 - cx64;
                let dy = row as i64 - cy64;
                if offset_in_radius(dx, dy, radius) && fov.covers_offset(dx, dy) {
                    self.set_pixel(col as i64, row as i64, color);
                }
                col += 1;
            }
            row += 1;
        }
    }
}

/// The midpoint circle is symmetric under the eight reflections of the
/// plane that fix its centre: swapping the axes and flipping either one.
pub proof fn lemma_circle_symmetric(r: int, a: int, b: int)
    ensures
        on_circle(r, a, b) == on_circle(r, b, a),
        on_circle(r, a, b) == on_circle(r, -a, b),
        on_circle(r, a, b) == on_circle(r, a, -b),
{
    lemma_hits_symmetric(r, 0, 1 - r, a, b);
}

proof fn lemma_hits_symmetric(x: int, y: int, err: int, a: int, b: int)
    ensures
        midpoint_hits(x, y, err, a, b) == midpoint_hits(x, y, err, b, a),
        midpoint_hits(x, y, err, a, b) == midpoint_hits(x, y, err, -a, b),
        midpoint_hits(x, y, err, a, b) == midpoint_hits(x, y, err, a, -b),
    decreases octant_measure(x, y),
{
    if x >= y {
        let y1 = y + 1;
        if err < 0 {
            lemma_hits_symmetric(x, y1, err + 2 * y1 + 1, a, b);
        } else {
            lemma_hits_symmetric(x - 1, y1, err + 2 * (y1 - (x - 1)) + 1, a, b);
        }
    }
}

proof fn lemma_index_in_range(w: int, h: int, x: int, y: int)
    requires
        0 <= x < w,
        0 <= y < h,
    ensures
        0 <= y * w + x < w * h,
{
    assert(0 <= y * w + x < w * h) by (nonlinear_arith)
        requires 0 <= x < w, 0 <= y < h;
}

proof fn lemma_index_injective(w: int, x1: int, y1: int, x2: int, y2: int)
    requires
        0 <= x1 < w,
        0 <= x2 < w,
        0 <= y1,
        0 <= y2,
    ensures
        (y1 * w + x1 == y2 * w + x2) == (x1 == x2 && y1 == y2),
{
    if y1 < y2 {
        assert(y1 * w + x1 < y2 * w + x2) by (nonlinear_arith)
            requires 0 <= x1 < w, 0 <= x2, y1 < y2;
    } else if y2 < y1 {
        assert(y2 * w + x2 < y1 * w + x1) by (nonlinear_arith)
            requires 0 <= x2 < w, 0 <= x1, y2 < y1;
    }
}

} // verus!
