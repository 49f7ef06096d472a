//! Integer geometry of perception: distance checks and view cones.
//!
//! A view cone is a direction vector together with the cosine of its half
//! angle, given as a fraction `cos_num / cos_den`. A target offset lies in the
//! cone when the angle between it and the direction is at most that half
//! angle, which is decided exactly with integer arithmetic.
use vstd::prelude::*;

verus! {

/// Squared length of the vector (x, y).
pub open spec fn norm2(x: int, y: int) -> int {
    x * x + y * y
}

/// The point (tx, ty) lies at Euclidean distance at most `r` from (ox, oy).
pub open spec fn within_radius(ox: int, oy: int, tx: int, ty: int, r: int) -> bool {
    norm2(tx - ox, ty - oy) <= r * r
}

/// The offset (dx, dy) makes an angle of at most `alpha` with the direction
/// (hx, hy), where `cos(alpha) == cn / cd` and `cd > 0`: that is,
/// `(d . h) * cd >= cn * |d| * |h|`, compared through squares.
/// The zero offset lies within every angle.
pub open spec fn within_angle(dx: int, dy: int, hx: int, hy: int, cn: int, cd: int) -> bool {
    let lhs = (dx * hx + dy * hy) * cd;
    let rhs2 = cn * cn * norm2(dx, dy) * norm2(hx, hy);
    if cn >= 0 {
        lhs >= 0 && lhs * lhs >= rhs2
    } else {
        lhs >= 0 || lhs * lhs <= rhs2
    }
}

/// The offset (dx, dy) makes an angle of more than `alpha` with (hx, hy),
/// where `cos(alpha) == cn / cd`: `(d . h) * cd < cn * |d| * |h|`, compared
/// through squares.
pub open spec fn beyond_angle(dx: int, dy: int, hx: int, hy: int, cn: int, cd: int) -> bool {
    let lhs = (dx * hx + dy * hy) * cd;
    let rhs2 = cn * cn * norm2(dx, dy) * norm2(hx, hy);
    if cn >= 0 {
        lhs < 0 || lhs * lhs < rhs2
    } else {
        lhs < 0 && lhs * lhs > rhs2
    }
}

/// Exact test of `within_radius` on machine integers.
pub fn in_radius(ox: i32, oy: i32, tx: i32, ty: i32, r: u32) -> (res: bool)
    ensures
        res == within_radius(ox as int, oy as int, tx as int, ty as int, r as int),
{
    offset_in_radius(tx as i64 - ox as i64, ty as i64 - oy as i64, r)
}

/// Whether the offset (dx, dy) has length at most `r`.
pub fn offset_in_radius(dx: i64, dy: i64, r: u32) -> (res: bool)
    requires
        -0x1_0000_0000 <= dx <= 0x1_0000_0000,
        -0x1_0000_0000 <= dy <= 0x1_0000_0000,
    ensures
        res == (norm2(dx as int, dy as int) <= r * r),
{
    let dx = dx as i128;
    let dy = dy as i128;
    proof {
        lemma_square_bound(dx as int, 0x1_0000_0000);
        lemma_square_bound(dy as int, 0x1_0000_0000);
        lemma_square_bound(r as int, 0x1_0000_0000);
    }
    let rr = r as i128;
    dx * dx + dy * dy <= rr * rr
}

/// An offset with a coordinate beyond `r` in size is farther than `r`.
pub proof fn lemma_far_offset(dx: int, dy: int, r: int)
    requires
        r >= 0,
        dx > r || dx < -r || dy > r || dy < -r,
    ensures
        norm2(dx, dy) > r * r,
{
    assert(norm2(dx, dy) > r * r) by (nonlinear_arith)
        requires
            r >= 0,
            dx > r || dx < -r || dy > r || dy < -r,
    ;
}

/// A view cone: the direction it faces and the cosine of its half angle.
#[derive(Clone, Copy, Debug, PartialEq, Eq, Structural)]
pub struct FieldOfView {
    pub dir_x: i16,
    pub dir_y: i16,
    pub cos_num: i16,
    pub cos_den: i16,
}

impl FieldOfView {
    /// A usable cone: a nonzero direction, a positive denominator and a
    /// cosine in [-1, 1].
    pub open spec fn wf(&self) -> bool {
        &&& (self.dir_x != 0 || self.dir_y != 0)
        &&& self.cos_den > 0
        &&& -self.cos_den <= self.cos_num <= self.cos_den
    }

    /// The offset (dx, dy) from the apex lies inside this cone.
    pub open spec fn contains_offset(&self, dx: int, dy: int) -> bool {
        within_angle(
            dx,
            dy,
            self.dir_x as int,
            self.dir_y as int,
            self.cos_num as int,
            self.cos_den as int,
        )
    }

    pub fn new(dir_x: i16, dir_y: i16, cos_num: i16, cos_den: i16) -> (r: Self)
        ensures
            r == (FieldOfView { dir_x, dir_y, cos_num, cos_den }),
    {
        FieldOfView { dir_x, dir_y, cos_num, cos_den }
    }

    /// Whether the point (tx, ty), seen from the apex (ox, oy), lies inside the cone.
    pub fn covers(&self, ox: i32, oy: i32, tx: i32, ty: i32) -> (res: bool)
        ensures
            res == self.contains_offset(tx - ox, ty - oy),
    {
        let dx = tx as i64 - ox as i64;
        let dy = ty as i64 - oy as i64;
        self.covers_offset(dx, dy)
    }

    /// Whether the offset (dx, dy) from the apex lies inside the cone.
    pub fn covers_offset(&self, dx: i64, dy: i64) -> (res: bool)
        requires
            -0x1_0000_0000 <= dx <= 0x1_0000_0000,
            -0x1_0000_0000 <= dy <= 0x1_0000_0000,
        ensures
            res == self.contains_offset(dx as int, dy as int),
    {
        let hx = self.dir_x as i128;
        let hy = self.dir_y as i128;
        let cn = self.cos_num as i128;
        let cd = self.cos_den as i128;
        let dx = dx as i128;
        let dy = dy as i128;
        let ghost lim: int = 0x1_0000_0000;
        let ghost hl: int = 0x8000;
        proof {
            lemma_product_bound(dx as int, hx as int, lim, hl);
            lemma_product_bound(dy as int, hy as int, lim, hl);
        }
        let dot = dx * hx + dy * hy;
        proof {
            lemma_product_bound(dot as int, cd as int, 2 * lim * hl, hl);
        }
        let lhs = dot * cd;
        proof {
            lemma_product_bound(lhs as int, lhs as int, 2 * lim * hl * hl, 2 * lim * hl * hl);
            lemma_square_bound(dx as int, lim);
            lemma_square_bound(dy as int, lim);
            lemma_square_bound(hx as int, hl);
            lemma_square_bound(hy as int, hl);
            lemma_square_bound(cn as int, hl);
        }
        let nd = dx * dx + dy * dy;
        let nh = hx * hx + hy * hy;
        let cc = cn * cn;
        proof {
            assert(0 <= cc * nd <= (hl * hl) * (2 * lim * lim)) by (nonlinear_arith)
                requires 0 <= cc <= hl * hl, 0 <= nd <= 2 * lim * lim;
            assert((hl * hl) * (2 * lim * lim) == 0x8000_0000_0000_0000_0000_0000);
            assert(0 <= cc * nd * nh <= 0x8000_0000_0000_0000_0000_0000 * 0x8000_0000)
                by (nonlinear_arith)
                requires
                    0 <= cc * nd <= 0x8000_0000_0000_0000_0000_0000,
                    0 <= nh <= 0x8000_0000,
            ;
        }
        let rhs2 = cc * nd * nh;
        if cn >= 0 {
            lhs >= 0 && lhs * lhs >= rhs2
        } else {
            lhs >= 0 || lhs * lhs <= rhs2
        }
    }
}

/// Every point on the ray from the apex along the cone's heading lies
/// inside the cone: an offset parallel to the direction and not pointing
/// against it.
pub proof fn lemma_heading_ray_in_cone(fov: FieldOfView, dx: int, dy: int)
    requires
        fov.wf(),
        dx * fov.dir_y == dy * fov.dir_x,
        dx * fov.dir_x + dy * fov.dir_y >= 0,
    ensures
        fov.contains_offset(dx, dy),
{
    let hx = fov.dir_x as int;
    let hy = fov.dir_y as int;
    let cn = fov.cos_num as int;
    let cd = fov.cos_den as int;
    let dot = dx * hx + dy * hy;
    let nd = norm2(dx, dy);
    let nh = norm2(hx, hy);
    let (a, b, c, d) = (dx * hx, dy * hy, dx * hy, dy * hx);
    assert((a + b) * (a + b) == a * a + 2 * (a * b) + b * b) by (nonlinear_arith);
    assert(c == d);
    assert(a * b == c * d) by (nonlinear_arith)
        requires a == dx * hx, b == dy * hy, c == dx * hy, d == dy * hx;
    assert(a * a == (dx * dx) * (hx * hx)) by (nonlinear_arith)
        requires a == dx * hx;
    assert(b * b == (dy * dy) * (hy * hy)) by (nonlinear_arith)
        requires b == dy * hy;
    assert(c * c == (dx * dx) * (hy * hy)) by (nonlinear_arith)
        requires c == dx * hy;
    assert(d * d == (dy * dy) * (hx * hx)) by (nonlinear_arith)
        requires d == dy * hx;
    assert(nd * nh == (dx * dx) * (hx * hx) + (dx * dx) * (hy * hy) + (dy * dy) * (hx * hx) + (
    dy * dy) * (hy * hy)) by (nonlinear_arith)
        requires nd == dx * dx + dy * dy, nh == hx * hx + hy * hy;
    assert(dot * dot == nd * nh);
    assert(nd >= 0 && nh >= 0) by (nonlinear_arith)
        requires nd == dx * dx + dy * dy, nh == hx * hx + hy * hy;
    assert(cn * cn <= cd * cd) by (nonlinear_arith)
        requires -cd <= cn <= cd, cd > 0;
    let lhs = dot * cd;
    assert(lhs >= 0) by (nonlinear_arith)
        requires dot >= 0, cd > 0, lhs == dot * cd;
    assert(lhs * lhs >= cn * cn * nd * nh) by (nonlinear_arith)
        requires lhs == dot * cd, dot * dot == nd * nh, nd >= 0, nh >= 0, cn * cn <= cd * cd;
}

proof fn lemma_square_bound(a: int, l: int)
    requires
        -l <= a <= l,
    ensures
        0 <= a * a <= l * l,
{
    assert(0 <= a * a <= l * l) by (nonlinear_arith)
        requires -l <= a <= l;
}

proof fn lemma_product_bound(a: int, b: int, la: int, lb: int)
    requires
        -la <= a <= la,
        -lb <= b <= lb,
    ensures
        -(la * lb) <= a * b <= la * lb,
{
    assert(-(la * lb) <= a * b <= la * lb) by (nonlinear_arith)
        requires -la <= a <= la, -lb <= b <= lb;
}

} // verus!
