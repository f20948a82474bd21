//! The exact affine transform that maps one quad onto another.
use vstd::prelude::*;
use crate::fixed::lemma_mul_bound;
use crate::geometry::{Point, Quad, COORD_LIMIT};

verus! {

/// A column of a `Mat4`: numerators over the matrix's denominator.
#[derive(Clone, Copy, Debug, PartialEq, Eq)]
pub struct Vec4 {
    pub x: i128,
    pub y: i128,
    pub z: i128,
    pub w: i128,
}

/// A 4x4 transform with rational entries, stored by columns as numerators
/// over the common denominator `den`.
#[derive(Clone, Copy, Debug, PartialEq, Eq)]
pub struct Mat4 {
    pub x_axis: Vec4,
    pub y_axis: Vec4,
    pub z_axis: Vec4,
    pub w_axis: Vec4,
    pub den: i128,
}

impl Mat4 {
    /// The x coordinate of the image of the point `p` of the plane, times
    /// `den`.
    pub open spec fn image_x(self, p: Point) -> int {
        self.x_axis.x * p.x + self.y_axis.x * p.y + self.w_axis.x
    }

    /// The y coordinate of the image of the point `p` of the plane, times
    /// `den`.
    pub open spec fn image_y(self, p: Point) -> int {
        self.x_axis.y * p.x + self.y_axis.y * p.y + self.w_axis.y
    }

    /// The transform takes the point `p` exactly to the point `q`.
    pub open spec fn maps(self, p: Point, q: Point) -> bool {
        &&& self.image_x(p) == self.den * q.x
        &&& self.image_y(p) == self.den * q.y
    }

    /// The transform is an affine map of the plane embedded in space: the
    /// third axis is zero throughout and the homogeneous scale is one.
    pub open spec fn is_planar(self) -> bool {
        &&& self.x_axis.z == 0 && self.x_axis.w == 0
        &&& self.y_axis.z == 0 && self.y_axis.w == 0
        &&& self.z_axis == (Vec4 { x: 0, y: 0, z: 0, w: 0 })
        &&& self.w_axis.z == 0 && self.w_axis.w == self.den
    }
}

/// The affine map of the plane that takes the first three corners of `from`
/// to the first three corners of `to`, by Cramer's rule. With `e1`, `e2` the
/// edges of `from` out of its first corner and `f1`, `f2` those of `to`, the
/// linear part is `[f1 f2] * adj([e1 e2])` over `from.det()`.
pub open spec fn affine_between(from: Quad, to: Quad) -> Mat4 {
    let e1x = from.top_right.x - from.bottom_left.x;
    let e1y = from.top_right.y - from.bottom_left.y;
    let e2x = from.top_left.x - from.bottom_left.x;
    let e2y = from.top_left.y - from.bottom_left.y;
    let f1x = to.top_right.x - to.bottom_left.x;
    let f1y = to.top_right.y - to.bottom_left.y;
    let f2x = to.top_left.x - to.bottom_left.x;
    let f2y = to.top_left.y - to.bottom_left.y;
    let det = from.det();
    let a = f1x * e2y - f2x * e1y;
    let b = f2x * e1x - f1x * e2x;
    let c = f1y * e2y - f2y * e1y;
    let d = f2y * e1x - f1y * e2x;
    let tx = det * to.bottom_left.x - a * from.bottom_left.x - b * from.bottom_left.y;
    let ty = det * to.bottom_left.y - c * from.bottom_left.x - d * from.bottom_left.y;
    Mat4 {
        x_axis: Vec4 { x: a as i128, y: c as i128, z: 0, w: 0 },
        y_axis: Vec4 { x: b as i128, y: d as i128, z: 0, w: 0 },
        z_axis: Vec4 { x: 0, y: 0, z: 0, w: 0 },
        w_axis: Vec4 { x: tx as i128, y: ty as i128, z: 0, w: det as i128 },
        den: det as i128,
    }
}

/// The pair can be solved: the first three corners of `from` do not lie on
/// one line, and the map that they determine also takes the fourth corner of
/// `from` to the fourth corner of `to`.
pub open spec fn solvable(from: Quad, to: Quad) -> bool {
    &&& from.det() != 0
    &&& affine_between(from, to).maps(from.bottom_right, to.bottom_right)
}

/// The difference of two products of edges, which is what every entry of the
/// linear part and the determinant are.
fn edge_cross(a: i128, b: i128, c: i128, d: i128) -> (r: i128)
    requires
        -0x200_0000_0000 <= a <= 0x200_0000_0000,
        -0x200_0000_0000 <= b <= 0x200_0000_0000,
        -0x200_0000_0000 <= c <= 0x200_0000_0000,
        -0x200_0000_0000 <= d <= 0x200_0000_0000,
    ensures
        r == a * b - c * d,
        -0x8_0000_0000_0000_0000_0000 <= r <= 0x8_0000_0000_0000_0000_0000,
{
    proof {
        lemma_mul_bound(a as int, b as int, 0x200_0000_0000, 0x200_0000_0000);
        lemma_mul_bound(c as int, d as int, 0x200_0000_0000, 0x200_0000_0000);
    }
    a * b - c * d
}

/// The numerator of one coordinate of the translation.
fn translation_part(det: i128, q: i64, a: i128, px: i64, b: i128, py: i64) -> (r: i128)
    requires
        -0x8_0000_0000_0000_0000_0000 <= det <= 0x8_0000_0000_0000_0000_0000,
        -0x8_0000_0000_0000_0000_0000 <= a <= 0x8_0000_0000_0000_0000_0000,
        -0x8_0000_0000_0000_0000_0000 <= b <= 0x8_0000_0000_0000_0000_0000,
        -COORD_LIMIT <= q <= COORD_LIMIT,
        -COORD_LIMIT <= px <= COORD_LIMIT,
        -COORD_LIMIT <= py <= COORD_LIMIT,
    ensures
        r == det * q - a * px - b * py,
{
    proof {
        lemma_mul_bound(det as int, q as int, 0x8_0000_0000_0000_0000_0000, 0x100_0000_0000);
        lemma_mul_bound(a as int, px as int, 0x8_0000_0000_0000_0000_0000, 0x100_0000_0000);
        lemma_mul_bound(b as int, py as int, 0x8_0000_0000_0000_0000_0000, 0x100_0000_0000);
    }
    det * (q as i128) - a * (px as i128) - b * (py as i128)
}

/// The affine map between two in-range quads, whether or not their fourth
/// corners agree.
fn affine_between_exec(from: &Quad, to: &Quad) -> (m: Mat4)
    requires
        from.in_range(),
        to.in_range(),
    ensures
        m == affine_between(*from, *to),
        m.den == from.det(),
{
    let e1x: i128 = from.top_right.x as i128 - from.bottom_left.x as i128;
    let e1y: i128 = from.top_right.y as i128 - from.bottom_left.y as i128;
    let e2x: i128 = from.top_left.x as i128 - from.bottom_left.x as i128;
    let e2y: i128 = from.top_left.y as i128 - from.bottom_left.y as i128;
    let f1x: i128 = to.top_right.x as i128 - to.bottom_left.x as i128;
    let f1y: i128 = to.top_right.y as i128 - to.bottom_left.y as i128;
    let f2x: i128 = to.top_left.x as i128 - to.bottom_left.x as i128;
    let f2y: i128 = to.top_left.y as i128 - to.bottom_left.y as i128;
    let det: i128 = edge_cross(e1x, e2y, e2x, e1y);
    let a: i128 = edge_cross(f1x, e2y, f2x, e1y);
    let b: i128 = edge_cross(f2x, e1x, f1x, e2x);
    let c: i128 = edge_cross(f1y, e2y, f2y, e1y);
    let d: i128 = edge_cross(f2y, e1x, f1y, e2x);
    let tx: i128 = translation_part(det, to.bottom_left.x, a, from.bottom_left.x, b, from.bottom_left.y);
    let ty: i128 = translation_part(det, to.bottom_left.y, c, from.bottom_left.x, d, from.bottom_left.y);
    Mat4 {
        x_axis: Vec4 { x: a, y: c, z: 0, w: 0 },
        y_axis: Vec4 { x: b, y: d, z: 0, w: 0 },
        z_axis: Vec4 { x: 0, y: 0, z: 0, w: 0 },
        w_axis: Vec4 { x: tx, y: ty, z: 0, w: det },
        den: det,
    }
}

/// The entries of the map between two in-range quads are the exact values of
/// Cramer's rule: nothing is lost when they are stored.
proof fn lemma_affine_between_entries(from: Quad, to: Quad)
    requires
        from.in_range(),
        to.in_range(),
    ensures
        ({
            let m = affine_between(from, to);
            let e1x = from.top_right.x - from.bottom_left.x;
            let e1y = from.top_right.y - from.bottom_left.y;
            let e2x = from.top_left.x - from.bottom_left.x;
            let e2y = from.top_left.y - from.bottom_left.y;
            let f1x = to.top_right.x - to.bottom_left.x;
            let f1y = to.top_right.y - to.bottom_left.y;
            let f2x = to.top_left.x - to.bottom_left.x;
            let f2y = to.top_left.y - to.bottom_left.y;
            &&& m.den == e1x * e2y - e2x * e1y
            &&& m.x_axis.x == f1x * e2y - f2x * e1y
            &&& m.y_axis.x == f2x * e1x - f1x * e2x
            &&& m.x_axis.y == f1y * e2y - f2y * e1y
            &&& m.y_axis.y == f2y * e1x - f1y * e2x
            &&& m.w_axis.x == m.den * to.bottom_left.x - m.x_axis.x * from.bottom_left.x
                - m.y_axis.x * from.bottom_left.y
            &&& m.w_axis.y == m.den * to.bottom_left.y - m.x_axis.y * from.bottom_left.x
                - m.y_axis.y * from.bottom_left.y
            &&& -0x8_0000_0000_0000_0000_0000 <= m.den <= 0x8_0000_0000_0000_0000_0000
            &&& -0x8_0000_0000_0000_0000_0000 <= m.x_axis.x <= 0x8_0000_0000_0000_0000_0000
            &&& -0x8_0000_0000_0000_0000_0000 <= m.y_axis.x <= 0x8_0000_0000_0000_0000_0000
            &&& -0x8_0000_0000_0000_0000_0000 <= m.x_axis.y <= 0x8_0000_0000_0000_0000_0000
            &&& -0x8_0000_0000_0000_0000_0000 <= m.y_axis.y <= 0x8_0000_0000_0000_0000_0000
            &&& -0x1800_0000_0000_0000_0000_0000_0000_0000 <= m.w_axis.x
                <= 0x1800_0000_0000_0000_0000_0000_0000_0000
            &&& -0x1800_0000_0000_0000_0000_0000_0000_0000 <= m.w_axis.y
                <= 0x1800_0000_0000_0000_0000_0000_0000_0000
        }),
{
    let e1x = from.top_right.x - from.bottom_left.x;
    let e1y = from.top_right.y - from.bottom_left.y;
    let e2x = from.top_left.x - from.bottom_left.x;
    let e2y = from.top_left.y - from.bottom_left.y;
    let f1x = to.top_right.x - to.bottom_left.x;
    let f1y = to.top_right.y - to.bottom_left.y;
    let f2x = to.top_left.x - to.bottom_left.x;
    let f2y = to.top_left.y - to.bottom_left.y;
    lemma_mul_bound(e1x, e2y, 0x200_0000_0000, 0x200_0000_0000);
    lemma_mul_bound(e2x, e1y, 0x200_0000_0000, 0x200_0000_0000);
    lemma_mul_bound(f1x, e2y, 0x200_0000_0000, 0x200_0000_0000);
    lemma_mul_bound(f2x, e1y, 0x200_0000_0000, 0x200_0000_0000);
    lemma_mul_bound(f2x, e1x, 0x200_0000_0000, 0x200_0000_0000);
    lemma_mul_bound(f1x, e2x, 0x200_0000_0000, 0x200_0000_0000);
    lemma_mul_bound(f1y, e2y, 0x200_0000_0000, 0x200_0000_0000);
    lemma_mul_bound(f2y, e1y, 0x200_0000_0000, 0x200_0000_0000);
    lemma_mul_bound(f2y, e1x, 0x200_0000_0000, 0x200_0000_0000);
    lemma_mul_bound(f1y, e2x, 0x200_0000_0000, 0x200_0000_0000);
    let det = e1x * e2y - e2x * e1y;
    let a = f1x * e2y - f2x * e1y;
    let b = f2x * e1x - f1x * e2x;
    let c = f1y * e2y - f2y * e1y;
    let d = f2y * e1x - f1y * e2x;
    lemma_mul_bound(det, to.bottom_left.x as int, 0x8_0000_0000_0000_0000_0000, 0x100_0000_0000);
    lemma_mul_bound(det, to.bottom_left.y as int, 0x8_0000_0000_0000_0000_0000, 0x100_0000_0000);
    lemma_mul_bound(a, from.bottom_left.x as int, 0x8_0000_0000_0000_0000_0000, 0x100_0000_0000);
    lemma_mul_bound(b, from.bottom_left.y as int, 0x8_0000_0000_0000_0000_0000, 0x100_0000_0000);
    lemma_mul_bound(c, from.bottom_left.x as int, 0x8_0000_0000_0000_0000_0000, 0x100_0000_0000);
    lemma_mul_bound(d, from.bottom_left.y as int, 0x8_0000_0000_0000_0000_0000, 0x100_0000_0000);
}

/// The image of `p0 + (ux, uy)` under a map with linear part `(a, b; c, d)`
/// that takes `p0` to `den * q0`.
proof fn lemma_image_of_offset(a: int, b: int, t: int, px: int, py: int, ux: int, uy: int)
    ensures
        a * (px + ux) + b * (py + uy) + t == (a * px + b * py + t) + (a * ux + b * uy),
{
    assert(a * (px + ux) == a * px + a * ux) by (nonlinear_arith);
    assert(b * (py + uy) == b * py + b * uy) by (nonlinear_arith);
}

/// The map between two quads takes each of the first three corners of the
/// one exactly to the corresponding corner of the other.
pub proof fn lemma_affine_between_maps_corners(from: Quad, to: Quad)
    requires
        from.in_range(),
        to.in_range(),
    ensures
        affine_between(from, to).maps(from.bottom_left, to.bottom_left),
        affine_between(from, to).maps(from.top_right, to.top_right),
        affine_between(from, to).maps(from.top_left, to.top_left),
{
    lemma_affine_between_entries(from, to);
    let m = affine_between(from, to);
    let e1x = from.top_right.x - from.bottom_left.x;
    let e1y = from.top_right.y - from.bottom_left.y;
    let e2x = from.top_left.x - from.bottom_left.x;
    let e2y = from.top_left.y - from.bottom_left.y;
    let f1x = to.top_right.x - to.bottom_left.x;
    let f1y = to.top_right.y - to.bottom_left.y;
    let f2x = to.top_left.x - to.bottom_left.x;
    let f2y = to.top_left.y - to.bottom_left.y;
    let det = m.den as int;
    let a = m.x_axis.x as int;
    let b = m.y_axis.x as int;
    let c = m.x_axis.y as int;
    let d = m.y_axis.y as int;
    let px = from.bottom_left.x as int;
    let py = from.bottom_left.y as int;
    lemma_image_of_offset(a, b, m.w_axis.x as int, px, py, e1x, e1y);
    lemma_image_of_offset(c, d, m.w_axis.y as int, px, py, e1x, e1y);
    lemma_image_of_offset(a, b, m.w_axis.x as int, px, py, e2x, e2y);
    lemma_image_of_offset(c, d, m.w_axis.y as int, px, py, e2x, e2y);
    assert(a * e1x + b * e1y == det * f1x) by (nonlinear_arith)
        requires
            det == e1x * e2y - e2x * e1y,
            a == f1x * e2y - f2x * e1y,
            b == f2x * e1x - f1x * e2x,
    ;
    assert(c * e1x + d * e1y == det * f1y) by (nonlinear_arith)
        requires
            det == e1x * e2y - e2x * e1y,
            c == f1y * e2y - f2y * e1y,
            d == f2y * e1x - f1y * e2x,
    ;
    assert(a * e2x + b * e2y == det * f2x) by (nonlinear_arith)
        requires
            det == e1x * e2y - e2x * e1y,
            a == f1x * e2y - f2x * e1y,
            b == f2x * e1x - f1x * e2x,
    ;
    assert(c * e2x + d * e2y == det * f2y) by (nonlinear_arith)
        requires
            det == e1x * e2y - e2x * e1y,
            c == f1y * e2y - f2y * e1y,
            d == f2y * e1x - f1y * e2x,
    ;
    assert(det * (to.bottom_left.x + f1x) == det * to.bottom_left.x + det * f1x)
        by (nonlinear_arith);
    assert(det * (to.bottom_left.y + f1y) == det * to.bottom_left.y + det * f1y)
        by (nonlinear_arith);
    assert(det * (to.bottom_left.x + f2x) == det * to.bottom_left.x + det * f2x)
        by (nonlinear_arith);
    assert(det * (to.bottom_left.y + f2y) == det * to.bottom_left.y + det * f2y)
        by (nonlinear_arith);
}

/// A product with a factor that is not zero vanishes only with the other
/// factor.
proof fn lemma_cancel(x: int, det: int)
    requires
        det != 0,
        x * det == 0,
    ensures
        x == 0,
{
    assert(x == 0) by (nonlinear_arith)
        requires
            det != 0,
            x * det == 0,
    ;
}

/// A row `(a, b)` that annihilates both edges of a triangle with area is
/// the zero row.
proof fn lemma_row_vanishes(a: int, b: int, e1x: int, e1y: int, e2x: int, e2y: int)
    requires
        a * e1x + b * e1y == 0,
        a * e2x + b * e2y == 0,
        e1x * e2y - e2x * e1y != 0,
    ensures
        a == 0,
        b == 0,
{
    let det = e1x * e2y - e2x * e1y;
    assert(a * det == (a * e1x + b * e1y) * e2y - (a * e2x + b * e2y) * e1y)
        by (nonlinear_arith)
        requires
            det == e1x * e2y - e2x * e1y,
    ;
    assert(b * det == (a * e2x + b * e2y) * e1x - (a * e1x + b * e1y) * e2x)
        by (nonlinear_arith)
        requires
            det == e1x * e2y - e2x * e1y,
    ;
    assert(a * det == 0) by (nonlinear_arith)
        requires
            a * det == (a * e1x + b * e1y) * e2y - (a * e2x + b * e2y) * e1y,
            a * e1x + b * e1y == 0,
            a * e2x + b * e2y == 0,
    ;
    assert(b * det == 0) by (nonlinear_arith)
        requires
            b * det == (a * e2x + b * e2y) * e1x - (a * e1x + b * e1y) * e2x,
            a * e1x + b * e1y == 0,
            a * e2x + b * e2y == 0,
    ;
    lemma_cancel(a, det);
    lemma_cancel(b, det);
}

/// Two rows with the same offset that agree on a corner and on both edges
/// out of it are the same row.
proof fn lemma_rows_agree(
    a: int,
    b: int,
    t: int,
    a2: int,
    b2: int,
    t2: int,
    px: int,
    py: int,
    e1x: int,
    e1y: int,
    e2x: int,
    e2y: int,
)
    requires
        a * px + b * py + t == a2 * px + b2 * py + t2,
        a * (px + e1x) + b * (py + e1y) + t == a2 * (px + e1x) + b2 * (py + e1y) + t2,
        a * (px + e2x) + b * (py + e2y) + t == a2 * (px + e2x) + b2 * (py + e2y) + t2,
        e1x * e2y - e2x * e1y != 0,
    ensures
        a == a2,
        b == b2,
        t == t2,
{
    lemma_image_of_offset(a, b, t, px, py, e1x, e1y);
    lemma_image_of_offset(a2, b2, t2, px, py, e1x, e1y);
    lemma_image_of_offset(a, b, t, px, py, e2x, e2y);
    lemma_image_of_offset(a2, b2, t2, px, py, e2x, e2y);
    assert((a - a2) * e1x + (b - b2) * e1y == 0) by (nonlinear_arith)
        requires
            a * e1x + b * e1y == a2 * e1x + b2 * e1y,
    ;
    assert((a - a2) * e2x + (b - b2) * e2y == 0) by (nonlinear_arith)
        requires
            a * e2x + b * e2y == a2 * e2x + b2 * e2y,
    ;
    lemma_row_vanishes(a - a2, b - b2, e1x, e1y, e2x, e2y);
}

/// The map between two quads is the only one: a planar transform over the
/// same denominator that takes the first three corners of `from` to those of
/// `to` is `affine_between(from, to)`, provided the three corners of `from`
/// do not lie on one line.
pub proof fn lemma_affine_between_unique(m: Mat4, from: Quad, to: Quad)
    requires
        from.in_range(),
        to.in_range(),
        from.det() != 0,
        m.den == from.det(),
        m.is_planar(),
        m.maps(from.bottom_left, to.bottom_left),
        m.maps(from.top_right, to.top_right),
        m.maps(from.top_left, to.top_left),
    ensures
        m == affine_between(from, to),
{
    let n = affine_between(from, to);
    lemma_affine_between_entries(from, to);
    lemma_affine_between_maps_corners(from, to);
    let px = from.bottom_left.x as int;
    let py = from.bottom_left.y as int;
    let e1x = from.top_right.x - from.bottom_left.x;
    let e1y = from.top_right.y - from.bottom_left.y;
    let e2x = from.top_left.x - from.bottom_left.x;
    let e2y = from.top_left.y - from.bottom_left.y;
    assert(from.top_right.x == px + e1x && from.top_right.y == py + e1y);
    assert(from.top_left.x == px + e2x && from.top_left.y == py + e2y);
    lemma_rows_agree(
        m.x_axis.x as int,
        m.y_axis.x as int,
        m.w_axis.x as int,
        n.x_axis.x as int,
        n.y_axis.x as int,
        n.w_axis.x as int,
        px,
        py,
        e1x,
        e1y,
        e2x,
        e2y,
    );
    lemma_rows_agree(
        m.x_axis.y as int,
        m.y_axis.y as int,
        m.w_axis.y as int,
        n.x_axis.y as int,
        n.y_axis.y as int,
        n.w_axis.y as int,
        px,
        py,
        e1x,
        e1y,
        e2x,
        e2y,
    );
}

/// Between two parallelograms the fourth corner is mapped as well: the pair
/// is consistent whenever both quads close up.
pub proof fn lemma_affine_between_maps_parallelograms(from: Quad, to: Quad)
    requires
        from.in_range(),
        to.in_range(),
        from.is_parallelogram(),
        to.is_parallelogram(),
    ensures
        affine_between(from, to).maps(from.bottom_right, to.bottom_right),
{
    lemma_affine_between_entries(from, to);
    lemma_affine_between_maps_corners(from, to);
    let m = affine_between(from, to);
    let a = m.x_axis.x as int;
    let b = m.y_axis.x as int;
    let c = m.x_axis.y as int;
    let d = m.y_axis.y as int;
    let den = m.den as int;
    let p0 = from.bottom_left;
    let p1 = from.top_right;
    let p2 = from.top_left;
    let p3 = from.bottom_right;
    assert(a * p3.x == a * p0.x + a * p1.x - a * p2.x) by (nonlinear_arith)
        requires
            p3.x == p0.x + p1.x - p2.x,
    ;
    assert(b * p3.y == b * p0.y + b * p1.y - b * p2.y) by (nonlinear_arith)
        requires
            p3.y == p0.y + p1.y - p2.y,
    ;
    assert(c * p3.x == c * p0.x + c * p1.x - c * p2.x) by (nonlinear_arith)
        requires
            p3.x == p0.x + p1.x - p2.x,
    ;
    assert(d * p3.y == d * p0.y + d * p1.y - d * p2.y) by (nonlinear_arith)
        requires
            p3.y == p0.y + p1.y - p2.y,
    ;
    let q0 = to.bottom_left;
    let q1 = to.top_right;
    let q2 = to.top_left;
    let q3 = to.bottom_right;
    assert(den * q3.x == den * q0.x + den * q1.x - den * q2.x) by (nonlinear_arith)
        requires
            q3.x == q0.x + q1.x - q2.x,
    ;
    assert(den * q3.y == den * q0.y + den * q1.y - den * q2.y) by (nonlinear_arith)
        requires
            q3.y == q0.y + q1.y - q2.y,
    ;
}

/// The numerator of one coordinate of the image of `p`.
fn image_part(a: i128, b: i128, t: i128, p: Point) -> (r: i128)
    requires
        -0x8_0000_0000_0000_0000_0000 <= a <= 0x8_0000_0000_0000_0000_0000,
        -0x8_0000_0000_0000_0000_0000 <= b <= 0x8_0000_0000_0000_0000_0000,
        -0x1800_0000_0000_0000_0000_0000_0000_0000 <= t <= 0x1800_0000_0000_0000_0000_0000_0000_0000,
        p.in_range(),
    ensures
        r == a * p.x + b * p.y + t,
{
    proof {
        lemma_mul_bound(a as int, p.x as int, 0x8_0000_0000_0000_0000_0000, 0x100_0000_0000);
        lemma_mul_bound(b as int, p.y as int, 0x8_0000_0000_0000_0000_0000, 0x100_0000_0000);
    }
    a * (p.x as i128) + b * (p.y as i128) + t
}

/// Tests whether a pair of in-range quads can be solved.
pub fn is_solvable(from: Quad, to: Quad) -> (ok: bool)
    requires
        from.in_range(),
        to.in_range(),
    ensures
        ok == solvable(from, to),
{
    let m: Mat4 = affine_between_exec(&from, &to);
    proof {
        lemma_affine_between_entries(from, to);
        let den = m.den as int;
        lemma_mul_bound(den, to.bottom_right.x as int, 0x8_0000_0000_0000_0000_0000, 0x100_0000_0000);
        lemma_mul_bound(den, to.bottom_right.y as int, 0x8_0000_0000_0000_0000_0000, 0x100_0000_0000);
    }
    if m.den == 0 {
        return false;
    }
    let ix: i128 = image_part(m.x_axis.x, m.y_axis.x, m.w_axis.x, from.bottom_right);
    let iy: i128 = image_part(m.x_axis.y, m.y_axis.y, m.w_axis.y, from.bottom_right);
    ix == m.den * (to.bottom_right.x as i128) && iy == m.den * (to.bottom_right.y as i128)
}

/// Solves for the affine transform that maps the quad `from` onto the quad
/// `to`: the unique affine map of the plane that takes the first three
/// corners of `from` to those of `to`, embedded in a 4x4 matrix whose third
/// axis is zero. The fourth corners serve as a consistency check and must
/// agree with the map.
pub fn solve_affine_quad(from: Quad, to: Quad) -> (m: Mat4)
    requires
        from.in_range(),
        to.in_range(),
        solvable(from, to),
    ensures
        m == affine_between(from, to),
        m.den == from.det(),
        m.den != 0,
        m.is_planar(),
        m.maps(from.bottom_left, to.bottom_left),
        m.maps(from.top_right, to.top_right),
        m.maps(from.top_left, to.top_left),
        m.maps(from.bottom_right, to.bottom_right),
{
    proof {
        lemma_affine_between_maps_corners(from, to);
    }
    affine_between_exec(&from, &to)
}

/// Solves for the affine transform that maps `from` onto `to` where there is
/// one: the result is `None` when a corner lies out of range, when the first
/// three corners of `from` lie on one line, or when the fourth corners do not
/// agree with the map of the first three.
pub fn try_solve_affine_quad(from: Quad, to: Quad) -> (r: Option<Mat4>)
    ensures
        r.is_some() <==> from.in_range() && to.in_range() && solvable(from, to),
        r.is_some() ==> r.unwrap() == affine_between(from, to),
{
    if !from.is_in_range() || !to.is_in_range() {
        return None;
    }
    if !is_solvable(from, to) {
        return None;
    }
    Some(solve_affine_quad(from, to))
}

} // verus!
