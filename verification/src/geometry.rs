//! Positions, corners and distances.
use vstd::prelude::*;
use crate::fixed::{integer_sqrt, isqrt, lemma_integer_sqrt_exists, square};

verus! {

/// A position or a pair of scalars in 16.16 fixed point.
#[derive(Clone, Copy, Debug, PartialEq, Eq)]
pub struct Vec2 {
    pub x: i32,
    pub y: i32,
}

impl Vec2 {
    /// The pair `(x, y)`.
    pub fn new(x: i32, y: i32) -> (v: Vec2)
        ensures
            v == (Vec2 { x, y }),
    {
        Vec2 { x, y }
    }

    /// The pair `(0, 0)`.
    pub fn zero() -> (v: Vec2)
        ensures
            v == (Vec2 { x: 0, y: 0 }),
    {
        Vec2 { x: 0, y: 0 }
    }
}

/// A corner of a quad. Corners are derived from requests and need more room
/// than the coordinates of a request.
#[derive(Clone, Copy, Debug, PartialEq, Eq)]
pub struct Point {
    pub x: i64,
    pub y: i64,
}

/// The largest magnitude of a coordinate that `solve_affine_quad` accepts:
/// with it every intermediate product fits in 128 bits.
pub const COORD_LIMIT: i64 = 0x100_0000_0000;

impl Point {
    /// Both coordinates lie within `COORD_LIMIT` of zero.
    pub open spec fn in_range(self) -> bool {
        &&& -COORD_LIMIT <= self.x <= COORD_LIMIT
        &&& -COORD_LIMIT <= self.y <= COORD_LIMIT
    }

    /// Tests whether both coordinates lie within `COORD_LIMIT` of zero.
    pub fn is_in_range(&self) -> (ok: bool)
        ensures
            ok == self.in_range(),
    {
        -COORD_LIMIT <= self.x && self.x <= COORD_LIMIT && -COORD_LIMIT <= self.y && self.y
            <= COORD_LIMIT
    }
}

/// Four corners in the order of the reference quad's vertices: bottom left,
/// top right, top left, bottom right.
#[derive(Clone, Copy, Debug, PartialEq, Eq)]
pub struct Quad {
    pub bottom_left: Point,
    pub top_right: Point,
    pub top_left: Point,
    pub bottom_right: Point,
}

impl Quad {
    /// The reference quad: the unit square that every shape's mesh spans.
    pub open spec fn unit_spec() -> Quad {
        Quad {
            bottom_left: Point { x: 0, y: 0 },
            top_right: Point { x: 1, y: 1 },
            top_left: Point { x: 0, y: 1 },
            bottom_right: Point { x: 1, y: 0 },
        }
    }

    /// The reference quad: the unit square that every shape's mesh spans.
    #[verifier::when_used_as_spec(unit_spec)]
    pub fn unit() -> (q: Quad)
        ensures
            q == Quad::unit_spec(),
    {
        Quad {
            bottom_left: Point { x: 0, y: 0 },
            top_right: Point { x: 1, y: 1 },
            top_left: Point { x: 0, y: 1 },
            bottom_right: Point { x: 1, y: 0 },
        }
    }

    /// All four corners lie within `COORD_LIMIT` of the origin.
    pub open spec fn in_range(self) -> bool {
        &&& self.bottom_left.in_range()
        &&& self.top_right.in_range()
        &&& self.top_left.in_range()
        &&& self.bottom_right.in_range()
    }

    /// The determinant of the first three corners in homogeneous
    /// coordinates: twice the signed area of their triangle. It is zero
    /// exactly when the three corners lie on one line.
    pub open spec fn det(self) -> int {
        (self.top_right.x - self.bottom_left.x) * (self.top_left.y - self.bottom_left.y) - (
        self.top_left.x - self.bottom_left.x) * (self.top_right.y - self.bottom_left.y)
    }

    /// The fourth corner completes the first three to a parallelogram.
    pub open spec fn is_parallelogram(self) -> bool {
        &&& self.bottom_right.x == self.bottom_left.x + self.top_right.x - self.top_left.x
        &&& self.bottom_right.y == self.bottom_left.y + self.top_right.y - self.top_left.y
    }

    /// Tests whether all four corners lie within `COORD_LIMIT` of the origin.
    pub fn is_in_range(&self) -> (ok: bool)
        ensures
            ok == self.in_range(),
    {
        self.bottom_left.is_in_range() && self.top_right.is_in_range()
            && self.top_left.is_in_range() && self.bottom_right.is_in_range()
    }
}

/// The square of the distance between two positions.
pub open spec fn distance_squared(start: Vec2, end: Vec2) -> nat {
    ((end.x - start.x) * (end.x - start.x) + (end.y - start.y) * (end.y - start.y)) as nat
}

/// The distance between two positions, rounded down to a whole raw unit.
pub open spec fn distance(start: Vec2, end: Vec2) -> nat {
    integer_sqrt(distance_squared(start, end))
}

/// The magnitude of the difference of two coordinates.
fn span(from: i32, to: i32) -> (d: u64)
    ensures
        d == if to >= from { to - from } else { from - to },
        d <= 0xffff_ffff,
{
    let diff: i64 = to as i64 - from as i64;
    if diff >= 0 {
        diff as u64
    } else {
        (-diff) as u64
    }
}

/// The square of the distance between two positions is the sum of the
/// squares of their distances along the axes, and it is zero only between
/// equal positions.
pub proof fn lemma_distance_squared_bounds(start: Vec2, end: Vec2)
    ensures
        distance_squared(start, end) == square(end.x - start.x) + square(end.y - start.y),
        square(end.x - start.x) >= 0,
        square(end.y - start.y) >= 0,
        start != end ==> distance_squared(start, end) >= 1,
{
    let dx = end.x - start.x;
    let dy = end.y - start.y;
    assert(dx * dx >= 0 && dy * dy >= 0) by (nonlinear_arith);
    if start != end {
        assert(dx != 0 || dy != 0);
        assert(dx * dx + dy * dy >= 1) by (nonlinear_arith)
            requires
                dx != 0 || dy != 0,
        ;
    }
}

/// The distance between two positions fits in 34 bits.
pub proof fn lemma_distance_upper_bound(start: Vec2, end: Vec2)
    ensures
        distance(start, end) <= 0x2_0000_0000,
{
    let dx = end.x - start.x;
    let dy = end.y - start.y;
    let n = distance_squared(start, end);
    assert(dx * dx >= 0 && dy * dy >= 0) by (nonlinear_arith);
    assert(dx * dx <= 0xffff_ffff * 0xffff_ffff) by (nonlinear_arith)
        requires
            -0xffff_ffff <= dx <= 0xffff_ffff,
    ;
    assert(dy * dy <= 0xffff_ffff * 0xffff_ffff) by (nonlinear_arith)
        requires
            -0xffff_ffff <= dy <= 0xffff_ffff,
    ;
    lemma_integer_sqrt_exists(n);
    let r = distance(start, end);
    assert(r <= 0x2_0000_0000) by (nonlinear_arith)
        requires
            r * r <= n,
            n <= 2 * (0xffff_ffff * 0xffff_ffff),
            r >= 0,
    ;
}

/// Computes the square of the distance between two positions.
pub fn segment_length_squared(start: Vec2, end: Vec2) -> (squared: u128)
    ensures
        squared == distance_squared(start, end),
        squared <= 2 * (0xffff_ffff * 0xffff_ffff),
{
    let ux: u64 = span(start.x, end.x);
    let uy: u64 = span(start.y, end.y);
    assert(ux * ux <= 0xffff_ffff * 0xffff_ffff) by (nonlinear_arith)
        requires
            0 <= ux <= 0xffff_ffff,
    ;
    assert(uy * uy <= 0xffff_ffff * 0xffff_ffff) by (nonlinear_arith)
        requires
            0 <= uy <= 0xffff_ffff,
    ;
    assert(ux * ux == (end.x - start.x) * (end.x - start.x)) by (nonlinear_arith)
        requires
            ux == end.x - start.x || ux == -(end.x - start.x),
    ;
    assert(uy * uy == (end.y - start.y) * (end.y - start.y)) by (nonlinear_arith)
        requires
            uy == end.y - start.y || uy == -(end.y - start.y),
    ;
    (ux as u128) * (ux as u128) + (uy as u128) * (uy as u128)
}

/// Computes the distance between two positions, rounded down to a whole raw
/// unit.
pub fn segment_length(start: Vec2, end: Vec2) -> (len: u64)
    ensures
        len == distance(start, end),
{
    isqrt(segment_length_squared(start, end))
}

} // verus!
