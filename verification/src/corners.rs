//! The corners of the boxes that shapes fill: the box of a stroked segment
//! and the box of a rectangle turned about its centre.
use vstd::prelude::*;
use crate::fixed::{
    integer_sqrt, is_integer_sqrt, isqrt, lemma_integer_sqrt_exists, lemma_integer_sqrt_unique,
    lemma_mul_bound, lemma_trunc_div_odd, magnitude, square, trunc_div, ONE,
};
use crate::geometry::{
    distance, distance_squared, lemma_distance_squared_bounds, segment_length_squared, Point,
    Quad, Vec2,
};

verus! {

/// `c` is `stroke * delta / sqrt(n)` rounded toward zero, said without a
/// root: `c` has the sign of `delta`, and its magnitude is the largest one
/// whose square times `n` does not exceed the square of `stroke * delta`.
pub open spec fn is_stroke_component(c: int, delta: int, stroke: nat, n: nat) -> bool {
    &&& delta >= 0 ==> c >= 0
    &&& delta <= 0 ==> c <= 0
    &&& square(c) * n <= square(stroke as int) * square(delta)
    &&& square(stroke as int) * square(delta) < square(magnitude(c) + 1) * n
}

/// One component of a vector of length `stroke` along a segment: `delta` is
/// the segment's extent along the component's axis and `n` the square of the
/// segment's length. The component is `stroke * delta / sqrt(n)`, rounded
/// toward zero.
pub open spec fn stroke_component(delta: int, stroke: nat, n: nat) -> int {
    choose|c: int| is_stroke_component(c, delta, stroke, n)
}

/// The direction of the segment from `start` to `end`, scaled to the length
/// `stroke`: `stroke * (end - start) / |end - start|`, with the exact length
/// of the segment and each component rounded toward zero.
pub open spec fn stroke_offset(start: Vec2, end: Vec2, stroke: u32) -> Point {
    Point {
        x: stroke_component(end.x - start.x, stroke as nat, distance_squared(start, end)) as i64,
        y: stroke_component(end.y - start.y, stroke as nat, distance_squared(start, end)) as i64,
    }
}

/// The corners of the box that a stroked segment fills. With `dir` the
/// stroke offset, the segment is extended by `dir` past each endpoint, and
/// each extended endpoint is moved by `dir` turned a quarter turn clockwise
/// and counter-clockwise.
pub open spec fn line_corners(start: Vec2, end: Vec2, stroke: u32) -> Quad {
    let dir = stroke_offset(start, end, stroke);
    let ax = start.x - dir.x;
    let ay = start.y - dir.y;
    let bx = end.x + dir.x;
    let by = end.y + dir.y;
    Quad {
        bottom_left: Point { x: (ax + dir.y) as i64, y: (ay - dir.x) as i64 },
        top_right: Point { x: (bx - dir.y) as i64, y: (by + dir.x) as i64 },
        top_left: Point { x: (ax - dir.y) as i64, y: (ay + dir.x) as i64 },
        bottom_right: Point { x: (bx + dir.y) as i64, y: (by - dir.x) as i64 },
    }
}

/// A number and its negative have the same square.
proof fn lemma_square_of_magnitude(x: int)
    ensures
        square(magnitude(x)) == square(x),
        square(x) >= 0,
{
    assert((-x) * (-x) == x * x) by (nonlinear_arith);
    assert(x * x >= 0) by (nonlinear_arith);
}

/// Between non-negative numbers, the smaller square belongs to the smaller
/// number.
proof fn lemma_square_order(a: int, b: int)
    requires
        0 <= a,
        0 <= b,
        square(a) < square(b),
    ensures
        a < b,
{
    if a >= b {
        assert(a * a >= b * b) by (nonlinear_arith)
            requires
                a >= b,
                b >= 0,
        ;
    }
}

/// A common positive factor can be dropped from a strict inequality.
proof fn lemma_drop_factor(a: int, b: int, n: int)
    requires
        n > 0,
        a * n < b * n,
    ensures
        a < b,
{
    assert(a < b) by (nonlinear_arith)
        requires
            n > 0,
            a * n < b * n,
    ;
}

/// The root of a quotient, rounded down, brackets the dividend: if `m` is
/// the rounded-down square root of `x / n`, then `m * m * n <= x` and
/// `x < (m + 1) * (m + 1) * n`.
proof fn lemma_root_of_quotient(m: nat, x: nat, n: nat)
    requires
        n > 0,
        is_integer_sqrt(x / n, m),
    ensures
        square(m as int) * n <= x,
        x < square(m as int + 1) * n,
{
    let y = (x / n) as int;
    let mm = m as int * m as int;
    let pp = (m + 1) * (m + 1);
    vstd::arithmetic::div_mod::lemma_fundamental_div_mod(x as int, n as int);
    vstd::arithmetic::div_mod::lemma_mod_bound(x as int, n as int);
    assert(x == n * y + (x as int) % (n as int));
    assert(mm * n <= n * y) by (nonlinear_arith)
        requires
            mm <= y,
            n > 0,
    ;
    assert(n * y + n <= pp * n) by (nonlinear_arith)
        requires
            y + 1 <= pp,
            n > 0,
    ;
}

/// At most one number is the stroke component of a segment, and
/// `stroke_component` names it.
pub proof fn lemma_stroke_component_unique(c: int, delta: int, stroke: nat, n: nat)
    requires
        n > 0,
        is_stroke_component(c, delta, stroke, n),
    ensures
        stroke_component(delta, stroke, n) == c,
{
    let k = stroke_component(delta, stroke, n);
    assert(is_stroke_component(k, delta, stroke, n));
    let x = square(stroke as int) * square(delta);
    let a = magnitude(k);
    let b = magnitude(c);
    lemma_square_of_magnitude(k);
    lemma_square_of_magnitude(c);
    lemma_drop_factor(square(a), square(b + 1), n as int);
    lemma_drop_factor(square(b), square(a + 1), n as int);
    lemma_square_order(a, b + 1);
    lemma_square_order(b, a + 1);
    assert(a == b);
    if delta == 0 {
        assert(k == 0 && c == 0);
    }
}

/// Every segment with length has a stroke component along either axis: it
/// is the rounded-down root of `stroke^2 * delta^2 / n` with the sign of
/// `delta`. Where `delta^2` is at most `n`, as it is for a segment's extent
/// along an axis, the component is no longer than the stroke.
pub proof fn lemma_stroke_component_exists(delta: int, stroke: nat, n: nat)
    requires
        n > 0,
    ensures
        is_stroke_component(stroke_component(delta, stroke, n), delta, stroke, n),
        square(delta) <= n ==> magnitude(stroke_component(delta, stroke, n)) <= stroke,
{
    lemma_square_of_magnitude(delta);
    lemma_square_of_magnitude(stroke as int);
    let ss = square(stroke as int);
    let dd = square(delta);
    assert(ss * dd >= 0) by (nonlinear_arith)
        requires
            ss >= 0,
            dd >= 0,
    ;
    let x = (ss * dd) as nat;
    lemma_integer_sqrt_exists(x / n);
    let m = integer_sqrt(x / n);
    lemma_root_of_quotient(m, x, n);
    let c = if delta >= 0 {
        m as int
    } else {
        -(m as int)
    };
    lemma_square_of_magnitude(c);
    assert(magnitude(c) == m);
    if delta == 0 {
        assert(dd == 0) by (nonlinear_arith)
            requires
                dd == delta * delta,
                delta == 0,
        ;
        assert(ss * dd == 0) by (nonlinear_arith)
            requires
                dd == 0,
        ;
        if m > 0 {
            assert(square(m as int) * n > 0) by (nonlinear_arith)
                requires
                    m > 0,
                    n > 0,
                    square(m as int) == m * m,
            ;
        }
    }
    assert(is_stroke_component(c, delta, stroke, n));
    let k = stroke_component(delta, stroke, n);
    if dd <= n {
        lemma_component_within_stroke(k, delta, stroke, n);
    }
}

/// A stroke component along an axis is no longer than the stroke, because a
/// segment is at least as long as its extent along the axis.
proof fn lemma_component_within_stroke(c: int, delta: int, stroke: nat, n: nat)
    requires
        n > 0,
        square(delta) <= n,
        is_stroke_component(c, delta, stroke, n),
    ensures
        magnitude(c) <= stroke,
{
    lemma_square_of_magnitude(c);
    lemma_square_of_magnitude(delta);
    lemma_square_of_magnitude(stroke as int);
    let ss = square(stroke as int);
    let dd = square(delta);
    let cc = square(magnitude(c));
    assert(ss * dd <= ss * n) by (nonlinear_arith)
        requires
            dd <= n,
            ss >= 0,
    ;
    if magnitude(c) > stroke {
        let st = stroke as int;
        assert(cc > ss) by (nonlinear_arith)
            requires
                cc == magnitude(c) * magnitude(c),
                ss == st * st,
                magnitude(c) >= st + 1,
                st >= 0,
        ;
        assert(cc * n > ss * n) by (nonlinear_arith)
            requires
                cc > ss,
                n > 0,
        ;
    }
}

/// Computes one component of the stroke offset.
fn stroke_component_of(delta: i64, stroke: u32, n: u128) -> (c: i64)
    requires
        n > 0,
        square(delta as int) <= n,
        -0xffff_ffff <= delta <= 0xffff_ffff,
    ensures
        c == stroke_component(delta as int, stroke as nat, n as nat),
        is_stroke_component(c as int, delta as int, stroke as nat, n as nat),
        -stroke <= c <= stroke,
{
    let d: u128 = if delta >= 0 {
        delta as u128
    } else {
        (-delta) as u128
    };
    let s: u128 = stroke as u128;
    proof {
        lemma_mul_bound(s as int, s as int, 0xffff_ffff, 0xffff_ffff);
        lemma_mul_bound(d as int, d as int, 0xffff_ffff, 0xffff_ffff);
        lemma_square_of_magnitude(delta as int);
        lemma_square_of_magnitude(stroke as int);
        lemma_mul_bound(
            (s * s) as int,
            (d * d) as int,
            0xffff_ffff * 0xffff_ffff as int,
            0xffff_ffff * 0xffff_ffff as int,
        );
        assert(s * s >= 0 && d * d >= 0 && (s * s) * (d * d) >= 0) by (nonlinear_arith)
            requires
                s >= 0,
                d >= 0,
        ;
    }
    let x: u128 = (s * s) * (d * d);
    let m: u64 = isqrt(x / n);
    proof {
        assert(d == magnitude(delta as int));
        assert(x == square(stroke as int) * square(delta as int));
        lemma_root_of_quotient(m as nat, x as nat, n as nat);
        if delta == 0 {
            assert(x == 0) by (nonlinear_arith)
                requires
                    x == (s * s) * (d * d),
                    d == 0,
            ;
            if m > 0 {
                assert(square(m as int) * n > 0) by (nonlinear_arith)
                    requires
                        m > 0,
                        n > 0,
                        square(m as int) == m * m,
                ;
            }
        }
        if m > stroke {
            assert(square(m as int) * n > square(stroke as int) * n) by (nonlinear_arith)
                requires
                    m > stroke,
                    stroke >= 0,
                    n > 0,
                    square(m as int) == m * m,
                    square(stroke as int) == stroke * stroke,
            ;
            assert(square(stroke as int) * square(delta as int) <= square(stroke as int) * n)
                by (nonlinear_arith)
                requires
                    square(delta as int) <= n,
                    square(stroke as int) >= 0,
            ;
        }
        assert(m <= stroke);
    }
    let c: i64 = if delta >= 0 {
        m as i64
    } else {
        -(m as i64)
    };
    proof {
        lemma_square_of_magnitude(c as int);
        assert(magnitude(c as int) == m);
        assert(is_stroke_component(c as int, delta as int, stroke as nat, n as nat));
        lemma_stroke_component_unique(c as int, delta as int, stroke as nat, n as nat);
    }
    c
}

/// The stroke offset of a segment with two distinct endpoints: each
/// component has the sign of the segment's extent along its axis, is
/// `stroke` times that extent over the exact length of the segment, rounded
/// toward zero, and is no longer than the stroke.
pub proof fn lemma_stroke_offset(start: Vec2, end: Vec2, stroke: u32)
    requires
        start != end,
    ensures
        is_stroke_component(
            stroke_offset(start, end, stroke).x as int,
            end.x - start.x,
            stroke as nat,
            distance_squared(start, end),
        ),
        is_stroke_component(
            stroke_offset(start, end, stroke).y as int,
            end.y - start.y,
            stroke as nat,
            distance_squared(start, end),
        ),
        -stroke <= stroke_offset(start, end, stroke).x <= stroke,
        -stroke <= stroke_offset(start, end, stroke).y <= stroke,
{
    lemma_distance_squared_bounds(start, end);
    let n = distance_squared(start, end);
    lemma_stroke_component_exists(end.x - start.x, stroke as nat, n);
    lemma_stroke_component_exists(end.y - start.y, stroke as nat, n);
}

/// Computes the corners of the box that the segment from `start` to `end`
/// fills when it is stroked with half-width `stroke`, in the order of the
/// reference quad's corners. The segment must have two distinct endpoints.
pub fn rectangle_corners_for_line(start: Vec2, end: Vec2, stroke: u32) -> (q: Quad)
    requires
        start != end,
    ensures
        q == line_corners(start, end, stroke),
        is_stroke_component(
            stroke_offset(start, end, stroke).x as int,
            end.x - start.x,
            stroke as nat,
            distance_squared(start, end),
        ),
        is_stroke_component(
            stroke_offset(start, end, stroke).y as int,
            end.y - start.y,
            stroke as nat,
            distance_squared(start, end),
        ),
        q.is_parallelogram(),
        q.in_range(),
{
    proof {
        lemma_distance_squared_bounds(start, end);
        lemma_stroke_offset(start, end, stroke);
    }
    let n: u128 = segment_length_squared(start, end);
    let dx: i64 = stroke_component_of(end.x as i64 - start.x as i64, stroke, n);
    let dy: i64 = stroke_component_of(end.y as i64 - start.y as i64, stroke, n);
    let ax: i64 = start.x as i64 - dx;
    let ay: i64 = start.y as i64 - dy;
    let bx: i64 = end.x as i64 + dx;
    let by: i64 = end.y as i64 + dy;
    Quad {
        bottom_left: Point { x: ax + dy, y: ay - dx },
        top_right: Point { x: bx - dy, y: by + dx },
        top_left: Point { x: ax - dy, y: ay + dx },
        bottom_right: Point { x: bx + dy, y: by - dx },
    }
}

/// A common positive factor can be dropped from an inequality.
proof fn lemma_drop_factor_le(a: int, b: int, n: int)
    requires
        n > 0,
        a * n <= b * n,
    ensures
        a <= b,
{
    assert(a <= b) by (nonlinear_arith)
        requires
            n > 0,
            a * n <= b * n,
    ;
}

/// Between non-negative numbers, a square that is no larger belongs to a
/// number that is no larger.
proof fn lemma_square_order_le(a: int, b: int)
    requires
        0 <= a,
        0 <= b,
        a * a <= b * b,
    ensures
        a <= b,
{
    if a > b {
        assert(a * a > b * b) by (nonlinear_arith)
            requires
                a > b,
                b >= 0,
        ;
    }
}

/// The offset of a stroke is at most as long as the stroke, and falls short
/// of it by less than a raw unit along either axis. Here `a` and `b` are the
/// magnitudes of the segment's extents, `p` and `q` those of the offset's
/// components, `s` the stroke and `n` the square of the segment's length.
proof fn lemma_offset_length(a: int, b: int, p: int, q: int, s: int, n: int)
    requires
        n > 0,
        n == a * a + b * b,
        (p * p) * n <= (s * s) * (a * a),
        (s * s) * (a * a) < ((p + 1) * (p + 1)) * n,
        (q * q) * n <= (s * s) * (b * b),
        (s * s) * (b * b) < ((q + 1) * (q + 1)) * n,
    ensures
        p * p + q * q <= s * s,
        s * s < (p + 1) * (p + 1) + (q + 1) * (q + 1),
{
    let aa = a * a;
    let bb = b * b;
    let pp = p * p;
    let qq = q * q;
    let ss = s * s;
    let p1 = (p + 1) * (p + 1);
    let q1 = (q + 1) * (q + 1);
    assert((pp + qq) * n <= ss * n) by (nonlinear_arith)
        requires
            pp * n <= ss * aa,
            qq * n <= ss * bb,
            n == aa + bb,
    ;
    lemma_drop_factor_le(pp + qq, ss, n);
    assert(ss * n < (p1 + q1) * n) by (nonlinear_arith)
        requires
            ss * aa < p1 * n,
            ss * bb < q1 * n,
            n == aa + bb,
    ;
    lemma_drop_factor(ss, p1 + q1, n);
}

/// Cauchy and Schwarz: the square of a dot product is at most the product of
/// the squares of the lengths.
proof fn lemma_dot_product_bound(a: int, b: int, p: int, q: int)
    ensures
        (a * p + b * q) * (a * p + b * q) <= (a * a + b * b) * (p * p + q * q),
{
    let u = a * p;
    let v = b * q;
    let w = a * q;
    let z = b * p;
    let aa = a * a;
    let bb = b * b;
    let pp = p * p;
    let qq = q * q;
    assert(aa * pp == u * u) by (nonlinear_arith)
        requires
            aa == a * a,
            pp == p * p,
            u == a * p,
    ;
    assert(bb * qq == v * v) by (nonlinear_arith)
        requires
            bb == b * b,
            qq == q * q,
            v == b * q,
    ;
    assert(aa * qq == w * w) by (nonlinear_arith)
        requires
            aa == a * a,
            qq == q * q,
            w == a * q,
    ;
    assert(bb * pp == z * z) by (nonlinear_arith)
        requires
            bb == b * b,
            pp == p * p,
            z == b * p,
    ;
    assert(u * v == w * z) by (nonlinear_arith)
        requires
            u == a * p,
            v == b * q,
            w == a * q,
            z == b * p,
    ;
    assert(w * w + z * z >= 2 * (w * z)) by (nonlinear_arith);
    assert((aa + bb) * (pp + qq) == aa * pp + aa * qq + bb * pp + bb * qq) by (nonlinear_arith);
    assert((u + v) * (u + v) == u * u + 2 * (u * v) + v * v) by (nonlinear_arith);
}

/// The long side of the box of a stroked segment is shorter than the
/// segment's rounded-down length plus two strokes and one raw unit. The
/// names are those of `lemma_offset_length`, and `l` is the rounded-down
/// length of the segment.
proof fn lemma_long_side_above(a: int, b: int, p: int, q: int, s: int, n: int, l: int)
    requires
        a >= 0,
        b >= 0,
        p >= 0,
        q >= 0,
        s >= 0,
        l >= 0,
        n > 0,
        n == a * a + b * b,
        n < (l + 1) * (l + 1),
        p * p + q * q <= s * s,
    ensures
        (a + 2 * p) * (a + 2 * p) + (b + 2 * q) * (b + 2 * q) < (l + 1 + 2 * s) * (l + 1 + 2
            * s),
{
    let aa = a * a;
    let bb = b * b;
    let pp = p * p;
    let ss = s * s;
    let dot = a * p + b * q;
    let top = (l + 1) * s;
    lemma_dot_product_bound(a, b, p, q);
    assert(n * (pp + q * q) <= n * ss) by (nonlinear_arith)
        requires
            pp + q * q <= ss,
            n > 0,
    ;
    assert(n * ss <= top * top) by (nonlinear_arith)
        requires
            n <= (l + 1) * (l + 1),
            ss == s * s,
            top == (l + 1) * s,
            ss >= 0,
    ;
    assert(dot >= 0) by (nonlinear_arith)
        requires
            dot == a * p + b * q,
            a >= 0,
            b >= 0,
            p >= 0,
            q >= 0,
    ;
    assert(top >= 0) by (nonlinear_arith)
        requires
            top == (l + 1) * s,
            l >= 0,
            s >= 0,
    ;
    lemma_square_order_le(dot, top);
    assert((a + 2 * p) * (a + 2 * p) + (b + 2 * q) * (b + 2 * q) == n + 4 * dot + 4 * (pp + q
        * q)) by (nonlinear_arith)
        requires
            n == a * a + b * b,
            dot == a * p + b * q,
            pp == p * p,
    ;
    assert((l + 1 + 2 * s) * (l + 1 + 2 * s) == (l + 1) * (l + 1) + 4 * top + 4 * ss)
        by (nonlinear_arith)
        requires
            top == (l + 1) * s,
            ss == s * s,
    ;
}

/// The long side of the box of a stroked segment, with two raw units added
/// along either axis, is longer than the segment's rounded-down length plus
/// two strokes. The names are those of `lemma_long_side_above`.
proof fn lemma_long_side_below(a: int, b: int, p: int, q: int, s: int, n: int, l: int)
    requires
        a >= 0,
        b >= 0,
        p >= 0,
        q >= 0,
        s >= 0,
        l >= 0,
        n > 0,
        n == a * a + b * b,
        l * l <= n,
        (s * s) * (a * a) < ((p + 1) * (p + 1)) * n,
        (s * s) * (b * b) < ((q + 1) * (q + 1)) * n,
        s * s < (p + 1) * (p + 1) + (q + 1) * (q + 1),
    ensures
        (l + 2 * s) * (l + 2 * s) < (a + 2 * p + 2) * (a + 2 * p + 2) + (b + 2 * q + 2) * (b + 2
            * q + 2),
{
    let big_p = p + 1;
    let big_q = q + 1;
    let aa = a * a;
    let bb = b * b;
    let ab = a * b;
    let ss = s * s;
    let pp = big_p * big_p;
    let qq = big_q * big_q;
    let pq = big_p * big_q;
    let e_up = pp * n;
    let f_up = qq * n;
    let e = ss * aa;
    let f = ss * bb;
    let g = pq * n;
    let h = ss * ab;
    let x = a * big_p + b * big_q;
    assert(aa >= 0 && bb >= 0 && ss >= 0 && ab >= 0 && pq >= 0) by (nonlinear_arith)
        requires
            aa == a * a,
            bb == b * b,
            ss == s * s,
            ab == a * b,
            pq == big_p * big_q,
            a >= 0,
            b >= 0,
            big_p >= 0,
            big_q >= 0,
    ;
    assert(e >= 0 && f >= 0 && h >= 0 && g >= 0) by (nonlinear_arith)
        requires
            e == ss * aa,
            f == ss * bb,
            h == ss * ab,
            g == pq * n,
            ss >= 0,
            aa >= 0,
            bb >= 0,
            ab >= 0,
            pq >= 0,
            n > 0,
    ;
    // the mixed term: (pq n)^2 = (pp n)(qq n) >= (ss aa)(ss bb) = (ss ab)^2
    assert(pq * pq == pp * qq) by (nonlinear_arith)
        requires
            pq == big_p * big_q,
            pp == big_p * big_p,
            qq == big_q * big_q,
    ;
    assert(g * g == (pq * pq) * (n * n)) by (nonlinear_arith)
        requires
            g == pq * n,
    ;
    assert(e_up * f_up == (pp * qq) * (n * n)) by (nonlinear_arith)
        requires
            e_up == pp * n,
            f_up == qq * n,
    ;
    assert(ab * ab == aa * bb) by (nonlinear_arith)
        requires
            ab == a * b,
            aa == a * a,
            bb == b * b,
    ;
    assert(h * h == (ss * ss) * (ab * ab)) by (nonlinear_arith)
        requires
            h == ss * ab,
    ;
    assert(e * f == (ss * ss) * (aa * bb)) by (nonlinear_arith)
        requires
            e == ss * aa,
            f == ss * bb,
    ;
    assert(e * f <= e_up * f_up) by (nonlinear_arith)
        requires
            0 <= e <= e_up,
            0 <= f <= f_up,
    ;
    lemma_square_order_le(h, g);
    // the square of x, times n
    let t1 = aa * pp;
    let t2 = ab * pq;
    let t3 = bb * qq;
    let u = a * big_p;
    let v = b * big_q;
    assert(u * u == t1) by (nonlinear_arith)
        requires
            u == a * big_p,
            t1 == aa * pp,
            aa == a * a,
            pp == big_p * big_p,
    ;
    assert(v * v == t3) by (nonlinear_arith)
        requires
            v == b * big_q,
            t3 == bb * qq,
            bb == b * b,
            qq == big_q * big_q,
    ;
    assert(u * v == t2) by (nonlinear_arith)
        requires
            u == a * big_p,
            v == b * big_q,
            t2 == ab * pq,
            ab == a * b,
            pq == big_p * big_q,
    ;
    assert(x * x == u * u + 2 * (u * v) + v * v) by (nonlinear_arith)
        requires
            x == u + v,
    ;
    assert((x * x) * n == t1 * n + 2 * (t2 * n) + t3 * n) by (nonlinear_arith)
        requires
            x * x == t1 + 2 * t2 + t3,
    ;
    assert(t1 * n == aa * e_up) by (nonlinear_arith)
        requires
            t1 == aa * pp,
            e_up == pp * n,
    ;
    assert(t2 * n == ab * g) by (nonlinear_arith)
        requires
            t2 == ab * pq,
            g == pq * n,
    ;
    assert(t3 * n == bb * f_up) by (nonlinear_arith)
        requires
            t3 == bb * qq,
            f_up == qq * n,
    ;
    assert(aa * e_up >= aa * e) by (nonlinear_arith)
        requires
            aa >= 0,
            e_up >= e,
    ;
    assert(ab * g >= ab * h) by (nonlinear_arith)
        requires
            ab >= 0,
            g >= h,
    ;
    assert(bb * f_up >= bb * f) by (nonlinear_arith)
        requires
            bb >= 0,
            f_up >= f,
    ;
    assert(aa * e + 2 * (ab * h) + bb * f == (ss * n) * n) by (nonlinear_arith)
        requires
            e == ss * aa,
            f == ss * bb,
            h == ss * ab,
            ab * ab == aa * bb,
            n == aa + bb,
    ;
    lemma_drop_factor_le(ss * n, x * x, n);
    // x is at least s * l
    let sl = s * l;
    assert(sl * sl == ss * (l * l)) by (nonlinear_arith)
        requires
            sl == s * l,
            ss == s * s,
    ;
    assert(ss * (l * l) <= ss * n) by (nonlinear_arith)
        requires
            ss >= 0,
            l * l <= n,
    ;
    assert(sl >= 0 && x >= 0) by (nonlinear_arith)
        requires
            sl == s * l,
            x == a * big_p + b * big_q,
            s >= 0,
            l >= 0,
            a >= 0,
            b >= 0,
            big_p >= 0,
            big_q >= 0,
    ;
    lemma_square_order_le(sl, x);
    assert((a + 2 * p + 2) * (a + 2 * p + 2) + (b + 2 * q + 2) * (b + 2 * q + 2) == n + 4 * x + 4
        * (pp + qq)) by (nonlinear_arith)
        requires
            n == a * a + b * b,
            x == a * big_p + b * big_q,
            pp == big_p * big_p,
            qq == big_q * big_q,
            big_p == p + 1,
            big_q == q + 1,
    ;
    assert((l + 2 * s) * (l + 2 * s) == l * l + 4 * sl + 4 * ss) by (nonlinear_arith)
        requires
            sl == s * l,
            ss == s * s,
    ;
}

/// One half of the statement that the offset of a stroke points along its
/// segment: `b * p <= a * (q + 1)`. The names are those of
/// `lemma_offset_length`.
proof fn lemma_offset_slope(a: int, b: int, p: int, q: int, s: int, n: int)
    requires
        a >= 0,
        b >= 0,
        p >= 0,
        q >= 0,
        n > 0,
        (p * p) * n <= (s * s) * (a * a),
        (s * s) * (b * b) < ((q + 1) * (q + 1)) * n,
    ensures
        b * p <= a * (q + 1),
{
    let aa = a * a;
    let bb = b * b;
    let ss = s * s;
    let pp = p * p;
    let qq = (q + 1) * (q + 1);
    let left = b * p;
    let right = a * (q + 1);
    assert(aa >= 0 && bb >= 0 && left >= 0 && right >= 0) by (nonlinear_arith)
        requires
            aa == a * a,
            bb == b * b,
            left == b * p,
            right == a * (q + 1),
            a >= 0,
            b >= 0,
            p >= 0,
            q >= 0,
    ;
    assert(left * left == bb * pp) by (nonlinear_arith)
        requires
            left == b * p,
            bb == b * b,
            pp == p * p,
    ;
    assert(right * right == aa * qq) by (nonlinear_arith)
        requires
            right == a * (q + 1),
            aa == a * a,
            qq == (q + 1) * (q + 1),
    ;
    assert((bb * pp) * n == bb * (pp * n)) by (nonlinear_arith);
    assert((aa * qq) * n == aa * (qq * n)) by (nonlinear_arith);
    assert(bb * (pp * n) <= bb * (ss * aa)) by (nonlinear_arith)
        requires
            bb >= 0,
            pp * n <= ss * aa,
    ;
    assert(aa * (ss * bb) <= aa * (qq * n)) by (nonlinear_arith)
        requires
            aa >= 0,
            ss * bb <= qq * n,
    ;
    assert(bb * (ss * aa) == aa * (ss * bb)) by (nonlinear_arith);
    lemma_drop_factor_le(left * left, right * right, n);
    lemma_square_order_le(left, right);
}

/// The box of a stroked segment has the sides that the stroke and the
/// segment's length give, up to rounding. Its short side, from the bottom
/// left corner to the top left one, is at most two strokes long, and two
/// strokes are less than the length of that side with two raw units added
/// to its extent along either axis. Its long side, from the bottom left
/// corner to the bottom right one, is shorter than the rounded-down length
/// of the segment plus two strokes and one raw unit, and that length plus
/// two strokes is less than the length of the side with two raw units added
/// to its extent along either axis. The two sides are perpendicular up to
/// rounding: the magnitude of their dot product is at most twice the larger
/// extent of the segment along an axis.
pub proof fn lemma_line_box_sides(start: Vec2, end: Vec2, stroke: u32)
    requires
        start != end,
    ensures
        ({
            let q = line_corners(start, end, stroke);
            let short_x = q.top_left.x - q.bottom_left.x;
            let short_y = q.top_left.y - q.bottom_left.y;
            let long_x = q.bottom_right.x - q.bottom_left.x;
            let long_y = q.bottom_right.y - q.bottom_left.y;
            let height = 2 * stroke;
            let width = distance(start, end) + 2 * stroke;
            &&& square(short_x) + square(short_y) <= square(height)
            &&& square(height) < square(magnitude(short_x) + 2) + square(magnitude(short_y) + 2)
            &&& square(long_x) + square(long_y) < square(width + 1)
            &&& square(width) < square(magnitude(long_x) + 2) + square(magnitude(long_y) + 2)
            &&& magnitude(long_x * short_x + long_y * short_y) <= 2 * magnitude(end.x - start.x)
                || magnitude(long_x * short_x + long_y * short_y) <= 2 * magnitude(
                end.y - start.y,
            )
        }),
{
    let dx = end.x - start.x;
    let dy = end.y - start.y;
    let n = distance_squared(start, end) as int;
    let l = distance(start, end) as int;
    let s = stroke as int;
    let dir = stroke_offset(start, end, stroke);
    let cx = dir.x as int;
    let cy = dir.y as int;
    let a = magnitude(dx);
    let b = magnitude(dy);
    let p = magnitude(cx);
    let q = magnitude(cy);
    lemma_stroke_offset(start, end, stroke);
    lemma_distance_squared_bounds(start, end);
    lemma_integer_sqrt_exists(n as nat);
    lemma_square_of_magnitude(dx);
    lemma_square_of_magnitude(dy);
    lemma_square_of_magnitude(cx);
    lemma_square_of_magnitude(cy);
    lemma_offset_length(a, b, p, q, s, n);
    lemma_long_side_above(a, b, p, q, s, n, l);
    lemma_long_side_below(a, b, p, q, s, n, l);
    let corners = line_corners(start, end, stroke);
    let short_x = corners.top_left.x - corners.bottom_left.x;
    let short_y = corners.top_left.y - corners.bottom_left.y;
    let long_x = corners.bottom_right.x - corners.bottom_left.x;
    let long_y = corners.bottom_right.y - corners.bottom_left.y;
    assert(short_x == -2 * cy && short_y == 2 * cx);
    assert(long_x == dx + 2 * cx && long_y == dy + 2 * cy);
    assert(magnitude(short_x) == 2 * q && magnitude(short_y) == 2 * p);
    assert(magnitude(long_x) == a + 2 * p && magnitude(long_y) == b + 2 * q);
    lemma_square_of_magnitude(short_x);
    lemma_square_of_magnitude(short_y);
    lemma_square_of_magnitude(long_x);
    lemma_square_of_magnitude(long_y);
    assert((2 * q) * (2 * q) == 4 * (q * q)) by (nonlinear_arith);
    assert((2 * p) * (2 * p) == 4 * (p * p)) by (nonlinear_arith);
    assert((2 * s) * (2 * s) == 4 * (s * s)) by (nonlinear_arith);
    assert((2 * q + 2) * (2 * q + 2) == 4 * ((q + 1) * (q + 1))) by (nonlinear_arith);
    assert((2 * p + 2) * (2 * p + 2) == 4 * ((p + 1) * (p + 1))) by (nonlinear_arith);
    // the dot product of the sides is twice the cross product of the segment
    // and the offset
    lemma_offset_slope(a, b, p, q, s, n);
    lemma_offset_slope(b, a, q, p, s, n);
    let cross = dy * cx - dx * cy;
    assert(long_x * short_x + long_y * short_y == 2 * cross) by (nonlinear_arith)
        requires
            long_x == dx + 2 * cx,
            long_y == dy + 2 * cy,
            short_x == -2 * cy,
            short_y == 2 * cx,
            cross == dy * cx - dx * cy,
    ;
    assert(a * (q + 1) == a * q + a && b * (p + 1) == b * p + b) by (nonlinear_arith);
    assert(cross == b * p - a * q || cross == a * q - b * p) by (nonlinear_arith)
        requires
            cross == dy * cx - dx * cy,
            (dx == a && cx == p) || (dx == -a && cx == -p),
            (dy == b && cy == q) || (dy == -b && cy == -q),
    ;
}

/// The box of a segment that runs from left to right along the x axis is
/// axis-aligned and centred on the segment: it reaches one stroke beyond
/// either endpoint and one stroke above and below, so it is as wide as the
/// segment is long plus two strokes, and two strokes high.
pub proof fn lemma_line_corners_horizontal(start: Vec2, end: Vec2, stroke: u32)
    requires
        start.y == end.y,
        start.x < end.x,
    ensures
        distance(start, end) == end.x - start.x,
        line_corners(start, end, stroke) == (Quad {
            bottom_left: Point { x: (start.x - stroke) as i64, y: (start.y - stroke) as i64 },
            top_right: Point { x: (end.x + stroke) as i64, y: (end.y + stroke) as i64 },
            top_left: Point { x: (start.x - stroke) as i64, y: (start.y + stroke) as i64 },
            bottom_right: Point { x: (end.x + stroke) as i64, y: (end.y - stroke) as i64 },
        }),
{
    let dx = end.x - start.x;
    let dy = end.y - start.y;
    let s = stroke as int;
    let n = distance_squared(start, end);
    lemma_distance_squared_bounds(start, end);
    assert(square(dy) == 0);
    assert(n == square(dx));
    assert(dx * dx > 0) by (nonlinear_arith)
        requires
            dx > 0,
    ;
    assert(is_integer_sqrt((dx * dx) as nat, dx as nat)) by (nonlinear_arith)
        requires
            dx > 0,
    ;
    lemma_integer_sqrt_unique((dx * dx) as nat, dx as nat);
    assert(square(s + 1) * n > square(s) * n) by (nonlinear_arith)
        requires
            square(s + 1) == (s + 1) * (s + 1),
            square(s) == s * s,
            s >= 0,
            n > 0,
    ;
    assert(square(s) * 0 == 0) by (nonlinear_arith);
    assert(square(1) * n > 0) by (nonlinear_arith)
        requires
            square(1) == 1,
            n > 0,
    ;
    assert(is_stroke_component(s, dx, stroke as nat, n));
    assert(is_stroke_component(0, dy, stroke as nat, n));
    lemma_stroke_component_unique(s, dx, stroke as nat, n);
    lemma_stroke_component_unique(0, dy, stroke as nat, n);
}

/// A rotation about a centre, given by the cosine and the sine of its angle
/// as 16.16 fixed-point numbers.
#[derive(Clone, Copy, Debug, PartialEq, Eq)]
pub struct Rotation {
    pub cos: i32,
    pub sin: i32,
}

impl Rotation {
    /// The rotation by the angle zero.
    pub open spec fn identity_spec() -> Rotation {
        Rotation { cos: ONE, sin: 0 }
    }

    /// The rotation by the angle zero.
    #[verifier::when_used_as_spec(identity_spec)]
    pub fn identity() -> (r: Rotation)
        ensures
            r == Rotation::identity_spec(),
    {
        Rotation { cos: ONE, sin: 0 }
    }

    /// The x coordinate of the vector `(x, y)` after the rotation, rounded
    /// toward zero.
    pub open spec fn turned_x(self, x: int, y: int) -> int {
        trunc_div(self.cos * x - self.sin * y, ONE as int)
    }

    /// The y coordinate of the vector `(x, y)` after the rotation, rounded
    /// toward zero.
    pub open spec fn turned_y(self, x: int, y: int) -> int {
        trunc_div(self.sin * x + self.cos * y, ONE as int)
    }

    /// Rotates the vector `(x, y)`.
    fn turn(&self, x: i64, y: i64) -> (p: Point)
        requires
            -0x8000_0000 <= x <= 0x8000_0000,
            -0x8000_0000 <= y <= 0x8000_0000,
        ensures
            p.x == self.turned_x(x as int, y as int),
            p.y == self.turned_y(x as int, y as int),
            -0x1_0000_0000_0000 <= p.x <= 0x1_0000_0000_0000,
            -0x1_0000_0000_0000 <= p.y <= 0x1_0000_0000_0000,
    {
        proof {
            lemma_mul_bound(self.cos as int, x as int, 0x8000_0000, 0x8000_0000);
            lemma_mul_bound(self.sin as int, y as int, 0x8000_0000, 0x8000_0000);
            lemma_mul_bound(self.sin as int, x as int, 0x8000_0000, 0x8000_0000);
            lemma_mul_bound(self.cos as int, y as int, 0x8000_0000, 0x8000_0000);
        }
        let nx: i128 = (self.cos as i128) * (x as i128) - (self.sin as i128) * (y as i128);
        let ny: i128 = (self.sin as i128) * (x as i128) + (self.cos as i128) * (y as i128);
        let qx: i128 = nx / (ONE as i128);
        let qy: i128 = ny / (ONE as i128);
        Point { x: qx as i64, y: qy as i64 }
    }
}

/// The corners of the box of the given width and height about `center`,
/// turned by `rotation` about `center`: the half-extents are taken first,
/// then each corner offset is rotated.
pub open spec fn box_corners(center: Vec2, width: u32, height: u32, rotation: Rotation) -> Quad {
    let hw = (width / 2) as int;
    let hh = (height / 2) as int;
    Quad {
        bottom_left: Point {
            x: (center.x + rotation.turned_x(-hw, -hh)) as i64,
            y: (center.y + rotation.turned_y(-hw, -hh)) as i64,
        },
        top_right: Point {
            x: (center.x + rotation.turned_x(hw, hh)) as i64,
            y: (center.y + rotation.turned_y(hw, hh)) as i64,
        },
        top_left: Point {
            x: (center.x + rotation.turned_x(-hw, hh)) as i64,
            y: (center.y + rotation.turned_y(-hw, hh)) as i64,
        },
        bottom_right: Point {
            x: (center.x + rotation.turned_x(hw, -hh)) as i64,
            y: (center.y + rotation.turned_y(hw, -hh)) as i64,
        },
    }
}

/// The corners of the axis-aligned box of the given width and height about
/// `center`: `center` plus and minus the half-extents.
pub open spec fn axis_aligned_corners(center: Vec2, width: u32, height: u32) -> Quad {
    let hw = (width / 2) as int;
    let hh = (height / 2) as int;
    Quad {
        bottom_left: Point { x: (center.x - hw) as i64, y: (center.y - hh) as i64 },
        top_right: Point { x: (center.x + hw) as i64, y: (center.y + hh) as i64 },
        top_left: Point { x: (center.x - hw) as i64, y: (center.y + hh) as i64 },
        bottom_right: Point { x: (center.x + hw) as i64, y: (center.y - hh) as i64 },
    }
}

/// A rotation takes opposite vectors to opposite vectors, exactly.
pub proof fn lemma_turn_odd(rotation: Rotation, x: int, y: int)
    ensures
        rotation.turned_x(-x, -y) == -rotation.turned_x(x, y),
        rotation.turned_y(-x, -y) == -rotation.turned_y(x, y),
{
    let c = rotation.cos as int;
    let s = rotation.sin as int;
    assert(c * (-x) - s * (-y) == -(c * x - s * y)) by (nonlinear_arith);
    assert(s * (-x) + c * (-y) == -(s * x + c * y)) by (nonlinear_arith);
    lemma_trunc_div_odd(c * x - s * y, ONE as int);
    lemma_trunc_div_odd(s * x + c * y, ONE as int);
}

/// The rotation by the angle zero leaves every vector where it is.
pub proof fn lemma_turn_identity(x: int, y: int)
    ensures
        Rotation::identity().turned_x(x, y) == x,
        Rotation::identity().turned_y(x, y) == y,
{
    let r = Rotation::identity();
    assert(r.cos * x - r.sin * y == 65536 * x) by (nonlinear_arith)
        requires
            r.cos == 65536,
            r.sin == 0,
    ;
    assert(r.sin * x + r.cos * y == 65536 * y) by (nonlinear_arith)
        requires
            r.cos == 65536,
            r.sin == 0,
    ;
}

/// Without rotation the corners of a box are axis-aligned: they lie at the
/// centre plus and minus the half-extents.
pub proof fn lemma_box_corners_unrotated(center: Vec2, width: u32, height: u32)
    ensures
        box_corners(center, width, height, Rotation::identity()) == axis_aligned_corners(
            center,
            width,
            height,
        ),
{
    let hw = (width / 2) as int;
    let hh = (height / 2) as int;
    lemma_turn_identity(-hw, -hh);
    lemma_turn_identity(hw, hh);
    lemma_turn_identity(-hw, hh);
    lemma_turn_identity(hw, -hh);
}

/// Computes the corners of the box of the given width and height about
/// `center`, turned by `rotation` about `center`, in the order of the
/// reference quad's corners.
pub fn rectangle_corners_for_box(center: Vec2, width: u32, height: u32, rotation: Rotation) -> (q:
    Quad)
    ensures
        q == box_corners(center, width, height, rotation),
        q.is_parallelogram(),
        rotation == Rotation::identity() ==> q == axis_aligned_corners(center, width, height),
{
    let hw: i64 = (width / 2) as i64;
    let hh: i64 = (height / 2) as i64;
    let cx: i64 = center.x as i64;
    let cy: i64 = center.y as i64;
    let bl: Point = rotation.turn(-hw, -hh);
    let tr: Point = rotation.turn(hw, hh);
    let tl: Point = rotation.turn(-hw, hh);
    let br: Point = rotation.turn(hw, -hh);
    proof {
        lemma_turn_odd(rotation, hw as int, hh as int);
        lemma_turn_odd(rotation, hw as int, -hh as int);
        if rotation == Rotation::identity() {
            lemma_box_corners_unrotated(center, width, height);
        }
    }
    Quad {
        bottom_left: Point { x: cx + bl.x, y: cy + bl.y },
        top_right: Point { x: cx + tr.x, y: cy + tr.y },
        top_left: Point { x: cx + tl.x, y: cy + tl.y },
        bottom_right: Point { x: cx + br.x, y: cy + br.y },
    }
}

} // verus!
