use bevy_prototype_2d_graphics::fixed::{isqrt, ONE};
use bevy_prototype_2d_graphics::affine::{
    is_solvable, solve_affine_quad, try_solve_affine_quad, Mat4, Vec4,
};
use bevy_prototype_2d_graphics::corners::{
    rectangle_corners_for_box, rectangle_corners_for_line, Rotation,
};
use bevy_prototype_2d_graphics::geometry::{segment_length, Point, Quad, Vec2, COORD_LIMIT};
use bevy_prototype_2d_graphics::lines::calc_transform_for_line;

fn pt(x: i64, y: i64) -> Point {
    Point { x, y }
}

fn quad(bl: (i64, i64), tr: (i64, i64), tl: (i64, i64), br: (i64, i64)) -> Quad {
    Quad {
        bottom_left: pt(bl.0, bl.1),
        top_right: pt(tr.0, tr.1),
        top_left: pt(tl.0, tl.1),
        bottom_right: pt(br.0, br.1),
    }
}

fn image(m: &Mat4, p: Point) -> (i128, i128) {
    (
        m.x_axis.x * p.x as i128 + m.y_axis.x * p.y as i128 + m.w_axis.x,
        m.x_axis.y * p.x as i128 + m.y_axis.y * p.y as i128 + m.w_axis.y,
    )
}

fn assert_maps(m: &Mat4, p: Point, q: Point) {
    assert_eq!(image(m, p), (m.den * q.x as i128, m.den * q.y as i128));
}

const ZERO4: Vec4 = Vec4 { x: 0, y: 0, z: 0, w: 0 };

#[test]
fn isqrt_rounds_down() {
    assert_eq!(isqrt(0), 0);
    assert_eq!(isqrt(1), 1);
    assert_eq!(isqrt(2), 1);
    assert_eq!(isqrt(3), 1);
    assert_eq!(isqrt(4), 2);
    assert_eq!(isqrt(99), 9);
    assert_eq!(isqrt(100), 10);
    assert_eq!(isqrt(101), 10);
    assert_eq!(isqrt(1 << 64), 1 << 32);
    assert_eq!(isqrt((1 << 64) - 1), (1 << 32) - 1);
    assert_eq!(isqrt(u128::MAX), u64::MAX);
}

#[test]
fn isqrt_brackets_its_argument() {
    for n in 0u128..2000 {
        let r = isqrt(n) as u128;
        assert!(r * r <= n);
        assert!(n < (r + 1) * (r + 1));
    }
}

#[test]
fn segment_length_is_the_rounded_distance() {
    assert_eq!(segment_length(Vec2::new(0, 0), Vec2::new(3, 4)), 5);
    assert_eq!(segment_length(Vec2::new(3, 4), Vec2::new(0, 0)), 5);
    assert_eq!(segment_length(Vec2::new(-1, -1), Vec2::new(0, 0)), 1);
    assert_eq!(segment_length(Vec2::new(7, 7), Vec2::new(7, 7)), 0);
    assert_eq!(segment_length(Vec2::new(0, 0), Vec2::new(10 * ONE, 0)), 10 * ONE as u64);
}

#[test]
fn segment_length_of_the_longest_segment() {
    let len = segment_length(Vec2::new(i32::MIN, i32::MIN), Vec2::new(i32::MAX, i32::MAX));
    let side = u32::MAX as u128;
    let squared = 2 * side * side;
    assert!((len as u128) * (len as u128) <= squared);
    assert!(squared < (len as u128 + 1) * (len as u128 + 1));
    assert_eq!(len, 6074000998);
}

#[test]
fn line_box_of_a_horizontal_segment() {
    let q = rectangle_corners_for_line(Vec2::new(0, 0), Vec2::new(10, 0), 1);
    assert_eq!(q, quad((-1, -1), (11, 1), (-1, 1), (11, -1)));
    let width = q.bottom_right.x - q.bottom_left.x;
    let height = q.top_left.y - q.bottom_left.y;
    assert_eq!(width, 12);
    assert_eq!(height, 2);
    assert_eq!((q.bottom_left.x + q.top_right.x, q.bottom_left.y + q.top_right.y), (10, 0));
}

#[test]
fn line_box_in_whole_units() {
    let q = rectangle_corners_for_line(Vec2::new(0, 0), Vec2::new(10 * ONE, 0), ONE as u32);
    let one = ONE as i64;
    assert_eq!(q, quad((-one, -one), (11 * one, one), (-one, one), (11 * one, -one)));
}

#[test]
fn line_box_of_a_slanted_segment() {
    let q = rectangle_corners_for_line(Vec2::new(0, 0), Vec2::new(30, 40), 5);
    assert_eq!(q, quad((1, -7), (29, 47), (-7, -1), (37, 41)));
}

#[test]
fn line_box_of_a_reversed_segment_swaps_corners() {
    let q = rectangle_corners_for_line(Vec2::new(30, 40), Vec2::new(0, 0), 5);
    assert_eq!(q, quad((29, 47), (1, -7), (37, 41), (-7, -1)));
}

#[test]
fn line_box_rounds_the_stroke_offset_toward_zero() {
    // offset 2 * (1, -1) / 1.414 = (1.41, -1.41), rounded to (1, -1)
    let q = rectangle_corners_for_line(Vec2::new(0, 0), Vec2::new(1, -1), 2);
    assert_eq!(q, quad((-2, 0), (3, -1), (0, 2), (1, -3)));
    // offset 3 * (10, -10) / 14.14 = (2.12, -2.12), rounded to (2, -2)
    let q = rectangle_corners_for_line(Vec2::new(0, 0), Vec2::new(10, -10), 3);
    assert_eq!(q, quad((-4, 0), (14, -10), (0, 4), (10, -14)));
    // offset 17 * (550, -195) / 583.5 = (16.02, -5.68), rounded to (16, -5)
    let q = rectangle_corners_for_line(Vec2::new(-300, 120), Vec2::new(250, -75), 17);
    assert_eq!(q, quad((-321, 109), (271, -64), (-311, 141), (261, -96)));
}

#[test]
fn line_box_of_a_short_segment_keeps_the_stroke() {
    // A segment far shorter than a unit: the offset is still 10 units long,
    // 10 / 1.41421356 = 7.0710678 units along either axis.
    let stroke = 10 * ONE as u32;
    let q = rectangle_corners_for_line(Vec2::new(0, 0), Vec2::new(1, 1), stroke);
    assert_eq!(q, quad((0, -926818), (1, 926819), (-926818, 0), (926819, 1)));
    let q = rectangle_corners_for_line(Vec2::new(0, 0), Vec2::new(7, 7), stroke);
    assert_eq!(q, quad((0, -926818), (7, 926825), (-926818, 0), (926825, 7)));
    // offset 10 * (2, 1) / 2.2360680 = (8.9442719, 4.4721360) units
    let q = rectangle_corners_for_line(Vec2::new(0, 0), Vec2::new(2, 1), stroke);
    assert_eq!(q, quad((-293086, -879256), (293088, 879257), (-879256, 293086), (879258, -293085)));
}

#[test]
fn line_box_has_the_sides_of_the_style() {
    let cases = [
        ((0, 0), (1, 1), 10 * ONE as u32),
        ((0, 0), (2, 1), 10 * ONE as u32),
        ((0, 0), (7, 7), 10 * ONE as u32),
        ((0, 0), (655, 0), 10 * ONE as u32),
        ((-300, 120), (250, -75), 17),
        ((5, 5), (5, 9), 2),
        ((i32::MIN, i32::MAX), (i32::MAX, i32::MIN), u32::MAX),
        ((3 * ONE, -ONE), (-7 * ONE, 12 * ONE), ONE as u32 / 3),
    ];
    for &((x1, y1), (x2, y2), stroke) in &cases {
        let (start, end) = (Vec2::new(x1, y1), Vec2::new(x2, y2));
        let q = rectangle_corners_for_line(start, end, stroke);
        let height = 2 * stroke as i128;
        let width = segment_length(start, end) as i128 + height;
        let short = ((q.top_left.x - q.bottom_left.x) as i128, (q.top_left.y - q.bottom_left.y) as i128);
        let long = (
            (q.bottom_right.x - q.bottom_left.x) as i128,
            (q.bottom_right.y - q.bottom_left.y) as i128,
        );
        let sq = |v: i128| v * v;
        assert!(sq(short.0) + sq(short.1) <= sq(height));
        assert!(sq(height) < sq(short.0.abs() + 2) + sq(short.1.abs() + 2));
        assert!(sq(long.0) + sq(long.1) < sq(width + 1));
        assert!(sq(width) < sq(long.0.abs() + 2) + sq(long.1.abs() + 2));
        let dot = long.0 * short.0 + long.1 * short.1;
        let extent = ((x2 as i128 - x1 as i128).abs()).max((y2 as i128 - y1 as i128).abs());
        assert!(dot.abs() <= 2 * extent);
    }
}

#[test]
fn stroke_offset_is_the_rounded_exact_quotient() {
    // each component c of the offset has the sign of the extent d and
    // satisfies c^2 n <= stroke^2 d^2 < (|c| + 1)^2 n
    for &((x1, y1), (x2, y2), stroke) in &[
        ((0, 0), (1, 1), 655360u32),
        ((0, 0), (-2, 1), 655360),
        ((10, -3), (4, -90), 1000),
        ((0, 0), (0, -5), 77),
        ((-1000, 1000), (999, -1001), u32::MAX),
    ] {
        let q = rectangle_corners_for_line(Vec2::new(x1, y1), Vec2::new(x2, y2), stroke);
        let (dx, dy) = ((x2 - x1) as i128, (y2 - y1) as i128);
        let n = dx * dx + dy * dy;
        // the stroke offset is half the way from the top left to the bottom
        // left corner, turned back by a quarter
        let cx = (q.top_left.y - q.bottom_left.y) as i128 / 2;
        let cy = (q.bottom_left.x - q.top_left.x) as i128 / 2;
        let s = stroke as i128;
        for &(c, d) in &[(cx, dx), (cy, dy)] {
            assert!(c * d >= 0);
            assert!(d != 0 || c == 0);
            assert!(c * c * n <= s * s * d * d);
            assert!(s * s * d * d < (c.abs() + 1) * (c.abs() + 1) * n);
        }
    }
}

#[test]
fn line_box_without_stroke_collapses_onto_the_segment() {
    let q = rectangle_corners_for_line(Vec2::new(1, 2), Vec2::new(5, 2), 0);
    assert_eq!(q, quad((1, 2), (5, 2), (1, 2), (5, 2)));
}

#[test]
fn line_box_at_the_limits_of_the_coordinates() {
    let q = rectangle_corners_for_line(
        Vec2::new(i32::MIN, i32::MIN),
        Vec2::new(i32::MAX, i32::MIN),
        u32::MAX,
    );
    let s = u32::MAX as i64;
    let lo = i32::MIN as i64;
    let hi = i32::MAX as i64;
    assert_eq!(q, quad((lo - s, lo - s), (hi + s, lo + s), (lo - s, lo + s), (hi + s, lo - s)));
    assert!(q.is_in_range());
}

#[test]
fn line_transform_of_a_horizontal_segment() {
    let m = calc_transform_for_line(Vec2::new(0, 0), Vec2::new(10, 0), 1);
    assert_eq!(
        m,
        Mat4 {
            x_axis: Vec4 { x: 12, y: 0, z: 0, w: 0 },
            y_axis: Vec4 { x: 0, y: 2, z: 0, w: 0 },
            z_axis: ZERO4,
            w_axis: Vec4 { x: -1, y: -1, z: 0, w: 1 },
            den: 1,
        }
    );
}

#[test]
fn line_transform_maps_the_unit_quad_onto_the_box() {
    let start = Vec2::new(-300, 120);
    let stop = Vec2::new(250, -75);
    let m = calc_transform_for_line(start, stop, 17);
    let to = rectangle_corners_for_line(start, stop, 17);
    let from = Quad::unit();
    assert_eq!(m.den, 1);
    assert_maps(&m, from.bottom_left, to.bottom_left);
    assert_maps(&m, from.top_right, to.top_right);
    assert_maps(&m, from.top_left, to.top_left);
    assert_maps(&m, from.bottom_right, to.bottom_right);
}

#[test]
fn unit_quad_has_the_corners_of_the_mesh() {
    assert_eq!(Quad::unit(), quad((0, 0), (1, 1), (0, 1), (1, 0)));
}

#[test]
fn solve_gives_the_entries_of_the_map() {
    let from = quad((0, 0), (2, 2), (0, 2), (2, 0));
    let to = quad((10, 10), (30, 50), (10, 50), (30, 10));
    let m = solve_affine_quad(from, to);
    assert_eq!(
        m,
        Mat4 {
            x_axis: Vec4 { x: 40, y: 0, z: 0, w: 0 },
            y_axis: Vec4 { x: 0, y: 80, z: 0, w: 0 },
            z_axis: ZERO4,
            w_axis: Vec4 { x: 40, y: 40, z: 0, w: 4 },
            den: 4,
        }
    );
}

#[test]
fn solve_reproduces_all_four_corners() {
    let from = quad((3, -2), (9, 7), (1, 4), (11, 1));
    let to = quad((-5, 8), (40, -3), (12, 30), (23, -25));
    assert!(from.is_in_range() && to.is_in_range());
    assert!(is_solvable(from, to));
    let m = solve_affine_quad(from, to);
    assert_ne!(m.den, 0);
    assert_maps(&m, from.bottom_left, to.bottom_left);
    assert_maps(&m, from.top_right, to.top_right);
    assert_maps(&m, from.top_left, to.top_left);
    assert_maps(&m, from.bottom_right, to.bottom_right);
    assert_eq!((m.x_axis.z, m.x_axis.w, m.y_axis.z, m.y_axis.w), (0, 0, 0, 0));
    assert_eq!(m.z_axis, ZERO4);
    assert_eq!((m.w_axis.z, m.w_axis.w), (0, m.den));
}

#[test]
fn solve_with_a_mirrored_reference_has_a_negative_denominator() {
    let from = quad((0, 0), (1, 1), (1, 0), (0, 1));
    let to = quad((0, 0), (4, 6), (4, 0), (0, 6));
    let m = solve_affine_quad(from, to);
    assert_eq!(m.den, -1);
    assert_maps(&m, from.bottom_right, to.bottom_right);
    assert_eq!((m.x_axis.x, m.x_axis.y, m.y_axis.x, m.y_axis.y), (-4, 0, 0, -6));
}

#[test]
fn solve_onto_a_collapsed_quad() {
    let to = quad((5, 5), (5, 5), (5, 5), (5, 5));
    let m = solve_affine_quad(Quad::unit(), to);
    assert_eq!((m.x_axis.x, m.x_axis.y, m.y_axis.x, m.y_axis.y), (0, 0, 0, 0));
    assert_eq!((m.w_axis.x, m.w_axis.y, m.den), (5, 5, 1));
}

#[test]
fn try_solve_agrees_with_solve() {
    let from = quad((0, 0), (2, 2), (0, 2), (2, 0));
    let to = quad((10, 10), (30, 50), (10, 50), (30, 10));
    assert_eq!(try_solve_affine_quad(from, to), Some(solve_affine_quad(from, to)));
}

#[test]
fn try_solve_refuses_corners_on_one_line() {
    let from = quad((0, 0), (1, 1), (2, 2), (3, 3));
    let to = quad((0, 0), (1, 1), (0, 1), (1, 0));
    assert!(!is_solvable(from, to));
    assert_eq!(try_solve_affine_quad(from, to), None);
}

#[test]
fn try_solve_refuses_a_fourth_corner_that_disagrees() {
    let to = quad((0, 0), (1, 1), (0, 1), (5, 5));
    assert!(!is_solvable(Quad::unit(), to));
    assert_eq!(try_solve_affine_quad(Quad::unit(), to), None);
}

#[test]
fn try_solve_refuses_corners_out_of_range() {
    let far = COORD_LIMIT + 1;
    let to = quad((0, 0), (far, far), (0, far), (far, 0));
    assert!(!to.is_in_range());
    assert_eq!(try_solve_affine_quad(Quad::unit(), to), None);
    assert_eq!(try_solve_affine_quad(to, Quad::unit()), None);
}

#[test]
fn solve_at_the_limit_of_the_range() {
    let l = COORD_LIMIT;
    let from = quad((-l, -l), (l, l), (-l, l), (l, -l));
    let to = quad((l, l), (-l, -l), (l, -l), (-l, l));
    assert!(from.is_in_range() && to.is_in_range());
    let m = try_solve_affine_quad(from, to).unwrap();
    assert_maps(&m, from.bottom_left, to.bottom_left);
    assert_maps(&m, from.top_right, to.top_right);
    assert_maps(&m, from.top_left, to.top_left);
    assert_maps(&m, from.bottom_right, to.bottom_right);
    assert_eq!(m.den, 4 * (l as i128) * (l as i128));
}

#[test]
fn point_range_check() {
    assert!(pt(COORD_LIMIT, -COORD_LIMIT).is_in_range());
    assert!(!pt(COORD_LIMIT + 1, 0).is_in_range());
    assert!(!pt(0, -COORD_LIMIT - 1).is_in_range());
}

#[test]
fn box_without_rotation_is_axis_aligned() {
    let q = rectangle_corners_for_box(Vec2::new(10, 20), 4, 6, Rotation::identity());
    assert_eq!(q, quad((8, 17), (12, 23), (8, 23), (12, 17)));
}

#[test]
fn box_without_rotation_for_many_rectangles() {
    for &(cx, cy, w, h) in &[
        (0, 0, 0u32, 0u32),
        (-7, 9, 1, 1),
        (100, -100, 5, 8),
        (i32::MAX, i32::MIN, u32::MAX, u32::MAX),
        (3 * ONE, 2 * ONE, 200 * ONE as u32, 50 * ONE as u32),
    ] {
        let q = rectangle_corners_for_box(Vec2::new(cx, cy), w, h, Rotation::identity());
        let (cx, cy) = (cx as i64, cy as i64);
        let (hw, hh) = ((w / 2) as i64, (h / 2) as i64);
        assert_eq!(
            q,
            quad((cx - hw, cy - hh), (cx + hw, cy + hh), (cx - hw, cy + hh), (cx + hw, cy - hh))
        );
    }
}

#[test]
fn box_halves_round_down() {
    let q = rectangle_corners_for_box(Vec2::new(0, 0), 5, 3, Rotation::identity());
    assert_eq!(q, quad((-2, -1), (2, 1), (-2, 1), (2, -1)));
}

#[test]
fn box_turned_a_quarter() {
    let quarter = Rotation { cos: 0, sin: ONE };
    let q = rectangle_corners_for_box(Vec2::new(10, 20), 4, 6, quarter);
    assert_eq!(q, quad((13, 18), (7, 22), (7, 18), (13, 22)));
}

#[test]
fn box_turned_by_half_a_right_angle_rounds_toward_zero() {
    // cos = sin = 0.70710678 in 16.16
    let eighth = Rotation { cos: 46341, sin: 46341 };
    let q = rectangle_corners_for_box(Vec2::new(0, 0), 20, 0, eighth);
    // (10, 0) turns to (7.07, 7.07), (-10, 0) to (-7.07, -7.07)
    assert_eq!(q, quad((-7, -7), (7, 7), (-7, -7), (7, 7)));
}

#[test]
fn box_is_a_parallelogram_under_any_rotation() {
    for &(cos, sin) in &[(ONE, 0), (0, ONE), (46341, 46341), (-30000, 58000), (123, -456), (i32::MIN, i32::MAX)] {
        let q = rectangle_corners_for_box(Vec2::new(5, -6), 31, 17, Rotation { cos, sin });
        assert_eq!(q.bottom_right.x, q.bottom_left.x + q.top_right.x - q.top_left.x);
        assert_eq!(q.bottom_right.y, q.bottom_left.y + q.top_right.y - q.top_left.y);
    }
}

#[test]
fn identity_rotation_is_one_and_zero() {
    assert_eq!(Rotation::identity(), Rotation { cos: ONE, sin: 0 });
    assert_eq!(ONE, 65536);
}

#[test]
fn vec2_constructors() {
    assert_eq!(Vec2::new(3, -4), Vec2 { x: 3, y: -4 });
    assert_eq!(Vec2::zero(), Vec2 { x: 0, y: 0 });
}
