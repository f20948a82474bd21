//! Lines: the draw request, its builder and its reconciliation pass.
use vstd::prelude::*;
use crate::color::Color;
use crate::fixed::{magnitude, square, ONE};
use crate::affine::{
    affine_between, lemma_affine_between_maps_parallelograms, solve_affine_quad, Mat4,
};
use crate::corners::{lemma_line_box_sides, lemma_stroke_offset, line_corners, rectangle_corners_for_line};
use crate::geometry::{distance, lemma_distance_upper_bound, segment_length, Quad, Vec2};
use crate::pool::{all_drawable, frame_stats, reconcile, reconciled, FrameStats, PoolEntity, Shape};
use crate::{Frame, Immediate2DGraphics};

verus! {

/// How a line is painted. `stroke` is half the thickness of the segment;
/// `width` and `height` are the sides of the box that the stroked segment
/// fills, derived when the request is finalized.
#[derive(Clone, Copy, Debug, PartialEq, Eq)]
pub struct LineStyle {
    pub color: Color,
    pub width: u64,
    pub height: u64,
    pub stroke: u32,
}

impl LineStyle {
    /// Black, a stroke of 10 units, and a box that is not derived yet.
    pub open spec fn default_spec() -> LineStyle {
        LineStyle { color: Color::black(), width: 0, height: 0, stroke: (10 * ONE) as u32 }
    }
}

impl Default for LineStyle {
    fn default() -> (s: Self)
        ensures
            s == LineStyle::default_spec(),
    {
        LineStyle { color: Color::black(), width: 0, height: 0, stroke: (10 * ONE) as u32 }
    }
}

/// A request to draw one line segment in the current frame.
#[derive(Clone, Copy, Debug, PartialEq, Eq)]
pub struct Line {
    pub style: LineStyle,
    pub start: Vec2,
    pub stop: Vec2,
}

impl Line {
    /// The line that `new` makes: default style, from `(x1, y1)` to
    /// `(x2, y2)`.
    pub open spec fn new_spec(x1: i32, y1: i32, x2: i32, y2: i32) -> Line {
        Line {
            style: LineStyle::default_spec(),
            start: Vec2 { x: x1, y: y1 },
            stop: Vec2 { x: x2, y: y2 },
        }
    }

    /// This line stroked with half-width `stroke`.
    pub open spec fn stroked(self, stroke: u32) -> Line {
        Line { style: LineStyle { stroke, ..self.style }, ..self }
    }

    /// This line painted in `color`.
    pub open spec fn colored(self, color: Color) -> Line {
        Line { style: LineStyle { color, ..self.style }, ..self }
    }

    /// This line with the sides of its box derived: the box is as wide as
    /// the segment is long plus a stroke at either end, and two strokes high.
    pub open spec fn finalized(self) -> Line {
        Line {
            style: LineStyle {
                width: (distance(self.start, self.stop) + 2 * self.style.stroke) as u64,
                height: (2 * self.style.stroke) as u64,
                ..self.style
            },
            ..self
        }
    }

    /// A line from `(x1, y1)` to `(x2, y2)` with the default style.
    #[verifier::when_used_as_spec(new_spec)]
    pub fn new(x1: i32, y1: i32, x2: i32, y2: i32) -> (l: Line)
        ensures
            l == Line::new_spec(x1, y1, x2, y2),
    {
        Line { style: LineStyle::default(), start: Vec2::new(x1, y1), stop: Vec2::new(x2, y2) }
    }
}

/// The setters of a line's builder touch different fields, so the order in
/// which they are applied does not matter.
pub proof fn lemma_line_setters_commute(line: Line, stroke: u32, color: Color)
    ensures
        line.stroked(stroke).colored(color) == line.colored(color).stroked(stroke),
{
}

/// The transform that maps the reference quad onto the box that the stroked
/// segment fills.
pub open spec fn line_transform(start: Vec2, end: Vec2, stroke: u32) -> Mat4 {
    affine_between(Quad::unit(), line_corners(start, end, stroke))
}

/// Computes the transform that maps the reference quad onto the box that the
/// segment from `start` to `end` fills when it is stroked with half-width
/// `stroke`. The segment must have two distinct endpoints.
pub fn calc_transform_for_line(start: Vec2, end: Vec2, stroke: u32) -> (m: Mat4)
    requires
        start != end,
    ensures
        m == line_transform(start, end, stroke),
        m.den == 1,
        m.is_planar(),
        m.maps(Quad::unit().bottom_left, line_corners(start, end, stroke).bottom_left),
        m.maps(Quad::unit().top_right, line_corners(start, end, stroke).top_right),
        m.maps(Quad::unit().top_left, line_corners(start, end, stroke).top_left),
        m.maps(Quad::unit().bottom_right, line_corners(start, end, stroke).bottom_right),
{
    let from: Quad = Quad::unit();
    let to: Quad = rectangle_corners_for_line(start, end, stroke);
    proof {
        lemma_affine_between_maps_parallelograms(from, to);
    }
    solve_affine_quad(from, to)
}

/// The transform of a line spans the box whose sides its finalized style
/// records, up to rounding. The image of the reference quad's side along y
/// is at most `height` long, and `height` is less than the length of that
/// image with two raw units added to its extent along either axis. The image
/// of its side along x is shorter than `width` plus one raw unit, and `width`
/// is less than the length of that image with two raw units added to its
/// extent along either axis. The two images are perpendicular up to
/// rounding: the magnitude of their dot product is at most twice the larger
/// extent of the segment along an axis.
pub proof fn lemma_line_transform_matches_style(line: Line)
    requires
        line.start != line.stop,
    ensures
        ({
            let m = line_transform(line.start, line.stop, line.style.stroke);
            let style = line.finalized().style;
            let dot = m.x_axis.x * m.y_axis.x + m.x_axis.y * m.y_axis.y;
            &&& m.den == 1
            &&& style.height == 2 * line.style.stroke
            &&& style.width == distance(line.start, line.stop) + 2 * line.style.stroke
            &&& square(m.y_axis.x as int) + square(m.y_axis.y as int) <= square(
                style.height as int,
            )
            &&& square(style.height as int) < square(magnitude(m.y_axis.x as int) + 2) + square(
                magnitude(m.y_axis.y as int) + 2,
            )
            &&& square(m.x_axis.x as int) + square(m.x_axis.y as int) < square(style.width + 1)
            &&& square(style.width as int) < square(magnitude(m.x_axis.x as int) + 2) + square(
                magnitude(m.x_axis.y as int) + 2,
            )
            &&& magnitude(dot) <= 2 * magnitude(line.stop.x - line.start.x) || magnitude(dot) <= 2
                * magnitude(line.stop.y - line.start.y)
        }),
{
    let stroke = line.style.stroke;
    lemma_line_box_sides(line.start, line.stop, stroke);
    lemma_stroke_offset(line.start, line.stop, stroke);
    lemma_distance_upper_bound(line.start, line.stop);
    let q = line_corners(line.start, line.stop, stroke);
    let m = line_transform(line.start, line.stop, stroke);
    let unit = Quad::unit();
    let e1y = unit.top_right.y - unit.bottom_left.y;
    let e2y = unit.top_left.y - unit.bottom_left.y;
    let f1x = q.top_right.x - q.bottom_left.x;
    let f1y = q.top_right.y - q.bottom_left.y;
    let f2x = q.top_left.x - q.bottom_left.x;
    let f2y = q.top_left.y - q.bottom_left.y;
    let e1x = unit.top_right.x - unit.bottom_left.x;
    let e2x = unit.top_left.x - unit.bottom_left.x;
    assert(f1x * e2y == f1x && f2x * e1y == f2x && f1y * e2y == f1y && f2y * e1y == f2y)
        by (nonlinear_arith)
        requires
            e1y == 1,
            e2y == 1,
    ;
    assert(f2x * e1x == f2x && f1x * e2x == 0 && f2y * e1x == f2y && f1y * e2x == 0)
        by (nonlinear_arith)
        requires
            e1x == 1,
            e2x == 0,
    ;
    assert(m.x_axis.x == q.bottom_right.x - q.bottom_left.x);
    assert(m.x_axis.y == q.bottom_right.y - q.bottom_left.y);
    assert(m.y_axis.x == q.top_left.x - q.bottom_left.x);
    assert(m.y_axis.y == q.top_left.y - q.bottom_left.y);
    let long_x = q.bottom_right.x - q.bottom_left.x;
    let long_y = q.bottom_right.y - q.bottom_left.y;
    let short_x = q.top_left.x - q.bottom_left.x;
    let short_y = q.top_left.y - q.bottom_left.y;
    let style = line.finalized().style;
    assert(e1x * e2y == 1 && e2x * e1y == 0) by (nonlinear_arith)
        requires
            e1x == 1,
            e2y == 1,
            e2x == 0,
    ;
    assert(unit.det() == 1);
    assert(m.den == 1);
    assert(style.height == 2 * stroke);
    assert(style.width == distance(line.start, line.stop) + 2 * stroke);
    assert(m.x_axis.x as int == long_x && m.x_axis.y as int == long_y);
    assert(m.y_axis.x as int == short_x && m.y_axis.y as int == short_y);
    assert(m.x_axis.x * m.y_axis.x + m.x_axis.y * m.y_axis.y == long_x * short_x + long_y
        * short_y);
}

/// What the renderer reads of a line entity: its style and the transform of
/// the reference quad.
#[derive(Clone, Copy, Debug, PartialEq, Eq)]
pub struct LineComponents {
    pub style: LineStyle,
    pub transform: Mat4,
}

impl Shape for Line {
    type Components = LineComponents;

    /// A line can be drawn when its endpoints differ: a segment without
    /// length has no direction.
    open spec fn drawable(&self) -> bool {
        self.start != self.stop
    }

    open spec fn rendered(&self) -> LineComponents {
        LineComponents {
            style: self.style,
            transform: line_transform(self.start, self.stop, self.style.stroke),
        }
    }

    fn render(&self) -> (c: LineComponents) {
        LineComponents {
            style: self.style,
            transform: calc_transform_for_line(self.start, self.stop, self.style.stroke),
        }
    }
}

/// Configures the line that `draw_line` appended last, which is the last
/// line of the list for as long as the builder lives. The setters may be
/// called in any order; `finalize` derives the sides of the line's box from
/// the values that the request holds then.
#[must_use]
pub struct LineBuilder<'a> {
    pub graphics: &'a mut Immediate2DGraphics,
}

impl<'a> LineBuilder<'a> {
    /// Sets the half-width of the stroke.
    pub fn with_stroke(self, stroke: u32) -> (b: Self)
        requires
            self.graphics@.lines.len() > 0,
        ensures
            b.graphics@ == old(self.graphics)@.replace_last_line(
                old(self.graphics)@.lines.last().stroked(stroke),
            ),
            *final(self.graphics) == *final(b.graphics),
    {
        let last: usize = self.graphics.lines.len() - 1;
        self.graphics.lines[last].style.stroke = stroke;
        self
    }

    /// Sets the colour of the line.
    pub fn with_color(self, color: Color) -> (b: Self)
        requires
            self.graphics@.lines.len() > 0,
        ensures
            b.graphics@ == old(self.graphics)@.replace_last_line(
                old(self.graphics)@.lines.last().colored(color),
            ),
            *final(self.graphics) == *final(b.graphics),
    {
        let last: usize = self.graphics.lines.len() - 1;
        self.graphics.lines[last].style.color = color;
        self
    }

    /// Ends the configuration of the line: derives the sides of its box,
    /// once, from the endpoints and the stroke that it holds now, and gives
    /// the list of requests back.
    pub fn finalize(self) -> (g: &'a mut Immediate2DGraphics)
        requires
            self.graphics@.lines.len() > 0,
        ensures
            g@ == old(self.graphics)@.replace_last_line(
                old(self.graphics)@.lines.last().finalized(),
            ),
            *final(self.graphics) == *final(g),
    {
        let last: usize = self.graphics.lines.len() - 1;
        let mut line: Line = self.graphics.lines[last];
        proof {
            lemma_distance_upper_bound(line.start, line.stop);
        }
        let len: u64 = segment_length(line.start, line.stop);
        let height: u64 = 2 * (line.style.stroke as u64);
        line.style.height = height;
        line.style.width = len + height;
        self.graphics.lines[last] = line;
        self.graphics
    }
}

/// Tests whether every pending line has two distinct endpoints, which is
/// what `line_update_system` asks for.
pub fn lines_are_drawable(graphics: &Immediate2DGraphics) -> (ok: bool)
    ensures
        ok == all_drawable(graphics@.lines),
{
    let mut i: usize = 0;
    while i < graphics.lines.len()
        invariant
            i <= graphics.lines@.len(),
            forall|k: int| 0 <= k < i ==> (#[trigger] graphics.lines@[k]).drawable(),
        decreases graphics.lines@.len() - i,
    {
        let line: Line = graphics.lines[i];
        if line.start.x == line.stop.x && line.start.y == line.stop.y {
            return false;
        }
        i += 1;
    }
    true
}

/// Reconciles the lines requested in this frame with the pool of line
/// entities, and empties the list of pending lines. Every pending line must
/// have two distinct endpoints.
pub fn line_update_system(
    graphics: &mut Immediate2DGraphics,
    pool: &mut Vec<PoolEntity<LineComponents>>,
) -> (stats: FrameStats)
    requires
        all_drawable(old(graphics)@.lines),
    ensures
        final(graphics)@ == (Frame { lines: Seq::empty(), ..old(graphics)@ }),
        final(pool)@ == reconciled(old(pool)@, old(graphics)@.lines),
        stats == frame_stats(old(pool)@.len(), old(graphics)@.lines.len()),
{
    let mut requests: Vec<Line> = Vec::new();
    core::mem::swap(&mut graphics.lines, &mut requests);
    reconcile(pool, &requests)
}

} // verus!
