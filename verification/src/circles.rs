//! Circles: the draw request, its builder and its reconciliation pass.
use vstd::prelude::*;
use crate::color::Color;
use crate::fixed::ONE;
use crate::geometry::Vec2;
use crate::pool::{frame_stats, reconcile, reconciled, FrameStats, PoolEntity, Shape};
use crate::{Frame, Immediate2DGraphics};

verus! {

/// How a circle is painted. `border_width` is a fraction of the radius: at 0
/// no border is visible, at `ONE` the border covers the whole circle.
#[derive(Clone, Copy, Debug, PartialEq, Eq)]
pub struct CircleStyle {
    pub fill_color: Color,
    pub border_color: Color,
    pub border_width: i32,
}

impl CircleStyle {
    /// Black fill, black border, no visible border.
    pub open spec fn default_spec() -> CircleStyle {
        CircleStyle { fill_color: Color::black(), border_color: Color::black(), border_width: 0 }
    }
}

impl Default for CircleStyle {
    fn default() -> (s: Self)
        ensures
            s == CircleStyle::default_spec(),
    {
        CircleStyle { fill_color: Color::black(), border_color: Color::black(), border_width: 0 }
    }
}

/// A request to draw one circle in the current frame.
#[derive(Clone, Copy, Debug, PartialEq, Eq)]
pub struct Circle {
    pub style: CircleStyle,
    pub pos: Vec2,
    pub radius: u32,
}

impl Circle {
    /// The circle that `new` makes: default style, radius of 100 units.
    pub open spec fn new_spec(x: i32, y: i32) -> Circle {
        Circle { style: CircleStyle::default_spec(), pos: Vec2 { x, y }, radius: (100 * ONE) as u32 }
    }

    /// This circle with the radius `radius`.
    pub open spec fn resized(self, radius: u32) -> Circle {
        Circle { radius, ..self }
    }

    /// This circle filled with `color`.
    pub open spec fn filled(self, color: Color) -> Circle {
        Circle { style: CircleStyle { fill_color: color, ..self.style }, ..self }
    }

    /// This circle with a border of the given colour and width.
    pub open spec fn bordered(self, color: Color, stroke: i32) -> Circle {
        Circle {
            style: CircleStyle { border_color: color, border_width: stroke, ..self.style },
            ..self
        }
    }

    /// A circle centred on `(x, y)` with the default style and a radius of
    /// 100 units.
    #[verifier::when_used_as_spec(new_spec)]
    pub fn new(x: i32, y: i32) -> (c: Circle)
        ensures
            c == Circle::new_spec(x, y),
    {
        Circle { style: CircleStyle::default(), pos: Vec2::new(x, y), radius: (100 * ONE) as u32 }
    }
}

/// The setters of a circle's builder touch different fields, so the order in
/// which they are applied does not matter.
pub proof fn lemma_circle_setters_commute(
    circle: Circle,
    radius: u32,
    fill: Color,
    border: Color,
    stroke: i32,
)
    ensures
        circle.resized(radius).filled(fill) == circle.filled(fill).resized(radius),
        circle.resized(radius).bordered(border, stroke) == circle.bordered(border, stroke).resized(
            radius,
        ),
        circle.filled(fill).bordered(border, stroke) == circle.bordered(border, stroke).filled(
            fill,
        ),
{
}

/// What the renderer reads of a circle entity: its style, where its centre
/// lies, and the uniform scale of the unit quad, which is the diameter.
#[derive(Clone, Copy, Debug, PartialEq, Eq)]
pub struct CircleComponents {
    pub style: CircleStyle,
    pub translation: Vec2,
    pub scale: u64,
}

impl Shape for Circle {
    type Components = CircleComponents;

    open spec fn drawable(&self) -> bool {
        true
    }

    open spec fn rendered(&self) -> CircleComponents {
        CircleComponents {
            style: self.style,
            translation: self.pos,
            scale: (2 * self.radius) as u64,
        }
    }

    fn render(&self) -> (c: CircleComponents) {
        let diameter: u64 = 2 * (self.radius as u64);
        CircleComponents { style: self.style, translation: self.pos, scale: diameter }
    }
}

/// Configures the circle that `fill_circle` appended last, which is the last
/// circle of the list for as long as the builder lives. The setters may be
/// called in any order.
#[must_use]
pub struct CircleBuilder<'a> {
    pub graphics: &'a mut Immediate2DGraphics,
}

impl<'a> CircleBuilder<'a> {
    /// Sets the radius of the circle.
    pub fn with_radius(self, radius: u32) -> (b: Self)
        requires
            self.graphics@.circles.len() > 0,
        ensures
            b.graphics@ == old(self.graphics)@.replace_last_circle(
                old(self.graphics)@.circles.last().resized(radius),
            ),
            *final(self.graphics) == *final(b.graphics),
    {
        let last: usize = self.graphics.circles.len() - 1;
        self.graphics.circles[last].radius = radius;
        self
    }

    /// Sets the colour that fills the circle.
    pub fn with_color(self, color: Color) -> (b: Self)
        requires
            self.graphics@.circles.len() > 0,
        ensures
            b.graphics@ == old(self.graphics)@.replace_last_circle(
                old(self.graphics)@.circles.last().filled(color),
            ),
            *final(self.graphics) == *final(b.graphics),
    {
        let last: usize = self.graphics.circles.len() - 1;
        self.graphics.circles[last].style.fill_color = color;
        self
    }

    /// Gives the circle a border of the given colour. `stroke` is a fraction
    /// of the radius: at 0 no border is visible, at `ONE` the border covers
    /// the whole circle.
    pub fn with_border(self, color: Color, stroke: i32) -> (b: Self)
        requires
            self.graphics@.circles.len() > 0,
        ensures
            b.graphics@ == old(self.graphics)@.replace_last_circle(
                old(self.graphics)@.circles.last().bordered(color, stroke),
            ),
            *final(self.graphics) == *final(b.graphics),
    {
        let last: usize = self.graphics.circles.len() - 1;
        let mut circle: Circle = self.graphics.circles[last];
        circle.style.border_color = color;
        circle.style.border_width = stroke;
        self.graphics.circles[last] = circle;
        self
    }

    /// Ends the configuration of the circle and gives the list of requests
    /// back. A circle has no derived fields, so the request stays as it is.
    pub fn finalize(self) -> (g: &'a mut Immediate2DGraphics)
        ensures
            *g == *old(self.graphics),
            *final(self.graphics) == *final(g),
    {
        self.graphics
    }
}

/// Reconciles the circles requested in this frame with the pool of circle
/// entities, and empties the list of pending circles.
pub fn circle_update_system(
    graphics: &mut Immediate2DGraphics,
    pool: &mut Vec<PoolEntity<CircleComponents>>,
) -> (stats: FrameStats)
    ensures
        final(graphics)@ == (Frame { circles: Seq::empty(), ..old(graphics)@ }),
        final(pool)@ == reconciled(old(pool)@, old(graphics)@.circles),
        stats == frame_stats(old(pool)@.len(), old(graphics)@.circles.len()),
{
    let mut requests: Vec<Circle> = Vec::new();
    core::mem::swap(&mut graphics.circles, &mut requests);
    reconcile(pool, &requests)
}

} // verus!
