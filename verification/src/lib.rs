//! An immediate-mode 2D drawing layer: draw requests are collected frame by
//! frame and reconciled against pools of persistent render entities.
//!
//! All scalars are 16.16 fixed-point numbers held in integers.
use vstd::prelude::*;

pub mod affine;
pub mod circles;
pub mod color;
pub mod corners;
pub mod fixed;
pub mod geometry;
pub mod lines;
pub mod pool;
pub mod rectangles;

use circles::{Circle, CircleBuilder};
use lines::{Line, LineBuilder};
use rectangles::{Rectangle, RectangleBuilder};

verus! {

/// The draw requests of the current frame, one list for each kind of shape,
/// each in the order in which the requests were issued.
#[derive(Debug)]
pub struct Immediate2DGraphics {
    pub circles: Vec<Circle>,
    pub rectangles: Vec<Rectangle>,
    pub lines: Vec<Line>,
}

/// The pending requests of a frame as sequences.
pub struct Frame {
    pub circles: Seq<Circle>,
    pub rectangles: Seq<Rectangle>,
    pub lines: Seq<Line>,
}

impl Frame {
    /// The frame in which nothing has been requested.
    pub open spec fn empty() -> Frame {
        Frame { circles: Seq::empty(), rectangles: Seq::empty(), lines: Seq::empty() }
    }

    /// This frame with `circle` in the place of its last circle.
    pub open spec fn replace_last_circle(self, circle: Circle) -> Frame
        recommends
            self.circles.len() > 0,
    {
        Frame { circles: self.circles.update(self.circles.len() - 1, circle), ..self }
    }

    /// This frame with `rectangle` in the place of its last rectangle.
    pub open spec fn replace_last_rectangle(self, rectangle: Rectangle) -> Frame
        recommends
            self.rectangles.len() > 0,
    {
        Frame {
            rectangles: self.rectangles.update(self.rectangles.len() - 1, rectangle),
            ..self
        }
    }

    /// This frame with `line` in the place of its last line.
    pub open spec fn replace_last_line(self, line: Line) -> Frame
        recommends
            self.lines.len() > 0,
    {
        Frame { lines: self.lines.update(self.lines.len() - 1, line), ..self }
    }
}

impl View for Immediate2DGraphics {
    type V = Frame;

    open spec fn view(&self) -> Frame {
        Frame { circles: self.circles@, rectangles: self.rectangles@, lines: self.lines@ }
    }
}

impl Default for Immediate2DGraphics {
    fn default() -> (g: Self)
        ensures
            g@ == Frame::empty(),
    {
        Immediate2DGraphics { circles: Vec::new(), rectangles: Vec::new(), lines: Vec::new() }
    }
}

impl Immediate2DGraphics {
    /// Requests a circle centred on `(x, y)` and hands out the builder that
    /// configures it.
    pub fn fill_circle(&mut self, x: i32, y: i32) -> (b: CircleBuilder<'_>)
        ensures
            b.graphics@ == (Frame {
                circles: old(self)@.circles.push(Circle::new(x, y)),
                ..old(self)@
            }),
            *final(self) == *final(b.graphics),
    {
        self.circles.push(Circle::new(x, y));
        CircleBuilder { graphics: self }
    }

    /// Requests a rectangle centred on `(x, y)` and hands out the builder
    /// that configures it.
    pub fn fill_rectangle(&mut self, x: i32, y: i32) -> (b: RectangleBuilder<'_>)
        ensures
            b.graphics@ == (Frame {
                rectangles: old(self)@.rectangles.push(Rectangle::new(x, y)),
                ..old(self)@
            }),
            *final(self) == *final(b.graphics),
    {
        self.rectangles.push(Rectangle::new(x, y));
        RectangleBuilder { graphics: self }
    }

    /// Requests a line from `(x1, y1)` to `(x2, y2)` and hands out the
    /// builder that configures it.
    pub fn draw_line(&mut self, x1: i32, y1: i32, x2: i32, y2: i32) -> (b: LineBuilder<'_>)
        ensures
            b.graphics@ == (Frame {
                lines: old(self)@.lines.push(Line::new(x1, y1, x2, y2)),
                ..old(self)@
            }),
            *final(self) == *final(b.graphics),
    {
        self.lines.push(Line::new(x1, y1, x2, y2));
        LineBuilder { graphics: self }
    }
}

} // verus!
