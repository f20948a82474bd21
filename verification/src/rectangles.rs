//! Rectangles: the draw request, its builder and its reconciliation pass.
use vstd::prelude::*;
use crate::color::Color;
use crate::fixed::{trunc_div, ONE};
use crate::geometry::Vec2;
use crate::pool::{frame_stats, reconcile, reconciled, FrameStats, PoolEntity, Shape};
use crate::{Frame, Immediate2DGraphics};

verus! {

/// How a rectangle is painted. `border_width` holds the border's thickness
/// along x and along y, each a fraction of the quad: at 0 no border is
/// visible, at `ONE` the border covers the whole rectangle.
#[derive(Clone, Copy, Debug, PartialEq, Eq)]
pub struct RectangleStyle {
    pub fill_color: Color,
    pub border_color: Color,
    pub border_width: Vec2,
}

impl RectangleStyle {
    /// Black fill, black border, no visible border.
    pub open spec fn default_spec() -> RectangleStyle {
        RectangleStyle {
            fill_color: Color::black(),
            border_color: Color::black(),
            border_width: Vec2 { x: 0, y: 0 },
        }
    }
}

impl Default for RectangleStyle {
    fn default() -> (s: Self)
        ensures
            s == RectangleStyle::default_spec(),
    {
        RectangleStyle {
            fill_color: Color::black(),
            border_color: Color::black(),
            border_width: Vec2::zero(),
        }
    }
}

/// The width and the height of a rectangle.
#[derive(Clone, Copy, Debug, PartialEq, Eq)]
pub struct Extent {
    pub width: u32,
    pub height: u32,
}

/// A request to draw one rectangle in the current frame. `rotation` is an
/// angle about the centre in radians.
#[derive(Clone, Copy, Debug, PartialEq, Eq)]
pub struct Rectangle {
    pub style: RectangleStyle,
    pub pos: Vec2,
    pub dimensions: Extent,
    pub rotation: i32,
}

impl Rectangle {
    /// The rectangle that `new` makes: default style, 100 units wide and
    /// high, not rotated.
    pub open spec fn new_spec(x: i32, y: i32) -> Rectangle {
        Rectangle {
            style: RectangleStyle::default_spec(),
            pos: Vec2 { x, y },
            dimensions: Extent { width: (100 * ONE) as u32, height: (100 * ONE) as u32 },
            rotation: 0,
        }
    }

    /// This rectangle filled with `color`.
    pub open spec fn filled(self, color: Color) -> Rectangle {
        Rectangle { style: RectangleStyle { fill_color: color, ..self.style }, ..self }
    }

    /// This rectangle with a border of the given colour whose width is
    /// `stroke` along both axes.
    pub open spec fn bordered(self, color: Color, stroke: i32) -> Rectangle {
        Rectangle {
            style: RectangleStyle {
                border_color: color,
                border_width: Vec2 { x: stroke, y: stroke },
                ..self.style
            },
            ..self
        }
    }

    /// This rectangle turned to the angle `rotation`.
    pub open spec fn rotated(self, rotation: i32) -> Rectangle {
        Rectangle { rotation, ..self }
    }

    /// This rectangle made `width` wide.
    pub open spec fn widened(self, width: u32) -> Rectangle {
        Rectangle { dimensions: Extent { width, ..self.dimensions }, ..self }
    }

    /// This rectangle made `height` high.
    pub open spec fn heightened(self, height: u32) -> Rectangle {
        Rectangle { dimensions: Extent { height, ..self.dimensions }, ..self }
    }

    /// This rectangle with its border widths corrected for its aspect ratio.
    pub open spec fn finalized(self) -> Rectangle {
        Rectangle {
            style: RectangleStyle {
                border_width: corrected_border(self.style.border_width, self.dimensions),
                ..self.style
            },
            ..self
        }
    }

    /// A rectangle centred on `(x, y)` with the default style, 100 units wide
    /// and high, not rotated.
    #[verifier::when_used_as_spec(new_spec)]
    pub fn new(x: i32, y: i32) -> (r: Rectangle)
        ensures
            r == Rectangle::new_spec(x, y),
    {
        Rectangle {
            style: RectangleStyle::default(),
            pos: Vec2::new(x, y),
            dimensions: Extent { width: (100 * ONE) as u32, height: (100 * ONE) as u32 },
            rotation: 0,
        }
    }
}

/// The border widths corrected for the aspect ratio of the rectangle. The
/// shader takes the quad to be a square, so the border width along the longer
/// side is multiplied by the ratio of the shorter side to the longer one,
/// rounded toward zero; the width along the shorter side stays. A rectangle
/// with equal sides, the empty one included, keeps both widths.
pub open spec fn corrected_border(border: Vec2, dimensions: Extent) -> Vec2 {
    if dimensions.width > dimensions.height {
        Vec2 {
            x: trunc_div(border.x * dimensions.height, dimensions.width as int) as i32,
            y: border.y,
        }
    } else if dimensions.height > 0 {
        Vec2 {
            x: border.x,
            y: trunc_div(border.y * dimensions.width, dimensions.height as int) as i32,
        }
    } else {
        border
    }
}

/// The setters of a rectangle's builder touch different fields, so the order
/// in which they are applied does not matter.
pub proof fn lemma_rectangle_setters_commute(
    r: Rectangle,
    fill: Color,
    border: Color,
    stroke: i32,
    rotation: i32,
    width: u32,
    height: u32,
)
    ensures
        r.filled(fill).bordered(border, stroke) == r.bordered(border, stroke).filled(fill),
        r.filled(fill).rotated(rotation) == r.rotated(rotation).filled(fill),
        r.filled(fill).widened(width) == r.widened(width).filled(fill),
        r.filled(fill).heightened(height) == r.heightened(height).filled(fill),
        r.bordered(border, stroke).rotated(rotation) == r.rotated(rotation).bordered(
            border,
            stroke,
        ),
        r.bordered(border, stroke).widened(width) == r.widened(width).bordered(border, stroke),
        r.bordered(border, stroke).heightened(height) == r.heightened(height).bordered(
            border,
            stroke,
        ),
        r.rotated(rotation).widened(width) == r.widened(width).rotated(rotation),
        r.rotated(rotation).heightened(height) == r.heightened(height).rotated(rotation),
        r.widened(width).heightened(height) == r.heightened(height).widened(width),
{
}

/// Multiplies a border width by the ratio `shorter / longer`, rounding toward
/// zero. The ratio is at most one, so the result is no larger in magnitude.
fn scale_border(width: i32, shorter: u32, longer: u32) -> (r: i32)
    requires
        shorter <= longer,
        longer > 0,
    ensures
        r == trunc_div(width * shorter, longer as int),
        -0x8000_0000 <= trunc_div(width * shorter, longer as int) <= 0x7fff_ffff,
{
    proof {
        assert(-0x8000_0000 * 0xffff_ffff <= width * shorter <= 0x8000_0000 * 0xffff_ffff)
            by (nonlinear_arith)
            requires
                -0x8000_0000 <= width <= 0x7fff_ffff,
                0 <= shorter <= 0xffff_ffff,
        ;
    }
    let n: i64 = (width as i64) * (shorter as i64);
    let q: i64 = n / (longer as i64);
    proof {
        let m = n as int;
        let l = longer as int;
        let s = shorter as int;
        let w = width as int;
        if m >= 0 {
            assert(0 <= m / l <= 0x7fff_ffff) by (nonlinear_arith)
                requires
                    0 <= m,
                    m == w * s,
                    0 <= s <= l,
                    w <= 0x7fff_ffff,
                    l >= 1,
            ;
        } else {
            assert(-m == (-w) * s) by (nonlinear_arith)
                requires
                    m == w * s,
            ;
            assert(0 <= (-m) / l <= 0x8000_0000) by (nonlinear_arith)
                requires
                    0 < -m,
                    -m == (-w) * s,
                    0 <= s <= l,
                    -w <= 0x8000_0000,
                    l >= 1,
            ;
        }
    }
    q as i32
}

/// What the renderer reads of a rectangle entity: its style, where its
/// centre lies, the scale of the unit quad along x and y, and the angle by
/// which it is turned about its centre.
#[derive(Clone, Copy, Debug, PartialEq, Eq)]
pub struct RectangleComponents {
    pub style: RectangleStyle,
    pub translation: Vec2,
    pub scale: Extent,
    pub rotation: i32,
}

impl Shape for Rectangle {
    type Components = RectangleComponents;

    open spec fn drawable(&self) -> bool {
        true
    }

    open spec fn rendered(&self) -> RectangleComponents {
        RectangleComponents {
            style: self.style,
            translation: self.pos,
            scale: self.dimensions,
            rotation: self.rotation,
        }
    }

    fn render(&self) -> (c: RectangleComponents) {
        RectangleComponents {
            style: self.style,
            translation: self.pos,
            scale: self.dimensions,
            rotation: self.rotation,
        }
    }
}

/// Configures the rectangle that `fill_rectangle` appended last, which is the
/// last rectangle of the list for as long as the builder lives. The setters
/// may be called in any order; `finalize` derives the border widths from the
/// values that the request holds then.
#[must_use]
pub struct RectangleBuilder<'a> {
    pub graphics: &'a mut Immediate2DGraphics,
}

impl<'a> RectangleBuilder<'a> {
    /// Sets the colour that fills the rectangle.
    pub fn with_color(self, color: Color) -> (b: Self)
        requires
            self.graphics@.rectangles.len() > 0,
        ensures
            b.graphics@ == old(self.graphics)@.replace_last_rectangle(
                old(self.graphics)@.rectangles.last().filled(color),
            ),
            *final(self.graphics) == *final(b.graphics),
    {
        let last: usize = self.graphics.rectangles.len() - 1;
        self.graphics.rectangles[last].style.fill_color = color;
        self
    }

    /// Gives the rectangle a border of the given colour. `stroke` is a
    /// fraction: at 0 no border is visible, at `ONE` the border covers the
    /// whole rectangle.
    pub fn with_border(self, color: Color, stroke: i32) -> (b: Self)
        requires
            self.graphics@.rectangles.len() > 0,
        ensures
            b.graphics@ == old(self.graphics)@.replace_last_rectangle(
                old(self.graphics)@.rectangles.last().bordered(color, stroke),
            ),
            *final(self.graphics) == *final(b.graphics),
    {
        let last: usize = self.graphics.rectangles.len() - 1;
        let mut rectangle: Rectangle = self.graphics.rectangles[last];
        rectangle.style.border_color = color;
        rectangle.style.border_width = Vec2::new(stroke, stroke);
        self.graphics.rectangles[last] = rectangle;
        self
    }

    /// Turns the rectangle about its centre by `rotation` radians.
    pub fn with_rotation(self, rotation: i32) -> (b: Self)
        requires
            self.graphics@.rectangles.len() > 0,
        ensures
            b.graphics@ == old(self.graphics)@.replace_last_rectangle(
                old(self.graphics)@.rectangles.last().rotated(rotation),
            ),
            *final(self.graphics) == *final(b.graphics),
    {
        let last: usize = self.graphics.rectangles.len() - 1;
        self.graphics.rectangles[last].rotation = rotation;
        self
    }

    /// Sets the width of the rectangle.
    pub fn with_width(self, width: u32) -> (b: Self)
        requires
            self.graphics@.rectangles.len() > 0,
        ensures
            b.graphics@ == old(self.graphics)@.replace_last_rectangle(
                old(self.graphics)@.rectangles.last().widened(width),
            ),
            *final(self.graphics) == *final(b.graphics),
    {
        let last: usize = self.graphics.rectangles.len() - 1;
        self.graphics.rectangles[last].dimensions.width = width;
        self
    }

    /// Sets the height of the rectangle.
    pub fn with_height(self, height: u32) -> (b: Self)
        requires
            self.graphics@.rectangles.len() > 0,
        ensures
            b.graphics@ == old(self.graphics)@.replace_last_rectangle(
                old(self.graphics)@.rectangles.last().heightened(height),
            ),
            *final(self.graphics) == *final(b.graphics),
    {
        let last: usize = self.graphics.rectangles.len() - 1;
        self.graphics.rectangles[last].dimensions.height = height;
        self
    }

    /// Ends the configuration of the rectangle: corrects its border widths
    /// for its aspect ratio, once, from the width, the height and the border
    /// that it holds now, and gives the list of requests back.
    pub fn finalize(self) -> (g: &'a mut Immediate2DGraphics)
        requires
            self.graphics@.rectangles.len() > 0,
        ensures
            g@ == old(self.graphics)@.replace_last_rectangle(
                old(self.graphics)@.rectangles.last().finalized(),
            ),
            *final(self.graphics) == *final(g),
    {
        let last: usize = self.graphics.rectangles.len() - 1;
        let width: u32 = self.graphics.rectangles[last].dimensions.width;
        let height: u32 = self.graphics.rectangles[last].dimensions.height;
        let border: Vec2 = self.graphics.rectangles[last].style.border_width;
        let corrected: Vec2 = if width > height {
            Vec2 { x: scale_border(border.x, height, width), y: border.y }
        } else if height > 0 {
            Vec2 { x: border.x, y: scale_border(border.y, width, height) }
        } else {
            border
        };
        self.graphics.rectangles[last].style.border_width = corrected;
        self.graphics
    }
}

/// Reconciles the rectangles requested in this frame with the pool of
/// rectangle entities, and empties the list of pending rectangles.
pub fn rectangle_update_system(
    graphics: &mut Immediate2DGraphics,
    pool: &mut Vec<PoolEntity<RectangleComponents>>,
) -> (stats: FrameStats)
    ensures
        final(graphics)@ == (Frame { rectangles: Seq::empty(), ..old(graphics)@ }),
        final(pool)@ == reconciled(old(pool)@, old(graphics)@.rectangles),
        stats == frame_stats(old(pool)@.len(), old(graphics)@.rectangles.len()),
{
    let mut requests: Vec<Rectangle> = Vec::new();
    core::mem::swap(&mut graphics.rectangles, &mut requests);
    reconcile(pool, &requests)
}

} // verus!
