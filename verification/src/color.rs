//! Colours, carried through to the style records without being interpreted.
use vstd::prelude::*;
use crate::fixed::ONE;

verus! {

/// A colour by its red, green, blue and alpha channels, each a 16.16
/// fixed-point number in which `ONE` is full intensity. Channels are not
/// clamped.
#[derive(Clone, Copy, Debug, PartialEq, Eq)]
pub struct Color {
    pub r: i32,
    pub g: i32,
    pub b: i32,
    pub a: i32,
}

impl Color {
    /// The opaque colour with the given channels.
    pub open spec fn opaque(r: i32, g: i32, b: i32) -> Color {
        Color { r, g, b, a: ONE }
    }

    /// Opaque black.
    pub open spec fn black_spec() -> Color {
        Color::opaque(0, 0, 0)
    }

    /// Opaque black, the colour of every default style.
    #[verifier::when_used_as_spec(black_spec)]
    pub fn black() -> (c: Color)
        ensures
            c == Color::black_spec(),
    {
        Color { r: 0, g: 0, b: 0, a: ONE }
    }

    /// An opaque colour from its red, green and blue channels.
    pub fn rgb(r: i32, g: i32, b: i32) -> (c: Color)
        ensures
            c == Color::opaque(r, g, b),
    {
        Color { r, g, b, a: ONE }
    }

    /// A colour from its four channels.
    pub fn rgba(r: i32, g: i32, b: i32, a: i32) -> (c: Color)
        ensures
            c == (Color { r, g, b, a }),
    {
        Color { r, g, b, a }
    }
}

} // verus!
