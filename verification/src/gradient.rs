//! Linear gradients: a direction and an ordered list of colour stops.

use vstd::prelude::*;
use crate::style::Color;
use crate::style::Units;

verus! {

/// A stop in a gradient, defined by a position and a color.
#[derive(Clone, Copy, PartialEq, Eq, Structural, Debug)]
pub struct GradientStop {
    /// Position of the gradient stop.
    pub position: Units,
    /// Colour of the gradient stop.
    pub color: Color,
}

impl GradientStop {
    pub fn new(position: Units, color: Color) -> (r: Self)
        ensures
            r == (GradientStop { position, color }),
    {
        GradientStop { position, color }
    }
}

/// The direction of a linear gradient.
#[derive(Clone, Copy, PartialEq, Eq, Structural, Debug)]
pub enum GradientDirection {
    LeftToRight,
    RightToLeft,
    TopToBottom,
    BottomToTop,
}

impl Default for GradientDirection {
    fn default() -> (r: Self)
        ensures
            r == GradientDirection::LeftToRight,
    {
        GradientDirection::LeftToRight
    }
}

/// Describes a linear gradient.
pub struct LinearGradient {
    /// Direction of the gradient.
    pub direction: GradientDirection,
    /// Stops of the gradient, in the order they were added.
    pub stops: Vec<(Units, Color)>,
}

impl LinearGradient {
    /// A gradient in the given direction with no stops yet.
    pub fn new(direction: GradientDirection) -> (r: Self)
        ensures
            r.direction == direction,
            r.stops@ == Seq::<(Units, Color)>::empty(),
    {
        LinearGradient { direction, stops: Vec::new() }
    }

    /// Appends one stop, keeping the earlier ones in order.
    pub fn add_stop(self, stop: (Units, Color)) -> (r: Self)
        ensures
            r.direction == self.direction,
            r.stops@ == self.stops@.push(stop),
    {
        let mut g = self;
        g.stops.push(stop);
        g
    }
}

} // verus!
