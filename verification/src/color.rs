//! Color values consumed by the canvas: three fixed-point components.
//! The canvas only stores colors; the single computation offered here maps
//! a color to the integer range of an image format.

use crate::fixed::{div_round_away, round_away, SCALE};
use vstd::prelude::*;

verus! {

/// Largest integer range a color component can be mapped to.
pub const COLOR_RANGE_LIMIT: i128 = 1_000_000;

/// An RGB color of fixed-point components; 0.0 is dark, 1.0 is full.
#[derive(Clone, Copy, Debug, PartialEq, Eq, Structural)]
pub struct Color {
    pub r: i128,
    pub g: i128,
    pub b: i128,
}

/// A component clamped to [0.0, 1.0] and scaled to `[0, max]`, rounding to
/// the nearest integer.
pub open spec fn component_to_int(c: int, max: int) -> int {
    let clamped: int = if c < 0 {
        0
    } else if c > SCALE {
        SCALE as int
    } else {
        c
    };
    round_away(clamped * max, SCALE as int)
}

impl Color {
    /// Builds a color from its three components.
    pub fn new(r: i128, g: i128, b: i128) -> (c: Color)
        ensures
            c == (Color { r, g, b }),
    {
        Color { r, g, b }
    }

    /// The color as three integers in `[0, max]`, each component clamped
    /// to [0.0, 1.0] and scaled.
    pub fn to_int(&self, max: i128) -> (t: (i128, i128, i128))
        requires
            0 < max <= COLOR_RANGE_LIMIT,
        ensures
            t.0 as int == component_to_int(self.r as int, max as int),
            t.1 as int == component_to_int(self.g as int, max as int),
            t.2 as int == component_to_int(self.b as int, max as int),
    {
        (
            Color::component_exec(self.r, max),
            Color::component_exec(self.g, max),
            Color::component_exec(self.b, max),
        )
    }

    /// One component of `to_int`.
    fn component_exec(c: i128, max: i128) -> (r: i128)
        requires
            0 < max <= COLOR_RANGE_LIMIT,
        ensures
            r as int == component_to_int(c as int, max as int),
    {
        let clamped: i128 = if c < 0 {
            0
        } else if c > SCALE {
            SCALE
        } else {
            c
        };
        proof {
            assert(0 <= (clamped as int) * (max as int) <= 100_000_000_000) by (nonlinear_arith)
                requires
                    0 <= clamped as int <= 100_000,
                    0 < max as int <= 1_000_000,
            ;
        }
        div_round_away(clamped * max, SCALE)
    }
}

} // verus!
