//! Rays: an origin point advanced along a direction vector.

use crate::fixed::{lemma_round_away_magnitude, round_away, SCALE};
use crate::matrix::{ADD_LIMIT, SCALAR_LIMIT};
use crate::tuple::Tuple;
use vstd::prelude::*;

verus! {

/// A ray of 3-D space: a point of origin and a direction vector.
#[derive(Clone, Copy, Debug)]
pub struct Ray {
    pub origin: Tuple,
    pub direction: Tuple,
}

impl Ray {
    /// Builds a ray. The origin must be a point and the direction a
    /// vector, in the sense of the tuple discriminants.
    pub fn new(origin: Tuple, direction: Tuple) -> (r: Ray)
        requires
            origin.is_point_spec(),
            direction.is_vector_spec(),
        ensures
            r.origin == origin,
            r.direction == direction,
    {
        Ray { origin, direction }
    }

    /// The position reached after advancing `time` along the direction:
    /// `origin + direction * time`, component by component.
    pub fn position(&self, time: i128) -> (r: Tuple)
        requires
            self.origin.comps_within(SCALAR_LIMIT as int),
            self.direction.comps_within(SCALAR_LIMIT as int),
            -SCALAR_LIMIT <= time <= SCALAR_LIMIT,
        ensures
            r.x as int == self.origin.x + round_away(self.direction.x * time, SCALE as int),
            r.y as int == self.origin.y + round_away(self.direction.y * time, SCALE as int),
            r.z as int == self.origin.z + round_away(self.direction.z * time, SCALE as int),
            r.w as int == self.origin.w + round_away(self.direction.w * time, SCALE as int),
    {
        let d: Tuple = self.direction.mul_scalar(time);
        proof {
            lemma_round_away_magnitude(self.direction.x * time, SCALE as int);
            lemma_round_away_magnitude(self.direction.y * time, SCALE as int);
            lemma_round_away_magnitude(self.direction.z * time, SCALE as int);
            lemma_round_away_magnitude(self.direction.w * time, SCALE as int);
            assert(self.direction.comps_within(SCALAR_LIMIT as int));
            lemma_scaled_comps_bounded(self.direction.x as int, time as int);
            lemma_scaled_comps_bounded(self.direction.y as int, time as int);
            lemma_scaled_comps_bounded(self.direction.z as int, time as int);
            lemma_scaled_comps_bounded(self.direction.w as int, time as int);
        }
        self.origin.add(&d)
    }
}

/// A product of two scalar-bounded quantities stays well inside the range
/// accepted by tuple addition.
proof fn lemma_scaled_comps_bounded(a: int, b: int)
    requires
        -SCALAR_LIMIT <= a <= SCALAR_LIMIT,
        -SCALAR_LIMIT <= b <= SCALAR_LIMIT,
    ensures
        -ADD_LIMIT < a * b < ADD_LIMIT,
{
    assert(-ADD_LIMIT < a * b < ADD_LIMIT) by (nonlinear_arith)
        requires
            -SCALAR_LIMIT <= a <= SCALAR_LIMIT,
            -SCALAR_LIMIT <= b <= SCALAR_LIMIT,
            SCALAR_LIMIT == 10_000_000_000_000_000,
            ADD_LIMIT == 10_000_000_000_000_000_000_000_000_000_000_000_000,
    ;
}

} // verus!
