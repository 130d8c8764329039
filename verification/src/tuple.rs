//! Homogeneous four-component tuples: points (`w` near 1.0) and vectors
//! (`w` near 0.0) of a 3-D affine space, in fixed-point units.

use crate::fixed::{div_round_away, round_away, within_tolerance, DIV_LIMIT, SCALE, TOLERANCE};
use crate::matrix::{ADD_LIMIT, SCALAR_LIMIT};
use vstd::math::abs;
use vstd::prelude::*;

verus! {

/// A four-component fixed-point value `(x, y, z, w)`.
#[derive(Clone, Copy, Debug)]
pub struct Tuple {
    pub x: i128,
    pub y: i128,
    pub z: i128,
    pub w: i128,
}

impl Tuple {
    /// Every component has magnitude at most `bound` units.
    pub open spec fn comps_within(self, bound: int) -> bool {
        &&& -bound <= self.x as int <= bound
        &&& -bound <= self.y as int <= bound
        &&& -bound <= self.z as int <= bound
        &&& -bound <= self.w as int <= bound
    }

    /// Approximate equality: every pair of components within tolerance.
    pub open spec fn approx_eq(self, other: Tuple) -> bool {
        &&& abs(self.x as int - other.x as int) <= TOLERANCE
        &&& abs(self.y as int - other.y as int) <= TOLERANCE
        &&& abs(self.z as int - other.z as int) <= TOLERANCE
        &&& abs(self.w as int - other.w as int) <= TOLERANCE
    }

    /// The discriminant of a point: `w` within tolerance of 1.0.
    pub open spec fn is_point_spec(self) -> bool {
        abs(self.w as int - SCALE as int) <= TOLERANCE
    }

    /// The discriminant of a vector: `w` within tolerance of 0.0.
    pub open spec fn is_vector_spec(self) -> bool {
        abs(self.w as int) <= TOLERANCE
    }

    /// Builds a tuple from its four components.
    pub fn new(x: i128, y: i128, z: i128, w: i128) -> (r: Tuple)
        ensures
            r == (Tuple { x, y, z, w }),
    {
        Tuple { x, y, z, w }
    }

    /// A point: `w` is exactly 1.0.
    pub fn point(x: i128, y: i128, z: i128) -> (r: Tuple)
        ensures
            r == (Tuple { x, y, z, w: SCALE }),
            r.is_point_spec(),
    {
        Tuple { x, y, z, w: SCALE }
    }

    /// A vector: `w` is exactly 0.0.
    pub fn vector(x: i128, y: i128, z: i128) -> (r: Tuple)
        ensures
            r == (Tuple { x, y, z, w: 0 }),
            r.is_vector_spec(),
    {
        Tuple { x, y, z, w: 0 }
    }

    /// Whether this tuple is a point (`w` within tolerance of 1.0).
    pub fn is_point(&self) -> (r: bool)
        ensures
            r == self.is_point_spec(),
    {
        within_tolerance(self.w, SCALE)
    }

    /// Whether this tuple is a vector (`w` within tolerance of 0.0).
    pub fn is_vector(&self) -> (r: bool)
        ensures
            r == self.is_vector_spec(),
    {
        within_tolerance(self.w, 0)
    }

    /// Component-wise sum.
    pub fn add(&self, other: &Tuple) -> (r: Tuple)
        requires
            self.comps_within(ADD_LIMIT as int),
            other.comps_within(ADD_LIMIT as int),
        ensures
            r.x as int == self.x + other.x,
            r.y as int == self.y + other.y,
            r.z as int == self.z + other.z,
            r.w as int == self.w + other.w,
    {
        Tuple {
            x: self.x + other.x,
            y: self.y + other.y,
            z: self.z + other.z,
            w: self.w + other.w,
        }
    }

    /// Component-wise difference.
    pub fn sub(&self, other: &Tuple) -> (r: Tuple)
        requires
            self.comps_within(ADD_LIMIT as int),
            other.comps_within(ADD_LIMIT as int),
        ensures
            r.x as int == self.x - other.x,
            r.y as int == self.y - other.y,
            r.z as int == self.z - other.z,
            r.w as int == self.w - other.w,
    {
        Tuple {
            x: self.x - other.x,
            y: self.y - other.y,
            z: self.z - other.z,
            w: self.w - other.w,
        }
    }

    /// Component-wise negation.
    pub fn negate(&self) -> (r: Tuple)
        requires
            self.comps_within(ADD_LIMIT as int),
        ensures
            r.x as int == -(self.x as int),
            r.y as int == -(self.y as int),
            r.z as int == -(self.z as int),
            r.w as int == -(self.w as int),
    {
        Tuple { x: -self.x, y: -self.y, z: -self.z, w: -self.w }
    }

    /// Multiplication by a scalar, each component rounded to the grid.
    pub fn mul_scalar(&self, k: i128) -> (r: Tuple)
        requires
            self.comps_within(SCALAR_LIMIT as int),
            -SCALAR_LIMIT <= k <= SCALAR_LIMIT,
        ensures
            r.x as int == round_away(self.x * k, SCALE as int),
            r.y as int == round_away(self.y * k, SCALE as int),
            r.z as int == round_away(self.z * k, SCALE as int),
            r.w as int == round_away(self.w * k, SCALE as int),
    {
        proof {
            lemma_scalar_product_bounded(self.x as int, k as int);
            lemma_scalar_product_bounded(self.y as int, k as int);
            lemma_scalar_product_bounded(self.z as int, k as int);
            lemma_scalar_product_bounded(self.w as int, k as int);
        }
        Tuple {
            x: div_round_away(self.x * k, SCALE),
            y: div_round_away(self.y * k, SCALE),
            z: div_round_away(self.z * k, SCALE),
            w: div_round_away(self.w * k, SCALE),
        }
    }

    /// Division by a non-zero scalar, each component rounded to the grid.
    pub fn div_scalar(&self, k: i128) -> (r: Tuple)
        requires
            k != 0,
            self.comps_within(SCALAR_LIMIT as int),
            -SCALAR_LIMIT <= k <= SCALAR_LIMIT,
        ensures
            r.x as int == round_away(self.x * SCALE, k as int),
            r.y as int == round_away(self.y * SCALE, k as int),
            r.z as int == round_away(self.z * SCALE, k as int),
            r.w as int == round_away(self.w * SCALE, k as int),
    {
        proof {
            lemma_scalar_product_bounded(self.x as int, SCALE as int);
            lemma_scalar_product_bounded(self.y as int, SCALE as int);
            lemma_scalar_product_bounded(self.z as int, SCALE as int);
            lemma_scalar_product_bounded(self.w as int, SCALE as int);
        }
        Tuple {
            x: div_round_away(self.x * SCALE, k),
            y: div_round_away(self.y * SCALE, k),
            z: div_round_away(self.z * SCALE, k),
            w: div_round_away(self.w * SCALE, k),
        }
    }
}

/// The product of two scalar-bounded quantities stays within the rounded
/// division's input range.
proof fn lemma_scalar_product_bounded(a: int, b: int)
    requires
        -SCALAR_LIMIT <= a <= SCALAR_LIMIT,
        -SCALAR_LIMIT <= b <= SCALAR_LIMIT,
    ensures
        -DIV_LIMIT <= a * b <= DIV_LIMIT,
{
    assert(-DIV_LIMIT <= a * b <= DIV_LIMIT) by (nonlinear_arith)
        requires
            -SCALAR_LIMIT <= a <= SCALAR_LIMIT,
            -SCALAR_LIMIT <= b <= SCALAR_LIMIT,
            SCALAR_LIMIT == 10_000_000_000_000_000,
            DIV_LIMIT == 100_000_000_000_000_000_000_000_000_000_000_000_000,
    ;
}

impl PartialEq for Tuple {
    /// Approximate equality: every pair of components within tolerance.
    fn eq(&self, other: &Tuple) -> (r: bool) {
        within_tolerance(self.x, other.x) && within_tolerance(self.y, other.y)
            && within_tolerance(self.z, other.z) && within_tolerance(self.w, other.w)
    }
}

impl vstd::std_specs::cmp::PartialEqSpecImpl for Tuple {
    open spec fn obeys_eq_spec() -> bool {
        true
    }

    open spec fn eq_spec(&self, other: &Tuple) -> bool {
        self.approx_eq(*other)
    }
}

} // verus!
