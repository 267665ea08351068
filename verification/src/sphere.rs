//! The two places where a ray crosses a sphere, and which of them counts.

use crate::hitable::Interval;
use crate::scalar::{Scalar, ZERO_BITS};
use vstd::prelude::*;

verus! {

/// The solved quadratic of one ray against one sphere: its discriminant, and
/// the ray parameters of the two crossings.
///
/// The crossings mean nothing where the discriminant is negative or not a
/// number.
#[derive(Clone, Copy, Debug, PartialEq, Eq, Structural)]
pub struct Roots {
    pub discriminant: Scalar,
    pub near: Scalar,
    pub far: Scalar,
}

impl Roots {
    /// The ray crosses the sphere: the discriminant is zero or more.
    pub open spec fn crosses(self) -> bool {
        (Scalar { bits: ZERO_BITS }).spec_le(self.discriminant)
    }

    /// The near crossing does not lie beyond the far one, as far as the two
    /// can be compared.
    pub open spec fn ordered(self) -> bool {
        self.near.is_nan() || self.far.is_nan() || self.near.units() <= self.far.units()
    }

    /// The crossing that counts within the range: the near one if it lies in
    /// the range, else the far one if that does, else none.
    pub open spec fn spec_hit(self, range: Interval) -> Option<Scalar> {
        if !self.crosses() {
            None
        } else if range.spec_contains(self.near) {
            Some(self.near)
        } else if range.spec_contains(self.far) {
            Some(self.far)
        } else {
            None
        }
    }

    /// The solved quadratic with the given discriminant and crossings.
    pub fn new(discriminant: Scalar, near: Scalar, far: Scalar) -> (r: Roots)
        ensures
            r.discriminant == discriminant,
            r.near == near,
            r.far == far,
    {
        Roots { discriminant, near, far }
    }

    /// The ray parameter at which the ray hits the sphere within the range,
    /// if it does.
    pub fn hit(&self, t_range: &Interval) -> (r: Option<Scalar>)
        ensures
            r == self.spec_hit(*t_range),
            r matches Some(t) ==> t_range.spec_contains(t),
    {
        if !Scalar::zero().le(self.discriminant) {
            None
        } else if t_range.contains(self.near) {
            Some(self.near)
        } else if t_range.contains(self.far) {
            Some(self.far)
        } else {
            None
        }
    }
}

/// With ordered crossings, a hit is the smallest crossing within the range,
/// and there is none only where the ray does not cross the sphere or both
/// crossings lie outside the range.
pub proof fn lemma_hit_is_smallest(roots: Roots, range: Interval)
    requires
        roots.ordered(),
    ensures
        roots.spec_hit(range) matches Some(t) ==> {
            &&& range.spec_contains(t)
            &&& t == roots.near || t == roots.far
            &&& range.spec_contains(roots.near) ==> t.spec_le(roots.near)
            &&& range.spec_contains(roots.far) ==> t.spec_le(roots.far)
        },
        roots.spec_hit(range) is None <==> !roots.crosses() || (!range.spec_contains(roots.near)
            && !range.spec_contains(roots.far)),
{
}

/// With ordered crossings, a closer end of the range leaves a hit that lies
/// before it as it is, and takes away every other.
pub proof fn lemma_hit_under_closer_bound(roots: Roots, range: Interval, end: Scalar)
    requires
        roots.ordered(),
        end.spec_le(range.end),
    ensures
        roots.spec_hit(range.spec_until(end)) == match roots.spec_hit(range) {
            Some(t) => if t.spec_lt(end) {
                Some(t)
            } else {
                None
            },
            None => None,
        },
{
}

} // verus!
