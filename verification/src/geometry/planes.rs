//! The hit rule of a one-sided rectangle in an axis-aligned plane.

use vstd::prelude::*;
use crate::scalar::Scalar;

verus! {

/// A rectangle in a plane that holds one coordinate fixed.
///
/// The plane's own two axes are called x and y here, and the fixed one z,
/// whichever axes of space they are. Only one side of the rectangle can be
/// hit: with `negative` unset the side that looks towards positive z,
/// with `negative` set the side that looks towards negative z.
#[derive(Clone, Copy, Debug, PartialEq, Eq)]
pub struct Plane {
    /// The value of the fixed coordinate.
    pub fixed: Scalar,
    /// Which side can be hit.
    pub negative: bool,
    /// The least and the greatest x of the rectangle, both inside it.
    pub x_range: (Scalar, Scalar),
    /// The least and the greatest y of the rectangle, both inside it.
    pub y_range: (Scalar, Scalar),
}

/// Where the line of a ray crosses the plane of a rectangle.
#[derive(Clone, Copy, Debug, PartialEq, Eq, Structural)]
pub struct Crossing {
    /// The z component of the ray's direction.
    pub approach: Scalar,
    /// The distance along the ray to the plane: `(fixed - origin.z) / approach`.
    pub t: Scalar,
    /// The x coordinate of the crossing point.
    pub x: Scalar,
    /// The y coordinate of the crossing point.
    pub y: Scalar,
}

/// The two axes of space along which a plane runs. The third axis is the
/// one whose coordinate the plane holds fixed.
///
/// A plane has a frame of its own, in which it runs along x and y and holds
/// z fixed; the orientation says which axes of space these are.
#[derive(Clone, Copy, Debug, PartialEq, Eq, Structural)]
pub enum Orientation {
    /// Along x and y of space: the frames agree.
    XY,
    /// Along x and z of space; y is fixed.
    XZ,
    /// Along y and z of space; x is fixed.
    YZ,
}

impl Orientation {
    /// The coordinates in the plane's frame of what has the coordinates `p`
    /// in space.
    pub open spec fn to_local<T>(self, p: (T, T, T)) -> (T, T, T) {
        match self {
            Orientation::XY => p,
            Orientation::XZ => (p.0, p.2, p.1),
            Orientation::YZ => (p.1, p.2, p.0),
        }
    }

    /// The coordinates in space of what has the coordinates `p` in the
    /// plane's frame.
    pub open spec fn to_world<T>(self, p: (T, T, T)) -> (T, T, T) {
        match self {
            Orientation::XY => p,
            Orientation::XZ => (p.0, p.2, p.1),
            Orientation::YZ => (p.2, p.0, p.1),
        }
    }

    /// Takes coordinates in space to the plane's frame.
    pub fn local<T>(self, p: (T, T, T)) -> (r: (T, T, T))
        ensures
            r == self.to_local(p),
    {
        let (x, y, z) = p;
        match self {
            Orientation::XY => (x, y, z),
            Orientation::XZ => (x, z, y),
            Orientation::YZ => (y, z, x),
        }
    }

    /// Takes coordinates in the plane's frame to space.
    pub fn world<T>(self, p: (T, T, T)) -> (r: (T, T, T))
        ensures
            r == self.to_world(p),
    {
        let (x, y, z) = p;
        match self {
            Orientation::XY => (x, y, z),
            Orientation::XZ => (x, z, y),
            Orientation::YZ => (z, x, y),
        }
    }
}

/// Going to a plane's frame and back changes nothing, and neither does the
/// way there from the frame.
pub proof fn lemma_frames_round_trip<T>(orientation: Orientation, p: (T, T, T))
    ensures
        orientation.to_world(orientation.to_local(p)) == p,
        orientation.to_local(orientation.to_world(p)) == p,
{
}

/// A plane's z axis, the one it holds fixed, is the axis of space that its
/// orientation leaves out.
pub proof fn lemma_fixed_axis<T>(zero: T, one: T)
    ensures
        Orientation::XY.to_world((zero, zero, one)) == (zero, zero, one),
        Orientation::XZ.to_world((zero, zero, one)) == (zero, one, zero),
        Orientation::YZ.to_world((zero, zero, one)) == (one, zero, zero),
{
}

/// Whether `v` lies in the range from `range.0` to `range.1`, ends included:
/// it is neither below the one nor above the other.
pub open spec fn within(range: (Scalar, Scalar), v: Scalar) -> bool {
    !v.less(range.0) && !v.greater(range.1)
}

impl Plane {
    /// Whether the rectangle has its bounds in order: in each range the least
    /// value is not above the greatest.
    pub open spec fn well_formed(self) -> bool {
        self.x_range.0.less_eq(self.x_range.1) && self.y_range.0.less_eq(self.y_range.1)
    }

    /// Whether a ray with this crossing hits the rectangle.
    pub open spec fn admits(self, c: Crossing) -> bool {
        &&& !c.approach.equal(Scalar::zero())
        &&& c.approach.less(Scalar::zero()) != self.negative
        &&& !c.t.less(Scalar::zero())
        &&& within(self.x_range, c.x)
        &&& within(self.y_range, c.y)
    }

    /// A rectangle from its parts.
    pub fn new(fixed: Scalar, negative: bool, x_range: (Scalar, Scalar), y_range: (Scalar, Scalar)) -> (r:
        Plane)
        ensures
            r == (Plane { fixed, negative, x_range, y_range }),
    {
        Plane { fixed, negative, x_range, y_range }
    }

    /// Whether the rectangle has its bounds in order.
    pub fn is_well_formed(&self) -> (r: bool)
        ensures
            r == self.well_formed(),
    {
        self.x_range.0.le(self.x_range.1) && self.y_range.0.le(self.y_range.1)
    }

    /// The distance at which a ray hits the rectangle, if it does.
    ///
    /// A ray misses when it runs along the plane (`approach` is zero), when
    /// it comes from the side that cannot be hit (`approach` is negative
    /// exactly when `negative` is set), when the plane lies behind its origin
    /// (`t` is negative), or when it crosses the plane outside the rectangle.
    /// Otherwise it hits at `t`.
    pub fn intersect(&self, crossing: &Crossing) -> (r: Option<Scalar>)
        ensures
            r == if self.admits(*crossing) {
                Some(crossing.t)
            } else {
                None
            },
            r matches Some(t) ==> !t.less(Scalar::zero()),
    {
        let zero = Scalar::zero();
        if crossing.approach.eq_value(zero) {
            return None;
        }
        if crossing.approach.lt(zero) == self.negative {
            return None;
        }
        if crossing.t.lt(zero) {
            return None;
        }
        if crossing.x.lt(self.x_range.0) || crossing.x.gt(self.x_range.1) || crossing.y.lt(self.y_range.0)
            || crossing.y.gt(self.y_range.1) {
            return None;
        }
        Some(crossing.t)
    }
}

/// A rectangle can be hit from one side only: a ray that hits it misses the
/// rectangle that looks the other way.
pub proof fn lemma_one_sided(plane: Plane, crossing: Crossing)
    requires
        plane.admits(crossing),
    ensures
        !(Plane { negative: !plane.negative, ..plane }).admits(crossing),
{
}

/// The ends of a range lie within it, where the one is not above the other.
pub proof fn lemma_range_ends_within(range: (Scalar, Scalar))
    requires
        range.0.less_eq(range.1),
    ensures
        within(range, range.0),
        within(range, range.1),
{
}

} // verus!
