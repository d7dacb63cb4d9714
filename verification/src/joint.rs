//! Joint axes and axis masks: the degrees of freedom a joint can lock,
//! limit, or couple, kept as one bit per axis.

use vstd::prelude::*;

verus! {

/// One of the six degrees of freedom a joint can constrain: three linear
/// axes and three angular ones.
#[derive(Debug, Clone, Copy, PartialEq, Eq, Structural)]
pub enum JointAxis {
    X,
    Y,
    Z,
    XAngle,
    YAngle,
    ZAngle,
}

/// The bit a single axis occupies in an axes mask.
pub open spec fn axis_bit(axis: JointAxis) -> u8 {
    match axis {
        JointAxis::X => 1,
        JointAxis::Y => 2,
        JointAxis::Z => 4,
        JointAxis::XAngle => 8,
        JointAxis::YAngle => 16,
        JointAxis::ZAngle => 32,
    }
}

/// A set of joint axes, one bit per axis.
#[derive(Debug, Clone, Copy, PartialEq, Eq, Structural)]
pub struct JointAxesMask {
    bits: u8,
}

impl JointAxesMask {
    /// The raw bit pattern.
    pub closed spec fn bits_spec(self) -> u8 {
        self.bits
    }

    /// Whether the mask holds the given axis.
    pub open spec fn has(self, axis: JointAxis) -> bool {
        self.bits_spec() & axis_bit(axis) == axis_bit(axis)
    }

    /// The empty mask: no axis constrained.
    pub fn empty() -> (r: Self)
        ensures
            r.bits_spec() == 0,
    {
        JointAxesMask { bits: 0 }
    }

    /// The raw bit pattern.
    pub fn bits(self) -> (r: u8)
        ensures
            r == self.bits_spec(),
    {
        self.bits
    }

    /// The mask holding exactly one axis.
    pub fn from_axis(axis: JointAxis) -> (r: Self)
        ensures
            r.bits_spec() == axis_bit(axis),
    {
        match axis {
            JointAxis::X => JointAxesMask { bits: 1 },
            JointAxis::Y => JointAxesMask { bits: 2 },
            JointAxis::Z => JointAxesMask { bits: 4 },
            JointAxis::XAngle => JointAxesMask { bits: 8 },
            JointAxis::YAngle => JointAxesMask { bits: 16 },
            JointAxis::ZAngle => JointAxesMask { bits: 32 },
        }
    }

    /// The union of two masks: how a joint locks additional axes.
    pub fn union(self, other: Self) -> (r: Self)
        ensures
            r.bits_spec() == self.bits_spec() | other.bits_spec(),
    {
        JointAxesMask { bits: self.bits | other.bits }
    }

    /// Whether the mask holds the given axis.
    pub fn contains(self, axis: JointAxis) -> (r: bool)
        ensures
            r == self.has(axis),
    {
        let bit = JointAxesMask::from_axis(axis).bits();
        self.bits & bit == bit
    }
}

/// A generic joint as the mask-level model sees it: which axes are locked,
/// which are limited, and which are coupled. The joint's local frames and
/// limit values are geometric state that lives with the physics layer.
#[derive(Debug, Clone, Copy, PartialEq, Eq, Structural)]
pub struct GenericJoint {
    pub locked_axes: JointAxesMask,
    pub limit_axes: JointAxesMask,
    pub coupled_axes: JointAxesMask,
}

impl GenericJoint {
    /// A joint locking exactly the given axes, limiting and coupling none.
    pub fn new(locked_axes: JointAxesMask) -> (r: Self)
        ensures
            r.locked_axes == locked_axes,
            r.limit_axes.bits_spec() == 0,
            r.coupled_axes.bits_spec() == 0,
    {
        let mut joint = GenericJoint::default();
        joint.lock_axes(locked_axes);
        proof {
            let b: u8 = locked_axes.bits_spec();
            assert(0u8 | b == b) by (bit_vector);
        }
        joint
    }

    /// Lock the given axes in addition to those already locked.
    pub fn lock_axes(&mut self, axes: JointAxesMask)
        ensures
            final(self).locked_axes.bits_spec() == old(self).locked_axes.bits_spec()
                | axes.bits_spec(),
            final(self).limit_axes == old(self).limit_axes,
            final(self).coupled_axes == old(self).coupled_axes,
    {
        self.locked_axes = self.locked_axes.union(axes);
    }
}

impl Default for GenericJoint {
    /// A joint constraining no axis at all.
    fn default() -> (r: Self)
        ensures
            r.locked_axes.bits_spec() == 0,
            r.limit_axes.bits_spec() == 0,
            r.coupled_axes.bits_spec() == 0,
    {
        GenericJoint {
            locked_axes: JointAxesMask::empty(),
            limit_axes: JointAxesMask::empty(),
            coupled_axes: JointAxesMask::empty(),
        }
    }
}

} // verus!
