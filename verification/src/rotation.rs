//! The rotations that an image can be turned by.

use vstd::prelude::*;

verus! {

/// A clockwise rotation by a multiple of a quarter turn.
#[derive(Clone, Copy, Debug, PartialEq, Eq, Structural)]
pub enum Rotation {
    /// 90 degrees.
    Quarter,
    /// 180 degrees.
    Half,
    /// 270 degrees.
    ThreeQuarters,
}

impl Rotation {
    /// The rotation by `amount` degrees, if there is one: only 90, 180 and
    /// 270 are valid amounts.
    pub open spec fn of_degrees(amount: u32) -> Option<Rotation> {
        if amount == 90 {
            Some(Rotation::Quarter)
        } else if amount == 180 {
            Some(Rotation::Half)
        } else if amount == 270 {
            Some(Rotation::ThreeQuarters)
        } else {
            None
        }
    }

    /// The angle of the rotation in degrees.
    pub open spec fn spec_degrees(self) -> u32 {
        match self {
            Rotation::Quarter => 90,
            Rotation::Half => 180,
            Rotation::ThreeQuarters => 270,
        }
    }

    /// The rotation by `amount` degrees, or `None` if `amount` is not 90,
    /// 180 or 270.
    pub fn from_degrees(amount: u32) -> (rotation: Option<Rotation>)
        ensures
            rotation == Rotation::of_degrees(amount),
    {
        if amount == 90 {
            Some(Rotation::Quarter)
        } else if amount == 180 {
            Some(Rotation::Half)
        } else if amount == 270 {
            Some(Rotation::ThreeQuarters)
        } else {
            None
        }
    }

    /// The angle of the rotation in degrees.
    pub fn degrees(self) -> (amount: u32)
        ensures
            amount == self.spec_degrees(),
            Rotation::of_degrees(amount) == Some(self),
    {
        match self {
            Rotation::Quarter => 90,
            Rotation::Half => 180,
            Rotation::ThreeQuarters => 270,
        }
    }
}

} // verus!
