//! The six axis-aligned faces of a voxel, with their fixed numbering and the
//! opposite-face mapping. Numbering (used for the six-entry neighbor
//! snapshots): Top 0, Bottom 1, Right 2, Left 3, Back 4, Forward 5.
//! Axes: Top/Bottom is +y/-y, Right/Left is +x/-x, Back/Forward is +z/-z.

use vstd::prelude::*;

verus! {

#[derive(Clone, Copy, PartialEq, Eq, Structural, Debug)]
pub enum Face {
    Top,
    Bottom,
    Right,
    Left,
    Back,
    Forward,
}

impl Face {
    /// The face on the other side of the voxel.
    pub open spec fn spec_opposite(self) -> Face {
        match self {
            Face::Top => Face::Bottom,
            Face::Bottom => Face::Top,
            Face::Right => Face::Left,
            Face::Left => Face::Right,
            Face::Back => Face::Forward,
            Face::Forward => Face::Back,
        }
    }

    pub fn opposite(self) -> (r: Face)
        ensures
            r == self.spec_opposite(),
    {
        match self {
            Face::Top => Face::Bottom,
            Face::Bottom => Face::Top,
            Face::Right => Face::Left,
            Face::Left => Face::Right,
            Face::Back => Face::Forward,
            Face::Forward => Face::Back,
        }
    }

    /// The face's position in the fixed numbering.
    pub open spec fn spec_index(self) -> int {
        match self {
            Face::Top => 0,
            Face::Bottom => 1,
            Face::Right => 2,
            Face::Left => 3,
            Face::Back => 4,
            Face::Forward => 5,
        }
    }

    /// Integer-index conversion, used only at serialization-like boundaries.
    pub fn index(self) -> (r: usize)
        ensures
            r == self.spec_index(),
    {
        match self {
            Face::Top => 0,
            Face::Bottom => 1,
            Face::Right => 2,
            Face::Left => 3,
            Face::Back => 4,
            Face::Forward => 5,
        }
    }

    pub open spec fn spec_from_index(i: int) -> Face {
        if i == 0 {
            Face::Top
        } else if i == 1 {
            Face::Bottom
        } else if i == 2 {
            Face::Right
        } else if i == 3 {
            Face::Left
        } else if i == 4 {
            Face::Back
        } else {
            Face::Forward
        }
    }

    pub fn from_index(i: usize) -> (r: Face)
        requires
            i < 6,
        ensures
            r == Face::spec_from_index(i as int),
            r.spec_index() == i,
    {
        if i == 0 {
            Face::Top
        } else if i == 1 {
            Face::Bottom
        } else if i == 2 {
            Face::Right
        } else if i == 3 {
            Face::Left
        } else if i == 4 {
            Face::Back
        } else {
            Face::Forward
        }
    }
}

} // verus!
