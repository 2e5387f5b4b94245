use vstd::prelude::*;
use crate::color::Color;

verus! {

/// A depth as an exact fraction `num / den`.
#[derive(Clone, Copy, Debug, PartialEq, Eq, Structural)]
pub struct Depth {
    pub num: i128,
    pub den: i128,
}

/// One covered pixel: its integer coordinates, its colour and its depth.
#[derive(Clone, Copy, Debug, PartialEq, Eq, Structural)]
pub struct Fragment {
    pub x: i32,
    pub y: i32,
    pub color: Color,
    pub z: Depth,
}

/// The mathematical value of a fragment.
pub struct FragmentModel {
    pub x: int,
    pub y: int,
    pub color: Color,
    pub depth_num: int,
    pub depth_den: int,
}

impl View for Fragment {
    type V = FragmentModel;

    open spec fn view(&self) -> FragmentModel {
        FragmentModel {
            x: self.x as int,
            y: self.y as int,
            color: self.color,
            depth_num: self.z.num as int,
            depth_den: self.z.den as int,
        }
    }
}

impl Fragment {
    /// A fragment at pixel `(x, y)` with the given colour and depth.
    pub fn new(x: i32, y: i32, color: Color, z: Depth) -> (f: Fragment)
        ensures
            f == (Fragment { x, y, color, z }),
    {
        Fragment { x, y, color, z }
    }
}

} // verus!
