use vstd::prelude::*;

verus! {

/// A point of the layout plane, in layout pixels: `x` grows to the right (one lane after
/// another), `y` grows downwards (one row after another).
#[derive(Clone, Copy, Debug, PartialEq, Eq, Structural)]
pub struct Point {
    pub x: u128,
    pub y: u128,
}

impl Point {
    pub fn new(x: u128, y: u128) -> (r: Point)
        ensures
            r == (Point { x, y }),
    {
        Point { x, y }
    }
}

} // verus!
