use vstd::prelude::*;

verus! {

/// A cell of the terminal grid: column `x`, row `y`, counted from the top left corner.
#[derive(Copy, Clone, PartialEq, Eq, Structural, Debug)]
pub struct Position {
    pub x: u16,
    pub y: u16,
}

impl Position {
    pub fn new(x: u16, y: u16) -> (p: Self)
        ensures
            p == (Position { x, y }),
    {
        Position { x, y }
    }

    /// The top left corner of the terminal.
    pub fn origin() -> (p: Self)
        ensures
            p == (Position { x: 0, y: 0 }),
    {
        Position { x: 0, y: 0 }
    }
}

/// A rectangular region of the terminal grid, given by its top left corner and its size.
#[derive(Copy, Clone, PartialEq, Eq, Structural, Debug)]
pub struct Rect {
    pub x: u16,
    pub y: u16,
    pub width: u16,
    pub height: u16,
}

impl Rect {
    pub fn new(x: u16, y: u16, width: u16, height: u16) -> (r: Self)
        ensures
            r == (Rect { x, y, width, height }),
    {
        Rect { x, y, width, height }
    }
}

} // verus!
