//! Shared value types: grid coordinates, cell colors and rotation directions.

use vstd::prelude::*;

verus! {

/// Terminal color labels. Each piece kind has its own color, and each of
/// those colors has a dimmed counterpart used for the ghost projection.
#[derive(Clone, Copy, Debug, PartialEq, Eq, Structural)]
pub enum Color {
    Black,
    Cyan,
    Purple,
    Green,
    Red,
    Blue,
    Orange,
    Yellow,
    DarkCyan,
    DarkPurple,
    DarkGreen,
    DarkRed,
    DarkBlue,
    DarkOrange,
    DarkYellow,
}

/// A rotation direction: `Left` is counter-clockwise, `Right` is clockwise.
#[derive(Clone, Copy, Debug, PartialEq, Eq, Structural)]
pub enum Direction {
    Left,
    Right,
}

/// A 2D grid coordinate. `x` grows to the right, `y` grows downward.
#[derive(Clone, Copy, Debug, PartialEq, Eq, Structural)]
pub struct Point {
    pub x: i32,
    pub y: i32,
}

} // verus!
