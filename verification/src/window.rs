//! Coordinates on the drawn window: zero-based columns and rows of
//! the terminal screen.

use vstd::prelude::*;

verus! {

/// A column on the window, counted from the left edge.
#[derive(Debug, Clone, Copy, PartialEq, Eq, Structural)]
pub struct WindowX(pub u16);

/// A row on the window, counted from the top edge.
#[derive(Debug, Clone, Copy, PartialEq, Eq, Structural)]
pub struct WindowY(pub u16);

/// Pairs two raw screen coordinates into window coordinates.
pub fn window_coord(x: u16, y: u16) -> (r: (WindowX, WindowY))
    ensures
        r.0 == WindowX(x),
        r.1 == WindowY(y),
{
    (WindowX(x), WindowY(y))
}

} // verus!
