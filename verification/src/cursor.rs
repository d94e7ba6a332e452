//! The primitive values of the language core: grid positions, cursor
//! directions, the quote/normal mode flag, and the cursor itself.

use vstd::prelude::*;

verus! {

/// A 2d position in the program space.
///
/// `x` is the column, indexed left to right; `y` is the row, indexed
/// from top to bottom. The origin `(0, 0)` is the top-left corner.
#[derive(PartialEq, Eq, Structural, Hash, Clone, Copy, Debug)]
pub struct Position {
    /// The column, indexed left to right.
    pub x: u8,
    /// The row, indexed from top to bottom.
    pub y: u8,
}

impl Position {
    /// The top-left corner `(0, 0)`.
    pub fn origin() -> (p: Position)
        ensures
            p == (Position { x: 0, y: 0 }),
    {
        Position { x: 0, y: 0 }
    }
}

/// A cardinal direction in the 2d program space.
#[derive(PartialEq, Eq, Structural, Hash, Clone, Copy, Debug)]
pub enum Direction {
    /// The negative y direction.
    Up,
    /// The positive y direction.
    Down,
    /// The negative x direction.
    Left,
    /// The positive x direction.
    Right,
}

impl Direction {
    /// The direction that undoes one step of `self`.
    pub open spec fn reverse(self) -> Direction {
        match self {
            Direction::Up => Direction::Down,
            Direction::Down => Direction::Up,
            Direction::Left => Direction::Right,
            Direction::Right => Direction::Left,
        }
    }
}

/// The mode of the cursor.
#[derive(PartialEq, Eq, Structural, Hash, Clone, Copy, Debug)]
pub enum Mode {
    /// Quotation mode: each cell that is not a double quote is pushed
    /// onto the stack as its own byte value; the double quote returns
    /// the cursor to normal mode.
    Quote,
    /// Normal mode: cells are interpreted as opcodes.
    Normal,
}

/// The information needed to execute the next opcode: where the cursor
/// stands, where it is going, and how cells are being read.
#[derive(PartialEq, Eq, Structural, Hash, Clone, Copy, Debug)]
pub struct Cursor {
    /// The position of the cursor.
    pub pos: Position,
    /// The direction the cursor is going.
    pub dir: Direction,
    /// The mode of the cursor.
    pub mode: Mode,
}

impl Cursor {
    /// The cursor a program starts with: the origin, heading right, in
    /// normal mode.
    pub fn start() -> (c: Cursor)
        ensures
            c == (Cursor {
                pos: Position { x: 0, y: 0 },
                dir: Direction::Right,
                mode: Mode::Normal,
            }),
    {
        Cursor { pos: Position { x: 0, y: 0 }, dir: Direction::Right, mode: Mode::Normal }
    }
}

/// One byte of program space.
///
/// Cells that were never written read as the default, an ASCII space.
#[derive(PartialEq, Eq, Structural, Hash, Clone, Copy, Debug)]
pub struct Cell(pub u8);

impl Cell {
    /// The value of an unwritten cell: an ASCII space.
    pub fn default_cell() -> (c: Cell)
        ensures
            c == Cell(32u8),
    {
        Cell(32)
    }
}

} // verus!
