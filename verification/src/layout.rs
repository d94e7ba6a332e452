//! Layout arithmetic for the debugger screen: how much of the window
//! each pane gets, and coordinate systems anchored at each pane.

use vstd::prelude::*;

use crate::window::{WindowX, WindowY};

verus! {

/// The columns of the window that do not show the program.
pub const NON_PROGRAM_WIDTH: u16 = 10;

/// The rows of the window that do not show the program.
pub const NON_PROGRAM_HEIGHT: u16 = 12;

/// How many columns of a window show the program.
pub fn program_cols(width: u16) -> (r: u16)
    requires
        width >= NON_PROGRAM_WIDTH,
    ensures
        r == width - NON_PROGRAM_WIDTH,
{
    width - NON_PROGRAM_WIDTH
}

/// How many rows of a window show the program.
pub fn program_rows(height: u16) -> (r: u16)
    requires
        height >= NON_PROGRAM_HEIGHT,
    ensures
        r == height - NON_PROGRAM_HEIGHT,
{
    height - NON_PROGRAM_HEIGHT
}

/// How many rows the stack sidebar gets.
pub fn stack_rows(height: u16) -> (r: u16)
    requires
        height >= NON_PROGRAM_HEIGHT,
    ensures
        r == height - NON_PROGRAM_HEIGHT,
{
    program_rows(height)
}

/// Whether the stack sidebar has an even number of rows.
pub fn stack_rows_parity_even(height: u16) -> (r: bool)
    requires
        height >= NON_PROGRAM_HEIGHT,
    ensures
        r == ((height - NON_PROGRAM_HEIGHT) % 2 == 0),
{
    program_rows(height) % 2 == 0
}

/// How many stack values fit in the sidebar: each one needs a divider
/// row, under a heading (and a dead row when the parity asks for it).
pub fn stack_slots(height: u16) -> (r: u16)
    requires
        height >= NON_PROGRAM_HEIGHT + 3,
    ensures
        (height - NON_PROGRAM_HEIGHT) % 2 == 0 ==> r == (height - NON_PROGRAM_HEIGHT - 3) / 2,
        (height - NON_PROGRAM_HEIGHT) % 2 != 0 ==> r == (height - NON_PROGRAM_HEIGHT - 2) / 2,
{
    let rows = stack_rows(height);
    if rows % 2 == 0 {
        (rows - 3) / 2
    } else {
        (rows - 2) / 2
    }
}

/// A column of the program pane.
#[derive(Debug, Clone, Copy, PartialEq, Eq, Structural)]
pub struct ProgramX(pub u16);

/// A row of the program pane.
#[derive(Debug, Clone, Copy, PartialEq, Eq, Structural)]
pub struct ProgramY(pub u16);

/// A column of the stack sidebar.
#[derive(Debug, Clone, Copy, PartialEq, Eq, Structural)]
pub struct SidebarX(pub u16);

/// A row of the stack sidebar.
#[derive(Debug, Clone, Copy, PartialEq, Eq, Structural)]
pub struct SidebarY(pub u16);

/// A row of the tabbed pane's body.
#[derive(Debug, Clone, Copy, PartialEq, Eq, Structural)]
pub struct TabY(pub u16);

/// A row of the tabbed pane's heading band.
#[derive(Debug, Clone, Copy, PartialEq, Eq, Structural)]
pub struct TabHeadingY(pub u16);

impl ProgramX {
    /// Where this program column falls on the window: one border
    /// column to its left.
    pub fn convert(self) -> (r: WindowX)
        requires
            self.0 < 0xFFFF,
        ensures
            r == WindowX((self.0 + 1) as u16),
    {
        WindowX(1 + self.0)
    }
}

impl ProgramY {
    /// Where this program row falls on the window: one border row
    /// above it.
    pub fn convert(self) -> (r: WindowY)
        requires
            self.0 < 0xFFFF,
        ensures
            r == WindowY((self.0 + 1) as u16),
    {
        WindowY(1 + self.0)
    }
}

impl SidebarX {
    /// Where this sidebar column falls on a window of the given
    /// width: right of the program pane and its border.
    pub fn convert(self, width: u16) -> (r: WindowX)
        requires
            width >= NON_PROGRAM_WIDTH,
            width - NON_PROGRAM_WIDTH + 1 + self.0 <= 0xFFFF,
        ensures
            r == WindowX((width - NON_PROGRAM_WIDTH + 1 + self.0) as u16),
    {
        WindowX(program_cols(width) + 1 + self.0)
    }
}

impl SidebarY {
    /// The last sidebar row a window of the given height shows.
    pub fn max(height: u16) -> (r: SidebarY)
        requires
            height >= NON_PROGRAM_HEIGHT + 1,
        ensures
            r == SidebarY((height - NON_PROGRAM_HEIGHT - 1) as u16),
    {
        SidebarY(program_rows(height) - 1)
    }

    /// Where this sidebar row falls on the window: one border row
    /// above it.
    pub fn convert(self) -> (r: WindowY)
        requires
            self.0 < 0xFFFF,
        ensures
            r == WindowY((self.0 + 1) as u16),
    {
        WindowY(1 + self.0)
    }
}

impl TabY {
    /// Where this tab-body row falls on a window of the given height:
    /// under the program pane and the heading band.
    pub fn convert(self, height: u16) -> (r: WindowY)
        requires
            height >= NON_PROGRAM_HEIGHT,
            height - NON_PROGRAM_HEIGHT + 4 + self.0 <= 0xFFFF,
        ensures
            r == WindowY((height - NON_PROGRAM_HEIGHT + 4 + self.0) as u16),
    {
        WindowY(program_rows(height) + 4 + self.0)
    }
}

impl TabHeadingY {
    /// Where this heading row falls on a window of the given height:
    /// right under the program pane.
    pub fn convert(self, height: u16) -> (r: WindowY)
        requires
            height >= NON_PROGRAM_HEIGHT,
            height - NON_PROGRAM_HEIGHT + 1 + self.0 <= 0xFFFF,
        ensures
            r == WindowY((height - NON_PROGRAM_HEIGHT + 1 + self.0) as u16),
    {
        WindowY(program_rows(height) + 1 + self.0)
    }
}

} // verus!
