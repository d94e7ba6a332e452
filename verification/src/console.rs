//! The console tab's own state: how far its output is scrolled.

use vstd::prelude::*;

verus! {

/// The console tab of the debugger's tabbed pane.
#[derive(Debug, Clone, Copy, PartialEq, Eq, Structural)]
pub struct ConsoleView {
    /// How many rows the output is scrolled up.
    pub scroll_height: u16,
}

impl Default for ConsoleView {
    /// A console scrolled to the bottom.
    fn default() -> (r: ConsoleView)
        ensures
            r.scroll_height == 0,
    {
        ConsoleView { scroll_height: 0 }
    }
}

} // verus!
