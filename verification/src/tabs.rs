//! The tabbed pane of the debugger: console, commands and timeline
//! tabs, focus switching, and the command line that turns key presses
//! into command events.

use vstd::prelude::*;

use crate::commands::{parse_of, parse_tokens, tokenize, Command, Key};
use crate::cursor::Position;
use crate::layout::TabY;
use crate::terminal::VirtualTerminal;
use crate::window::WindowX;

verus! {

/// Which tab holds the focus.
#[derive(Debug, Clone, Copy, PartialEq, Eq, Structural)]
pub enum FocusedTab {
    /// The program's own console.
    Console,
    /// The debugger command line.
    Commands,
    /// The recorded timeline.
    Timeline,
}

/// The console tab of the tabbed pane.
#[derive(Debug, PartialEq, Eq, Structural, Clone, Copy)]
pub struct ConsoleView {}

/// What the debugger is being asked to do, as the command tab
/// understands it.
#[derive(Debug, Clone, Copy, PartialEq, Eq, Structural)]
pub enum Mode {
    /// Run freely.
    Running,
    /// Take a bounded number of steps.
    Stepping {
        /// How many steps remain.
        n: u16,
    },
    /// Stand still.
    Paused,
}

/// The timeline tab of the tabbed pane.
#[derive(Debug, Clone, Copy, PartialEq, Eq, Structural)]
pub struct TimelineView;

/// A command the user issued, for the debugger controller to act on.
#[derive(Debug, PartialEq, Eq, Clone)]
pub enum CommandEvent {
    /// Load a new program from a path.
    Load {
        /// The path to load.
        path: Vec<u8>,
    },
    /// Take a number of steps.
    Step {
        /// How many steps.
        n: u16,
    },
    /// Run until a breakpoint or the end.
    Run,
    /// Pause execution.
    Pause,
    /// Toggle a breakpoint.
    Breakpoint {
        /// Where to toggle it.
        pos: Position,
    },
    /// Leave the debugger.
    Quit,
    /// The key was meant for the program's console prompt.
    PassToTerminal,
}

/// The debugger command line: an editable input under a cursor, and
/// the output area of the last command.
pub struct CommandsView {
    /// What the last command printed.
    pub output: Vec<u8>,
    /// The command being typed.
    pub input_contents: Vec<u8>,
    /// Where the editing cursor stands in the input.
    pub input_cursor: u16,
}

impl CommandsView {
    /// The cursor stays on the input, and the input stays short
    /// enough to edit with a 16-bit cursor.
    pub open spec fn wf(&self) -> bool {
        self.input_cursor as int <= self.input_contents@.len() < 0xFF00
    }

    /// A command line showing the help text.
    pub fn new() -> (r: CommandsView)
        ensures
            r.wf(),
            r.input_contents@ == Seq::<u8>::empty(),
            r.input_cursor == 0,
    {
        CommandsView { output: help_text(), input_contents: Vec::new(), input_cursor: 0 }
    }

    /// Tokenizes and parses the line being typed, without running
    /// it: `Ok(None)` for an empty line, the command it names, or
    /// what is wrong with it.
    pub fn parse_command(&self) -> (r: Result<Option<Command>, crate::commands::CommandError>)
        ensures
            parse_of(self.input_contents@, r),
    {
        let tokens = tokenize(self.input_contents.as_slice());
        proof {
            crate::commands::lemma_split_words_nonempty(self.input_contents@);
            assert(tokens@.map(|i: int, w: Vec<u8>| w@).len() >= 1);
            assert(tokens@.map(|i: int, w: Vec<u8>| w@) == crate::commands::split_words(
                self.input_contents@,
            ));
        }
        parse_tokens(tokens)
    }

    /// Handles one key press: arrows, backspace and typing edit the
    /// input; enter parses it and either issues a command event,
    /// swallows a command the view handles itself, or reports the
    /// mistake in the output area.
    pub fn on_key_event(&mut self, key: Key) -> (r: Option<CommandEvent>)
        requires
            old(self).wf(),
        ensures
            final(self).wf(),
            key_outcome(*old(self), *final(self), key, r),
    {
        match key {
            Key::Left => {
                if self.input_cursor > 0 {
                    self.input_cursor = self.input_cursor - 1;
                }
                None
            },
            Key::Right => {
                if (self.input_cursor as usize) < self.input_contents.len() {
                    self.input_cursor = self.input_cursor + 1;
                }
                None
            },
            Key::Backspace => {
                if self.input_cursor == 0 {
                    return None;
                }
                self.input_contents.remove(self.input_cursor as usize - 1);
                self.input_cursor = self.input_cursor - 1;
                None
            },
            Key::Char(c) => {
                // a line too long to edit under a 16-bit cursor stays
                // as it is
                if self.input_contents.len() + 1 < 0xFF00 {
                    self.input_contents.insert(self.input_cursor as usize, c);
                    self.input_cursor = self.input_cursor + 1;
                }
                None
            },
            Key::Enter => {
                proof {
                    crate::commands::lemma_keywords_distinct();
                }
                match self.parse_command() {
                    Ok(None) => None,
                    Ok(Some(command)) => {
                        self.input_contents.clear();
                        self.input_cursor = 0;
                        match command {
                            Command::Help => {
                                self.output = help_text();
                                None
                            },
                            Command::Load { path } => {
                                self.output = message_loading();
                                Some(CommandEvent::Load { path })
                            },
                            Command::Step { n } => {
                                self.output = if n == 1 {
                                    message_step_one()
                                } else {
                                    message_step_many()
                                };
                                Some(CommandEvent::Step { n })
                            },
                            Command::Run => {
                                self.output = message_running();
                                Some(CommandEvent::Run)
                            },
                            Command::Pause => {
                                self.output = message_paused();
                                Some(CommandEvent::Pause)
                            },
                            Command::Breakpoint { pos } => {
                                self.output = message_breakpoint();
                                Some(CommandEvent::Breakpoint { pos })
                            },
                            Command::Quit => Some(CommandEvent::Quit),
                        }
                    },
                    Err(_error) => {
                        self.output = message_error();
                        None
                    },
                }
            },
            _ => None,
        }
    }
}

/// How one key press must change the command line: what the editing
/// keys do to the input and the cursor, and what pressing enter
/// leaves behind.
pub open spec fn key_outcome(
    pre: CommandsView,
    post: CommandsView,
    key: Key,
    r: Option<CommandEvent>,
) -> bool {
    &&& (key is Left ==> r == None::<CommandEvent> && post.input_contents == pre.input_contents
        && post.output == pre.output && post.input_cursor as int == (if pre.input_cursor == 0 {
        0int
    } else {
        pre.input_cursor - 1
    }))
    &&& (key is Right ==> r == None::<CommandEvent> && post.input_contents == pre.input_contents
        && post.output == pre.output && post.input_cursor as int == (if pre.input_cursor as int
        == pre.input_contents@.len() {
        pre.input_cursor as int
    } else {
        pre.input_cursor + 1
    }))
    &&& (key is Backspace ==> r == None::<CommandEvent> && post.output == pre.output && (
    if pre.input_cursor == 0 {
        post.input_contents == pre.input_contents && post.input_cursor == pre.input_cursor
    } else {
        post.input_contents@ == pre.input_contents@.remove(pre.input_cursor - 1)
            && post.input_cursor as int == pre.input_cursor - 1
    }))
    &&& (key is Char && pre.input_contents@.len() + 1 < 0xFF00 ==> r == None::<CommandEvent>
        && post.output == pre.output && post.input_contents@ == pre.input_contents@.insert(
        pre.input_cursor as int,
        key->Char_0,
    ) && post.input_cursor as int == pre.input_cursor + 1)
    &&& (key is Char && pre.input_contents@.len() + 1 >= 0xFF00 ==> r == None::<CommandEvent>
        && post.input_contents == pre.input_contents && post.input_cursor == pre.input_cursor
        && post.output == pre.output)
    &&& ((key is Tab || key is BackTab || key is Delete || key is Other) ==> r
        == None::<CommandEvent> && post.input_contents == pre.input_contents && post.input_cursor
        == pre.input_cursor && post.output == pre.output)
    &&& (key is Enter ==> enter_outcome(
        pre.input_contents@,
        pre.input_cursor as int,
        pre.output@,
        post.input_contents@,
        post.input_cursor as int,
        post.output@,
        r,
    ))
}

/// The bytes every rejection message begins with.
pub open spec fn error_text() -> Seq<u8> {
    seq![101u8, 114u8, 114u8, 111u8, 114u8, 58u8]
}

/// What pressing enter with `input` typed leaves behind: a parsed
/// command empties the line and raises its event (help being handled
/// in place); a rejected line raises no event, stays in place, and
/// puts the rejection in the output area; an empty line changes
/// nothing.
pub open spec fn enter_outcome(
    input: Seq<u8>,
    cursor0: int,
    out0: Seq<u8>,
    input2: Seq<u8>,
    cursor2: int,
    out2: Seq<u8>,
    r: Option<CommandEvent>,
) -> bool {
    let ws = crate::commands::split_words(input);
    &&& (ws[0] == Seq::<u8>::empty() ==> r == None::<CommandEvent> && input2 == input && cursor2
        == cursor0 && out2 == out0)
    &&& (crate::commands::line_rejected(ws) ==> r == None::<CommandEvent> && input2 == input
        && cursor2 == cursor0 && out2 == error_text())
    &&& (crate::commands::word_is(ws[0], crate::commands::kw_h(), crate::commands::kw_help())
        && ws.len() == 1 ==> r == None::<CommandEvent> && input2 == Seq::<u8>::empty() && cursor2
        == 0)
    &&& (crate::commands::word_is(ws[0], crate::commands::kw_r(), crate::commands::kw_run())
        && ws.len() == 1 ==> r == Some(CommandEvent::Run) && input2 == Seq::<u8>::empty()
        && cursor2 == 0)
    &&& (crate::commands::word_is(ws[0], crate::commands::kw_p(), crate::commands::kw_pause())
        && ws.len() == 1 ==> r == Some(CommandEvent::Pause) && input2 == Seq::<u8>::empty()
        && cursor2 == 0)
    &&& (crate::commands::word_is(ws[0], crate::commands::kw_q(), crate::commands::kw_quit())
        && ws.len() == 1 ==> r == Some(CommandEvent::Quit) && input2 == Seq::<u8>::empty()
        && cursor2 == 0)
    &&& (crate::commands::word_is(ws[0], crate::commands::kw_s(), crate::commands::kw_step())
        && ws.len() == 1 ==> r == Some(CommandEvent::Step { n: 1u16 }) && input2 == Seq::<
        u8,
    >::empty() && cursor2 == 0)
    &&& (crate::commands::word_is(ws[0], crate::commands::kw_s(), crate::commands::kw_step())
        && ws.len() == 2 && crate::commands::count_ok(ws[1]) ==> r == Some(
        CommandEvent::Step { n: crate::commands::dec_value(ws[1]) as u16 },
    ) && input2 == Seq::<u8>::empty() && cursor2 == 0)
    &&& (crate::commands::word_is(ws[0], crate::commands::kw_b(), crate::commands::kw_breakpoint())
        && ws.len() == 3 && crate::commands::coord_ok(ws[1]) && crate::commands::coord_ok(ws[2])
        ==> r == Some(
        CommandEvent::Breakpoint {
            pos: Position {
                x: crate::commands::dec_value(ws[1]) as u8,
                y: crate::commands::dec_value(ws[2]) as u8,
            },
        },
    ) && input2 == Seq::<u8>::empty() && cursor2 == 0)
    &&& (crate::commands::word_is(ws[0], crate::commands::kw_l(), crate::commands::kw_load())
        && ws.len() == 2 ==> (r matches Some(CommandEvent::Load { path }) && path@ == ws[1])
        && input2 == Seq::<u8>::empty() && cursor2 == 0)
}

/// The help text of the command line.
fn help_text() -> (r: Vec<u8>) {
    let mut v: Vec<u8> = Vec::new();
    append_bytes(&mut v, &[115, 116, 101, 112, 32, 115, 32, 91, 110, 93, 10]);
    append_bytes(&mut v, &[114, 117, 110, 32, 114, 10]);
    append_bytes(&mut v, &[112, 97, 117, 115, 101, 32, 112, 10]);
    append_bytes(&mut v, &[98, 114, 101, 97, 107, 32, 98, 32, 120, 32, 121, 10]);
    append_bytes(&mut v, &[113, 117, 105, 116, 32, 113]);
    v
}

/// Appends literal bytes to a message.
fn append_bytes(v: &mut Vec<u8>, bytes: &[u8])
    ensures
        final(v)@ == old(v)@ + bytes@,
{
    let mut i: usize = 0;
    while i < bytes.len()
        invariant
            0 <= i <= bytes@.len(),
            v@ == old(v)@ + bytes@.take(i as int),
        decreases bytes@.len() - i,
    {
        v.push(bytes[i]);
        proof {
            assert(v@ =~= old(v)@ + bytes@.take(i + 1));
        }
        i = i + 1;
    }
    proof {
        assert(bytes@.take(bytes@.len() as int) =~= bytes@);
    }
}

// The fixed messages of the command tab.
fn message_loading() -> (r: Vec<u8>) {
    let mut v: Vec<u8> = Vec::new();
    append_bytes(&mut v, &[76, 111, 97, 100, 105, 110, 103]);
    v
}

fn message_step_one() -> (r: Vec<u8>) {
    let mut v: Vec<u8> = Vec::new();
    append_bytes(
        &mut v,
        &[84, 97, 107, 105, 110, 103, 32, 49, 32, 115, 116, 101, 112, 115],
    );
    v
}

fn message_step_many() -> (r: Vec<u8>) {
    let mut v: Vec<u8> = Vec::new();
    append_bytes(&mut v, &[84, 97, 107, 105, 110, 103, 32, 49, 32, 115, 116, 101, 112]);
    v
}

fn message_running() -> (r: Vec<u8>) {
    let mut v: Vec<u8> = Vec::new();
    append_bytes(&mut v, &[82, 117, 110, 110, 105, 110, 103, 46, 46, 46]);
    v
}

fn message_paused() -> (r: Vec<u8>) {
    let mut v: Vec<u8> = Vec::new();
    append_bytes(&mut v, &[80, 97, 117, 115, 101, 100]);
    v
}

fn message_breakpoint() -> (r: Vec<u8>) {
    let mut v: Vec<u8> = Vec::new();
    append_bytes(
        &mut v,
        &[83, 101, 116, 116, 105, 110, 103, 32, 98, 114, 101, 97, 107, 112, 111, 105, 110, 116],
    );
    v
}

fn message_error() -> (r: Vec<u8>)
    ensures
        r@ == error_text(),
{
    let mut v: Vec<u8> = Vec::new();
    append_bytes(&mut v, &[101, 114, 114, 111, 114, 58]);
    proof {
        assert(v@ =~= error_text());
    }
    v
}

/// The tabbed pane: which tab is focused, the per-tab state, and the
/// redraw flag.
pub struct Tabs {
    /// Which tab holds the focus.
    pub focused: FocusedTab,
    /// Whether the user has ever tabbed forwards.
    pub has_tabbed: bool,
    /// Whether the user has ever tabbed backwards.
    pub has_back_tabbed: bool,
    /// The console tab's state.
    pub console: ConsoleView,
    /// The command tab's state.
    pub commands: CommandsView,
    /// The timeline tab's state.
    pub timeline: TimelineView,
    /// The position the pane last centred on.
    pub position: Position,
    /// Whether the pane needs redrawing.
    pub dirty: bool,
}

/// The next tab over, forwards.
pub open spec fn next_tab(t: FocusedTab) -> FocusedTab {
    match t {
        FocusedTab::Console => FocusedTab::Commands,
        FocusedTab::Commands => FocusedTab::Timeline,
        FocusedTab::Timeline => FocusedTab::Console,
    }
}

/// The next tab over, backwards.
pub open spec fn previous_tab(t: FocusedTab) -> FocusedTab {
    match t {
        FocusedTab::Console => FocusedTab::Timeline,
        FocusedTab::Commands => FocusedTab::Console,
        FocusedTab::Timeline => FocusedTab::Commands,
    }
}

impl Tabs {
    /// A pane focused on the command tab, nothing tabbed yet.
    pub fn new() -> (r: Tabs)
        ensures
            r.focused == FocusedTab::Commands,
            !r.has_tabbed,
            !r.has_back_tabbed,
            !r.dirty,
            r.commands.wf(),
    {
        Tabs {
            focused: FocusedTab::Commands,
            has_tabbed: false,
            has_back_tabbed: false,
            console: ConsoleView {  },
            commands: CommandsView::new(),
            timeline: TimelineView,
            position: Position { x: 0, y: 0 },
            dirty: false,
        }
    }

    /// Moves the focus one tab forwards.
    fn focus_next(&mut self)
        ensures
            final(self).focused == next_tab(old(self).focused),
            final(self).has_tabbed,
            final(self).has_back_tabbed == old(self).has_back_tabbed,
            final(self).dirty,
            final(self).commands == old(self).commands,
    {
        self.has_tabbed = true;
        self.focused = match self.focused {
            FocusedTab::Console => FocusedTab::Commands,
            FocusedTab::Commands => FocusedTab::Timeline,
            FocusedTab::Timeline => FocusedTab::Console,
        };
        self.dirty = true;
    }

    /// Moves the focus one tab backwards.
    fn focus_previous(&mut self)
        ensures
            final(self).focused == previous_tab(old(self).focused),
            final(self).has_back_tabbed,
            final(self).has_tabbed == old(self).has_tabbed,
            final(self).dirty,
            final(self).commands == old(self).commands,
    {
        self.has_back_tabbed = true;
        self.focused = match self.focused {
            FocusedTab::Console => FocusedTab::Timeline,
            FocusedTab::Commands => FocusedTab::Console,
            FocusedTab::Timeline => FocusedTab::Commands,
        };
        self.dirty = true;
    }

    /// Whether the user has tabbed both forwards and backwards; the
    /// hint stops showing then.
    pub fn has_tabbed_both_ways(&self) -> (r: bool)
        ensures
            r == (self.has_back_tabbed && self.has_tabbed),
    {
        self.has_back_tabbed && self.has_tabbed
    }

    /// Routes one key press: tab keys move the focus, anything else
    /// goes to the focused tab.
    pub fn on_key_event(&mut self, key: Key) -> (r: Option<CommandEvent>)
        requires
            old(self).commands.wf(),
        ensures
            final(self).commands.wf(),
            key is BackTab ==> final(self).focused == previous_tab(old(self).focused) && r
                == None::<CommandEvent>,
            key is Tab ==> final(self).focused == next_tab(old(self).focused) && r
                == None::<CommandEvent>,
            !(key is Tab) && !(key is BackTab) ==> final(self).focused == old(self).focused,
            !(key is Tab) && !(key is BackTab) && old(self).focused == FocusedTab::Console ==> r
                == Some(CommandEvent::PassToTerminal) && final(self).dirty,
            !(key is Tab) && !(key is BackTab) && old(self).focused == FocusedTab::Timeline ==> r
                == None::<CommandEvent> && final(self).commands == old(self).commands,
            !(key is Tab) && !(key is BackTab) && old(self).focused == FocusedTab::Commands
                ==> final(self).dirty && key_outcome(
                old(self).commands,
                final(self).commands,
                key,
                r,
            ) && final(self).console == old(self).console && final(self).timeline == old(self).timeline && final(self).has_tabbed == old(self).has_tabbed && final(self).has_back_tabbed == old(self).has_back_tabbed,
    {
        match key {
            Key::BackTab => {
                self.focus_previous();
                None
            },
            Key::Tab => {
                self.focus_next();
                None
            },
            _ => {
                match self.focused {
                    FocusedTab::Console => {
                        self.dirty = true;
                        Some(CommandEvent::PassToTerminal)
                    },
                    FocusedTab::Commands => {
                        self.dirty = true;
                        self.commands.on_key_event(key)
                    },
                    FocusedTab::Timeline => None,
                }
            },
        }
    }

    /// A mouse press on the tab heading band moves the focus to the
    /// tab under it.
    pub fn on_mouse_event(&mut self, column: u16, row: u16, height: u16)
        requires
            height >= crate::layout::NON_PROGRAM_HEIGHT,
        ensures
            ({
                let rows = height - crate::layout::NON_PROGRAM_HEIGHT;
                let on_band = rows + 2 <= row <= rows + 4;
                &&& (on_band && 20 <= column <= 28 ==> final(self).focused == FocusedTab::Console)
                &&& (on_band && 30 <= column <= 39 ==> final(self).focused == FocusedTab::Commands)
                &&& (on_band && 41 <= column <= 50 ==> final(self).focused == FocusedTab::Timeline)
                &&& (!(on_band && (20 <= column <= 28 || 30 <= column <= 39 || 41 <= column <= 50))
                    ==> final(self).focused == old(self).focused && final(self).dirty == old(self).dirty)
                &&& final(self).commands == old(self).commands
            }),
    {
        let rows = crate::layout::program_rows(height);
        if row >= rows + 2 && row <= rows + 4 {
            if column >= 20 && column <= 28 {
                if self.focused != FocusedTab::Console {
                    self.focused = FocusedTab::Console;
                    self.dirty = true;
                }
            } else if column >= 30 && column <= 39 {
                if self.focused != FocusedTab::Commands {
                    self.focused = FocusedTab::Commands;
                    self.dirty = true;
                }
            } else if column >= 41 && column <= 50 {
                if self.focused != FocusedTab::Timeline {
                    self.focused = FocusedTab::Timeline;
                    self.dirty = true;
                }
            }
        }
    }

    /// Where the screen cursor belongs for the focused tab, as a
    /// window column and a tab row.
    pub fn move_to_cursor(&self, term: &VirtualTerminal, width: u16) -> (r: (WindowX, TabY))
        requires
            term.wf(),
            term.spec_display().len() < 0xFFFF,
            term.spec_uncommitted().len() < 0xFFFF,
            width >= 16,
            self.commands.wf(),
        ensures
            self.focused == FocusedTab::Commands ==> r == (
                WindowX((4 + self.commands.input_cursor) as u16),
                TabY(6),
            ),
            self.focused == FocusedTab::Timeline ==> r == (WindowX(1), TabY(5)),
    {
        match self.focused {
            FocusedTab::Console => {
                proof {
                    crate::terminal::lemma_newline_positions_sorted(term.spec_display());
                }
                let num_lines = term.num_lines();
                let last_line = num_lines - 1;
                let y = if num_lines < 8 {
                    TabY((num_lines - 1) as u16)
                } else {
                    TabY(6)
                };
                match term.get_line(last_line) {
                    Some(line) => {
                        let llen = line.len();
                        let cur = term.cursor();
                        proof {
                            assert(llen <= term.spec_display().len());
                            assert(cur <= term.spec_uncommitted().len());
                        }
                        let cols = crate::layout::program_cols(width);
                        let max_w = cols - 2;
                        let here = ((llen + cur) % 0x10000) as u16;
                        if here > max_w {
                            (WindowX(max_w), y)
                        } else {
                            (WindowX(1 + here), y)
                        }
                    },
                    None => (WindowX(1), TabY(0)),
                }
            },
            FocusedTab::Commands => (WindowX(4 + self.commands.input_cursor), TabY(6)),
            FocusedTab::Timeline => (WindowX(1), TabY(5)),
        }
    }
}

} // verus!
