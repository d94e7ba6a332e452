//! The debugger controller: tick scheduling, breakpoints, and the
//! tabbed command surface.

use bft::commands::Key;
use bft::cursor::Position;
use bft::debugger::Debugger;
use bft::layout::{program_cols, program_rows, stack_rows_parity_even, stack_slots};
use bft::tabs::{CommandEvent, FocusedTab, Tabs};
use bft::window::{window_coord, WindowX, WindowY};

#[test]
fn paused_debugger_never_steps() {
    let mut d = Debugger::new(b"1@".to_vec());
    for _ in 0..10 {
        assert!(!d.tick());
    }
    assert_eq!(d.current_position(), Position { x: 0, y: 0 });
    assert_eq!(d.stack_height(), 0);
}

#[test]
fn stepping_budget_runs_out() {
    // two queued steps, at two ticks per step: the third tick fires,
    // the sixth fires, and nothing after
    let mut d = Debugger::new(b"123@".to_vec());
    d.add_steps(2);
    let mut fired = 0;
    for _ in 0..12 {
        if d.tick() {
            fired += 1;
        }
    }
    assert_eq!(fired, 2);
    assert_eq!(d.stack_height(), 2);
    assert_eq!(d.current_position(), Position { x: 2, y: 0 });
}

#[test]
fn running_halts_on_the_terminator() {
    let mut d = Debugger::new(b"12+@".to_vec());
    d.start_running();
    for _ in 0..30 {
        d.tick();
    }
    assert_eq!(d.current_position(), Position { x: 3, y: 0 });
    assert_eq!(d.stack_height(), 1);
    // once halted, neither running nor stepping revives it
    d.start_running();
    for _ in 0..10 {
        assert!(!d.tick());
    }
}

#[test]
fn breakpoints_pause_the_run() {
    let mut d = Debugger::new(b"1234@".to_vec());
    d.toggle_breakpoint(Position { x: 2, y: 0 });
    d.start_running();
    for _ in 0..30 {
        d.tick();
    }
    // the run paused on the breakpoint without executing its cell
    assert_eq!(d.current_position(), Position { x: 2, y: 0 });
    assert_eq!(d.stack_height(), 2);
}

#[test]
fn toggling_a_breakpoint_twice_is_a_no_op() {
    // the breakpoint set ends exactly where it began
    let mut d = Debugger::new(b"1234@".to_vec());
    d.toggle_breakpoint(Position { x: 2, y: 0 });
    d.toggle_breakpoint(Position { x: 2, y: 0 });
    d.start_running();
    for _ in 0..30 {
        d.tick();
    }
    // no pause happened: the program ran to the terminator
    assert_eq!(d.current_position(), Position { x: 4, y: 0 });
}

#[test]
fn typing_into_the_terminal_feeds_the_program() {
    let mut d = Debugger::new(b"&.@".to_vec());
    d.start_running();
    for _ in 0..9 {
        d.tick();
    }
    // still waiting on input
    assert_eq!(d.current_position(), Position { x: 0, y: 0 });
    let term = d.io_mut();
    term.input_key(b'4');
    term.input_key(b'2');
    term.commit();
    for _ in 0..30 {
        d.tick();
    }
    assert_eq!(d.io().display().as_slice(), b"42\n42 ");
}

#[test]
fn tabs_rotate_and_route() {
    let mut tabs = Tabs::new();
    assert_eq!(tabs.focused, FocusedTab::Commands);
    assert!(!tabs.has_tabbed_both_ways());
    tabs.on_key_event(Key::Tab);
    assert_eq!(tabs.focused, FocusedTab::Timeline);
    tabs.on_key_event(Key::BackTab);
    assert_eq!(tabs.focused, FocusedTab::Commands);
    assert!(tabs.has_tabbed_both_ways());
    tabs.on_key_event(Key::BackTab);
    assert_eq!(tabs.focused, FocusedTab::Console);
    assert_eq!(tabs.on_key_event(Key::Char(b'x')), Some(CommandEvent::PassToTerminal));
}

#[test]
fn command_line_emits_events() {
    let mut tabs = Tabs::new();
    for b in b"s 3".iter() {
        assert_eq!(tabs.on_key_event(Key::Char(*b)), None);
    }
    assert_eq!(tabs.on_key_event(Key::Enter), Some(CommandEvent::Step { n: 3 }));
    assert_eq!(tabs.commands.input_contents, Vec::<u8>::new());
    for b in b"b 1 2".iter() {
        tabs.on_key_event(Key::Char(*b));
    }
    assert_eq!(
        tabs.on_key_event(Key::Enter),
        Some(CommandEvent::Breakpoint { pos: Position { x: 1, y: 2 } })
    );
    for b in b"nonsense".iter() {
        tabs.on_key_event(Key::Char(*b));
    }
    assert_eq!(tabs.on_key_event(Key::Enter), None);
    assert_eq!(&tabs.commands.output[0..6], b"error:");
}

#[test]
fn command_line_edits_like_a_prompt() {
    let mut tabs = Tabs::new();
    tabs.on_key_event(Key::Char(b'r'));
    tabs.on_key_event(Key::Char(b'n'));
    tabs.on_key_event(Key::Left);
    tabs.on_key_event(Key::Char(b'u'));
    assert_eq!(tabs.commands.input_contents, b"run".to_vec());
    tabs.on_key_event(Key::Backspace);
    tabs.on_key_event(Key::Char(b'u'));
    assert_eq!(tabs.commands.input_contents, b"run".to_vec());
    assert_eq!(tabs.on_key_event(Key::Enter), Some(CommandEvent::Run));
}

#[test]
fn mouse_clicks_pick_tabs() {
    let mut tabs = Tabs::new();
    let height = 40u16;
    let band = (height - 12) + 2;
    tabs.on_mouse_event(25, band, height);
    assert_eq!(tabs.focused, FocusedTab::Console);
    tabs.on_mouse_event(45, band, height);
    assert_eq!(tabs.focused, FocusedTab::Timeline);
    tabs.on_mouse_event(35, band, height);
    assert_eq!(tabs.focused, FocusedTab::Commands);
    // a click off the band changes nothing
    tabs.on_mouse_event(35, 1, height);
    assert_eq!(tabs.focused, FocusedTab::Commands);
}

#[test]
fn layout_splits_the_window() {
    assert_eq!(program_cols(80), 70);
    assert_eq!(program_rows(40), 28);
    assert!(stack_rows_parity_even(40));
    assert_eq!(stack_slots(40), 12);
    assert_eq!(stack_slots(41), 13);
    assert_eq!(window_coord(3, 4), (WindowX(3), WindowY(4)));
}
