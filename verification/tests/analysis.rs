//! The path analyzer over concrete programs.

use bft::analyze::{analyze_counted, analyze_path, Directions, Modes, State};
use bft::cursor::{Direction, Mode, Position};
use bft::space::Space;

#[test]
fn test_state_masks() {
    let state = State::default();
    assert_eq!(state.directions(), Directions::Unvisited);
    assert_eq!(state.modes(), Modes::Unvisited);
    let state = state.update(Direction::Right, Mode::Normal);
    assert_eq!(state.directions(), Directions::Horizontal);
    assert_eq!(state.modes(), Modes::Normal);
}

#[test]
fn arrow_loop_is_fully_visited() {
    // every cell of the loop is visited in normal mode: the origin
    // from both horizontal sides, the others along the loop
    let space = Space::new(b"v<\n>^");
    let analysis = analyze_path(&space);
    for (x, y) in [(0u8, 0u8), (1, 0), (0, 1), (1, 1)] {
        let state = State(analysis.cell_states.get_cell(Position { x, y }));
        assert_eq!(state.modes(), Modes::Normal);
    }
    let origin = State(analysis.cell_states.get_cell(Position { x: 0, y: 0 }));
    assert_eq!(origin.directions(), Directions::Horizontal);
    let below = State(analysis.cell_states.get_cell(Position { x: 0, y: 1 }));
    assert_eq!(below.directions(), Directions::Vertical);
    let corner = State(analysis.cell_states.get_cell(Position { x: 1, y: 1 }));
    assert_eq!(corner.directions(), Directions::Horizontal);
    let right_top = State(analysis.cell_states.get_cell(Position { x: 1, y: 0 }));
    assert_eq!(right_top.directions(), Directions::Vertical);
}

#[test]
fn quotes_show_as_quoted() {
    let space = Space::new(b"\"a\"@");
    let analysis = analyze_path(&space);
    let quote_cell = State(analysis.cell_states.get_cell(Position { x: 0, y: 0 }));
    assert_eq!(quote_cell.modes(), Modes::Quoted);
    let literal = State(analysis.cell_states.get_cell(Position { x: 1, y: 0 }));
    assert_eq!(literal.modes(), Modes::Quoted);
    let terminal = State(analysis.cell_states.get_cell(Position { x: 3, y: 0 }));
    assert_eq!(terminal.modes(), Modes::Normal);
}

#[test]
fn unreached_cells_stay_blank() {
    let space = Space::new(b">v@\n@<@");
    let analysis = analyze_path(&space);
    let far = State(analysis.cell_states.get_cell(Position { x: 2, y: 0 }));
    assert_eq!(far.modes(), Modes::Unvisited);
}

#[test]
fn update_count_stays_under_eight_per_cell() {
    // the analyzer does at most eight updates per cell of the wrap
    // extent
    let space = Space::new(b"v<\n>^");
    let (_states, updates) = analyze_counted(&space);
    assert!(updates <= 8 * 3 * 3);
    let space = Space::new(b"?.@\n#?&");
    let (_states, updates) = analyze_counted(&space);
    assert!(updates <= 8 * 4 * 3);
}

#[test]
fn blank_glyphs_follow_directions() {
    assert_eq!(Directions::Unvisited.blank_char(), ' ');
    assert_eq!(Directions::Horizontal.blank_char(), '─');
    assert_eq!(Directions::Vertical.blank_char(), '│');
    assert_eq!(Directions::Both.blank_char(), '┼');
}

#[test]
fn quote_cells_merge_their_arrivals() {
    // a one-row string that wraps back onto its own opening quote:
    // the quote cell is entered rightwards in both modes, but both
    // arrivals share the quoted visit bit, so only the first
    // arrival's continuation is explored and the literal cell never
    // shows a normal-mode mark
    let space = Space::new(b"\"a");
    let analysis = analyze_path(&space);
    let opening = State(analysis.cell_states.get_cell(Position { x: 0, y: 0 }));
    assert_eq!(opening.modes(), Modes::Quoted);
    let literal = State(analysis.cell_states.get_cell(Position { x: 1, y: 0 }));
    assert_eq!(literal.modes(), Modes::Quoted);
}
