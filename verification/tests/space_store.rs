//! The program space: dense and sparse writes, wrap-around movement,
//! and loading from raw bytes.

use bft::cursor::{Direction, Position};
use bft::space::Space;

#[test]
fn test_insert_origin() {
    let mut space = Space::with_size(100, 100);
    space.set_cell(Position { x: 0, y: 0 }, 2);
    assert_eq!(space.get_cell(Position { x: 0, y: 0 }), 2);
}

#[test]
fn test_insert_unit_square() {
    let mut space = Space::with_size(100, 100);
    // insert 0 at 0,0
    let pos = Position { x: 0, y: 0 };
    space.set_cell(pos, 0);
    assert_eq!(space.get_cell(pos), 0);
    // insert 1 at 1,0
    let pos = Position { x: 1, y: 0 };
    space.set_cell(pos, 1);
    assert_eq!(space.get_cell(pos), 1);
    // insert 2 at 1,1
    let pos = Position { x: 1, y: 1 };
    space.set_cell(pos, 2);
    assert_eq!(space.get_cell(pos), 2);
    // insert 3 at 0,1
    let pos = Position { x: 0, y: 1 };
    space.set_cell(pos, 3);
    assert_eq!(space.get_cell(pos), 3);
}

#[test]
fn test_insert_one_one() {
    let mut space = Space::with_size(2, 2);
    // insert 2 just beyond the dense extent
    let pos = Position { x: 2, y: 1 };
    space.set_cell(pos, 2);
    assert_eq!(space.get_cell(pos), 2);
}

#[test]
fn test_insert_outside() {
    let mut space = Space::with_size(10, 10);
    // insert 2 well beyond the dense extent
    let pos = Position { x: 20, y: 20 };
    space.set_cell(pos, 2);
    assert_eq!(space.get_cell(pos), 2);
}

#[test]
fn unwritten_cells_read_as_default() {
    // everything outside the written extent reads as the space's
    // default byte
    let space = Space::new(b"ab\ncd");
    assert_eq!(space.get_cell(Position { x: 5, y: 0 }), b' ');
    assert_eq!(space.get_cell(Position { x: 0, y: 9 }), b' ');
    let mut sized = Space::with_size(4, 4);
    sized.set_cell(Position { x: 1, y: 1 }, 7);
    assert_eq!(sized.get_cell(Position { x: 3, y: 3 }), 0);
    assert_eq!(sized.get_cell(Position { x: 200, y: 200 }), 0);
}

#[test]
fn loading_splits_rows_and_pads() {
    let space = Space::new(b"a\nbb\nccc");
    assert_eq!(space.rows(), 3);
    assert_eq!(space.cols(), 3);
    assert_eq!(space.get_cell(Position { x: 0, y: 0 }), b'a');
    assert_eq!(space.get_cell(Position { x: 1, y: 0 }), b' ');
    assert_eq!(space.get_cell(Position { x: 1, y: 1 }), b'b');
    assert_eq!(space.get_cell(Position { x: 2, y: 2 }), b'c');
}

#[test]
fn left_from_origin_wraps_to_cols() {
    // moving left from (0, 0) lands on the column numbered cols
    // itself
    let space = Space::new(b"abc\ndef");
    assert_eq!(space.cols(), 3);
    let p = space.move_pos(Position { x: 0, y: 0 }, Direction::Left);
    assert_eq!(p, Position { x: 3, y: 0 });
    // and the next left step comes back into range
    let p2 = space.move_pos(p, Direction::Left);
    assert_eq!(p2, Position { x: 2, y: 0 });
}

#[test]
fn up_from_origin_wraps_to_rows() {
    let space = Space::new(b"abc\ndef");
    assert_eq!(space.rows(), 2);
    let p = space.move_pos(Position { x: 1, y: 0 }, Direction::Up);
    assert_eq!(p, Position { x: 1, y: 2 });
}

#[test]
fn right_and_down_wrap_to_zero() {
    let space = Space::new(b"abc\ndef");
    let p = space.move_pos(Position { x: 2, y: 1 }, Direction::Right);
    assert_eq!(p, Position { x: 0, y: 1 });
    let p = space.move_pos(Position { x: 2, y: 1 }, Direction::Down);
    assert_eq!(p, Position { x: 2, y: 0 });
}

#[test]
fn wrap_follows_the_grown_extent() {
    // wrap-around uses the current extent, not the original one
    let mut space = Space::new(b"ab");
    assert_eq!(space.cols(), 2);
    space.set_cell(Position { x: 9, y: 0 }, b'!');
    assert_eq!(space.cols(), 10);
    let p = space.move_pos(Position { x: 9, y: 0 }, Direction::Right);
    assert_eq!(p, Position { x: 0, y: 0 });
    let p = space.move_pos(Position { x: 8, y: 0 }, Direction::Right);
    assert_eq!(p, Position { x: 9, y: 0 });
}
