//! The virtual terminal and the vector program: lines, the editable
//! prompt, and committed input.

use bft::commands::Key;
use bft::cursor::{Direction, Position};
use bft::io::IO;
use bft::program::{Program, VecProgram};
use bft::terminal::VirtualTerminal;

#[test]
fn test_vec_program_get_line() {
    let program = "a\nbb\nccc\ndddd\n".to_owned().into_bytes();
    let program = VecProgram::from_bytes(program);
    assert_eq!(Some(b"a".to_vec()), program.get_line(0));
    assert_eq!(Some(b"bb".to_vec()), program.get_line(1));
    assert_eq!(Some(b"ccc".to_vec()), program.get_line(2));
    assert_eq!(Some(b"dddd".to_vec()), program.get_line(3));
    for y in 4..255 {
        assert_eq!(None, program.get_line(y));
    }
}

#[test]
fn test_vec_program_get() {
    let program = "a\nbb\nccc\ndddd\n".to_owned().into_bytes();
    let program = VecProgram::from_bytes(program);
    let rows = [(0u8, b'a', 1u8), (1, b'b', 2), (2, b'c', 3), (3, b'd', 4)];
    // main rows
    for (y, cell, n) in rows.into_iter() {
        for x in 0..n {
            assert_eq!(cell, program.get(Position { x, y }));
        }
        for x in n..255 {
            assert_eq!(b' ', program.get(Position { x, y }));
        }
    }
    // rest
    for y in 4..255 {
        for x in 0..255 {
            assert_eq!(b' ', program.get(Position { x, y }));
        }
    }
}

#[test]
fn test_typing() {
    let mut t = VirtualTerminal::new();
    t.input_key(b'a');
    t.input_key(b'b');
    t.input_key(b'c');
    t.input_key(b'd');
    assert_eq!(t.uncommitted().as_slice(), b"abcd");
    assert_eq!(t.cursor(), 4);
}

#[test]
fn test_lines() {
    let mut t = VirtualTerminal::new();
    t.write(b"aaaaaaaa");
    assert_eq!(t.num_lines(), 1);
    assert_eq!(t.get_line(0), Some(b"aaaaaaaa".to_vec()));
    t.write(b"\n");
    assert_eq!(t.num_lines(), 2);
    assert_eq!(t.get_line(0), Some(b"aaaaaaaa".to_vec()));
    assert_eq!(t.get_line(1), Some(b"".to_vec()));
    t.write(b"asdf\nasdf\nasdf\na");
    assert_eq!(t.num_lines(), 5);
    assert_eq!(t.get_line(0), Some(b"aaaaaaaa".to_vec()));
    assert_eq!(t.get_line(1), Some(b"asdf".to_vec()));
    assert_eq!(t.get_line(2), Some(b"asdf".to_vec()));
    assert_eq!(t.get_line(3), Some(b"asdf".to_vec()));
    assert_eq!(t.get_line(4), Some(b"a".to_vec()));
}

#[test]
fn test_prompt() {
    let mut t = VirtualTerminal::new();
    // Write prompt
    t.write(b"Input number!");
    assert_eq!(t.display().as_slice(), b"Input number!");
    assert_eq!(t.num_lines(), 1);
    assert_eq!(t.get_line(0), Some(b"Input number!".to_vec()));
    // Input response
    t.input_key(b'1');
    t.input_key(b'2');
    t.commit();
    assert_eq!(t.display().as_slice(), b"Input number!12\n");
    assert_eq!(t.num_lines(), 2);
    assert_eq!(t.get_line(0), Some(b"Input number!12".to_vec()));
    assert_eq!(t.get_line(1), Some(b"".to_vec()));
    // Check input is available
    assert_eq!(t.available_input(), vec![b'1', b'2', b'\n']);
    // Read number from input
    let n = t.read_number();
    assert_eq!(n, Some(12));
}

#[test]
fn editing_moves_and_deletes() {
    // cursor movement, backspace and delete behave like a prompt
    let mut t = VirtualTerminal::new();
    t.input_key(b'a');
    t.input_key(b'c');
    t.left();
    t.input_key(b'b');
    assert_eq!(t.uncommitted().as_slice(), b"abc");
    assert_eq!(t.cursor(), 2);
    t.backspace();
    assert_eq!(t.uncommitted().as_slice(), b"ac");
    assert_eq!(t.cursor(), 1);
    t.left();
    t.delete();
    assert_eq!(t.uncommitted().as_slice(), b"c");
    assert_eq!(t.cursor(), 0);
    t.right();
    assert_eq!(t.cursor(), 1);
    t.right();
    assert_eq!(t.cursor(), 1);
}

#[test]
fn display_and_input_stay_consistent() {
    // the display holds writes and committed lines; the available
    // input holds exactly the committed bytes
    let mut t = VirtualTerminal::new();
    t.write(b"> ");
    t.input_key(b'h');
    t.input_key(b'i');
    assert_eq!(t.available_input(), Vec::<u8>::new());
    t.commit();
    assert_eq!(t.display().as_slice(), b"> hi\n");
    assert_eq!(t.available_input(), b"hi\n".to_vec());
    t.write(b"ok\n");
    assert_eq!(t.display().as_slice(), b"> hi\nok\n");
    assert_eq!(t.available_input(), b"hi\n".to_vec());
    assert!(t.dirty());
    assert!(!t.dirty());
}

#[test]
fn keys_drive_the_prompt() {
    let mut t = VirtualTerminal::new();
    t.on_key_event(Key::Char(b'o'));
    t.on_key_event(Key::Char(b'k'));
    t.on_key_event(Key::Left);
    t.on_key_event(Key::Delete);
    t.on_key_event(Key::Char(b'k'));
    t.on_key_event(Key::Enter);
    assert_eq!(t.display().as_slice(), b"ok\n");
    assert_eq!(t.available_input(), b"ok\n".to_vec());
    assert_eq!(t.uncommitted().len(), 0);
}

#[test]
fn vec_program_wraps_at_the_published_extent() {
    // the vector program wraps at the published 255-wide extent, so
    // one step right from the origin of a one-byte program lands on
    // column one
    let program = VecProgram::from_bytes(b"5".to_vec());
    let p = program.move_pos(Position { x: 0, y: 0 }, Direction::Right);
    assert_eq!(p, Position { x: 1, y: 0 });
    let p = program.move_pos(Position { x: 254, y: 0 }, Direction::Right);
    assert_eq!(p, Position { x: 0, y: 0 });
    let p = program.move_pos(Position { x: 0, y: 0 }, Direction::Left);
    assert_eq!(p, Position { x: 255, y: 0 });
}
