//! The befunge-93 runtime, stepped over concrete programs.

use bft::befunge93::{Direction, Position, Program, Runtime, Status};

const EMPTY_STACK: &[u8] = &[];

fn one_liner(line: &[u8]) -> Runtime {
    let program = Program::from_rows(vec![Vec::from(line)]);
    Runtime::from_program(program)
}

#[test]
fn test_test_initial_settings() {
    let runtime = one_liner(&[]);
    assert_eq!(Direction::Right, runtime.get_current_dir());
    assert_eq!(Position { x: 0, y: 0 }, runtime.get_current_pos());
    assert_eq!(EMPTY_STACK, runtime.get_stack().as_slice());
}

#[test]
fn test_test_push_num() {
    let cases: [(u8, u8); 10] = [
        (b'0', 0),
        (b'1', 1),
        (b'2', 2),
        (b'3', 3),
        (b'4', 4),
        (b'5', 5),
        (b'6', 6),
        (b'7', 7),
        (b'8', 8),
        (b'9', 9),
    ];
    for (opcode, number) in cases.iter() {
        let mut runtime = one_liner(&[*opcode, b' ']);

        let status = runtime.step();
        assert_eq!(Status::Completed, status);

        assert_eq!(Direction::Right, runtime.get_current_dir());
        assert_eq!(Position { x: 1, y: 0 }, runtime.get_current_pos());
        assert_eq!(&[*number], runtime.get_stack().as_slice());
    }
}

#[test]
fn test_test_left_arrow() {
    let mut runtime = one_liner(&[b' ', b'<']);

    assert_eq!(Direction::Right, runtime.get_current_dir());
    assert_eq!(Position { x: 0, y: 0 }, runtime.get_current_pos());
    assert_eq!(EMPTY_STACK, runtime.get_stack().as_slice());

    let status = runtime.step();
    assert_eq!(Status::Completed, status);

    assert_eq!(Direction::Right, runtime.get_current_dir());
    assert_eq!(Position { x: 1, y: 0 }, runtime.get_current_pos());
    assert_eq!(EMPTY_STACK, runtime.get_stack().as_slice());

    let status = runtime.step();
    assert_eq!(Status::Completed, status);

    assert_eq!(Direction::Left, runtime.get_current_dir());
    assert_eq!(Position { x: 0, y: 0 }, runtime.get_current_pos());
    assert_eq!(EMPTY_STACK, runtime.get_stack().as_slice());
}

#[test]
fn mod_test_arrow_loop() {
    let mut runtime = Runtime::from_program(Program::from_rows(vec![
        vec![b'v', b'<'],
        vec![b'>', b'^'],
    ]));

    assert_eq!(Direction::Right, runtime.get_current_dir());
    assert_eq!(Position { x: 0, y: 0 }, runtime.get_current_pos());
    assert_eq!(EMPTY_STACK, runtime.get_stack().as_slice());

    let status = runtime.step();
    assert_eq!(Status::Completed, status);

    assert_eq!(Direction::Down, runtime.get_current_dir());
    assert_eq!(Position { x: 0, y: 1 }, runtime.get_current_pos());

    let status = runtime.step();
    assert_eq!(Status::Completed, status);

    assert_eq!(Direction::Right, runtime.get_current_dir());
    assert_eq!(Position { x: 1, y: 1 }, runtime.get_current_pos());

    let status = runtime.step();
    assert_eq!(Status::Completed, status);

    assert_eq!(Direction::Up, runtime.get_current_dir());
    assert_eq!(Position { x: 1, y: 0 }, runtime.get_current_pos());

    let status = runtime.step();
    assert_eq!(Status::Completed, status);

    assert_eq!(Direction::Left, runtime.get_current_dir());
    assert_eq!(Position { x: 0, y: 0 }, runtime.get_current_pos());
    assert_eq!(EMPTY_STACK, runtime.get_stack().as_slice());
}

#[test]
fn mod_test_put() {
    let mut runtime = one_liner(&[b'7', b'9', b'0', b'p']);

    assert_eq!(Direction::Right, runtime.get_current_dir());
    assert_eq!(Position { x: 0, y: 0 }, runtime.get_current_pos());
    assert_eq!(EMPTY_STACK, runtime.get_stack().as_slice());

    let status = runtime.step();
    assert_eq!(Status::Completed, status);
    let status = runtime.step();
    assert_eq!(Status::Completed, status);
    let status = runtime.step();
    assert_eq!(Status::Completed, status);

    assert_eq!(&[7u8, 9, 0], runtime.get_stack().as_slice());

    let status = runtime.step();
    assert_eq!(Status::Completed, status);

    assert_eq!(Direction::Right, runtime.get_current_dir());
    assert_eq!(Position { x: 4, y: 0 }, runtime.get_current_pos());
    assert_eq!(EMPTY_STACK, runtime.get_stack().as_slice());

    assert_eq!(7, runtime.get_opcode(&Position { x: 9, y: 0 }));
}

#[test]
fn test_test_get() {
    let mut runtime = one_liner(&[b'7', b'0', b'g', b' ', b' ', b' ', b' ', b'4']);

    assert_eq!(Direction::Right, runtime.get_current_dir());
    assert_eq!(Position { x: 0, y: 0 }, runtime.get_current_pos());
    assert_eq!(EMPTY_STACK, runtime.get_stack().as_slice());

    let status = runtime.step();
    assert_eq!(Status::Completed, status);
    let status = runtime.step();
    assert_eq!(Status::Completed, status);

    assert_eq!(&[7u8, 0], runtime.get_stack().as_slice());

    let status = runtime.step();
    assert_eq!(Status::Completed, status);

    assert_eq!(Direction::Right, runtime.get_current_dir());
    assert_eq!(Position { x: 3, y: 0 }, runtime.get_current_pos());
    assert_eq!(&[b'4'], runtime.get_stack().as_slice());
}

#[test]
fn runtime_io_round_trip() {
    // "&.@" over this runtime: a digit in, its decimal and a space
    // out
    let mut runtime = one_liner(b"&,@");
    assert_eq!(Status::Waiting, runtime.step());
    runtime.write_input(b"7");
    assert_eq!(Status::Completed, runtime.step());
    assert_eq!(&[7u8], runtime.get_stack().as_slice());
    assert_eq!(Status::Completed, runtime.step());
    assert_eq!(Status::Terminated, runtime.step());
    assert_eq!(runtime.read_output(), vec![7u8]);
}

#[test]
fn runtime_prints_decimals() {
    let mut runtime = one_liner(b"99*.@");
    for _ in 0..4 {
        assert_eq!(Status::Completed, runtime.step());
    }
    assert_eq!(Status::Terminated, runtime.step());
    assert_eq!(runtime.read_output(), b"81 ".to_vec());
}

#[test]
fn runtime_lines_are_reachable() {
    let program = Program::from_rows(vec![b"ab".to_vec(), b"cd".to_vec()]);
    assert_eq!(program.get_line(0), Some(b"ab".to_vec()));
    assert_eq!(program.get_line(1), Some(b"cd".to_vec()));
    assert_eq!(program.get_line(2), None);
    let runtime = Runtime::from_program(program);
    assert_eq!(runtime.get_line(), Some(b"ab".to_vec()));
}

#[test]
fn test_test_arrow_loop() {
    let mut runtime = Runtime::from_program(Program::from_rows(vec![
        vec![b'v', b'<'],
        vec![b'>', b'^'],
    ]));

    let status = runtime.step();
    assert_eq!(Status::Completed, status);

    assert_eq!(Direction::Down, runtime.get_current_dir());
    assert_eq!(Position { x: 0, y: 1 }, runtime.get_current_pos());

    let status = runtime.step();
    assert_eq!(Status::Completed, status);

    assert_eq!(Direction::Right, runtime.get_current_dir());
    assert_eq!(Position { x: 1, y: 1 }, runtime.get_current_pos());

    let status = runtime.step();
    assert_eq!(Status::Completed, status);

    assert_eq!(Direction::Up, runtime.get_current_dir());
    assert_eq!(Position { x: 1, y: 0 }, runtime.get_current_pos());

    let status = runtime.step();
    assert_eq!(Status::Completed, status);

    assert_eq!(Direction::Left, runtime.get_current_dir());
    assert_eq!(Position { x: 0, y: 0 }, runtime.get_current_pos());
    assert_eq!(EMPTY_STACK, runtime.get_stack().as_slice());
}

#[test]
fn test_test_put() {
    let mut runtime = one_liner(&[b' ', b' ', b' ', b'2', b'1', b'0', b'p', b' ']);

    // Step over the 3 spaces and 3 number pushes
    for _i in 0..6 {
        assert_eq!(Status::Completed, runtime.step());
    }
    // Verify that the numbers are on the stack
    assert_eq!(&[2u8, 1, 0], runtime.get_stack().as_slice());
    // Step over the put instruction
    assert_eq!(Status::Completed, runtime.step());
    // Verify that the position and direction are correct
    assert_eq!(Position { x: 7, y: 0 }, runtime.get_current_pos());
    assert_eq!(Direction::Right, runtime.get_current_dir());
    // Verify that the stack is now empty
    assert_eq!(EMPTY_STACK, runtime.get_stack().as_slice());
    // Verify that the value 2 was placed into the specified position
    assert_eq!(2, runtime.get_opcode(&Position { x: 1, y: 0 }));
}
