//! The interpreter, stepped over concrete programs.

use bft::cursor::{Direction, Position};
use bft::interpreter::{Interpreter, InterpreterError, Status};
use bft::io::{VecIO, IO};
use bft::record::Timeline;
use bft::space::Space;

const EMPTY_STACK: &[u8] = &[];

fn one_liner(line: &[u8]) -> Interpreter<VecIO, ()> {
    let space = Space::new(line);
    Interpreter::new(space, VecIO::default(), ())
}

#[test]
fn main_test_initial_settings() {
    let interpreter = one_liner(&[]);
    assert_eq!(Direction::Right, interpreter.current_direction());
    assert_eq!(Position { x: 0, y: 0 }, interpreter.current_position());
    assert_eq!(EMPTY_STACK, interpreter.stack().as_slice());
}

#[test]
fn main_test_push_num() {
    let cases: [(u8, u8); 10] = [
        (b'0', 0),
        (b'1', 1),
        (b'2', 2),
        (b'3', 3),
        (b'4', 4),
        (b'5', 5),
        (b'6', 6),
        (b'7', 7),
        (b'8', 8),
        (b'9', 9),
    ];
    for (opcode, number) in cases.iter() {
        let mut interpreter = one_liner(&[*opcode]);

        let status = interpreter.step();
        assert_eq!(Status::Completed, status);

        assert_eq!(Direction::Right, interpreter.current_direction());
        assert_eq!(Position { x: 0, y: 0 }, interpreter.current_position());
        assert_eq!(&[*number], interpreter.stack().as_slice());
    }
}

#[test]
fn main_test_left_arrow() {
    let mut interpreter = one_liner(b"1<");

    let status = interpreter.step();
    assert_eq!(Status::Completed, status);

    assert_eq!(Direction::Right, interpreter.current_direction());
    assert_eq!(Position { x: 1, y: 0 }, interpreter.current_position());
    assert_eq!(&[1u8], interpreter.stack().as_slice());

    let status = interpreter.step();
    assert_eq!(Status::Completed, status);

    assert_eq!(Direction::Left, interpreter.current_direction());
    assert_eq!(Position { x: 0, y: 0 }, interpreter.current_position());
    assert_eq!(&[1u8], interpreter.stack().as_slice());
}

#[test]
fn main_test_arrow_loop() {
    let program = vec![b'v', b'<', b'\n', b'>', b'^'];
    let space = Space::new(&program);
    let mut interpreter = Interpreter::new(space, VecIO::default(), ());

    let sequence = [
        (0u8, 1u8, Direction::Down),
        (1, 1, Direction::Right),
        (1, 0, Direction::Up),
        (0, 0, Direction::Left),
    ];

    for _ in 0..255 {
        for (x, y, direction) in sequence.iter().copied() {
            let status = interpreter.step();
            assert_eq!(Status::Completed, status);

            assert_eq!(direction, interpreter.current_direction());
            assert_eq!(Position { x, y }, interpreter.current_position());
            assert_eq!(EMPTY_STACK, interpreter.stack().as_slice());
        }
    }
}

#[test]
fn main_test_put() {
    let mut interpreter = one_liner(b"211p3");

    // Push the three numbers
    assert_eq!(Status::Completed, interpreter.step());
    assert_eq!(Status::Completed, interpreter.step());
    assert_eq!(Status::Completed, interpreter.step());
    // Verify that the numbers are on the stack
    assert_eq!(Position { x: 3, y: 0 }, interpreter.current_position());
    assert_eq!(&[2u8, 1, 1], interpreter.stack().as_slice());
    // Step over the put instruction
    assert_eq!(Status::Completed, interpreter.step());
    // Verify that the position and direction are correct
    assert_eq!(Position { x: 4, y: 0 }, interpreter.current_position());
    // Verify that the stack is now empty
    assert_eq!(EMPTY_STACK, interpreter.stack().as_slice());
    // Verify that the value 2 was placed into the specified position
    assert_eq!(2, interpreter.space().get_cell(Position { x: 1, y: 1 }));
}

#[test]
fn main_test_get() {
    let mut interpreter = one_liner(b"70g    4");

    assert_eq!(Direction::Right, interpreter.current_direction());
    assert_eq!(Position { x: 0, y: 0 }, interpreter.current_position());
    assert_eq!(EMPTY_STACK, interpreter.stack().as_slice());

    let status = interpreter.step();
    assert_eq!(Status::Completed, status);
    let status = interpreter.step();
    assert_eq!(Status::Completed, status);

    assert_eq!(&[7u8, 0], interpreter.stack().as_slice());

    let status = interpreter.step();
    assert_eq!(Status::Completed, status);

    assert_eq!(Direction::Right, interpreter.current_direction());
    assert_eq!(Position { x: 7, y: 0 }, interpreter.current_position());
    assert_eq!(&[b'4'], interpreter.stack().as_slice());
}

#[test]
fn push_digit_advances_once() {
    // one step pushes the digit and completes; the advance lands on
    // a space, and space-skipping carries the cursor around the row
    // back to the digit
    let mut interpreter = one_liner(b"5 ");
    let status = interpreter.step();
    assert_eq!(Status::Completed, status);
    assert_eq!(&[5u8], interpreter.stack().as_slice());
    assert_eq!(Position { x: 0, y: 0 }, interpreter.current_position());
}

#[test]
fn arithmetic_runs_to_completion() {
    // program "23+.@": output "5 " and a halt on the terminator
    let mut interpreter = one_liner(b"23+.@");
    assert_eq!(Status::Completed, interpreter.step());
    assert_eq!(Status::Completed, interpreter.step());
    assert_eq!(Status::Completed, interpreter.step());
    assert_eq!(&[5u8], interpreter.stack().as_slice());
    assert_eq!(Status::Completed, interpreter.step());
    assert_eq!(Status::Terminated, interpreter.step());
    let out = interpreter.io_mut().take_output();
    assert_eq!(out, b"5 ".to_vec());
}

#[test]
fn quote_mode_pushes_literals() {
    // program "\"Hi\",,@": enter quote, push 'H' and 'i', exit, then
    // emit them last-in-first-out
    let mut interpreter = one_liner(b"\"Hi\",,@");
    assert_eq!(Status::Completed, interpreter.step()); // enter quote
    assert_eq!(Status::Completed, interpreter.step()); // push 'H'
    assert_eq!(Status::Completed, interpreter.step()); // push 'i'
    assert_eq!(&[b'H', b'i'], interpreter.stack().as_slice());
    assert_eq!(Status::Completed, interpreter.step()); // exit quote
    assert_eq!(Status::Completed, interpreter.step()); // emit 'i'
    assert_eq!(Status::Completed, interpreter.step()); // emit 'H'
    assert_eq!(Status::Terminated, interpreter.step());
    let out = interpreter.io_mut().take_output();
    assert_eq!(out, vec![0x69, 0x48]);
}

#[test]
fn self_modification_writes_the_grid() {
    // program "911p": pushes 9, 1, 1, then writes 9 at (1, 1)
    let mut interpreter = one_liner(b"911p ");
    assert_eq!(Status::Completed, interpreter.step());
    assert_eq!(Status::Completed, interpreter.step());
    assert_eq!(Status::Completed, interpreter.step());
    assert_eq!(Status::Completed, interpreter.step());
    assert_eq!(9, interpreter.space().get_cell(Position { x: 1, y: 1 }));
    assert_eq!(EMPTY_STACK, interpreter.stack().as_slice());
}

#[test]
fn waiting_on_input_leaves_the_cursor() {
    // program "&.@" with no input suspends without moving; input
    // arriving lets it continue
    let mut interpreter = one_liner(b"&.@");
    assert_eq!(Status::Waiting, interpreter.step());
    assert_eq!(Position { x: 0, y: 0 }, interpreter.current_position());
    interpreter.io_mut().write_input(b"7\n");
    assert_eq!(Status::Completed, interpreter.step());
    assert_eq!(&[7u8], interpreter.stack().as_slice());
    assert_eq!(Status::Completed, interpreter.step());
    assert_eq!(Status::Terminated, interpreter.step());
    let out = interpreter.io_mut().take_output();
    assert_eq!(out, b"7 ".to_vec());
}

#[test]
fn invalid_opcode_is_an_error() {
    let mut interpreter = one_liner(b"x");
    assert_eq!(
        Status::Error(InterpreterError::InvalidOpcode(b'x')),
        interpreter.step()
    );
}

#[test]
fn all_spaces_is_an_infinite_loop() {
    let mut interpreter = one_liner(b"  ");
    assert_eq!(
        Status::Error(InterpreterError::InfiniteLoop),
        interpreter.step()
    );
}

#[test]
fn skip_jumps_over_the_next_cell() {
    // '#' at the last cell of a row wraps its extra advance around
    let mut interpreter = one_liner(b"1#");
    assert_eq!(Status::Completed, interpreter.step());
    assert_eq!(Position { x: 1, y: 0 }, interpreter.current_position());
    assert_eq!(Status::Completed, interpreter.step());
    // the skip moves off the end, wraps to column 0, then once more
    assert_eq!(Position { x: 1, y: 0 }, interpreter.current_position());
    assert_eq!(&[1u8], interpreter.stack().as_slice());
}

#[test]
fn stack_bottom_pops_as_zero() {
    // popping an empty stack yields zero and is never fatal
    let mut interpreter = one_liner(b"+@");
    assert_eq!(Status::Completed, interpreter.step());
    assert_eq!(&[0u8], interpreter.stack().as_slice());
}

#[test]
fn timeline_replay_reproduces_the_run() {
    // a recorded timeline replayed against a fresh space and stack
    // lands on the interpreter's exact space, stack and mode
    let program = b"25*19p\"A\"@";
    let space = Space::new(program);
    let mut interpreter = Interpreter::new(space, VecIO::default(), Timeline::new());
    loop {
        match interpreter.step() {
            bft::interpreter::Status::Terminated => break,
            bft::interpreter::Status::Completed => {},
            other => panic!("unexpected status: {:?}", other),
        }
    }
    let mut fresh = Space::new(program);
    let mut stack: Vec<u8> = Vec::new();
    let quote = interpreter.recorder().replay(&mut fresh, &mut stack, false);
    assert_eq!(stack, interpreter.stack().clone());
    assert!(!quote);
    for y in 0..4u8 {
        for x in 0..12u8 {
            let p = Position { x, y };
            assert_eq!(fresh.get_cell(p), interpreter.space().get_cell(p));
        }
    }
    // the write of the run is visible in both
    assert_eq!(fresh.get_cell(Position { x: 1, y: 9 }), 10);
}

#[test]
fn waiting_steps_are_rolled_back() {
    // a suspended step leaves no trace in the timeline
    let space = Space::new(b"~@");
    let mut interpreter = Interpreter::new(space, VecIO::default(), Timeline::new());
    assert_eq!(Status::Waiting, interpreter.step());
    assert_eq!(interpreter.recorder().num_steps(), 0);
    interpreter.io_mut().write_input(b"Z");
    assert_eq!(Status::Completed, interpreter.step());
    assert_eq!(interpreter.recorder().num_steps(), 1);
    assert_eq!(interpreter.recorder().events().clone(), vec![
        bft::record::Event::Push { top: b'Z' },
    ]);
}

#[test]
fn random_direction_is_one_of_four() {
    // the random-direction instruction turns the cursor somewhere
    let mut interpreter = one_liner(b"?@\n @");
    assert_eq!(Status::Completed, interpreter.step());
    let d = interpreter.current_direction();
    assert!(matches!(
        d,
        Direction::Up | Direction::Down | Direction::Left | Direction::Right
    ));
}
