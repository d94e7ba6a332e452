//! Number reading and command parsing, against concrete inputs.

use bft::commands::{parse_tokens, parse_u16, tokenize, Command, CommandError};
use bft::cursor::Position;
use bft::io::{base_number, try_combine, try_read_number, InputBuffer, VecIO, IO};

#[test]
fn test_try_read_number() {
    let cases: [(&str, Result<(usize, u8), usize>); 12] = [
        // Large enough numbers
        ("alice bob charlie23562347", Ok((20, 235))),
        // Num then non-number
        ("@#$@%^$#%^%^3a", Ok((13, 3))),
        ("a66$", Ok((3, 66))),
        ("1 ", Ok((1, 1))),
        ("24\n", Ok((2, 24))),
        // Incomplete numbers
        ("@#$@%^$#%^%^3", Err(12)),
        ("a66", Err(1)),
        ("1", Err(0)),
        ("11", Err(0)),
        // No numbers at all
        ("abcdefg", Err(7)),
        ("@#$%@#$*&%^", Err(11)),
        ("a b c", Err(5)),
    ];
    for (input, expected) in cases.into_iter() {
        let actual = try_read_number(input.as_bytes());
        assert_eq!(actual, expected);
    }
}

#[test]
fn test_base_num() {
    let cases: [(&str, Result<(usize, u8), usize>); 4] = [
        // Skips non-numbers
        ("alice bob charlie23562347", Ok((18, 2))),
        ("@#$@%^$#%^%^3", Ok((13, 3))),
        ("a66", Ok((2, 6))),
        // Gives None if there isn't a number
        ("abcdefg", Err(7)),
    ];
    for (input, expected) in cases.into_iter() {
        let actual = base_number(input.as_bytes());
        assert_eq!(actual, expected);
    }
}

#[test]
fn test_try_combine() {
    assert_eq!(Some(11), try_combine(1, 1));

    for i in 0..24 {
        for j in 0..9 {
            assert_eq!(Some(10 * i + j), try_combine(i, j));
        }
    }

    assert_eq!(Some(250), try_combine(25, 0));
    assert_eq!(Some(251), try_combine(25, 1));
    assert_eq!(Some(252), try_combine(25, 2));
    assert_eq!(Some(253), try_combine(25, 3));
    assert_eq!(Some(254), try_combine(25, 4));
    assert_eq!(Some(255), try_combine(25, 5));
    assert_eq!(None, try_combine(25, 6));
    assert_eq!(None, try_combine(25, 7));
    assert_eq!(None, try_combine(25, 8));
    assert_eq!(None, try_combine(25, 9));

    for i in 26..=255u16 {
        for j in 0..9 {
            assert_eq!(None, try_combine(i as u8, j));
        }
    }
}

#[test]
fn read_number_discards_prefix_keeps_terminator() {
    // reading from "abc12xyz" yields 12, discards "abc", consumes
    // "12", and keeps "xyz" in the buffer
    let mut io = VecIO::default();
    io.write_input(b"abc12xyz");
    assert_eq!(io.read_number(), Some(12));
    assert_eq!(io.read_byte(), Some(b'x'));
    assert_eq!(io.read_byte(), Some(b'y'));
    assert_eq!(io.read_byte(), Some(b'z'));
    assert_eq!(io.read_byte(), None);
}

#[test]
fn read_number_without_terminator_consumes_nothing() {
    // "12" has no terminator yet: no number comes out and the digits
    // stay put
    let mut io = VecIO::default();
    io.write_input(b"12");
    assert_eq!(io.read_number(), None);
    assert_eq!(io.read_byte(), Some(b'1'));
    assert_eq!(io.read_byte(), Some(b'2'));
}

#[test]
fn parse_u16_reads_digit_words() {
    assert_eq!(parse_u16(b"0"), Some(0));
    assert_eq!(parse_u16(b"42"), Some(42));
    assert_eq!(parse_u16(b"65535"), Some(65535));
    assert_eq!(parse_u16(b"65536"), None);
    assert_eq!(parse_u16(b""), None);
    assert_eq!(parse_u16(b"4a"), None);
}

#[test]
fn tokenize_splits_on_spaces() {
    let toks = tokenize(b"b 3 7");
    assert_eq!(toks.len(), 3);
    assert_eq!(toks[0], b"b".to_vec());
    assert_eq!(toks[1], b"3".to_vec());
    assert_eq!(toks[2], b"7".to_vec());
    let toks = tokenize(b"");
    assert_eq!(toks, vec![Vec::<u8>::new()]);
    let toks = tokenize(b"s ");
    assert_eq!(toks, vec![b"s".to_vec(), Vec::new()]);
}

#[test]
fn parse_tokens_recognises_commands() {
    assert_eq!(parse_tokens(tokenize(b"")), Ok(None));
    assert_eq!(parse_tokens(tokenize(b"h")), Ok(Some(Command::Help)));
    assert_eq!(parse_tokens(tokenize(b"help")), Ok(Some(Command::Help)));
    assert_eq!(parse_tokens(tokenize(b"r")), Ok(Some(Command::Run)));
    assert_eq!(parse_tokens(tokenize(b"pause")), Ok(Some(Command::Pause)));
    assert_eq!(parse_tokens(tokenize(b"q")), Ok(Some(Command::Quit)));
    assert_eq!(parse_tokens(tokenize(b"s")), Ok(Some(Command::Step { n: 1 })));
    assert_eq!(parse_tokens(tokenize(b"step 12")), Ok(Some(Command::Step { n: 12 })));
    assert_eq!(
        parse_tokens(tokenize(b"b 3 7")),
        Ok(Some(Command::Breakpoint { pos: Position { x: 3, y: 7 } }))
    );
    assert_eq!(
        parse_tokens(tokenize(b"load demo.bf")),
        Ok(Some(Command::Load { path: b"demo.bf".to_vec() }))
    );
    // each way a line can be rejected
    match parse_tokens(tokenize(b"frobnicate")) {
        Err(CommandError::UnknownCommand { arg }) => assert_eq!(arg, b"frobnicate".to_vec()),
        other => panic!("unexpected: {:?}", other),
    }
    match parse_tokens(tokenize(b"help me")) {
        Err(CommandError::TooManyArguments { expected, .. }) => assert_eq!(expected, 0),
        other => panic!("unexpected: {:?}", other),
    }
    match parse_tokens(tokenize(b"b 3")) {
        Err(CommandError::TooFewArguments { expected }) => assert_eq!(expected, 2),
        other => panic!("unexpected: {:?}", other),
    }
    match parse_tokens(tokenize(b"b 300 1")) {
        Err(CommandError::TooFewArguments { expected }) => assert_eq!(expected, 2),
        other => panic!("unexpected: {:?}", other),
    }
}

#[test]
fn input_buffer_window_shifts() {
    let mut buf = InputBuffer::new();
    assert!(buf.is_empty());
    assert_eq!(buf.read_byte(), None);
    // only 32 bytes fit at once
    let accepted = buf.read_more(b"abcdef");
    assert_eq!(accepted, 6);
    assert_eq!(buf.len(), 6);
    assert_eq!(buf.read_byte(), Some(b'a'));
    buf.skip_and_shift(2);
    assert_eq!(buf.bytes(), b"def".to_vec());
    let accepted = buf.read_more(&[b'x'; 40]);
    assert_eq!(accepted, 29);
    assert_eq!(buf.len(), 32);
    assert_eq!(buf.read_byte(), Some(b'd'));
}
