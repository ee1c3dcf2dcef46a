use twostack::brackets::{find_close, find_open};
use twostack::cell::Cell;
use twostack::codegen::AsmError;
use twostack::error::MachineError;
use twostack::hex::{hex_digits, unhex};
use twostack::input::{InputEvent, InputSource, ScriptedInput};
use twostack::machine::Computer;
use twostack::tape::Tape;
use twostack::token::{copy_bytes, BinaryOp, Token, UnaryOp};

struct Broken;

impl InputSource for Broken {
    fn next_event(&mut self) -> InputEvent {
        InputEvent::Failure
    }
}

struct Impatient;

impl InputSource for Impatient {
    fn next_event(&mut self) -> InputEvent {
        InputEvent::Abort
    }
}

#[test]
fn unhex_decodes_both_cases() {
    assert_eq!(unhex(b'0'), Ok(0));
    assert_eq!(unhex(b'9'), Ok(9));
    assert_eq!(unhex(b'a'), Ok(10));
    assert_eq!(unhex(b'f'), Ok(15));
    assert_eq!(unhex(b'A'), Ok(10));
    assert_eq!(unhex(b'F'), Ok(15));
    assert_eq!(unhex(b'g'), Err(MachineError::InvalidHexDigit(b'g')));
    assert_eq!(unhex(b'/'), Err(MachineError::InvalidHexDigit(b'/')));
    assert_eq!(unhex(b':'), Err(MachineError::InvalidHexDigit(b':')));
    assert_eq!(unhex(b'@'), Err(MachineError::InvalidHexDigit(b'@')));
    assert_eq!(unhex(b'G'), Err(MachineError::InvalidHexDigit(b'G')));
    assert_eq!(unhex(b'`'), Err(MachineError::InvalidHexDigit(b'`')));
}

#[test]
fn hex_digits_spell_every_byte() {
    assert_eq!(hex_digits(0), (b'0', b'0'));
    assert_eq!(hex_digits(0x41), (b'4', b'1'));
    assert_eq!(hex_digits(0xaf), (b'a', b'f'));
    for value in 0..=255u8 {
        let (high, low) = hex_digits(value);
        assert_eq!(unhex(high).unwrap() * 16 + unhex(low).unwrap(), value);
    }
}

#[test]
fn forward_scan_finds_the_close_of_the_block() {
    assert_eq!(find_close(b"[ab]", b'[', b']', 1), Some(3));
    assert_eq!(find_close(b"[a[b]c]d]", b'[', b']', 1), Some(6));
    assert_eq!(find_close(b"[[]", b'[', b']', 1), None);
    assert_eq!(find_close(b"]", b'[', b']', 0), Some(0));
    assert_eq!(find_close(b"abc", b'[', b']', 7), None);
    assert_eq!(find_close(b"(])", b'(', b')', 1), Some(2));
}

#[test]
fn backward_scan_finds_the_open_of_the_block() {
    assert_eq!(find_open(b"[ab]", b'[', b']', 2), Some(0));
    assert_eq!(find_open(b"[a[b]c]", b'[', b']', 5), Some(0));
    assert_eq!(find_open(b"a]b]", b'[', b']', 2), None);
    assert_eq!(find_open(b"[", b'[', b']', 0), Some(0));
    assert_eq!(find_open(b"[]", b'[', b']', 5), None);
    assert_eq!(find_open(b"[[]]", b'[', b']', 2), Some(0));
}

#[test]
fn scans_pair_the_same_brackets() {
    let tape = b"[a[b[c]d]e[f]g]";
    for (open, close) in [(0usize, 14usize), (2, 8), (4, 6), (10, 12)] {
        assert_eq!(find_close(tape, b'[', b']', open + 1), Some(close));
        assert_eq!(find_open(tape, b'[', b']', close - 1), Some(open));
    }
}

#[test]
fn tape_reads_its_bytes() {
    let tape = Tape::new(b"abc");
    assert_eq!(tape.len(), 3);
    assert_eq!(tape.get(0), Some(b'a'));
    assert_eq!(tape.get(2), Some(b'c'));
    assert_eq!(tape.get(3), None);
    assert_eq!(tape.byte(1), b'b');
    assert_eq!(tape.as_slice(), b"abc");
    assert_eq!(Tape::new(b"").len(), 0);
}

#[test]
fn new_machine_is_ready() {
    let machine: Computer<u32> = Computer::new(b"+-");
    assert_eq!(machine.tape.as_slice(), b"+-");
    assert_eq!(machine.position, 0);
    assert!(machine.primary.is_empty());
    assert!(machine.secondary.is_empty());
    assert_eq!(machine.cell, 0);
    assert!(machine.running);
    assert!(!machine.has_found_eof);
}

#[test]
fn cells_wrap_and_truncate() {
    assert_eq!(200u8.wrapping_sum(100), 44);
    assert_eq!(3u8.wrapping_difference(5), 254);
    assert_eq!(16u8.wrapping_product(17), 16);
    assert_eq!(u32::MAX.wrapping_sum(2), 1);
    assert_eq!(0u32.wrapping_difference(1), u32::MAX);
    assert_eq!(0x8000_0000u32.wrapping_product(2), 0);
    assert_eq!(<u8 as Cell>::from_unit(0x1234), 0x34);
    assert_eq!(<u32 as Cell>::from_unit(0x1234), 0x1234);
    assert_eq!(<u32 as Cell>::from_byte(0xff), 255);
    assert_eq!(0x1234u32.low_byte(), 0x34);
    assert_eq!(0x12u8.to_unit(), 0x12);
    assert_eq!(<u8 as Cell>::from_bool(true), 1);
    assert_eq!(<u32 as Cell>::from_bool(false), 0);
    assert_eq!(<u8 as Cell>::zero(), 0);
    assert_eq!(0x0fu8.complement(), 0xf0);
    assert_eq!(0x0fu32.complement(), 0xffff_fff0);
    assert_eq!(7u8.quotient(2), 3);
    assert_eq!(7u32.remainder(4), 3);
    assert_eq!(12u8.bit_and(10), 8);
    assert_eq!(12u8.bit_or(10), 14);
    assert_eq!(12u32.bit_xor(10), 6);
    assert!(0u8.is_zero());
    assert!(!1u32.is_zero());
    assert!(3u8.less_than(4));
    assert!(!4u8.less_than(4));
    assert!(4u32.same_as(4));
    assert!(!4u32.same_as(5));
}

#[test]
fn scripted_input_plays_back_and_ends() {
    let mut source = ScriptedInput::from_bytes(b"hi");
    assert_eq!(source.next_event(), InputEvent::Unit(104));
    assert_eq!(source.next_event(), InputEvent::Unit(105));
    assert_eq!(source.next_event(), InputEvent::EndOfStream);
    assert_eq!(source.next_event(), InputEvent::EndOfStream);
    let mut source = ScriptedInput::new(vec![0x1f600]);
    assert_eq!(source.next_event(), InputEvent::Unit(0x1f600));
    assert_eq!(source.next_event(), InputEvent::EndOfStream);
}

#[test]
fn failing_input_ends_the_run() {
    let mut machine: Computer<u8> = Computer::new(b"#07@#08");
    let mut output = String::new();
    assert_eq!(machine.run(&mut Broken, &mut output, 100), Err(MachineError::InputFailed));
    assert!(!machine.running);
    assert_eq!(machine.primary, vec![7]);
    assert_eq!(machine.position, 4);
}

#[test]
fn abort_ends_the_run() {
    let mut machine: Computer<u8> = Computer::new(b"#07@#08");
    let mut output = String::new();
    assert_eq!(machine.run(&mut Impatient, &mut output, 100), Err(MachineError::UserExit));
    assert!(!machine.running);
    assert_eq!(machine.primary, vec![7]);
    assert_eq!(machine.step(&mut Impatient, &mut output), Err(MachineError::NotRunning));
}

#[test]
fn matching_helpers_move_the_position() {
    let mut machine: Computer<u8> = Computer::new(b"[ab]cd");
    machine.position = 1;
    assert_eq!(machine.find_matching_close(b'[', b']'), Ok(()));
    assert_eq!(machine.position, 4);
    assert_eq!(machine.find_matching_open(b'[', b']'), Ok(()));
    assert_eq!(machine.position, 1);
    machine.position = 5;
    assert_eq!(machine.find_matching_close(b'[', b']'), Err(MachineError::NoMatchingBracket));
    assert_eq!(machine.position, 6);
    assert!(!machine.running);
    let mut machine: Computer<u8> = Computer::new(b"ab]");
    machine.position = 3;
    assert_eq!(machine.find_matching_open(b'[', b']'), Err(MachineError::NoMatchingBracket));
    assert_eq!(machine.position, 0);
}

#[test]
fn tokens_and_errors_are_copied() {
    let token = Token::StringLiteral(b"abc".to_vec());
    assert_eq!(token.duplicate(), token);
    assert_eq!(token.clone(), token);
    assert_eq!(Token::Unary(UnaryOp::Drop).duplicate(), Token::Unary(UnaryOp::Drop));
    assert_eq!(copy_bytes(&b"xyz".to_vec()), b"xyz".to_vec());
    let error = AsmError::ExpectedLiteral(Some(Token::Invalid(b"?".to_vec())));
    assert_eq!(error.clone(), error);
    let error = AsmError::InvalidToken(b"?".to_vec());
    assert_eq!(error.clone(), error);
}

#[test]
fn operators_know_their_opcode() {
    assert_eq!(BinaryOp::Add.opcode(), b'+');
    assert_eq!(BinaryOp::Subtract.opcode(), b'-');
    assert_eq!(BinaryOp::Multiply.opcode(), b'*');
    assert_eq!(BinaryOp::Divide.opcode(), b'/');
    assert_eq!(BinaryOp::Modulo.opcode(), b'%');
    assert_eq!(BinaryOp::And.opcode(), b'&');
    assert_eq!(BinaryOp::Or.opcode(), b'|');
    assert_eq!(BinaryOp::Xor.opcode(), b'^');
    assert_eq!(BinaryOp::Equal.opcode(), b'=');
    assert_eq!(BinaryOp::Less.opcode(), b'<');
    assert_eq!(BinaryOp::Greater.opcode(), b'>');
    assert_eq!(UnaryOp::Complement.opcode(), b'~');
    assert_eq!(UnaryOp::Not.opcode(), b'!');
    assert_eq!(UnaryOp::Duplicate.opcode(), b':');
    assert_eq!(UnaryOp::Drop.opcode(), b'`');
    assert_eq!(UnaryOp::Conditional.opcode(), b'?');
    assert_eq!(UnaryOp::Print.opcode(), b';');
    assert_eq!(UnaryOp::Store.opcode(), b'{');
    assert!(BinaryOp::Add.is_symmetric());
    assert!(BinaryOp::Equal.is_symmetric());
    assert!(!BinaryOp::Subtract.is_symmetric());
    assert!(!BinaryOp::Less.is_symmetric());
}
