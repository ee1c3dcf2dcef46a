use twostack::error::MachineError;
use twostack::input::{InputEvent, InputSource, ScriptedInput};
use twostack::machine::Computer;

fn run_bytes(tape: &[u8], input: &[u8]) -> (Computer<u8>, String, Result<(), MachineError>) {
    let mut machine: Computer<u8> = Computer::new(tape);
    let mut source = ScriptedInput::from_bytes(input);
    let mut output = String::new();
    let result = machine.run(&mut source, &mut output, 100_000);
    (machine, output, result)
}

struct OneShot {
    calls: u32,
}

impl InputSource for OneShot {
    fn next_event(&mut self) -> InputEvent {
        self.calls += 1;
        if self.calls > 1 {
            panic!("the input source was asked again after it reported the end of the stream");
        }
        InputEvent::EndOfStream
    }
}

#[test]
fn hex_literal_prints_a() {
    let (machine, output, result) = run_bytes(b"#41;", b"");
    assert_eq!(result, Ok(()));
    assert_eq!(output, "A");
    assert!(!machine.running);
    assert!(machine.primary.is_empty());
}

#[test]
fn empty_pop_yields_zero() {
    let mut machine: Computer<u8> = Computer::new(b"");
    assert_eq!(machine.get(), 0);
    assert_eq!(machine.get(), 0);
    assert!(machine.primary.is_empty());
    let (machine, _, result) = run_bytes(b"+", b"");
    assert_eq!(result, Ok(()));
    assert_eq!(machine.primary, vec![0]);
}

#[test]
fn arithmetic_wraps_in_eight_bits() {
    let (machine, _, _) = run_bytes(b"#ff#02+", b"");
    assert_eq!(machine.primary, vec![1]);
    let (machine, _, _) = run_bytes(b"#05#03-", b"");
    assert_eq!(machine.primary, vec![254]);
    let (machine, _, _) = run_bytes(b"#10#10*", b"");
    assert_eq!(machine.primary, vec![0]);
}

#[test]
fn arithmetic_wraps_in_thirty_two_bits() {
    let mut machine: Computer<u32> = Computer::new(b"#05#03-~#01+");
    let mut source = ScriptedInput::new(Vec::new());
    let mut output = String::new();
    assert_eq!(machine.run(&mut source, &mut output, 1000), Ok(()));
    assert_eq!(machine.primary, vec![2]);
    let mut machine: Computer<u32> = Computer::new(b"#ff#ff*");
    assert_eq!(machine.run(&mut source, &mut output, 1000), Ok(()));
    assert_eq!(machine.primary, vec![65025]);
}

#[test]
fn left_operand_is_popped_first() {
    let (machine, _, _) = run_bytes(b"#03#0a-", b"");
    assert_eq!(machine.primary, vec![7]);
    let (machine, _, _) = run_bytes(b"#03#0a/", b"");
    assert_eq!(machine.primary, vec![3]);
    let (machine, _, _) = run_bytes(b"#03#0a%", b"");
    assert_eq!(machine.primary, vec![1]);
    let (machine, _, _) = run_bytes(b"#03#0a<#03#0a>#03#03=", b"");
    assert_eq!(machine.primary, vec![0, 1, 1]);
}

#[test]
fn bitwise_operators() {
    let (machine, _, _) = run_bytes(b"#0c#0a&#0c#0a|#0c#0a^#0f~#00!#07!", b"");
    assert_eq!(machine.primary, vec![8, 14, 6, 240, 1, 0]);
}

#[test]
fn division_by_zero_is_an_error() {
    let (machine, _, result) = run_bytes(b"#07#00#05/", b"");
    assert_eq!(result, Err(MachineError::DivisionByZero));
    assert_eq!(machine.primary, vec![7]);
    assert!(!machine.running);
    let (_, _, result) = run_bytes(b"#00#05%", b"");
    assert_eq!(result, Err(MachineError::DivisionByZero));
}

#[test]
fn while_loop_counts_down() {
    // Push 3, then print and decrement while the counter is not zero.
    let (machine, output, result) = run_bytes(b"#03:[:#30+;#01x-:]", b"");
    assert_eq!(result, Ok(()));
    assert_eq!(output, "321");
    assert_eq!(machine.primary, vec![0]);
}

#[test]
fn while_loop_is_skipped_on_zero() {
    let (_, output, result) = run_bytes(b"#00[#41;]#42;", b"");
    assert_eq!(result, Ok(()));
    assert_eq!(output, "B");
}

#[test]
fn nested_brackets_match() {
    let (_, output, result) = run_bytes(b"#00[#01[#41;#00]#00]#42;", b"");
    assert_eq!(result, Ok(()));
    assert_eq!(output, "B");
    let (_, output, result) = run_bytes(b"#01[#01[#41;#00]#00]#42;", b"");
    assert_eq!(result, Ok(()));
    assert_eq!(output, "AB");
}

#[test]
fn until_loop_runs_while_zero() {
    let (_, output, result) = run_bytes(b"#01(#41;)#42;", b"");
    assert_eq!(result, Ok(()));
    assert_eq!(output, "B");
    let (_, output, result) = run_bytes(b"#00(#41;#01)#42;", b"");
    assert_eq!(result, Ok(()));
    assert_eq!(output, "AB");
}

#[test]
fn unmatched_brackets_are_errors() {
    let (machine, _, result) = run_bytes(b"#00[#41;", b"");
    assert_eq!(result, Err(MachineError::NoMatchingBracket));
    assert!(!machine.running);
    let (_, _, result) = run_bytes(b"#01]", b"");
    assert_eq!(result, Err(MachineError::NoMatchingBracket));
    let (_, _, result) = run_bytes(b"#01(", b"");
    assert_eq!(result, Err(MachineError::NoMatchingBracket));
    let (_, _, result) = run_bytes(b")", b"");
    assert_eq!(result, Err(MachineError::NoMatchingBracket));
    let (_, _, result) = run_bytes(b"#00[[]", b"");
    assert_eq!(result, Err(MachineError::NoMatchingBracket));
}

#[test]
fn unterminated_string_is_out_of_bounds() {
    let (machine, _, result) = run_bytes(b"\"abc", b"");
    assert_eq!(result, Err(MachineError::OutOfBounds));
    assert_eq!(machine.primary, vec![97, 98, 99]);
    assert_eq!(machine.position, 4);
}

#[test]
fn string_and_char_literals() {
    let (machine, _, result) = run_bytes(b"\"hi\"'!", b"");
    assert_eq!(result, Ok(()));
    assert_eq!(machine.primary, vec![104, 105, 33]);
    let (_, _, result) = run_bytes(b"'", b"");
    assert_eq!(result, Err(MachineError::OutOfBounds));
}

#[test]
fn hex_literal_errors() {
    let (_, _, result) = run_bytes(b"#4", b"");
    assert_eq!(result, Err(MachineError::OutOfBounds));
    let (_, _, result) = run_bytes(b"#g1", b"");
    assert_eq!(result, Err(MachineError::InvalidHexDigit(b'g')));
    let (machine, _, result) = run_bytes(b"#1 ", b"");
    assert_eq!(result, Err(MachineError::InvalidHexDigit(b' ')));
    assert_eq!(machine.position, 2);
    let (machine, _, _) = run_bytes(b"#Ab#aB", b"");
    assert_eq!(machine.primary, vec![0xab, 0xab]);
}

#[test]
fn unknown_instruction_is_an_error() {
    let (machine, _, result) = run_bytes(b"#01z", b"");
    assert_eq!(result, Err(MachineError::UnknownInstruction(b'z')));
    assert_eq!(machine.primary, vec![1]);
    assert!(!machine.running);
}

#[test]
fn step_on_halted_machine_fails() {
    let mut machine: Computer<u8> = Computer::new(b".");
    let mut source = ScriptedInput::new(Vec::new());
    let mut output = String::new();
    assert_eq!(machine.step(&mut source, &mut output), Ok(()));
    assert!(!machine.running);
    assert_eq!(machine.step(&mut source, &mut output), Err(MachineError::NotRunning));
}

#[test]
fn end_of_tape_halts_cleanly() {
    let mut machine: Computer<u8> = Computer::new(b"");
    let mut source = ScriptedInput::new(Vec::new());
    let mut output = String::new();
    assert!(machine.running);
    assert_eq!(machine.step(&mut source, &mut output), Ok(()));
    assert!(!machine.running);
}

#[test]
fn jumps_and_conditional_skip() {
    let (_, output, _) = run_bytes(b"3#41#42;", b"");
    assert_eq!(output, "B");
    let (_, output, _) = run_bytes(b"#00?.#41;", b"");
    assert_eq!(output, "A");
    let (_, output, _) = run_bytes(b"#01?.#41;", b"");
    assert_eq!(output, "");
    let (machine, _, result) = run_bytes(b"9", b"");
    assert_eq!(result, Ok(()));
    assert_eq!(machine.position, 10);
}

#[test]
fn stack_shuffles() {
    let (machine, _, _) = run_bytes(b"#01#02x#03:#04`", b"");
    assert_eq!(machine.primary, vec![2, 1, 3, 3]);
    let (machine, _, _) = run_bytes(b"#01#02X#03", b"");
    assert_eq!(machine.primary, vec![3]);
    assert_eq!(machine.secondary, vec![1, 2]);
    let (machine, _, _) = run_bytes(b"#07{}}", b"");
    assert_eq!(machine.primary, vec![7, 7]);
    assert_eq!(machine.cell, 7);
    let (machine, _, _) = run_bytes(b":", b"");
    assert_eq!(machine.primary, vec![0, 0]);
}

#[test]
fn input_is_pushed() {
    let (machine, output, result) = run_bytes(b"@;@@", b"A\n");
    assert_eq!(result, Ok(()));
    assert_eq!(output, "A");
    assert_eq!(machine.primary, vec![10, 0]);
    assert!(machine.has_found_eof);
}

#[test]
fn input_units_are_truncated_to_the_cell() {
    let mut machine: Computer<u8> = Computer::new(b"@");
    let mut source = ScriptedInput::new(vec![0x1f600]);
    let mut output = String::new();
    assert_eq!(machine.run(&mut source, &mut output, 10), Ok(()));
    assert_eq!(machine.primary, vec![0]);
    let mut machine: Computer<u32> = Computer::new(b"@");
    let mut source = ScriptedInput::new(vec![0x1f600]);
    assert_eq!(machine.run(&mut source, &mut output, 10), Ok(()));
    assert_eq!(machine.primary, vec![0x1f600]);
}

#[test]
fn end_of_input_is_asked_once() {
    let mut machine: Computer<u8> = Computer::new(b"@@@#01");
    let mut source = OneShot { calls: 0 };
    let mut output = String::new();
    assert_eq!(machine.run(&mut source, &mut output, 1000), Ok(()));
    assert_eq!(source.calls, 1);
    assert_eq!(machine.primary, vec![0, 0, 0, 1]);
}

#[test]
fn abort_and_failure_end_the_run() {
    let mut machine: Computer<u8> = Computer::new(b"#05@#06");
    assert_eq!(machine.get_input(&mut OneShot { calls: 0 }), Ok(0));
    let mut machine: Computer<u8> = Computer::new(b"#05@#06");
    assert_eq!(machine.accept_input(InputEvent::Abort), Err(MachineError::UserExit));
    assert!(!machine.running);
    let mut machine: Computer<u8> = Computer::new(b"#05@#06");
    assert_eq!(machine.accept_input(InputEvent::Failure), Err(MachineError::InputFailed));
    assert!(!machine.running);
    let mut machine: Computer<u8> = Computer::new(b"");
    assert_eq!(machine.accept_input(InputEvent::Unit(300)), Ok(44));
    assert!(machine.running);
}

#[test]
fn run_stops_when_steps_run_out() {
    let mut machine: Computer<u8> = Computer::new(b"#01[#01]");
    let mut source = ScriptedInput::new(Vec::new());
    let mut output = String::new();
    assert_eq!(machine.run(&mut source, &mut output, 50), Ok(()));
    assert!(machine.running);
}

#[test]
fn print_writes_low_byte() {
    let mut machine: Computer<u32> = Computer::new(b"#ff#02*#43+;");
    let mut source = ScriptedInput::new(Vec::new());
    let mut output = String::new();
    assert_eq!(machine.run(&mut source, &mut output, 100), Ok(()));
    // 255 * 2 + 67 = 577 = 0x241
    assert_eq!(output, "A");
}

#[test]
fn read_tape_reads_at_position() {
    let mut machine: Computer<u8> = Computer::new(b"ab");
    assert_eq!(machine.read_tape(), Ok(b'a'));
    machine.position = 2;
    assert_eq!(machine.read_tape(), Err(MachineError::OutOfBounds));
}
