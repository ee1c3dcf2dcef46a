//! The machine as mathematics: its state, and what one step does to it.
//!
//! Cell values are natural numbers below the modulus of the cell type. A
//! stack is a sequence whose last element is the top.

use crate::brackets::{matching_close, matching_open};
use crate::cell::{bits_and, bits_not, bits_or, bits_xor, output_char, wrap};
use crate::error::MachineError;
use crate::hex::hex_value;
use crate::input::InputEvent;
use crate::opcode::{
    is_binary, is_jump, jump_distance, AND, COMPLEMENT, DIVIDE, DROP, DUPLICATE, GREATER,
    HALT, INPUT, LESS, LOAD, MINUS, MODULO, NOT, OR, PLUS, PRINT, PUSH_CHAR, PUSH_HEX,
    PUSH_STRING, SKIP_IF_ZERO, STORE, SWAP_STACKS, SWAP_VALUES, TIMES, UNTIL_CLOSE, UNTIL_OPEN,
    WHILE_CLOSE, WHILE_OPEN, XOR,
};
use vstd::prelude::*;

verus! {

/// Everything that a machine holds.
pub struct MachineState {
    /// The program.
    pub tape: Seq<u8>,
    /// The index of the next instruction.
    pub position: nat,
    /// The primary stack, top last.
    pub primary: Seq<nat>,
    /// The secondary stack, top last.
    pub secondary: Seq<nat>,
    /// The scratch register.
    pub cell: nat,
    /// Whether the machine has not halted yet.
    pub running: bool,
    /// Whether the input has been seen to end.
    pub end_of_input: bool,
}

/// What one step leaves behind.
pub struct Outcome {
    /// The machine after the step.
    pub state: MachineState,
    /// The character that the step wrote, if it wrote one.
    pub written: Option<char>,
    /// Whether the step succeeded.
    pub result: Result<(), MachineError>,
}

/// The bytes of a literal as the cells that they are pushed as.
pub open spec fn zero_extended(bytes: Seq<u8>) -> Seq<nat> {
    bytes.map_values(|b: u8| b as nat)
}

impl MachineState {
    /// A machine that is about to run `tape` from its first byte.
    pub open spec fn initial(tape: Seq<u8>) -> MachineState {
        MachineState {
            tape,
            position: 0,
            primary: Seq::empty(),
            secondary: Seq::empty(),
            cell: 0,
            running: true,
            end_of_input: false,
        }
    }

    /// The value that a pop yields: the top of the primary stack, or zero
    /// where the stack is empty.
    pub open spec fn top(self) -> nat {
        if self.primary.len() == 0 {
            0
        } else {
            self.primary.last()
        }
    }

    /// The machine after a pop. An empty stack stays empty.
    pub open spec fn pop(self) -> MachineState {
        if self.primary.len() == 0 {
            self
        } else {
            MachineState { primary: self.primary.drop_last(), ..self }
        }
    }

    /// The machine after `value` is pushed on the primary stack.
    pub open spec fn push(self, value: nat) -> MachineState {
        MachineState { primary: self.primary.push(value), ..self }
    }

    /// The machine with its position set to `position`.
    pub open spec fn goto(self, position: nat) -> MachineState {
        MachineState { position, ..self }
    }

    /// The machine with its position moved forward by `distance`.
    pub open spec fn skip(self, distance: nat) -> MachineState {
        MachineState { position: self.position + distance, ..self }
    }

    /// The machine, halted.
    pub open spec fn halt(self) -> MachineState {
        MachineState { running: false, ..self }
    }

    /// The machine with its two stacks exchanged.
    pub open spec fn exchange(self) -> MachineState {
        MachineState { primary: self.secondary, secondary: self.primary, ..self }
    }

    /// The machine with `value` in its scratch register.
    pub open spec fn store(self, value: nat) -> MachineState {
        MachineState { cell: value, ..self }
    }

    /// The machine once its input has been seen to end.
    pub open spec fn input_ended(self) -> MachineState {
        MachineState { end_of_input: true, ..self }
    }
}

/// A step that succeeded and left `state`.
pub open spec fn done(state: MachineState) -> Outcome {
    Outcome { state, written: None, result: Ok(()) }
}

/// A step that failed with `error` when the machine was in `state`. The
/// stacks stay as they were at that point, and the machine halts.
pub open spec fn fail(state: MachineState, error: MachineError) -> Outcome {
    Outcome { state: state.halt(), written: None, result: Err(error) }
}

/// `at` holds the first `"` at or after `from`.
pub open spec fn is_closing_quote(tape: Seq<u8>, from: int, at: int) -> bool {
    &&& 0 <= from <= at < tape.len()
    &&& tape[at] == PUSH_STRING
    &&& forall|k: int| from <= k < at ==> tape[k] != PUSH_STRING
}

/// The index of the `"` that ends the string literal whose first byte is at
/// `from`, if the tape holds one.
pub open spec fn closing_quote(tape: Seq<u8>, from: int) -> Option<int> {
    if exists|at: int| is_closing_quote(tape, from, at) {
        Some(choose|at: int| is_closing_quote(tape, from, at))
    } else {
        None
    }
}

/// `'`: pushes the byte at the position and moves past it.
pub open spec fn push_char(s: MachineState) -> Outcome {
    if s.position < s.tape.len() {
        done(s.push(s.tape[s.position as int] as nat).skip(1))
    } else {
        fail(s, MachineError::OutOfBounds)
    }
}

/// `"`: pushes every byte up to the closing quote, first byte first, and
/// moves past the quote. Without a closing quote every byte up to the end of
/// the tape is pushed before the step fails.
pub open spec fn push_string(s: MachineState) -> Outcome
    recommends
        s.position <= s.tape.len(),
{
    match closing_quote(s.tape, s.position as int) {
        Some(at) => done(
            MachineState {
                primary: s.primary + zero_extended(s.tape.subrange(s.position as int, at)),
                position: (at + 1) as nat,
                ..s
            },
        ),
        None => fail(
            MachineState {
                primary: s.primary + zero_extended(
                    s.tape.subrange(s.position as int, s.tape.len() as int),
                ),
                position: s.tape.len(),
                ..s
            },
            MachineError::OutOfBounds,
        ),
    }
}

/// `#`: pushes the byte that the two hexadecimal digits at the position
/// spell, and moves past them.
pub open spec fn push_hex(s: MachineState) -> Outcome {
    if s.position >= s.tape.len() {
        fail(s, MachineError::OutOfBounds)
    } else {
        let first = s.tape[s.position as int];
        match hex_value(first) {
            None => fail(s, MachineError::InvalidHexDigit(first)),
            Some(high) => {
                let t = s.skip(1);
                if t.position >= t.tape.len() {
                    fail(t, MachineError::OutOfBounds)
                } else {
                    let second = t.tape[t.position as int];
                    match hex_value(second) {
                        None => fail(t, MachineError::InvalidHexDigit(second)),
                        Some(low) => done(t.skip(1).push((high * 16 + low) as nat)),
                    }
                }
            },
        }
    }
}

/// Moves past the close bracket that ends the block at the position.
pub open spec fn jump_forward(s: MachineState, open: u8, close: u8) -> Outcome {
    match matching_close(s.tape, open, close, s.position as int) {
        Some(at) => done(s.goto((at + 1) as nat)),
        None => fail(s.goto(s.tape.len()), MachineError::NoMatchingBracket),
    }
}

/// Moves back to just after the open bracket that starts the block whose
/// close bracket was just read.
pub open spec fn jump_backward(s: MachineState, open: u8, close: u8) -> Outcome {
    match matching_open(s.tape, open, close, s.position - 2) {
        Some(at) => done(s.goto((at + 1) as nat)),
        None => fail(s.goto(0), MachineError::NoMatchingBracket),
    }
}

/// One for `true`, zero for `false`.
pub open spec fn truth(flag: bool) -> nat {
    if flag {
        1
    } else {
        0
    }
}

/// What the binary operator `op` makes of `left` and `right`, or `None` where
/// it would divide by zero.
pub open spec fn binary_result(op: u8, left: nat, right: nat, modulus: nat) -> Option<nat>
    recommends
        is_binary(op),
{
    if op == PLUS {
        Some(wrap((left + right) as int, modulus))
    } else if op == MINUS {
        Some(wrap(left - right, modulus))
    } else if op == TIMES {
        Some(wrap((left * right) as int, modulus))
    } else if op == DIVIDE {
        if right == 0 {
            None
        } else {
            Some(left / right)
        }
    } else if op == MODULO {
        if right == 0 {
            None
        } else {
            Some(left % right)
        }
    } else if op == XOR {
        Some(bits_xor(left, right))
    } else if op == AND {
        Some(bits_and(left, right))
    } else if op == OR {
        Some(bits_or(left, right))
    } else if op == LESS {
        Some(truth(left < right))
    } else if op == GREATER {
        Some(truth(left > right))
    } else {
        Some(truth(left == right))
    }
}

/// A binary operator: the first pop is the left operand, the second pop the
/// right one. A division by zero fails after both were popped.
pub open spec fn apply_binary(s: MachineState, op: u8, modulus: nat) -> Outcome
    recommends
        is_binary(op),
{
    let left = s.top();
    let right = s.pop().top();
    let rest = s.pop().pop();
    match binary_result(op, left, right, modulus) {
        Some(value) => done(rest.push(value)),
        None => fail(rest, MachineError::DivisionByZero),
    }
}

/// What a machine that has not seen its input end makes of `event`: the
/// machine afterwards, and the value to push.
pub open spec fn accept(s: MachineState, modulus: nat, event: InputEvent) -> (
    MachineState,
    Result<nat, MachineError>,
) {
    match event {
        InputEvent::Unit(unit) => (s, Ok(unit as nat % modulus)),
        InputEvent::EndOfStream => (s.input_ended(), Ok(0)),
        InputEvent::Abort => (s.halt(), Err(MachineError::UserExit)),
        InputEvent::Failure => (s.halt(), Err(MachineError::InputFailed)),
    }
}

/// The value that `@` obtains and the machine afterwards. Once the input has
/// been seen to end, the value is zero whatever `event` is.
pub open spec fn obtain(s: MachineState, modulus: nat, event: InputEvent) -> (
    MachineState,
    Result<nat, MachineError>,
) {
    if s.end_of_input {
        (s, Ok(0))
    } else {
        accept(s, modulus, event)
    }
}

/// `@`: pushes one unit of input.
pub open spec fn read_input(s: MachineState, modulus: nat, event: InputEvent) -> Outcome {
    let (t, value) = obtain(s, modulus, event);
    match value {
        Ok(v) => done(t.push(v)),
        Err(error) => Outcome { state: t, written: None, result: Err(error) },
    }
}

/// What the instruction `op` does to a machine whose position is already
/// past it.
pub open spec fn execute(op: u8, s: MachineState, modulus: nat, event: InputEvent) -> Outcome {
    if op == PUSH_CHAR {
        push_char(s)
    } else if op == PUSH_STRING {
        push_string(s)
    } else if op == PUSH_HEX {
        push_hex(s)
    } else if is_jump(op) {
        done(s.skip(jump_distance(op)))
    } else if op == WHILE_OPEN {
        if s.top() == 0 {
            jump_forward(s.pop(), WHILE_OPEN, WHILE_CLOSE)
        } else {
            done(s.pop())
        }
    } else if op == WHILE_CLOSE {
        if s.top() != 0 {
            jump_backward(s.pop(), WHILE_OPEN, WHILE_CLOSE)
        } else {
            done(s.pop())
        }
    } else if op == UNTIL_OPEN {
        if s.top() != 0 {
            jump_forward(s.pop(), UNTIL_OPEN, UNTIL_CLOSE)
        } else {
            done(s.pop())
        }
    } else if op == UNTIL_CLOSE {
        if s.top() == 0 {
            jump_backward(s.pop(), UNTIL_OPEN, UNTIL_CLOSE)
        } else {
            done(s.pop())
        }
    } else if op == HALT {
        done(s.halt())
    } else if op == DUPLICATE {
        done(s.pop().push(s.top()).push(s.top()))
    } else if op == DROP {
        done(s.pop())
    } else if op == STORE {
        done(s.pop().store(s.top()))
    } else if op == LOAD {
        done(s.push(s.cell))
    } else if op == SWAP_VALUES {
        done(s.pop().pop().push(s.top()).push(s.pop().top()))
    } else if op == SWAP_STACKS {
        done(s.exchange())
    } else if op == NOT {
        done(s.pop().push(truth(s.top() == 0)))
    } else if is_binary(op) {
        apply_binary(s, op, modulus)
    } else if op == COMPLEMENT {
        done(s.pop().push(bits_not(s.top(), modulus)))
    } else if op == SKIP_IF_ZERO {
        if s.top() == 0 {
            done(s.pop().skip(1))
        } else {
            done(s.pop())
        }
    } else if op == PRINT {
        Outcome { state: s.pop(), written: Some(output_char(s.top())), result: Ok(()) }
    } else if op == INPUT {
        read_input(s, modulus, event)
    } else {
        fail(s, MachineError::UnknownInstruction(op))
    }
}

/// Whether the next step will ask the input source for a unit.
pub open spec fn awaits_input(s: MachineState) -> bool {
    &&& s.running
    &&& s.position < s.tape.len()
    &&& s.tape[s.position as int] == INPUT
    &&& !s.end_of_input
}

/// One step of the machine. `event` is what the input source hands over if
/// the step asks it; no other step looks at it.
pub open spec fn step(s: MachineState, modulus: nat, event: InputEvent) -> Outcome {
    if !s.running {
        fail(s, MachineError::NotRunning)
    } else if s.position >= s.tape.len() {
        done(s.halt())
    } else {
        execute(s.tape[s.position as int], s.skip(1), modulus, event)
    }
}

/// The output after a step that wrote `written`.
pub open spec fn extended(output: Seq<char>, written: Option<char>) -> Seq<char> {
    match written {
        Some(c) => output.push(c),
        None => output,
    }
}

/// Whether a step that turned the machine `before` into `after` and the
/// output `output_before` into `output_after`, and returned `result`, did
/// what the step on `event` does.
pub open spec fn step_agrees(
    before: MachineState,
    modulus: nat,
    event: InputEvent,
    after: MachineState,
    output_before: Seq<char>,
    output_after: Seq<char>,
    result: Result<(), MachineError>,
) -> bool {
    let outcome = step(before, modulus, event);
    &&& after == outcome.state
    &&& output_after == extended(output_before, outcome.written)
    &&& result == outcome.result
}

/// A machine, its output and the result of its last step.
pub struct Trace {
    pub state: MachineState,
    pub output: Seq<char>,
    pub result: Result<(), MachineError>,
}

/// The machine and its output after one step for each event of `events`, in
/// order. The first step that fails is the last one taken.
pub open spec fn run(
    start: MachineState,
    output: Seq<char>,
    modulus: nat,
    events: Seq<InputEvent>,
) -> Trace
    decreases events.len(),
{
    if events.len() == 0 {
        Trace { state: start, output, result: Ok(()) }
    } else {
        let earlier = run(start, output, modulus, events.drop_last());
        if earlier.result is Err {
            earlier
        } else {
            let outcome = step(earlier.state, modulus, events.last());
            Trace {
                state: outcome.state,
                output: extended(earlier.output, outcome.written),
                result: outcome.result,
            }
        }
    }
}

} // verus!
