//! The machine: a tape, a position, two stacks and a scratch register.

use crate::brackets::{find_close, find_open};
use crate::cell::Cell;
use crate::error::MachineError;
use crate::hex::unhex;
use crate::input::{InputEvent, InputSource};
use crate::model::{
    accept, apply_binary, awaits_input, execute, extended, fail, is_closing_quote,
    jump_backward, jump_forward, obtain, push_char, push_hex, push_string, run, step_agrees,
    zero_extended, MachineState, Outcome, Trace,
};
use crate::opcode::{
    is_binary, AND, COMPLEMENT, DIVIDE, DROP, DUPLICATE, EQUAL, GREATER, HALT, INPUT, JUMP_MAX,
    JUMP_MIN, LESS, LOAD, MINUS, MODULO, NOT, OR, PLUS, PRINT, PUSH_CHAR, PUSH_HEX, PUSH_STRING,
    SKIP_IF_ZERO, STORE, SWAP_STACKS, SWAP_VALUES, TIMES, UNTIL_CLOSE, UNTIL_OPEN, WHILE_CLOSE,
    WHILE_OPEN, XOR,
};
use crate::tape::Tape;
use crate::text::write_char;
use vstd::prelude::*;

verus! {

/// The numbers that a stack of cells holds.
pub open spec fn values<C: Cell>(cells: Seq<C>) -> Seq<nat> {
    cells.map_values(|c: C| c.value())
}

/// The number in a result that holds a cell.
pub open spec fn value_of<C: Cell>(result: Result<C, MachineError>) -> Result<nat, MachineError> {
    match result {
        Ok(c) => Ok(c.value()),
        Err(error) => Err(error),
    }
}

/// Whether a step that wrote nothing, left the machine `after` and returned
/// `result` did what `outcome` says.
pub open spec fn agrees(
    outcome: Outcome,
    after: MachineState,
    result: Result<(), MachineError>,
) -> bool {
    &&& outcome.state == after
    &&& outcome.written is None
    &&& outcome.result == result
}

/// Whether a run that turned the machine `start` into `end` and the output
/// `output_start` into `output_end`, and returned `result`, took one step for
/// each event of `events`: at most `max_steps` steps, each but the last one a
/// success that left the machine running, and as many as the limit allows
/// unless the machine halted or failed.
pub open spec fn run_agrees(
    start: MachineState,
    output_start: Seq<char>,
    modulus: nat,
    events: Seq<InputEvent>,
    max_steps: nat,
    end: MachineState,
    output_end: Seq<char>,
    result: Result<(), MachineError>,
) -> bool {
    &&& events.len() <= max_steps
    &&& run(start, output_start, modulus, events) == (Trace {
        state: end,
        output: output_end,
        result,
    })
    &&& events.len() > 0 ==> {
        let earlier = run(start, output_start, modulus, events.drop_last());
        earlier.result is Ok && earlier.state.running
    }
    &&& result is Ok ==> !end.running || events.len() == max_steps
}

/// A machine with cells of type `C`.
pub struct Computer<C: Cell> {
    pub tape: Tape,
    pub position: usize,
    pub primary: Vec<C>,
    pub secondary: Vec<C>,
    pub running: bool,
    pub cell: C,
    pub has_found_eof: bool,
}

impl<C: Cell> View for Computer<C> {
    type V = MachineState;

    open spec fn view(&self) -> MachineState {
        MachineState {
            tape: self.tape@,
            position: self.position as nat,
            primary: values(self.primary@),
            secondary: values(self.secondary@),
            cell: self.cell.value(),
            running: self.running,
            end_of_input: self.has_found_eof,
        }
    }
}

impl<C: Cell> Computer<C> {
    /// A machine that is ready to run `tape`: at position zero, with empty
    /// stacks and a zero register.
    pub fn new(tape: &[u8]) -> (machine: Self)
        requires
            Tape::fits(tape@.len()),
        ensures
            machine@ == MachineState::initial(tape@),
    {
        let machine = Computer {
            tape: Tape::new(tape),
            position: 0,
            primary: Vec::new(),
            secondary: Vec::new(),
            running: true,
            cell: C::zero(),
            has_found_eof: false,
        };
        assert(machine@.primary =~= Seq::<nat>::empty());
        assert(machine@.secondary =~= Seq::<nat>::empty());
        machine
    }

    /// Pops the primary stack. An empty stack yields zero and stays empty.
    pub fn get(&mut self) -> (value: C)
        ensures
            value.value() == old(self)@.top(),
            final(self)@ == old(self)@.pop(),
            old(self)@.primary.len() == 0 ==> value.value() == 0 && final(self)@ == old(self)@,
            old(self)@.primary.len() > 0 ==> value.value() == old(self)@.primary.last()
                && final(self)@.primary == old(self)@.primary.drop_last(),
    {
        match self.primary.pop() {
            Some(value) => {
                assert(values(self.primary@) =~= values(old(self).primary@).drop_last());
                value
            },
            None => C::zero(),
        }
    }

    /// Pushes `value` on the primary stack.
    fn put(&mut self, value: C)
        ensures
            final(self)@ == old(self)@.push(value.value()),
    {
        self.primary.push(value);
        assert(values(self.primary@) =~= values(old(self).primary@).push(value.value()));
    }

    /// The byte at the position.
    pub fn read_tape(&self) -> (byte: Result<u8, MachineError>)
        ensures
            byte == if self@.position < self@.tape.len() {
                Ok::<u8, MachineError>(self@.tape[self@.position as int])
            } else {
                Err(MachineError::OutOfBounds)
            },
    {
        match self.tape.get(self.position) {
            Some(byte) => Ok(byte),
            None => Err(MachineError::OutOfBounds),
        }
    }

    /// Halts the machine on `error`.
    fn stop(&mut self, error: MachineError) -> (result: Result<(), MachineError>)
        ensures
            agrees(fail(old(self)@, error), final(self)@, result),
    {
        self.running = false;
        Err(error)
    }

    /// Moves the position past the close bracket that ends the block at the
    /// position.
    pub fn find_matching_close(&mut self, open: u8, close: u8) -> (result: Result<
        (),
        MachineError,
    >)
        ensures
            agrees(jump_forward(old(self)@, open, close), final(self)@, result),
    {
        match find_close(self.tape.as_slice(), open, close, self.position) {
            Some(at) => {
                self.position = at + 1;
                Ok(())
            },
            None => {
                self.position = self.tape.len();
                self.stop(MachineError::NoMatchingBracket)
            },
        }
    }

    /// Moves the position back to just after the open bracket that starts
    /// the block whose close bracket is just before the position.
    pub fn find_matching_open(&mut self, open: u8, close: u8) -> (result: Result<(), MachineError>)
        ensures
            agrees(jump_backward(old(self)@, open, close), final(self)@, result),
    {
        let found = if self.position >= 2 {
            find_open(self.tape.as_slice(), open, close, self.position - 2)
        } else {
            proof {
                let from = self.position - 2;
                assert forall|at: int| !crate::brackets::opens_block(
                    self.tape@,
                    open,
                    close,
                    from,
                    at,
                ) by {}
            }
            None
        };
        match found {
            Some(at) => {
                self.position = at + 1;
                Ok(())
            },
            None => {
                self.position = 0;
                self.stop(MachineError::NoMatchingBracket)
            },
        }
    }

    /// Pops the left operand, then the right one, and pushes what the binary
    /// operator `op` makes of them.
    fn do_op(&mut self, op: u8) -> (result: Result<(), MachineError>)
        requires
            is_binary(op),
        ensures
            agrees(apply_binary(old(self)@, op, C::modulus()), final(self)@, result),
    {
        let left = self.get();
        let right = self.get();
        let value = if op == PLUS {
            left.wrapping_sum(right)
        } else if op == MINUS {
            left.wrapping_difference(right)
        } else if op == TIMES {
            left.wrapping_product(right)
        } else if op == DIVIDE {
            if right.is_zero() {
                return self.stop(MachineError::DivisionByZero);
            }
            left.quotient(right)
        } else if op == MODULO {
            if right.is_zero() {
                return self.stop(MachineError::DivisionByZero);
            }
            left.remainder(right)
        } else if op == XOR {
            left.bit_xor(right)
        } else if op == AND {
            left.bit_and(right)
        } else if op == OR {
            left.bit_or(right)
        } else if op == LESS {
            C::from_bool(left.less_than(right))
        } else if op == GREATER {
            C::from_bool(right.less_than(left))
        } else {
            C::from_bool(left.same_as(right))
        };
        self.put(value);
        Ok(())
    }

    /// `'`: pushes the byte at the position.
    fn push_char_literal(&mut self) -> (result: Result<(), MachineError>)
        requires
            old(self).position <= old(self).tape@.len(),
        ensures
            agrees(push_char(old(self)@), final(self)@, result),
    {
        match self.tape.get(self.position) {
            Some(byte) => {
                self.put(C::from_byte(byte));
                self.position = self.position + 1;
                Ok(())
            },
            None => self.stop(MachineError::OutOfBounds),
        }
    }

    /// `"`: pushes the bytes up to the closing quote.
    fn push_string_literal(&mut self) -> (result: Result<(), MachineError>)
        requires
            old(self).position <= old(self).tape@.len(),
        ensures
            agrees(push_string(old(self)@), final(self)@, result),
    {
        let len = self.tape.len();
        let ghost start = self.position as int;
        let ghost before = self@;
        assert(before.tape.subrange(start, start) =~= Seq::<u8>::empty());
        assert(before.primary + zero_extended(Seq::<u8>::empty()) =~= before.primary);
        while self.position < len
            invariant
                before == old(self)@,
                len == before.tape.len(),
                0 <= start == before.position,
                start <= self.position <= len,
                self@ == (MachineState {
                    primary: before.primary + zero_extended(
                        before.tape.subrange(start, self.position as int),
                    ),
                    position: self.position as nat,
                    ..before
                }),
                forall|k: int| start <= k < self.position ==> before.tape[k] != PUSH_STRING,
            decreases len - self.position,
        {
            let byte = self.tape.byte(self.position);
            if byte == PUSH_STRING {
                proof {
                    let at = self.position as int;
                    assert(is_closing_quote(before.tape, start, at));
                    let chosen = choose|c: int| is_closing_quote(before.tape, start, c);
                    assert(chosen == at);
                }
                self.position = self.position + 1;
                return Ok(());
            }
            let ghost pushed = self@.primary;
            self.put(C::from_byte(byte));
            self.position = self.position + 1;
            assert(pushed.push(byte as nat) =~= before.primary + zero_extended(
                before.tape.subrange(start, self.position as int),
            ));
        }
        proof {
            assert forall|at: int| !is_closing_quote(before.tape, start, at) by {}
        }
        self.stop(MachineError::OutOfBounds)
    }

    /// `#`: pushes the byte that two hexadecimal digits spell.
    fn push_hex_literal(&mut self) -> (result: Result<(), MachineError>)
        requires
            old(self).position <= old(self).tape@.len(),
        ensures
            agrees(push_hex(old(self)@), final(self)@, result),
    {
        let high = match self.tape.get(self.position) {
            Some(digit) => match unhex(digit) {
                Ok(value) => value,
                Err(error) => {
                    return self.stop(error);
                },
            },
            None => {
                return self.stop(MachineError::OutOfBounds);
            },
        };
        self.position = self.position + 1;
        let low = match self.tape.get(self.position) {
            Some(digit) => match unhex(digit) {
                Ok(value) => value,
                Err(error) => {
                    return self.stop(error);
                },
            },
            None => {
                return self.stop(MachineError::OutOfBounds);
            },
        };
        self.position = self.position + 1;
        self.put(C::from_byte(high * 16 + low));
        Ok(())
    }

    /// Takes in what the input source handed over when it was asked for one
    /// unit: the value to push, or the error that ends the run.
    pub fn accept_input(&mut self, event: InputEvent) -> (result: Result<C, MachineError>)
        ensures
            (final(self)@, value_of(result)) == accept(old(self)@, C::modulus(), event),
    {
        match event {
            InputEvent::Unit(unit) => Ok(C::from_unit(unit)),
            InputEvent::EndOfStream => {
                self.has_found_eof = true;
                Ok(C::zero())
            },
            InputEvent::Abort => {
                self.running = false;
                Err(MachineError::UserExit)
            },
            InputEvent::Failure => {
                self.running = false;
                Err(MachineError::InputFailed)
            },
        }
    }

    /// Obtains one unit of input. Once the input has been seen to end, the
    /// unit is zero and `input` is not asked again.
    pub fn get_input<I: InputSource>(&mut self, input: &mut I) -> (result: Result<C, MachineError>)
        ensures
            exists|event: InputEvent|
                (final(self)@, value_of(result)) == #[trigger] obtain(
                    old(self)@,
                    C::modulus(),
                    event,
                ),
            old(self)@.end_of_input ==> *final(input) == *old(input) && final(self)@ == old(self)@
                && value_of(result) == Ok::<nat, MachineError>(0),
    {
        if self.has_found_eof {
            let zero = C::zero();
            assert((self@, value_of(Ok::<C, MachineError>(zero))) == obtain(
                old(self)@,
                C::modulus(),
                InputEvent::EndOfStream,
            ));
            return Ok(zero);
        }
        let event = input.next_event();
        let result = self.accept_input(event);
        assert((self@, value_of(result)) == obtain(old(self)@, C::modulus(), event));
        result
    }

    /// Takes one step: reads the instruction at the position and carries it
    /// out.
    ///
    /// A machine that is not running fails with `NotRunning`. A running
    /// machine whose position is at or past the end of the tape halts, which
    /// is a success. Every error halts the machine and leaves the stacks as
    /// they were when it struck. `input` is asked for one event by `@`, and
    /// only while the input has not been seen to end.
    pub fn step<I: InputSource>(&mut self, input: &mut I, output: &mut String) -> (result: Result<
        (),
        MachineError,
    >)
        ensures
            exists|event: InputEvent|
                step_agrees(
                    old(self)@,
                    C::modulus(),
                    event,
                    final(self)@,
                    old(output)@,
                    final(output)@,
                    result,
                ),
            !awaits_input(old(self)@) ==> *final(input) == *old(input),
            !awaits_input(old(self)@) ==> forall|event: InputEvent|
                step_agrees(
                    old(self)@,
                    C::modulus(),
                    event,
                    final(self)@,
                    old(output)@,
                    final(output)@,
                    result,
                ),
    {
        let ghost before = self@;
        let ghost written = output@;
        let ghost modulus = C::modulus();
        let ghost unread = InputEvent::EndOfStream;
        if !self.running {
            let result = Err(MachineError::NotRunning);
            assert(before.halt() == before);
            assert(forall|event: InputEvent|
                step_agrees(before, modulus, event, self@, written, output@, result));
            assert(step_agrees(before, modulus, unread, self@, written, output@, result));
            return result;
        }
        let len = self.tape.len();
        if self.position >= len {
            self.running = false;
            assert(forall|event: InputEvent|
                step_agrees(before, modulus, event, self@, written, output@, Ok(())));
            assert(step_agrees(before, modulus, unread, self@, written, output@, Ok(())));
            return Ok(());
        }
        let instruction = self.tape.byte(self.position);
        self.position = self.position + 1;
        let ghost fetched = self@;
        assert(fetched == before.skip(1));
        if instruction == INPUT {
            let value = match self.get_input(input) {
                Ok(value) => value,
                Err(error) => {
                    let ghost event = choose|event: InputEvent|
                        (self@, Err::<nat, MachineError>(error)) == #[trigger] obtain(
                            fetched,
                            modulus,
                            event,
                        );
                    assert(step_agrees(
                        before,
                        modulus,
                        event,
                        self@,
                        written,
                        output@,
                        Err(error),
                    ));
                    return Err(error);
                },
            };
            let ghost obtained = self@;
            self.put(value);
            proof {
                let event = choose|event: InputEvent|
                    (obtained, Ok::<nat, MachineError>(value.value())) == #[trigger] obtain(
                        fetched,
                        modulus,
                        event,
                    );
                assert(step_agrees(before, modulus, event, self@, written, output@, Ok(())));
                if !awaits_input(before) {
                    assert(forall|other: InputEvent|
                        step_agrees(before, modulus, other, self@, written, output@, Ok(())));
                }
            }
            return Ok(());
        }
        let result = if instruction == PUSH_CHAR {
            self.push_char_literal()
        } else if instruction == PUSH_STRING {
            self.push_string_literal()
        } else if instruction == PUSH_HEX {
            self.push_hex_literal()
        } else if JUMP_MIN <= instruction && instruction <= JUMP_MAX {
            self.position = self.position + (instruction - 0x30) as usize;
            Ok(())
        } else if instruction == WHILE_OPEN {
            if self.get().is_zero() {
                self.find_matching_close(WHILE_OPEN, WHILE_CLOSE)
            } else {
                Ok(())
            }
        } else if instruction == WHILE_CLOSE {
            if !self.get().is_zero() {
                self.find_matching_open(WHILE_OPEN, WHILE_CLOSE)
            } else {
                Ok(())
            }
        } else if instruction == UNTIL_OPEN {
            if !self.get().is_zero() {
                self.find_matching_close(UNTIL_OPEN, UNTIL_CLOSE)
            } else {
                Ok(())
            }
        } else if instruction == UNTIL_CLOSE {
            if self.get().is_zero() {
                self.find_matching_open(UNTIL_OPEN, UNTIL_CLOSE)
            } else {
                Ok(())
            }
        } else if instruction == HALT {
            self.running = false;
            Ok(())
        } else if instruction == DUPLICATE {
            let value = self.get();
            self.put(value);
            self.put(value);
            Ok(())
        } else if instruction == DROP {
            self.get();
            Ok(())
        } else if instruction == STORE {
            self.cell = self.get();
            Ok(())
        } else if instruction == LOAD {
            self.put(self.cell);
            Ok(())
        } else if instruction == SWAP_VALUES {
            let a = self.get();
            let b = self.get();
            self.put(a);
            self.put(b);
            Ok(())
        } else if instruction == SWAP_STACKS {
            std::mem::swap(&mut self.primary, &mut self.secondary);
            Ok(())
        } else if instruction == NOT {
            let value = self.get();
            self.put(C::from_bool(value.is_zero()));
            Ok(())
        } else if instruction == LESS || instruction == GREATER || instruction == EQUAL
            || instruction == PLUS || instruction == MINUS || instruction == TIMES || instruction
            == DIVIDE || instruction == MODULO || instruction == XOR || instruction == AND
            || instruction == OR {
            self.do_op(instruction)
        } else if instruction == COMPLEMENT {
            let value = self.get();
            self.put(value.complement());
            Ok(())
        } else if instruction == SKIP_IF_ZERO {
            if self.get().is_zero() {
                self.position = self.position + 1;
            }
            Ok(())
        } else if instruction == PRINT {
            let value = self.get();
            write_char(output, value.low_byte() as char);
            Ok(())
        } else {
            self.stop(MachineError::UnknownInstruction(instruction))
        };
        proof {
            let outcome = execute(instruction, fetched, modulus, unread);
            assert(self@ == outcome.state);
            assert(result == outcome.result);
            assert(output@ == extended(written, outcome.written));
            assert forall|event: InputEvent|
                step_agrees(before, modulus, event, self@, written, output@, result) by {
                assert(execute(instruction, fetched, modulus, event) == outcome);
            }
            assert(step_agrees(before, modulus, unread, self@, written, output@, result));
        }
        result
    }

    /// Steps the machine until it halts, a step fails or `max_steps` steps
    /// have been taken, and returns the first error.
    ///
    /// After `Ok` the machine has halted unless the steps ran out. The
    /// machine is always running before a step is taken, so no step fails
    /// with `NotRunning`.
    pub fn run<I: InputSource>(
        &mut self,
        input: &mut I,
        output: &mut String,
        max_steps: u64,
    ) -> (result: Result<(), MachineError>)
        ensures
            exists|events: Seq<InputEvent>|
                run_agrees(
                    old(self)@,
                    old(output)@,
                    C::modulus(),
                    events,
                    max_steps as nat,
                    final(self)@,
                    final(output)@,
                    result,
                ),
            old(self)@.end_of_input ==> *final(input) == *old(input),
    {
        let ghost start = self@;
        let ghost written = output@;
        let ghost modulus = C::modulus();
        let ghost mut events: Seq<InputEvent> = Seq::empty();
        let mut steps: u64 = 0;
        while self.running && steps < max_steps
            invariant
                start == old(self)@,
                written == old(output)@,
                modulus == C::modulus(),
                steps == events.len(),
                steps <= max_steps,
                run(start, written, modulus, events) == (Trace {
                    state: self@,
                    output: output@,
                    result: Ok(()),
                }),
                start.end_of_input ==> self@.end_of_input && *input == *old(input),
            decreases max_steps - steps,
        {
            let ghost state = self@;
            let ghost text = output@;
            let ghost earlier = events;
            let result = self.step(input, output);
            proof {
                let event = choose|event: InputEvent|
                    step_agrees(state, modulus, event, self@, text, output@, result);
                events = earlier.push(event);
                assert(events.drop_last() =~= earlier);
                assert(events.last() == event);
            }
            steps = steps + 1;
            if let Err(error) = result {
                assert(run_agrees(
                    start,
                    written,
                    modulus,
                    events,
                    max_steps as nat,
                    self@,
                    output@,
                    result,
                ));
                return Err(error);
            }
        }
        assert(run_agrees(
            start,
            written,
            modulus,
            events,
            max_steps as nat,
            self@,
            output@,
            Ok(()),
        ));
        Ok(())
    }
}

} // verus!
