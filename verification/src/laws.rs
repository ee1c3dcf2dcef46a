//! What holds of every machine, whatever its tape and its stacks.

use crate::brackets::{
    closes_block, lemma_backward_scan_returns, lemma_close_is_unique, matching_close,
    matching_open,
};
use crate::cell::wrap;
use crate::error::MachineError;
use crate::input::InputEvent;
use crate::model::{
    awaits_input, binary_result, closing_quote, done, is_closing_quote, step, MachineState,
};
use crate::opcode::{
    INPUT, MINUS, PLUS, PUSH_STRING, TIMES, UNTIL_CLOSE, UNTIL_OPEN, WHILE_CLOSE, WHILE_OPEN,
};
use vstd::prelude::*;

verus! {

/// Sums, differences and products wrap around: each is the exact result
/// reduced modulo the modulus of the cell type, and never fails.
pub proof fn lemma_arithmetic_wraps(left: nat, right: nat, modulus: nat)
    requires
        modulus > 0,
    ensures
        binary_result(PLUS, left, right, modulus) is Some,
        binary_result(MINUS, left, right, modulus) is Some,
        binary_result(TIMES, left, right, modulus) is Some,
        binary_result(PLUS, left, right, modulus).unwrap() == ((left + right) as int) % (modulus as int),
        binary_result(MINUS, left, right, modulus).unwrap() == (left - right) % (modulus as int),
        binary_result(TIMES, left, right, modulus).unwrap() == ((left * right) as int) % (modulus as int),
        binary_result(PLUS, left, right, modulus).unwrap() < modulus,
        binary_result(MINUS, left, right, modulus).unwrap() < modulus,
        binary_result(TIMES, left, right, modulus).unwrap() < modulus,
        left + right < modulus ==> binary_result(PLUS, left, right, modulus) == Some(left + right),
        right <= left < modulus ==> binary_result(MINUS, left, right, modulus) == Some(
            (left - right) as nat,
        ),
        left < right <= modulus ==> binary_result(MINUS, left, right, modulus) == Some(
            (left - right + modulus) as nat,
        ),
{
    assert(wrap((left + right) as int, modulus) < modulus);
    assert(wrap(left - right, modulus) < modulus);
    assert(wrap((left * right) as int, modulus) < modulus);
    if left < right <= modulus {
        assert((left - right) % (modulus as int) == left - right + modulus) by {
            vstd::arithmetic::div_mod::lemma_small_mod((left - right + modulus) as nat, modulus);
            vstd::arithmetic::div_mod::lemma_mod_add_multiples_vanish(left - right, modulus as int);
        }
    }
    if right <= left < modulus {
        vstd::arithmetic::div_mod::lemma_small_mod((left - right) as nat, modulus);
    }
    if left + right < modulus {
        vstd::arithmetic::div_mod::lemma_small_mod(left + right, modulus);
    }
}

/// A pop of an empty stack yields zero and leaves the machine as it was.
pub proof fn lemma_empty_pop(s: MachineState)
    requires
        s.primary.len() == 0,
    ensures
        s.top() == 0,
        s.pop() == s,
{
}

/// No step changes the tape.
pub proof fn lemma_tape_is_constant(s: MachineState, modulus: nat, event: InputEvent)
    ensures
        step(s, modulus, event).state.tape == s.tape,
{
}

/// Every error halts the machine, and a halted machine stays halted.
pub proof fn lemma_errors_halt(s: MachineState, modulus: nat, event: InputEvent)
    ensures
        step(s, modulus, event).result is Err ==> !step(s, modulus, event).state.running,
        !s.running ==> step(s, modulus, event).result == Err::<(), MachineError>(
            MachineError::NotRunning,
        ) && step(s, modulus, event).state == s,
{
    if !s.running {
        assert(s.halt() == s);
    }
}

/// A running machine whose position is at or past the end of the tape halts
/// cleanly.
pub proof fn lemma_end_of_tape_halts(s: MachineState, modulus: nat, event: InputEvent)
    requires
        s.running,
        s.position >= s.tape.len(),
    ensures
        step(s, modulus, event) == done(s.halt()),
{
}

/// A `[` ... `]` block runs while the value popped at its brackets is not
/// zero. At the `[` a zero moves the position past the matching `]` and any
/// other value enters the body; at the `]` a zero leaves the block and any
/// other value goes back to the first instruction of the body.
pub proof fn lemma_while_block(
    s: MachineState,
    modulus: nat,
    event: InputEvent,
    start: int,
    end: int,
)
    requires
        s.running,
        0 <= start,
        s.tape[start] == WHILE_OPEN,
        closes_block(s.tape, WHILE_OPEN, WHILE_CLOSE, start + 1, end),
    ensures
        s.position == start && s.top() == 0 ==> step(s, modulus, event) == done(
            s.pop().goto((end + 1) as nat),
        ),
        s.position == start && s.top() != 0 ==> step(s, modulus, event) == done(
            s.pop().goto((start + 1) as nat),
        ),
        s.position == end && s.top() != 0 ==> step(s, modulus, event) == done(
            s.pop().goto((start + 1) as nat),
        ),
        s.position == end && s.top() == 0 ==> step(s, modulus, event) == done(
            s.pop().goto((end + 1) as nat),
        ),
{
    lemma_block_scans(s.tape, WHILE_OPEN, WHILE_CLOSE, start, end);
    if s.position == start {
        assert(s.skip(1).pop().position == start + 1);
    }
    if s.position == end {
        assert(s.skip(1).pop().position - 2 == end - 1);
    }
}

/// A `(` ... `)` block runs while the value popped at its brackets is zero:
/// the mirror image of `[` ... `]`.
pub proof fn lemma_until_block(
    s: MachineState,
    modulus: nat,
    event: InputEvent,
    start: int,
    end: int,
)
    requires
        s.running,
        0 <= start,
        s.tape[start] == UNTIL_OPEN,
        closes_block(s.tape, UNTIL_OPEN, UNTIL_CLOSE, start + 1, end),
    ensures
        s.position == start && s.top() != 0 ==> step(s, modulus, event) == done(
            s.pop().goto((end + 1) as nat),
        ),
        s.position == start && s.top() == 0 ==> step(s, modulus, event) == done(
            s.pop().goto((start + 1) as nat),
        ),
        s.position == end && s.top() == 0 ==> step(s, modulus, event) == done(
            s.pop().goto((start + 1) as nat),
        ),
        s.position == end && s.top() != 0 ==> step(s, modulus, event) == done(
            s.pop().goto((end + 1) as nat),
        ),
{
    lemma_block_scans(s.tape, UNTIL_OPEN, UNTIL_CLOSE, start, end);
    if s.position == start {
        assert(s.skip(1).pop().position == start + 1);
    }
    if s.position == end {
        assert(s.skip(1).pop().position - 2 == end - 1);
    }
}

/// Both scans of a block find its other bracket.
proof fn lemma_block_scans(tape: Seq<u8>, open: u8, close: u8, start: int, end: int)
    requires
        0 <= start,
        tape[start] == open,
        closes_block(tape, open, close, start + 1, end),
    ensures
        matching_close(tape, open, close, start + 1) == Some(end),
        matching_open(tape, open, close, end - 1) == Some(start),
{
    let from = start + 1;
    let found = choose|at: int| closes_block(tape, open, close, from, at);
    lemma_close_is_unique(tape, open, close, from, found, end);
    lemma_backward_scan_returns(tape, open, close, start, end);
}

/// A loop instruction that has to jump and has no matching bracket fails
/// with `NoMatchingBracket`.
pub proof fn lemma_unmatched_bracket(s: MachineState, modulus: nat, event: InputEvent)
    requires
        s.running,
        s.position < s.tape.len(),
    ensures
        s.tape[s.position as int] == WHILE_OPEN && s.top() == 0 && matching_close(
            s.tape,
            WHILE_OPEN,
            WHILE_CLOSE,
            s.position as int + 1,
        ) is None ==> step(s, modulus, event).result == Err::<(), MachineError>(
            MachineError::NoMatchingBracket,
        ),
        s.tape[s.position as int] == UNTIL_OPEN && s.top() != 0 && matching_close(
            s.tape,
            UNTIL_OPEN,
            UNTIL_CLOSE,
            s.position as int + 1,
        ) is None ==> step(s, modulus, event).result == Err::<(), MachineError>(
            MachineError::NoMatchingBracket,
        ),
        s.tape[s.position as int] == WHILE_CLOSE && s.top() != 0 && matching_open(
            s.tape,
            WHILE_OPEN,
            WHILE_CLOSE,
            s.position - 1,
        ) is None ==> step(s, modulus, event).result == Err::<(), MachineError>(
            MachineError::NoMatchingBracket,
        ),
        s.tape[s.position as int] == UNTIL_CLOSE && s.top() == 0 && matching_open(
            s.tape,
            UNTIL_OPEN,
            UNTIL_CLOSE,
            s.position - 1,
        ) is None ==> step(s, modulus, event).result == Err::<(), MachineError>(
            MachineError::NoMatchingBracket,
        ),
{
    let t = s.skip(1).pop();
    assert(t.position as int == s.position + 1);
    assert(t.position - 2 == s.position - 1);
    assert(t.tape == s.tape);
}

/// A string literal that the tape ends in the middle of fails with
/// `OutOfBounds`, after every byte of it was pushed.
pub proof fn lemma_unterminated_string(s: MachineState, modulus: nat, event: InputEvent)
    requires
        s.running,
        s.position < s.tape.len(),
        s.tape[s.position as int] == PUSH_STRING,
        forall|k: int| s.position < k < s.tape.len() ==> s.tape[k] != PUSH_STRING,
    ensures
        step(s, modulus, event).result == Err::<(), MachineError>(MachineError::OutOfBounds),
        step(s, modulus, event).state.position == s.tape.len(),
        step(s, modulus, event).state.primary.len() == s.primary.len() + s.tape.len() - s.position
            - 1,
{
    let from = s.position as int + 1;
    assert forall|at: int| !is_closing_quote(s.tape, from, at) by {}
    assert(closing_quote(s.tape, from) is None);
    assert(s.skip(1).position == from);
}

/// Once the input has been seen to end it stays so, and every `@` pushes
/// zero whatever the input source would hand over.
pub proof fn lemma_input_stays_ended(s: MachineState, modulus: nat, event: InputEvent)
    requires
        s.end_of_input,
    ensures
        step(s, modulus, event).state.end_of_input,
        !awaits_input(s),
        s.running && s.position < s.tape.len() && s.tape[s.position as int] == INPUT ==> step(
            s,
            modulus,
            event,
        ) == done(s.skip(1).push(0)),
{
}

/// A step that does not ask for input is the same whatever the event.
pub proof fn lemma_event_is_ignored(
    s: MachineState,
    modulus: nat,
    event: InputEvent,
    other: InputEvent,
)
    requires
        !awaits_input(s),
    ensures
        step(s, modulus, event) == step(s, modulus, other),
{
}

} // verus!
