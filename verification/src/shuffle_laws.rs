//! What the generated code does when the machine runs it.
//!
//! The code generator writes stack shuffles in front of an instruction. The
//! laws here say what those shuffles do to a machine, step by step, so that
//! the translation of a mnemonic can be held against its meaning.

use crate::codegen::{
    carry_over, fetch, fetch_top, on_primary, swap_if, with_one_target, with_two_targets,
};
use crate::error::MachineError;
use crate::hex::hex_pair_value;
use crate::lexer::{
    binary_value, byte_literal, is_binary_literal, is_digit, lexeme, word_token,
};
use crate::input::InputEvent;
use crate::model::{awaits_input, binary_result, run, step, MachineState, Trace};
use crate::opcode::{is_binary, LOAD, PUSH_CHAR, PUSH_HEX, STORE, SWAP_STACKS, SWAP_VALUES};
use crate::token::{BinaryOp, SpecToken, Target};
use vstd::prelude::*;

verus! {

/// The machine after `steps` steps, if every one of them succeeds, writes
/// nothing and asks for no input.
#[verifier::opaque]
pub open spec fn quietly(s: MachineState, modulus: nat, steps: nat) -> Option<MachineState>
    decreases steps,
{
    if steps == 0 {
        Some(s)
    } else {
        match quietly(s, modulus, (steps - 1) as nat) {
            Some(t) => {
                let outcome = step(t, modulus, InputEvent::EndOfStream);
                if t.running && !awaits_input(t) && outcome.result is Ok && outcome.written
                    is None {
                    Some(outcome.state)
                } else {
                    None
                }
            },
            None => None,
        }
    }
}

/// Whether the running machine `s` is about to execute `code`.
pub open spec fn code_at(s: MachineState, code: Seq<u8>) -> bool {
    &&& s.running
    &&& s.position + code.len() <= s.tape.len()
    &&& forall|k: int| 0 <= k < code.len() ==> s.tape[s.position + k] == #[trigger] code[k]
}

/// Steps taken one after the other add up.
pub proof fn lemma_quietly_adds(s: MachineState, modulus: nat, first: nat, second: nat)
    requires
        quietly(s, modulus, first) is Some,
    ensures
        quietly(s, modulus, first + second) == quietly(
            quietly(s, modulus, first)->Some_0,
            modulus,
            second,
        ),
    decreases second,
{
    reveal_with_fuel(quietly, 2);
    if second > 0 {
        lemma_quietly_adds(s, modulus, first, (second - 1) as nat);
        assert((first + second - 1) as nat == first + (second - 1) as nat);
    }
}

/// A machine that is about to execute two pieces of code is about to execute
/// the first, and a machine that has the same tape and is past the first is
/// about to execute the second.
pub proof fn lemma_code_splits(s: MachineState, t: MachineState, first: Seq<u8>, second: Seq<u8>)
    requires
        code_at(s, first + second),
        t.tape == s.tape,
        t.running,
        t.position == s.position + first.len(),
    ensures
        code_at(s, first),
        code_at(t, second),
{
    let whole = first + second;
    assert forall|k: int| 0 <= k < first.len() implies s.tape[s.position + k]
        == #[trigger] first[k] by {
        assert(whole[k] == first[k]);
    }
    assert forall|k: int| 0 <= k < second.len() implies t.tape[t.position + k]
        == #[trigger] second[k] by {
        assert(whole[first.len() + k] == second[k]);
    }
}

/// The machine `s` with its position moved by `distance` and its stacks and
/// register replaced.
pub open spec fn moved(
    s: MachineState,
    distance: nat,
    primary: Seq<nat>,
    secondary: Seq<nat>,
    cell: nat,
) -> MachineState {
    MachineState { position: s.position + distance, primary, secondary, cell, ..s }
}

/// A stack without its top. An empty stack stays empty.
pub open spec fn below(stack: Seq<nat>) -> Seq<nat> {
    if stack.len() == 0 {
        stack
    } else {
        stack.drop_last()
    }
}

/// The top of a stack, or zero where the stack is empty.
pub open spec fn top_of(stack: Seq<nat>) -> nat {
    if stack.len() == 0 {
        0
    } else {
        stack.last()
    }
}

/// One step of a machine that is about to execute `op`, an instruction that
/// neither writes nor reads.
proof fn lemma_one_step(s: MachineState, modulus: nat, op: u8)
    requires
        s.running,
        s.position < s.tape.len(),
        s.tape[s.position as int] == op,
        op == LOAD || op == STORE || op == SWAP_STACKS || op == SWAP_VALUES,
    ensures
        quietly(s, modulus, 1) == Some(step(s, modulus, InputEvent::EndOfStream).state),
        op == LOAD ==> step(s, modulus, InputEvent::EndOfStream).state == moved(
            s,
            1,
            s.primary.push(s.cell),
            s.secondary,
            s.cell,
        ),
        op == STORE ==> step(s, modulus, InputEvent::EndOfStream).state == moved(
            s,
            1,
            below(s.primary),
            s.secondary,
            top_of(s.primary),
        ),
        op == SWAP_STACKS ==> step(s, modulus, InputEvent::EndOfStream).state == moved(
            s,
            1,
            s.secondary,
            s.primary,
            s.cell,
        ),
        op == SWAP_VALUES ==> step(s, modulus, InputEvent::EndOfStream).state == moved(
            s,
            1,
            below(below(s.primary)).push(top_of(s.primary)).push(top_of(below(s.primary))),
            s.secondary,
            s.cell,
        ),
{
    reveal_with_fuel(quietly, 2);
    let t = s.skip(1);
    assert(t.primary == s.primary);
    if op == SWAP_VALUES {
        assert(t.pop().primary =~= below(s.primary));
        assert(t.pop().pop().primary =~= below(below(s.primary)));
    }
    if op == STORE {
        assert(t.pop().primary =~= below(s.primary));
    }
}

/// `}x{X}X{X` moves the top of the primary stack to the top of the secondary
/// stack and exchanges the stacks; the scratch register ends as it began.
pub proof fn lemma_carry_over(s: MachineState, modulus: nat)
    requires
        code_at(s, carry_over()),
    ensures
        quietly(s, modulus, 8) == Some(
            moved(s, 8, s.secondary.push(top_of(s.primary)), below(s.primary), s.cell),
        ),
{
    let code = carry_over();
    let p = s.primary;
    let q = s.secondary;
    let c = s.cell;
    let v = top_of(p);
    assert(code[0] == LOAD && code[1] == SWAP_VALUES && code[2] == STORE && code[3] == SWAP_STACKS
        && code[4] == LOAD && code[5] == SWAP_STACKS && code[6] == STORE && code[7]
        == SWAP_STACKS);
    let t1 = moved(s, 1, p.push(c), q, c);
    let t2 = moved(s, 2, below(p).push(c).push(v), q, c);
    let t3 = moved(s, 3, below(p).push(c), q, v);
    let t4 = moved(s, 4, q, below(p).push(c), v);
    let t5 = moved(s, 5, q.push(v), below(p).push(c), v);
    let t6 = moved(s, 6, below(p).push(c), q.push(v), v);
    let t7 = moved(s, 7, below(p), q.push(v), c);
    let t8 = moved(s, 8, q.push(v), below(p), c);
    assert(s.tape[s.position as int + 0] == code[0]);
    lemma_one_step(s, modulus, LOAD);
    assert(quietly(s, modulus, 1) == Some(t1));
    assert(t1.tape[t1.position as int] == code[1]);
    lemma_one_step(t1, modulus, SWAP_VALUES);
    assert(below(below(p.push(c))).push(top_of(p.push(c))).push(top_of(below(p.push(c))))
        =~= below(p).push(c).push(v)) by {
        assert(below(p.push(c)) =~= p);
    }
    lemma_quietly_adds(s, modulus, 1, 1);
    assert(quietly(s, modulus, 2) == Some(t2));
    assert(t2.tape[t2.position as int] == code[2]);
    lemma_one_step(t2, modulus, STORE);
    assert(below(t2.primary) =~= below(p).push(c));
    lemma_quietly_adds(s, modulus, 2, 1);
    assert(quietly(s, modulus, 3) == Some(t3));
    assert(t3.tape[t3.position as int] == code[3]);
    lemma_one_step(t3, modulus, SWAP_STACKS);
    lemma_quietly_adds(s, modulus, 3, 1);
    assert(quietly(s, modulus, 4) == Some(t4));
    assert(t4.tape[t4.position as int] == code[4]);
    lemma_one_step(t4, modulus, LOAD);
    lemma_quietly_adds(s, modulus, 4, 1);
    assert(quietly(s, modulus, 5) == Some(t5));
    assert(t5.tape[t5.position as int] == code[5]);
    lemma_one_step(t5, modulus, SWAP_STACKS);
    lemma_quietly_adds(s, modulus, 5, 1);
    assert(quietly(s, modulus, 6) == Some(t6));
    assert(t6.tape[t6.position as int] == code[6]);
    lemma_one_step(t6, modulus, STORE);
    assert(below(t6.primary) =~= below(p));
    lemma_quietly_adds(s, modulus, 6, 1);
    assert(quietly(s, modulus, 7) == Some(t7));
    assert(t7.tape[t7.position as int] == code[7]);
    lemma_one_step(t7, modulus, SWAP_STACKS);
    lemma_quietly_adds(s, modulus, 7, 1);
    assert(quietly(s, modulus, 8) == Some(t8));
}

/// Two runs of quiet steps, one after the other, are one run.
proof fn lemma_chain(
    s: MachineState,
    modulus: nat,
    first: nat,
    t: MachineState,
    second: nat,
    u: MachineState,
)
    requires
        quietly(s, modulus, first) == Some(t),
        quietly(t, modulus, second) == Some(u),
    ensures
        quietly(s, modulus, first + second) == Some(u),
{
    lemma_quietly_adds(s, modulus, first, second);
}

/// The stack with its two topmost values in the other order.
pub open spec fn swapped(stack: Seq<nat>) -> Seq<nat> {
    below(below(stack)).push(top_of(stack)).push(top_of(below(stack)))
}

/// `x`, where it is wanted, swaps the two topmost values of the primary
/// stack.
pub proof fn lemma_swap_if(s: MachineState, modulus: nat, wanted: bool)
    requires
        code_at(s, swap_if(wanted)),
    ensures
        quietly(s, modulus, swap_if(wanted).len()) == Some(
            if wanted {
                moved(s, 1, swapped(s.primary), s.secondary, s.cell)
            } else {
                s
            },
        ),
{
    reveal_with_fuel(quietly, 1);
    if wanted {
        assert(swap_if(wanted)[0] == SWAP_VALUES);
        assert(s.tape[s.position as int + 0] == SWAP_VALUES);
        lemma_one_step(s, modulus, SWAP_VALUES);
    }
}

/// A binary operator pops the left operand, then the right one, and pushes
/// the result.
pub proof fn lemma_operator(s: MachineState, modulus: nat, op: u8)
    requires
        is_binary(op),
        code_at(s, seq![op]),
        binary_result(op, top_of(s.primary), top_of(below(s.primary)), modulus) is Some,
    ensures
        quietly(s, modulus, 1) == Some(
            moved(
                s,
                1,
                below(below(s.primary)).push(
                    binary_result(
                        op,
                        top_of(s.primary),
                        top_of(below(s.primary)),
                        modulus,
                    )->Some_0,
                ),
                s.secondary,
                s.cell,
            ),
        ),
{
    reveal_with_fuel(quietly, 2);
    assert(seq![op][0] == op);
    assert(s.tape[s.position as int + 0] == op);
    let t = s.skip(1);
    assert(t.primary == s.primary);
    assert(t.pop().primary =~= below(s.primary));
    assert(t.pop().pop().primary =~= below(below(s.primary)));
}

/// The operators that the assembler treats as symmetric give the same
/// result when their operands change places.
pub proof fn lemma_symmetric(op: BinaryOp, left: nat, right: nat, modulus: nat)
    requires
        op.spec_is_symmetric(),
    ensures
        binary_result(op.spec_opcode(), left, right, modulus) == binary_result(
            op.spec_opcode(),
            right,
            left,
            modulus,
        ),
{
    let a = left as u32;
    let b = right as u32;
    assert(a & b == b & a) by (bit_vector);
    assert(a | b == b | a) by (bit_vector);
    assert(a ^ b == b ^ a) by (bit_vector);
    assert(left * right == right * left) by (nonlinear_arith);
}

/// Whether the stacks of `s` are deep enough to hold a value at `target`.
pub open spec fn holds(s: MachineState, target: Target) -> bool {
    match target {
        Target::P1 => s.primary.len() >= 1,
        Target::P2 => s.primary.len() >= 2,
        Target::S1 => s.secondary.len() >= 1,
        Target::S2 => s.secondary.len() >= 2,
    }
}

/// The value that `target` names.
pub open spec fn value_at(s: MachineState, target: Target) -> nat
    recommends
        holds(s, target),
{
    match target {
        Target::P1 => s.primary[s.primary.len() - 1],
        Target::P2 => s.primary[s.primary.len() - 2],
        Target::S1 => s.secondary[s.secondary.len() - 1],
        Target::S2 => s.secondary[s.secondary.len() - 2],
    }
}

/// A stack without its top where `first`, and without the value below its
/// top where `second`.
pub open spec fn stack_without(stack: Seq<nat>, first: bool, second: bool) -> Seq<nat> {
    if first && second {
        stack.take(stack.len() - 2)
    } else if first {
        stack.drop_last()
    } else if second {
        stack.remove(stack.len() - 2)
    } else {
        stack
    }
}

/// The machine without the values that `a` and `b` name.
pub open spec fn without(s: MachineState, a: Target, b: Target) -> MachineState {
    MachineState {
        primary: stack_without(
            s.primary,
            a == Target::P1 || b == Target::P1,
            a == Target::P2 || b == Target::P2,
        ),
        secondary: stack_without(
            s.secondary,
            a == Target::S1 || b == Target::S1,
            a == Target::S2 || b == Target::S2,
        ),
        ..s
    }
}

/// The machine after the value at `target` was fetched by `steps` steps.
pub open spec fn fetched(s: MachineState, target: Target, steps: nat) -> MachineState {
    without(s, target, target).push(value_at(s, target)).skip(steps)
}

proof fn lemma_fetch_from_top(s: MachineState, modulus: nat)
    requires
        code_at(s, fetch_top()),
        holds(s, Target::S1),
    ensures
        quietly(s, modulus, 9) == Some(fetched(s, Target::S1, 9)),
{
    let code = fetch_top();
    assert(code[0] == SWAP_STACKS);
    assert(s.tape[s.position as int + 0] == SWAP_STACKS);
    lemma_one_step(s, modulus, SWAP_STACKS);
    let t = moved(s, 1, s.secondary, s.primary, s.cell);
    assert(code =~= seq![SWAP_STACKS] + carry_over());
    lemma_code_splits(s, t, seq![SWAP_STACKS], carry_over());
    lemma_carry_over(t, modulus);
    let u = moved(t, 8, t.secondary.push(top_of(t.primary)), below(t.primary), t.cell);
    lemma_chain(s, modulus, 1, t, 8, u);
    let goal = fetched(s, Target::S1, 9);
    assert(u.primary =~= goal.primary);
    assert(u.secondary =~= goal.secondary);
}

proof fn lemma_fetch_from_below(s: MachineState, modulus: nat)
    requires
        code_at(s, fetch(Target::S2)),
        holds(s, Target::S2),
    ensures
        quietly(s, modulus, 10) == Some(fetched(s, Target::S2, 10)),
{
    let code = fetch(Target::S2);
    assert(code =~= seq![SWAP_STACKS] + (seq![SWAP_VALUES] + carry_over()));
    assert(code[0] == SWAP_STACKS);
    assert(s.tape[s.position as int + 0] == SWAP_STACKS);
    lemma_one_step(s, modulus, SWAP_STACKS);
    let t = moved(s, 1, s.secondary, s.primary, s.cell);
    lemma_code_splits(s, t, seq![SWAP_STACKS], seq![SWAP_VALUES] + carry_over());
    let t2 = moved(t, 1, swapped(t.primary), t.secondary, t.cell);
    lemma_code_splits(t, t2, seq![SWAP_VALUES], carry_over());
    assert(seq![SWAP_VALUES] =~= swap_if(true));
    lemma_swap_if(t, modulus, true);
    lemma_chain(s, modulus, 1, t, 1, t2);
    lemma_carry_over(t2, modulus);
    let u = moved(t2, 8, t2.secondary.push(top_of(t2.primary)), below(t2.primary), t2.cell);
    lemma_chain(s, modulus, 2, t2, 8, u);
    let goal = fetched(s, Target::S2, 10);
    assert(u.primary =~= goal.primary);
    assert(u.secondary =~= goal.secondary);
}

/// The code that fetches a value brings it to the top of the primary stack,
/// takes it from where it was and leaves everything else as it was.
pub proof fn lemma_fetch(s: MachineState, modulus: nat, target: Target)
    requires
        code_at(s, fetch(target)),
        holds(s, target),
    ensures
        quietly(s, modulus, fetch(target).len()) == Some(fetched(s, target, fetch(target).len())),
{
    match target {
        Target::P1 => {
            reveal_with_fuel(quietly, 1);
            assert(fetched(s, target, 0).primary =~= s.primary);
        },
        Target::P2 => {
            assert(fetch(target) =~= swap_if(true));
            lemma_swap_if(s, modulus, true);
            assert(swapped(s.primary) =~= fetched(s, target, 1).primary);
        },
        Target::S1 => {
            lemma_fetch_from_top(s, modulus);
        },
        Target::S2 => {
            lemma_fetch_from_below(s, modulus);
        },
    }
}

/// What an operation on the values at `left` and `right` leaves: both are
/// taken from their stacks and the result is pushed on the primary stack.
pub open spec fn applied(
    s: MachineState,
    modulus: nat,
    op: BinaryOp,
    left: Target,
    right: Target,
    steps: nat,
) -> MachineState {
    without(s, left, right).push(
        binary_result(op.spec_opcode(), value_at(s, left), value_at(s, right), modulus)->Some_0,
    ).skip(steps)
}

proof fn lemma_both_primary(
    s: MachineState,
    modulus: nat,
    op: BinaryOp,
    left: Target,
    right: Target,
)
    requires
        left != right,
        on_primary(left),
        on_primary(right),
        s.primary.len() >= 2,
        code_at(s, with_two_targets(op, left, right)),
        binary_result(op.spec_opcode(), value_at(s, left), value_at(s, right), modulus) is Some,
    ensures
        quietly(s, modulus, with_two_targets(op, left, right).len()) == Some(
            applied(s, modulus, op, left, right, with_two_targets(op, left, right).len()),
        ),
{
    let code = with_two_targets(op, left, right);
    let opc = op.spec_opcode();
    let swap = !op.spec_is_symmetric() && left == Target::P2;
    let t = if swap {
        moved(s, 1, swapped(s.primary), s.secondary, s.cell)
    } else {
        s
    };
    lemma_code_splits(s, t, swap_if(swap), seq![opc]);
    lemma_swap_if(s, modulus, swap);
    if op.spec_is_symmetric() {
        lemma_symmetric(op, value_at(s, left), value_at(s, right), modulus);
    }
    lemma_operator(t, modulus, opc);
    let u = moved(
        t,
        1,
        below(below(t.primary)).push(
            binary_result(opc, top_of(t.primary), top_of(below(t.primary)), modulus)->Some_0,
        ),
        t.secondary,
        t.cell,
    );
    lemma_chain(s, modulus, swap_if(swap).len(), t, 1, u);
    let goal = applied(s, modulus, op, left, right, code.len());
    assert(u.primary =~= goal.primary);
    assert(u.secondary =~= goal.secondary);
}

proof fn lemma_both_secondary(
    s: MachineState,
    modulus: nat,
    op: BinaryOp,
    left: Target,
    right: Target,
)
    requires
        left != right,
        !on_primary(left),
        !on_primary(right),
        s.secondary.len() >= 2,
        code_at(s, with_two_targets(op, left, right)),
        binary_result(op.spec_opcode(), value_at(s, left), value_at(s, right), modulus) is Some,
    ensures
        quietly(s, modulus, with_two_targets(op, left, right).len()) == Some(
            applied(s, modulus, op, left, right, with_two_targets(op, left, right).len()),
        ),
{
    let code = with_two_targets(op, left, right);
    let opc = op.spec_opcode();
    let swap = !op.spec_is_symmetric() && left == Target::S2;
    let head = seq![SWAP_STACKS] + swap_if(swap) + seq![opc];
    assert(code =~= seq![SWAP_STACKS] + (swap_if(swap) + (seq![opc] + carry_over())));
    assert(code[0] == SWAP_STACKS);
    assert(s.tape[s.position as int + 0] == SWAP_STACKS);
    lemma_one_step(s, modulus, SWAP_STACKS);
    let t1 = moved(s, 1, s.secondary, s.primary, s.cell);
    lemma_code_splits(s, t1, seq![SWAP_STACKS], swap_if(swap) + (seq![opc] + carry_over()));
    let t2 = if swap {
        moved(t1, 1, swapped(t1.primary), t1.secondary, t1.cell)
    } else {
        t1
    };
    lemma_code_splits(t1, t2, swap_if(swap), seq![opc] + carry_over());
    lemma_swap_if(t1, modulus, swap);
    lemma_chain(s, modulus, 1, t1, swap_if(swap).len(), t2);
    if op.spec_is_symmetric() {
        lemma_symmetric(op, value_at(s, left), value_at(s, right), modulus);
    }
    let result = binary_result(opc, top_of(t2.primary), top_of(below(t2.primary)), modulus)->Some_0;
    let t3 = moved(t2, 1, below(below(t2.primary)).push(result), t2.secondary, t2.cell);
    lemma_code_splits(t2, t3, seq![opc], carry_over());
    lemma_operator(t2, modulus, opc);
    lemma_chain(s, modulus, 1 + swap_if(swap).len(), t2, 1, t3);
    lemma_carry_over(t3, modulus);
    let u = moved(t3, 8, t3.secondary.push(top_of(t3.primary)), below(t3.primary), t3.cell);
    lemma_chain(s, modulus, 1 + swap_if(swap).len() + 1, t3, 8, u);
    let goal = applied(s, modulus, op, left, right, code.len());
    assert(u.primary =~= goal.primary);
    assert(u.secondary =~= goal.secondary);
}

proof fn lemma_one_of_each(
    s: MachineState,
    modulus: nat,
    op: BinaryOp,
    left: Target,
    right: Target,
)
    requires
        on_primary(left) != on_primary(right),
        holds(s, left),
        holds(s, right),
        code_at(s, with_two_targets(op, left, right)),
        binary_result(op.spec_opcode(), value_at(s, left), value_at(s, right), modulus) is Some,
    ensures
        quietly(s, modulus, with_two_targets(op, left, right).len()) == Some(
            applied(s, modulus, op, left, right, with_two_targets(op, left, right).len()),
        ),
{
    let code = with_two_targets(op, left, right);
    let opc = op.spec_opcode();
    let (near, far) = if on_primary(left) {
        (left, right)
    } else {
        (right, left)
    };
    let first = near == Target::P2;
    let last = !op.spec_is_symmetric() && on_primary(left);
    assert(code =~= swap_if(first) + (fetch(far) + (swap_if(last) + seq![opc])));
    let t1 = if first {
        moved(s, 1, swapped(s.primary), s.secondary, s.cell)
    } else {
        s
    };
    lemma_code_splits(s, t1, swap_if(first), fetch(far) + (swap_if(last) + seq![opc]));
    lemma_swap_if(s, modulus, first);
    let t2 = fetched(t1, far, fetch(far).len());
    lemma_code_splits(t1, t2, fetch(far), swap_if(last) + seq![opc]);
    lemma_fetch(t1, modulus, far);
    lemma_chain(s, modulus, swap_if(first).len(), t1, fetch(far).len(), t2);
    let t3 = if last {
        moved(t2, 1, swapped(t2.primary), t2.secondary, t2.cell)
    } else {
        t2
    };
    lemma_code_splits(t2, t3, swap_if(last), seq![opc]);
    lemma_swap_if(t2, modulus, last);
    lemma_chain(s, modulus, swap_if(first).len() + fetch(far).len(), t2, swap_if(last).len(), t3);
    if op.spec_is_symmetric() {
        lemma_symmetric(op, value_at(s, left), value_at(s, right), modulus);
    }
    assert(top_of(t2.primary) == value_at(s, far));
    assert(top_of(below(t2.primary)) == value_at(s, near)) by {
        assert(below(t2.primary) =~= t1.primary);
    }
    lemma_operator(t3, modulus, opc);
    let u = moved(
        t3,
        1,
        below(below(t3.primary)).push(
            binary_result(opc, top_of(t3.primary), top_of(below(t3.primary)), modulus)->Some_0,
        ),
        t3.secondary,
        t3.cell,
    );
    lemma_chain(
        s,
        modulus,
        swap_if(first).len() + fetch(far).len() + swap_if(last).len(),
        t3,
        1,
        u,
    );
    let goal = applied(s, modulus, op, left, right, code.len());
    assert(u.primary =~= goal.primary);
    assert(u.secondary =~= goal.secondary);
}

/// The code for an operation on two places does what the mnemonic says: the
/// machine takes both values from their stacks, whichever stacks they are
/// on, and pushes what the operator makes of the left and the right one on
/// the primary stack. Nothing else changes, and the scratch register ends as
/// it began.
pub proof fn lemma_two_targets(
    s: MachineState,
    modulus: nat,
    op: BinaryOp,
    left: Target,
    right: Target,
)
    requires
        left != right,
        holds(s, left),
        holds(s, right),
        code_at(s, with_two_targets(op, left, right)),
        binary_result(op.spec_opcode(), value_at(s, left), value_at(s, right), modulus) is Some,
    ensures
        quietly(s, modulus, with_two_targets(op, left, right).len()) == Some(
            applied(s, modulus, op, left, right, with_two_targets(op, left, right).len()),
        ),
{
    if on_primary(left) && on_primary(right) {
        lemma_both_primary(s, modulus, op, left, right);
    } else if !on_primary(left) && !on_primary(right) {
        lemma_both_secondary(s, modulus, op, left, right);
    } else {
        lemma_one_of_each(s, modulus, op, left, right);
    }
}

/// An operation that names one place takes the top of the primary stack as
/// its left operand: its code is that of the operation on `p1` and the
/// place.
pub proof fn lemma_one_target_means_p1(op: BinaryOp, target: Target)
    requires
        target != Target::P1,
    ensures
        with_one_target(op, target) == with_two_targets(op, Target::P1, target),
{
    assert(with_one_target(op, target) =~= with_two_targets(op, Target::P1, target));
}

/// The value that the literal `text` pushes, if `text` is a literal: `#` and
/// two hexadecimal digits, or `'` and one byte.
pub open spec fn literal_value(text: Seq<u8>) -> Option<u8> {
    if text.len() == 3 && text[0] == PUSH_HEX {
        hex_pair_value(text[1], text[2])
    } else if text.len() == 2 && text[0] == PUSH_CHAR {
        Some(text[1])
    } else {
        None
    }
}

/// A literal is one instruction, which pushes the value of the literal.
pub proof fn lemma_literal(s: MachineState, modulus: nat, text: Seq<u8>)
    requires
        code_at(s, text),
        literal_value(text) is Some,
    ensures
        quietly(s, modulus, 1) == Some(s.push(literal_value(text)->Some_0 as nat).skip(text.len())),
{
    reveal_with_fuel(quietly, 2);
    let value = literal_value(text)->Some_0 as nat;
    assert(s.tape[s.position as int + 0] == text[0]);
    assert(s.tape[s.position as int + 1] == text[1]);
    if text.len() == 3 {
        assert(s.tape[s.position as int + 2] == text[2]);
        assert(s.skip(1).skip(1).skip(1).push(value) == s.push(value).skip(3));
    } else {
        assert(s.skip(1).push(value).skip(1) == s.push(value).skip(2));
    }
}

/// The literal that the lexer writes for a number pushes that number.
pub proof fn lemma_byte_literal(value: u8)
    ensures
        literal_value(byte_literal(value)) == Some(value),
{
}

/// Every literal that the lexer yields is code that pushes one value.
pub proof fn lemma_lexed_literal(src: Seq<u8>, at: int)
    requires
        0 <= at < src.len(),
        lexeme(src, at).0 matches Some(SpecToken::Literal(_)),
    ensures
        literal_value(lexeme(src, at).0->Some_0->Literal_0) is Some,
{
    let byte = src[at];
    if byte == PUSH_HEX {
        let first = (src[at + 1] - 0x30) as int;
        if 1 <= first <= 2 && at + 3 < src.len() && is_digit(src[at + 2]) && is_digit(src[at + 3]) {
            let value = 100 * first + 10 * (src[at + 2] - 0x30) + (src[at + 3] - 0x30);
            if value <= 255 {
                lemma_byte_literal(value as u8);
            }
        } else if 1 <= first && at + 2 < src.len() && is_digit(src[at + 2]) {
            lemma_byte_literal((10 * first + (src[at + 2] - 0x30)) as u8);
        } else {
            lemma_byte_literal(first as u8);
        }
    } else if lexeme(src, at).0 == Some(word_token(src.subrange(at, crate::lexer::word_end(src, at)))) {
        let word = src.subrange(at, crate::lexer::word_end(src, at));
        if is_binary_literal(word) {
            lemma_byte_literal(binary_value(word) as u8);
        }
    }
}

/// Quiet steps are steps of a run: a run that takes as many steps, whatever
/// the input source would hand over, ends in the same machine, and has
/// written nothing.
pub proof fn lemma_quiet_run(
    s: MachineState,
    modulus: nat,
    output: Seq<char>,
    events: Seq<InputEvent>,
)
    requires
        quietly(s, modulus, events.len()) is Some,
    ensures
        run(s, output, modulus, events) == (Trace {
            state: quietly(s, modulus, events.len())->Some_0,
            output,
            result: Ok::<(), MachineError>(()),
        }),
    decreases events.len(),
{
    reveal_with_fuel(quietly, 2);
    if events.len() > 0 {
        lemma_quiet_run(s, modulus, output, events.drop_last());
    }
}

/// The result of `op` on `left` and `right`.
pub open spec fn result_of(op: BinaryOp, left: nat, right: nat, modulus: nat) -> nat
    recommends
        binary_result(op.spec_opcode(), left, right, modulus) is Some,
{
    binary_result(op.spec_opcode(), left, right, modulus)->Some_0
}

/// `x`, where it is wanted, and then an operator: the operator is applied to
/// the two topmost values, the top as its left operand unless they were
/// swapped or the operator is symmetric.
proof fn lemma_swap_and_operate(
    s: MachineState,
    modulus: nat,
    op: BinaryOp,
    swap: bool,
    left: nat,
    right: nat,
)
    requires
        code_at(s, swap_if(swap) + seq![op.spec_opcode()]),
        s.primary.len() >= 2,
        binary_result(op.spec_opcode(), left, right, modulus) is Some,
        if swap {
            top_of(below(s.primary)) == left && top_of(s.primary) == right
        } else if op.spec_is_symmetric() {
            top_of(below(s.primary)) == left && top_of(s.primary) == right || top_of(s.primary)
                == left && top_of(below(s.primary)) == right
        } else {
            top_of(s.primary) == left && top_of(below(s.primary)) == right
        },
    ensures
        quietly(s, modulus, swap_if(swap).len() + 1) == Some(
            moved(
                s,
                swap_if(swap).len() + 1,
                below(below(s.primary)).push(result_of(op, left, right, modulus)),
                s.secondary,
                s.cell,
            ),
        ),
{
    let opc = op.spec_opcode();
    let t = if swap {
        moved(s, 1, swapped(s.primary), s.secondary, s.cell)
    } else {
        s
    };
    lemma_code_splits(s, t, swap_if(swap), seq![opc]);
    lemma_swap_if(s, modulus, swap);
    if op.spec_is_symmetric() {
        lemma_symmetric(op, left, right, modulus);
    }
    lemma_operator(t, modulus, opc);
    let u = moved(
        t,
        1,
        below(below(t.primary)).push(
            binary_result(opc, top_of(t.primary), top_of(below(t.primary)), modulus)->Some_0,
        ),
        t.secondary,
        t.cell,
    );
    lemma_chain(s, modulus, swap_if(swap).len(), t, 1, u);
    assert(below(below(t.primary)) =~= below(below(s.primary)));
}

/// `op place literal`: the value at the place is the left operand, the
/// literal the right one. The value is taken from its stack and the result
/// is pushed on the primary stack.
pub proof fn lemma_target_and_literal(
    s: MachineState,
    modulus: nat,
    op: BinaryOp,
    left: Target,
    right: Seq<u8>,
)
    requires
        holds(s, left),
        literal_value(right) is Some,
        code_at(
            s,
            fetch(left) + right + swap_if(!op.spec_is_symmetric()) + seq![op.spec_opcode()],
        ),
        binary_result(
            op.spec_opcode(),
            value_at(s, left),
            literal_value(right)->Some_0 as nat,
            modulus,
        ) is Some,
    ensures
        quietly(
            s,
            modulus,
            fetch(left).len() + 1 + swap_if(!op.spec_is_symmetric()).len() + 1,
        ) == Some(
            without(s, left, left).push(
                result_of(op, value_at(s, left), literal_value(right)->Some_0 as nat, modulus),
            ).skip(fetch(left).len() + right.len() + swap_if(!op.spec_is_symmetric()).len() + 1),
        ),
{
    let opc = op.spec_opcode();
    let swap = !op.spec_is_symmetric();
    let v = literal_value(right)->Some_0 as nat;
    let tail = swap_if(swap) + seq![opc];
    assert(fetch(left) + right + swap_if(swap) + seq![opc] =~= fetch(left) + (right + tail));
    let t1 = fetched(s, left, fetch(left).len());
    lemma_code_splits(s, t1, fetch(left), right + tail);
    lemma_fetch(s, modulus, left);
    let t2 = t1.push(v).skip(right.len());
    lemma_code_splits(t1, t2, right, tail);
    lemma_literal(t1, modulus, right);
    lemma_chain(s, modulus, fetch(left).len(), t1, 1, t2);
    assert(below(t2.primary) =~= t1.primary);
    lemma_swap_and_operate(t2, modulus, op, swap, value_at(s, left), v);
    let u = moved(
        t2,
        swap_if(swap).len() + 1,
        below(below(t2.primary)).push(result_of(op, value_at(s, left), v, modulus)),
        t2.secondary,
        t2.cell,
    );
    lemma_chain(s, modulus, fetch(left).len() + 1, t2, swap_if(swap).len() + 1, u);
    assert(below(below(t2.primary)) =~= without(s, left, left).primary);
}

/// `op literal place`: the literal is the left operand, the value at the
/// place the right one.
pub proof fn lemma_literal_and_target(
    s: MachineState,
    modulus: nat,
    op: BinaryOp,
    left: Seq<u8>,
    right: Target,
)
    requires
        holds(s, right),
        literal_value(left) is Some,
        code_at(s, fetch(right) + left + seq![op.spec_opcode()]),
        binary_result(
            op.spec_opcode(),
            literal_value(left)->Some_0 as nat,
            value_at(s, right),
            modulus,
        ) is Some,
    ensures
        quietly(s, modulus, fetch(right).len() + 2) == Some(
            without(s, right, right).push(
                result_of(op, literal_value(left)->Some_0 as nat, value_at(s, right), modulus),
            ).skip(fetch(right).len() + left.len() + 1),
        ),
{
    let opc = op.spec_opcode();
    let v = literal_value(left)->Some_0 as nat;
    assert(fetch(right) + left + seq![opc] =~= fetch(right) + (left + seq![opc]));
    let t1 = fetched(s, right, fetch(right).len());
    lemma_code_splits(s, t1, fetch(right), left + seq![opc]);
    lemma_fetch(s, modulus, right);
    let t2 = t1.push(v).skip(left.len());
    lemma_code_splits(t1, t2, left, seq![opc]);
    lemma_literal(t1, modulus, left);
    lemma_chain(s, modulus, fetch(right).len(), t1, 1, t2);
    assert(below(t2.primary) =~= t1.primary);
    assert(swap_if(false) + seq![opc] =~= seq![opc]);
    lemma_swap_and_operate(t2, modulus, op, false, v, value_at(s, right));
    let u = moved(
        t2,
        1,
        below(below(t2.primary)).push(result_of(op, v, value_at(s, right), modulus)),
        t2.secondary,
        t2.cell,
    );
    lemma_chain(s, modulus, fetch(right).len() + 1, t2, 1, u);
    assert(below(below(t2.primary)) =~= without(s, right, right).primary);
}

/// `op literal literal`: the first literal is the left operand, the second
/// the right one, and the stacks keep what they held.
pub proof fn lemma_two_literals(
    s: MachineState,
    modulus: nat,
    op: BinaryOp,
    left: Seq<u8>,
    right: Seq<u8>,
)
    requires
        literal_value(left) is Some,
        literal_value(right) is Some,
        code_at(s, right + left + seq![op.spec_opcode()]),
        binary_result(
            op.spec_opcode(),
            literal_value(left)->Some_0 as nat,
            literal_value(right)->Some_0 as nat,
            modulus,
        ) is Some,
    ensures
        quietly(s, modulus, 3) == Some(
            s.push(
                result_of(
                    op,
                    literal_value(left)->Some_0 as nat,
                    literal_value(right)->Some_0 as nat,
                    modulus,
                ),
            ).skip(right.len() + left.len() + 1),
        ),
{
    let opc = op.spec_opcode();
    let l = literal_value(left)->Some_0 as nat;
    let r = literal_value(right)->Some_0 as nat;
    assert(right + left + seq![opc] =~= right + (left + seq![opc]));
    let t1 = s.push(r).skip(right.len());
    lemma_code_splits(s, t1, right, left + seq![opc]);
    lemma_literal(s, modulus, right);
    let t2 = t1.push(l).skip(left.len());
    lemma_code_splits(t1, t2, left, seq![opc]);
    lemma_literal(t1, modulus, left);
    lemma_chain(s, modulus, 1, t1, 1, t2);
    assert(below(t2.primary) =~= t1.primary);
    assert(below(t1.primary) =~= s.primary);
    assert(swap_if(false) + seq![opc] =~= seq![opc]);
    lemma_swap_and_operate(t2, modulus, op, false, l, r);
    let u = moved(
        t2,
        1,
        below(below(t2.primary)).push(result_of(op, l, r, modulus)),
        t2.secondary,
        t2.cell,
    );
    lemma_chain(s, modulus, 2, t2, 1, u);
}

/// `op literal`: the top of the primary stack is the left operand, the
/// literal the right one.
pub proof fn lemma_one_literal(s: MachineState, modulus: nat, op: BinaryOp, right: Seq<u8>)
    requires
        s.primary.len() >= 1,
        literal_value(right) is Some,
        code_at(s, right + swap_if(!op.spec_is_symmetric()) + seq![op.spec_opcode()]),
        binary_result(
            op.spec_opcode(),
            top_of(s.primary),
            literal_value(right)->Some_0 as nat,
            modulus,
        ) is Some,
    ensures
        quietly(s, modulus, 1 + swap_if(!op.spec_is_symmetric()).len() + 1) == Some(
            s.pop().push(
                result_of(op, top_of(s.primary), literal_value(right)->Some_0 as nat, modulus),
            ).skip(right.len() + swap_if(!op.spec_is_symmetric()).len() + 1),
        ),
{
    let opc = op.spec_opcode();
    let swap = !op.spec_is_symmetric();
    let r = literal_value(right)->Some_0 as nat;
    assert(right + swap_if(swap) + seq![opc] =~= right + (swap_if(swap) + seq![opc]));
    let t1 = s.push(r).skip(right.len());
    lemma_code_splits(s, t1, right, swap_if(swap) + seq![opc]);
    lemma_literal(s, modulus, right);
    assert(below(t1.primary) =~= s.primary);
    lemma_swap_and_operate(t1, modulus, op, swap, top_of(s.primary), r);
    let u = moved(
        t1,
        swap_if(swap).len() + 1,
        below(below(t1.primary)).push(result_of(op, top_of(s.primary), r, modulus)),
        t1.secondary,
        t1.cell,
    );
    lemma_chain(s, modulus, 1, t1, swap_if(swap).len() + 1, u);
    assert(below(below(t1.primary)) =~= s.pop().primary);
}

} // verus!
