//! The code generator: from tokens to machine code.
//!
//! A mnemonic is followed by the operands it names. An operand is a place on
//! one of the stacks or a literal; an operand that is not named is taken from
//! the top of the primary stack. The generator writes the stack shuffles that
//! bring the named operands to where the machine's instruction pops them:
//! the left operand on top, the right operand below it.

use crate::opcode::{
    INPUT, LOAD, PUSH_STRING, STORE, SWAP_STACKS, SWAP_VALUES, UNTIL_CLOSE, UNTIL_OPEN,
    WHILE_CLOSE, WHILE_OPEN,
};
use crate::token::{token_views, BinaryOp, SpecToken, Target, Token};
use vstd::prelude::*;

verus! {

/// Why a program could not be assembled.
#[derive(Debug, PartialEq, Eq)]
pub enum AsmError {
    /// The source holds this text, which is no word of the language.
    InvalidToken(Vec<u8>),
    /// Both operands of the operation name this place.
    SameOperand { op: BinaryOp, target: Target },
    /// The only operand named is `p1`, which the operand left out is too.
    ImplicitOperand { op: BinaryOp },
    /// `while`, `loop`, `cont` or `next` is followed by this token, or by
    /// nothing, where `nonzero` or `zero` has to stand.
    ExpectedLoopCondition(Option<Token>),
    /// `swap` is followed by this token, or by nothing, where `values` or
    /// `stacks` has to stand.
    ExpectedSwapKind(Option<Token>),
    /// `jmp` is followed by this token, or by nothing, where a digit from
    /// `1` to `9` has to stand.
    ExpectedJumpDistance(Option<Token>),
    /// `push` is followed by this token, or by nothing, where a literal or a
    /// string has to stand.
    ExpectedLiteral(Option<Token>),
    /// `embed` is followed by this token, or by nothing, where a string has
    /// to stand.
    ExpectedEmbeddedCode(Option<Token>),
    /// This token stands where a mnemonic has to stand.
    UnexpectedToken(Token),
}

/// An error as mathematics.
pub enum SpecAsmError {
    InvalidToken(Seq<u8>),
    SameOperand { op: BinaryOp, target: Target },
    ImplicitOperand { op: BinaryOp },
    ExpectedLoopCondition(Option<SpecToken>),
    ExpectedSwapKind(Option<SpecToken>),
    ExpectedJumpDistance(Option<SpecToken>),
    ExpectedLiteral(Option<SpecToken>),
    ExpectedEmbeddedCode(Option<SpecToken>),
    UnexpectedToken(SpecToken),
}

/// The token in `found`, as mathematics.
pub open spec fn found_view(found: Option<Token>) -> Option<SpecToken> {
    match found {
        Some(token) => Some(token@),
        None => None,
    }
}

impl View for AsmError {
    type V = SpecAsmError;

    open spec fn view(&self) -> SpecAsmError {
        match self {
            AsmError::InvalidToken(text) => SpecAsmError::InvalidToken(text@),
            AsmError::SameOperand { op, target } => SpecAsmError::SameOperand {
                op: *op,
                target: *target,
            },
            AsmError::ImplicitOperand { op } => SpecAsmError::ImplicitOperand { op: *op },
            AsmError::ExpectedLoopCondition(found) => SpecAsmError::ExpectedLoopCondition(
                found_view(*found),
            ),
            AsmError::ExpectedSwapKind(found) => SpecAsmError::ExpectedSwapKind(found_view(*found)),
            AsmError::ExpectedJumpDistance(found) => SpecAsmError::ExpectedJumpDistance(
                found_view(*found),
            ),
            AsmError::ExpectedLiteral(found) => SpecAsmError::ExpectedLiteral(found_view(*found)),
            AsmError::ExpectedEmbeddedCode(found) => SpecAsmError::ExpectedEmbeddedCode(
                found_view(*found),
            ),
            AsmError::UnexpectedToken(token) => SpecAsmError::UnexpectedToken(token@),
        }
    }
}

/// A copy of the token in `found`.
fn copy_found(found: &Option<Token>) -> (copy: Option<Token>)
    ensures
        found_view(copy) == found_view(*found),
{
    match found {
        Some(token) => Some(token.duplicate()),
        None => None,
    }
}

impl Clone for AsmError {
    fn clone(&self) -> (copy: Self)
        ensures
            copy@ == self@,
    {
        match self {
            AsmError::InvalidToken(text) => AsmError::InvalidToken(crate::token::copy_bytes(text)),
            AsmError::SameOperand { op, target } => AsmError::SameOperand {
                op: *op,
                target: *target,
            },
            AsmError::ImplicitOperand { op } => AsmError::ImplicitOperand { op: *op },
            AsmError::ExpectedLoopCondition(found) => AsmError::ExpectedLoopCondition(
                copy_found(found),
            ),
            AsmError::ExpectedSwapKind(found) => AsmError::ExpectedSwapKind(copy_found(found)),
            AsmError::ExpectedJumpDistance(found) => AsmError::ExpectedJumpDistance(
                copy_found(found),
            ),
            AsmError::ExpectedLiteral(found) => AsmError::ExpectedLiteral(copy_found(found)),
            AsmError::ExpectedEmbeddedCode(found) => AsmError::ExpectedEmbeddedCode(
                copy_found(found),
            ),
            AsmError::UnexpectedToken(token) => AsmError::UnexpectedToken(token.duplicate()),
        }
    }
}

/// Whether `target` is a place on the primary stack.
pub open spec fn on_primary(target: Target) -> bool {
    target == Target::P1 || target == Target::P2
}

/// The code that moves the top of the secondary stack to the top of the
/// primary stack and leaves the scratch register as it was: `X}x{X}X{X`.
pub open spec fn fetch_top() -> Seq<u8> {
    seq![
        SWAP_STACKS,
        LOAD,
        SWAP_VALUES,
        STORE,
        SWAP_STACKS,
        LOAD,
        SWAP_STACKS,
        STORE,
        SWAP_STACKS,
    ]
}

/// The code that moves what an operation left on the stack that is now
/// primary to the top of the other stack and makes that one primary:
/// `}x{X}X{X`.
pub open spec fn carry_over() -> Seq<u8> {
    seq![LOAD, SWAP_VALUES, STORE, SWAP_STACKS, LOAD, SWAP_STACKS, STORE, SWAP_STACKS]
}

/// The code that brings the value at `target` to the top of the primary
/// stack.
pub open spec fn fetch(target: Target) -> Seq<u8> {
    match target {
        Target::P1 => Seq::empty(),
        Target::P2 => seq![SWAP_VALUES],
        Target::S1 => fetch_top(),
        Target::S2 => seq![SWAP_STACKS, SWAP_VALUES] + carry_over(),
    }
}

/// `x` where `wanted`, else nothing.
pub open spec fn swap_if(wanted: bool) -> Seq<u8> {
    if wanted {
        seq![SWAP_VALUES]
    } else {
        Seq::empty()
    }
}

/// The code for `op left right` where both operands are places, and not the
/// same place.
pub open spec fn with_two_targets(op: BinaryOp, left: Target, right: Target) -> Seq<u8>
    recommends
        left != right,
{
    let ordered = !op.spec_is_symmetric();
    if !on_primary(left) && !on_primary(right) {
        seq![SWAP_STACKS] + swap_if(ordered && left == Target::S2) + seq![op.spec_opcode()]
            + carry_over()
    } else if on_primary(left) && on_primary(right) {
        swap_if(ordered && left == Target::P2) + seq![op.spec_opcode()]
    } else {
        let (near, far) = if on_primary(left) {
            (left, right)
        } else {
            (right, left)
        };
        swap_if(near == Target::P2) + fetch(far) + swap_if(ordered && on_primary(left)) + seq![
            op.spec_opcode(),
        ]
    }
}

/// The code for `op target`: the place is the right operand, the top of the
/// primary stack the left one.
pub open spec fn with_one_target(op: BinaryOp, target: Target) -> Seq<u8>
    recommends
        target != Target::P1,
{
    if target == Target::P2 {
        seq![op.spec_opcode()]
    } else {
        fetch(target) + swap_if(!op.spec_is_symmetric()) + seq![op.spec_opcode()]
    }
}

/// The token at `index`, if there is one.
pub open spec fn token_at(tokens: Seq<SpecToken>, index: int) -> Option<SpecToken> {
    if 0 <= index < tokens.len() {
        Some(tokens[index])
    } else {
        None
    }
}

/// The code for the binary mnemonic `op` followed by the tokens `first` and
/// `second`, and the number of them that are its operands.
pub open spec fn binary_code(op: BinaryOp, first: Option<SpecToken>, second: Option<SpecToken>)
    -> Result<(Seq<u8>, nat), SpecAsmError> {
    let ordered = !op.spec_is_symmetric();
    let code = seq![op.spec_opcode()];
    match first {
        Some(SpecToken::Target(left)) => match second {
            Some(SpecToken::Target(right)) => if left == right {
                Err(SpecAsmError::SameOperand { op, target: left })
            } else {
                Ok((with_two_targets(op, left, right), 2))
            },
            Some(SpecToken::Literal(right)) => Ok(
                (fetch(left) + right + swap_if(ordered) + code, 2),
            ),
            _ => if left == Target::P1 {
                Err(SpecAsmError::ImplicitOperand { op })
            } else {
                Ok((with_one_target(op, left), 1))
            },
        },
        Some(SpecToken::Literal(left)) => match second {
            Some(SpecToken::Target(right)) => Ok((fetch(right) + left + code, 2)),
            Some(SpecToken::Literal(right)) => Ok((right + left + code, 2)),
            _ => Ok((left + swap_if(ordered) + code, 1)),
        },
        _ => Ok((code, 0)),
    }
}

/// The code for the unary instruction `op` followed by the token `first`,
/// and whether that token is its operand.
pub open spec fn unary_code(op: u8, first: Option<SpecToken>) -> (Seq<u8>, nat) {
    match first {
        Some(SpecToken::Target(target)) => (fetch(target) + seq![op], 1),
        Some(SpecToken::Literal(text)) => (text + seq![op], 1),
        _ => (seq![op], 0),
    }
}

/// The code for the token at `index` and the number of tokens after it that
/// belong to it, or the error that it is.
pub open spec fn translate(tokens: Seq<SpecToken>, index: int) -> Result<
    (Seq<u8>, nat),
    SpecAsmError,
>
    recommends
        0 <= index < tokens.len(),
{
    let first = token_at(tokens, index + 1);
    let second = token_at(tokens, index + 2);
    match tokens[index] {
        SpecToken::Binary(op) => binary_code(op, first, second),
        SpecToken::Unary(op) => Ok(unary_code(op.spec_opcode(), first)),
        SpecToken::LoopStart => match first {
            Some(SpecToken::ConditionNonZero) => Ok((seq![WHILE_OPEN], 1)),
            Some(SpecToken::ConditionZero) => Ok((seq![UNTIL_OPEN], 1)),
            _ => Err(SpecAsmError::ExpectedLoopCondition(first)),
        },
        SpecToken::LoopContinue => match first {
            Some(SpecToken::ConditionNonZero) => Ok((seq![WHILE_CLOSE], 1)),
            Some(SpecToken::ConditionZero) => Ok((seq![UNTIL_CLOSE], 1)),
            _ => Err(SpecAsmError::ExpectedLoopCondition(first)),
        },
        SpecToken::Swap => match first {
            Some(SpecToken::SwapValues) => Ok((seq![SWAP_VALUES], 1)),
            Some(SpecToken::SwapStacks) => Ok((seq![SWAP_STACKS], 1)),
            _ => Err(SpecAsmError::ExpectedSwapKind(first)),
        },
        SpecToken::Jump => match first {
            Some(SpecToken::JumpDistance(distance)) => if 1 <= distance <= 9 {
                Ok((seq![(0x30 + distance) as u8], 1))
            } else {
                Err(SpecAsmError::ExpectedJumpDistance(first))
            },
            _ => Err(SpecAsmError::ExpectedJumpDistance(first)),
        },
        SpecToken::Push => match first {
            Some(SpecToken::Literal(text)) => Ok((text, 1)),
            Some(SpecToken::StringLiteral(text)) => Ok(
                (seq![PUSH_STRING] + text.reverse() + seq![PUSH_STRING], 1),
            ),
            _ => Err(SpecAsmError::ExpectedLiteral(first)),
        },
        SpecToken::EmbeddedCode => match first {
            Some(SpecToken::StringLiteral(text)) => Ok((text, 1)),
            _ => Err(SpecAsmError::ExpectedEmbeddedCode(first)),
        },
        SpecToken::Input => Ok((seq![INPUT], 0)),
        SpecToken::LoadFromCell => Ok((seq![LOAD], 0)),
        SpecToken::Invalid(text) => Err(SpecAsmError::InvalidToken(text)),
        stray => Err(SpecAsmError::UnexpectedToken(stray)),
    }
}

/// `code` followed by what `rest` holds, or the error in `rest`.
pub open spec fn prepend(code: Seq<u8>, rest: Result<Seq<u8>, SpecAsmError>) -> Result<
    Seq<u8>,
    SpecAsmError,
> {
    match rest {
        Ok(tail) => Ok(code + tail),
        Err(error) => Err(error),
    }
}

/// The machine code for the tokens from `index` on, or the first error
/// among them.
pub open spec fn generate_from(tokens: Seq<SpecToken>, index: int) -> Result<
    Seq<u8>,
    SpecAsmError,
>
    decreases tokens.len() - index,
{
    if index < 0 || index >= tokens.len() {
        Ok(Seq::empty())
    } else {
        match translate(tokens, index) {
            Ok((code, operands)) => prepend(code, generate_from(tokens, index + 1 + operands)),
            Err(error) => Err(error),
        }
    }
}

/// The machine code for `tokens`, or the first error among them.
pub open spec fn spec_generate(tokens: Seq<SpecToken>) -> Result<Seq<u8>, SpecAsmError> {
    generate_from(tokens, 0)
}

/// What an assembly returned, as mathematics.
pub open spec fn assembled(result: Result<Vec<u8>, AsmError>) -> Result<Seq<u8>, SpecAsmError> {
    match result {
        Ok(code) => Ok(code@),
        Err(error) => Err(error@),
    }
}

/// Appends `bytes` to `program`.
fn emit_all(program: &mut Vec<u8>, bytes: &Vec<u8>)
    ensures
        final(program)@ == old(program)@ + bytes@,
{
    let mut i: usize = 0;
    while i < bytes.len()
        invariant
            i <= bytes@.len(),
            program@ == old(program)@ + bytes@.take(i as int),
        decreases bytes.len() - i,
    {
        program.push(bytes[i]);
        i = i + 1;
        assert(program@ =~= old(program)@ + bytes@.take(i as int));
    }
    assert(bytes@.take(i as int) =~= bytes@);
}

/// Appends `bytes` to `program`, last byte first.
fn emit_reversed(program: &mut Vec<u8>, bytes: &Vec<u8>)
    ensures
        final(program)@ == old(program)@ + bytes@.reverse(),
{
    let n = bytes.len();
    let mut i: usize = 0;
    while i < n
        invariant
            n == bytes@.len(),
            i <= n,
            program@ == old(program)@ + bytes@.reverse().take(i as int),
        decreases n - i,
    {
        program.push(bytes[n - 1 - i]);
        i = i + 1;
        assert(program@ =~= old(program)@ + bytes@.reverse().take(i as int));
    }
    assert(bytes@.reverse().take(i as int) =~= bytes@.reverse());
}

/// Appends `x` to `program` where `wanted`.
fn emit_swap_if(program: &mut Vec<u8>, wanted: bool)
    ensures
        final(program)@ == old(program)@ + swap_if(wanted),
{
    if wanted {
        program.push(SWAP_VALUES);
    }
    assert(program@ =~= old(program)@ + swap_if(wanted));
}

/// Appends the code that carries a result over to the other stack.
fn emit_carry_over(program: &mut Vec<u8>)
    ensures
        final(program)@ == old(program)@ + carry_over(),
{
    program.push(LOAD);
    program.push(SWAP_VALUES);
    program.push(STORE);
    program.push(SWAP_STACKS);
    program.push(LOAD);
    program.push(SWAP_STACKS);
    program.push(STORE);
    program.push(SWAP_STACKS);
    assert(program@ =~= old(program)@ + carry_over());
}

/// Appends the code that brings the value at `target` to the top of the
/// primary stack.
fn emit_fetch(program: &mut Vec<u8>, target: Target)
    ensures
        final(program)@ == old(program)@ + fetch(target),
{
    match target {
        Target::P1 => {},
        Target::P2 => {
            program.push(SWAP_VALUES);
        },
        Target::S1 => {
            program.push(SWAP_STACKS);
            emit_carry_over(program);
        },
        Target::S2 => {
            program.push(SWAP_STACKS);
            program.push(SWAP_VALUES);
            emit_carry_over(program);
        },
    }
    assert(program@ =~= old(program)@ + fetch(target));
}

/// Whether `target` is a place on the primary stack.
fn is_on_primary(target: Target) -> (primary: bool)
    ensures
        primary == on_primary(target),
{
    match target {
        Target::P1 | Target::P2 => true,
        _ => false,
    }
}

/// Whether two targets name the same place.
fn same_target(a: Target, b: Target) -> (same: bool)
    ensures
        same == (a == b),
{
    match (a, b) {
        (Target::P1, Target::P1) => true,
        (Target::P2, Target::P2) => true,
        (Target::S1, Target::S1) => true,
        (Target::S2, Target::S2) => true,
        _ => false,
    }
}

/// Appends the code for `op left right` where both operands are places.
fn emit_two_targets(program: &mut Vec<u8>, op: BinaryOp, left: Target, right: Target)
    requires
        left != right,
    ensures
        final(program)@ == old(program)@ + with_two_targets(op, left, right),
{
    let ordered = !op.is_symmetric();
    let left_primary = is_on_primary(left);
    let right_primary = is_on_primary(right);
    if !left_primary && !right_primary {
        program.push(SWAP_STACKS);
        emit_swap_if(program, ordered && same_target(left, Target::S2));
        program.push(op.opcode());
        emit_carry_over(program);
    } else if left_primary && right_primary {
        emit_swap_if(program, ordered && same_target(left, Target::P2));
        program.push(op.opcode());
    } else {
        let (near, far) = if left_primary {
            (left, right)
        } else {
            (right, left)
        };
        emit_swap_if(program, same_target(near, Target::P2));
        emit_fetch(program, far);
        emit_swap_if(program, ordered && left_primary);
        program.push(op.opcode());
    }
    assert(program@ =~= old(program)@ + with_two_targets(op, left, right));
}

/// A copy of the token at `index`, if there is one.
fn peek(tokens: &[Token], index: usize) -> (found: Option<Token>)
    ensures
        found_view(found) == token_at(token_views(tokens@), index as int),
{
    if index < tokens.len() {
        Some(tokens[index].duplicate())
    } else {
        None
    }
}

/// Whether `result` and the change of the program are what `wanted` says:
/// on success the code was appended and the count returned, on an error the
/// program is as it was.
pub open spec fn emitted(
    wanted: Result<(Seq<u8>, nat), SpecAsmError>,
    before: Seq<u8>,
    after: Seq<u8>,
    result: Result<usize, AsmError>,
) -> bool {
    match wanted {
        Ok((code, operands)) => after == before + code && result == Ok::<usize, AsmError>(
            operands as usize,
        ) && operands <= 2,
        Err(error) => after == before && result is Err && result->Err_0@ == error,
    }
}

/// The code for `op left` followed by `second`, where `left` is a place.
pub open spec fn binary_after_target(op: BinaryOp, left: Target, second: Option<SpecToken>)
    -> Result<(Seq<u8>, nat), SpecAsmError> {
    binary_code(op, Some(SpecToken::Target(left)), second)
}

/// The code for `op left` followed by `second`, where `left` is a literal.
pub open spec fn binary_after_literal(op: BinaryOp, left: Seq<u8>, second: Option<SpecToken>)
    -> Result<(Seq<u8>, nat), SpecAsmError> {
    binary_code(op, Some(SpecToken::Literal(left)), second)
}

/// Appends the code for `op left` followed by `second`.
fn emit_after_target(program: &mut Vec<u8>, op: BinaryOp, left: Target, second: &Option<Token>)
    -> (result: Result<usize, AsmError>)
    ensures
        emitted(
            binary_after_target(op, left, found_view(*second)),
            old(program)@,
            final(program)@,
            result,
        ),
{
    let ordered = !op.is_symmetric();
    match second {
        Some(Token::Target(right)) => {
            if same_target(left, *right) {
                return Err(AsmError::SameOperand { op, target: left });
            }
            emit_two_targets(program, op, left, *right);
            Ok(2)
        },
        Some(Token::Literal(right)) => {
            emit_fetch(program, left);
            emit_all(program, right);
            emit_swap_if(program, ordered);
            program.push(op.opcode());
            assert(program@ =~= old(program)@ + (fetch(left) + right@ + swap_if(ordered)
                + seq![op.spec_opcode()]));
            Ok(2)
        },
        _ => {
            if same_target(left, Target::P1) {
                return Err(AsmError::ImplicitOperand { op });
            }
            if !same_target(left, Target::P2) {
                emit_fetch(program, left);
                emit_swap_if(program, ordered);
            }
            program.push(op.opcode());
            assert(program@ =~= old(program)@ + with_one_target(op, left));
            Ok(1)
        },
    }
}

/// Appends the code for `op left` followed by `second`.
fn emit_after_literal(
    program: &mut Vec<u8>,
    op: BinaryOp,
    left: &Vec<u8>,
    second: &Option<Token>,
) -> (result: Result<usize, AsmError>)
    ensures
        emitted(
            binary_after_literal(op, left@, found_view(*second)),
            old(program)@,
            final(program)@,
            result,
        ),
{
    let ordered = !op.is_symmetric();
    match second {
        Some(Token::Target(right)) => {
            emit_fetch(program, *right);
            emit_all(program, left);
            program.push(op.opcode());
            assert(program@ =~= old(program)@ + (fetch(*right) + left@ + seq![op.spec_opcode()]));
            Ok(2)
        },
        Some(Token::Literal(right)) => {
            emit_all(program, right);
            emit_all(program, left);
            program.push(op.opcode());
            assert(program@ =~= old(program)@ + (right@ + left@ + seq![op.spec_opcode()]));
            Ok(2)
        },
        _ => {
            emit_all(program, left);
            emit_swap_if(program, ordered);
            program.push(op.opcode());
            assert(program@ =~= old(program)@ + (left@ + swap_if(ordered) + seq![
                op.spec_opcode(),
            ]));
            Ok(1)
        },
    }
}

/// Appends the code for the binary mnemonic `op` followed by the tokens
/// `first` and `second`, and returns the number of its operands.
fn emit_binary(
    program: &mut Vec<u8>,
    op: BinaryOp,
    first: &Option<Token>,
    second: &Option<Token>,
) -> (result: Result<usize, AsmError>)
    ensures
        emitted(
            binary_code(op, found_view(*first), found_view(*second)),
            old(program)@,
            final(program)@,
            result,
        ),
{
    match first {
        Some(Token::Target(left)) => emit_after_target(program, op, *left, second),
        Some(Token::Literal(left)) => emit_after_literal(program, op, left, second),
        _ => {
            program.push(op.opcode());
            assert(program@ =~= old(program)@ + seq![op.spec_opcode()]);
            Ok(0)
        },
    }
}

/// Appends the code for the unary instruction `op` followed by the token
/// `first`, and returns the number of its operands.
fn emit_unary(program: &mut Vec<u8>, op: u8, first: &Option<Token>) -> (result: Result<
    usize,
    AsmError,
>)
    ensures
        emitted(
            Ok(unary_code(op, found_view(*first))),
            old(program)@,
            final(program)@,
            result,
        ),
{
    match first {
        Some(Token::Target(target)) => {
            emit_fetch(program, *target);
            program.push(op);
            assert(program@ =~= old(program)@ + (fetch(*target) + seq![op]));
            Ok(1)
        },
        Some(Token::Literal(text)) => {
            emit_all(program, text);
            program.push(op);
            assert(program@ =~= old(program)@ + (text@ + seq![op]));
            Ok(1)
        },
        _ => {
            program.push(op);
            assert(program@ =~= old(program)@ + seq![op]);
            Ok(0)
        },
    }
}

/// The operands that a translation counts are tokens of the list.
pub proof fn lemma_operands_exist(tokens: Seq<SpecToken>, index: int)
    requires
        0 <= index < tokens.len(),
        translate(tokens, index) is Ok,
    ensures
        index + 1 + translate(tokens, index)->Ok_0.1 <= tokens.len(),
{
}

/// Appends the code for the token at `index` and returns the number of
/// tokens after it that belong to it.
fn emit_token(program: &mut Vec<u8>, tokens: &[Token], index: usize) -> (result: Result<
    usize,
    AsmError,
>)
    requires
        index < tokens@.len(),
    ensures
        emitted(
            translate(token_views(tokens@), index as int),
            old(program)@,
            final(program)@,
            result,
        ),
{
    let count = tokens.len();
    let first = peek(tokens, index + 1);
    let ghost views = token_views(tokens@);
    assert(views[index as int] == tokens@[index as int]@);
    match &tokens[index] {
        Token::Binary(op) => {
            let second = if index + 1 < count {
                peek(tokens, index + 2)
            } else {
                None
            };
            emit_binary(program, *op, &first, &second)
        },
        Token::Unary(op) => emit_unary(program, op.opcode(), &first),
        Token::LoopStart => {
            let code = match &first {
                Some(Token::ConditionNonZero) => WHILE_OPEN,
                Some(Token::ConditionZero) => UNTIL_OPEN,
                _ => {
                    return Err(AsmError::ExpectedLoopCondition(first));
                },
            };
            program.push(code);
            assert(program@ =~= old(program)@ + seq![code]);
            Ok(1)
        },
        Token::LoopContinue => {
            let code = match &first {
                Some(Token::ConditionNonZero) => WHILE_CLOSE,
                Some(Token::ConditionZero) => UNTIL_CLOSE,
                _ => {
                    return Err(AsmError::ExpectedLoopCondition(first));
                },
            };
            program.push(code);
            assert(program@ =~= old(program)@ + seq![code]);
            Ok(1)
        },
        Token::Swap => {
            let code = match &first {
                Some(Token::SwapValues) => SWAP_VALUES,
                Some(Token::SwapStacks) => SWAP_STACKS,
                _ => {
                    return Err(AsmError::ExpectedSwapKind(first));
                },
            };
            program.push(code);
            assert(program@ =~= old(program)@ + seq![code]);
            Ok(1)
        },
        Token::Jump => {
            let distance = match &first {
                Some(Token::JumpDistance(distance)) => *distance,
                _ => {
                    return Err(AsmError::ExpectedJumpDistance(first));
                },
            };
            if distance < 1 || distance > 9 {
                return Err(AsmError::ExpectedJumpDistance(first));
            }
            program.push(0x30 + distance);
            assert(program@ =~= old(program)@ + seq![(0x30 + distance) as u8]);
            Ok(1)
        },
        Token::Push => {
            match &first {
                Some(Token::Literal(text)) => {
                    emit_all(program, text);
                },
                Some(Token::StringLiteral(text)) => {
                    program.push(PUSH_STRING);
                    emit_reversed(program, text);
                    program.push(PUSH_STRING);
                    assert(program@ =~= old(program)@ + (seq![PUSH_STRING] + text@.reverse()
                        + seq![PUSH_STRING]));
                },
                _ => {
                    return Err(AsmError::ExpectedLiteral(first));
                },
            }
            Ok(1)
        },
        Token::EmbeddedCode => {
            match &first {
                Some(Token::StringLiteral(text)) => {
                    emit_all(program, text);
                },
                _ => {
                    return Err(AsmError::ExpectedEmbeddedCode(first));
                },
            }
            Ok(1)
        },
        Token::Input => {
            program.push(INPUT);
            assert(program@ =~= old(program)@ + seq![INPUT]);
            Ok(0)
        },
        Token::LoadFromCell => {
            program.push(LOAD);
            assert(program@ =~= old(program)@ + seq![LOAD]);
            Ok(0)
        },
        Token::Invalid(text) => Err(AsmError::InvalidToken(crate::token::copy_bytes(text))),
        stray => Err(AsmError::UnexpectedToken(stray.duplicate())),
    }
}

/// Translates a list of tokens into machine code.
///
/// The tokens are read from left to right. Each mnemonic takes the operands
/// that follow it; the first token that cannot be translated ends the
/// translation with its error, and no code is returned.
pub fn generate(tokens: &[Token]) -> (result: Result<Vec<u8>, AsmError>)
    ensures
        assembled(result) == spec_generate(token_views(tokens@)),
{
    let ghost views = token_views(tokens@);
    let mut program: Vec<u8> = Vec::new();
    let mut index: usize = 0;
    assert(Seq::<u8>::empty() + Seq::<u8>::empty() =~= Seq::<u8>::empty());
    assert(prepend(program@, generate_from(views, 0)) == generate_from(views, 0)) by {
        match generate_from(views, 0) {
            Ok(tail) => {
                assert(program@ + tail =~= tail);
            },
            Err(_) => {},
        }
    }
    while index < tokens.len()
        invariant
            views == token_views(tokens@),
            index <= tokens@.len(),
            spec_generate(views) == prepend(program@, generate_from(views, index as int)),
        decreases tokens.len() - index,
    {
        let ghost before = program@;
        match emit_token(&mut program, tokens, index) {
            Ok(operands) => {
                proof {
                    lemma_operands_exist(views, index as int);
                    let code = translate(views, index as int)->Ok_0.0;
                    match generate_from(views, index + 1 + operands) {
                        Ok(tail) => {
                            assert(before + (code + tail) =~= (before + code) + tail);
                        },
                        Err(_) => {},
                    }
                }
                index = index + 1 + operands;
            },
            Err(error) => {
                return Err(error);
            },
        }
    }
    proof {
        assert(program@ + Seq::<u8>::empty() =~= program@);
    }
    Ok(program)
}

} // verus!
