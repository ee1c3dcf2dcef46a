//! What holds of every translation, whatever the tokens around it.

use crate::codegen::{generate_from, token_at, translate, SpecAsmError};
use crate::token::{BinaryOp, SpecToken, Target};
use vstd::prelude::*;

verus! {

/// An operation whose two operands name the same place is rejected, whatever
/// the operation is, with an error that names the operation and the place.
pub proof fn lemma_same_operand_is_rejected(
    tokens: Seq<SpecToken>,
    index: int,
    op: BinaryOp,
    target: Target,
)
    requires
        0 <= index,
        index + 2 < tokens.len(),
        tokens[index] == SpecToken::Binary(op),
        tokens[index + 1] == SpecToken::Target(target),
        tokens[index + 2] == SpecToken::Target(target),
    ensures
        translate(tokens, index) == Err::<(Seq<u8>, nat), SpecAsmError>(
            SpecAsmError::SameOperand { op, target },
        ),
        generate_from(tokens, index) == Err::<Seq<u8>, SpecAsmError>(
            SpecAsmError::SameOperand { op, target },
        ),
{
}

/// An operation that names only `p1` is rejected: the operand left out is
/// `p1` too.
pub proof fn lemma_implicit_operand_is_rejected(tokens: Seq<SpecToken>, index: int, op: BinaryOp)
    requires
        0 <= index < tokens.len(),
        tokens[index] == SpecToken::Binary(op),
        token_at(tokens, index + 1) == Some(SpecToken::Target(Target::P1)),
        !(token_at(tokens, index + 2) matches Some(SpecToken::Target(_))),
        !(token_at(tokens, index + 2) matches Some(SpecToken::Literal(_))),
    ensures
        generate_from(tokens, index) == Err::<Seq<u8>, SpecAsmError>(
            SpecAsmError::ImplicitOperand { op },
        ),
{
}

/// `jmp` that is not followed by a jump distance is rejected with an error
/// that names the token found in its place.
pub proof fn lemma_jump_needs_distance(tokens: Seq<SpecToken>, index: int)
    requires
        0 <= index < tokens.len(),
        tokens[index] == SpecToken::Jump,
        !(token_at(tokens, index + 1) matches Some(SpecToken::JumpDistance(_))),
    ensures
        generate_from(tokens, index) == Err::<Seq<u8>, SpecAsmError>(
            SpecAsmError::ExpectedJumpDistance(token_at(tokens, index + 1)),
        ),
{
}

/// A loop mnemonic that is not followed by `nonzero` or `zero` is rejected
/// with an error that names the token found in its place.
pub proof fn lemma_loop_needs_condition(tokens: Seq<SpecToken>, index: int)
    requires
        0 <= index < tokens.len(),
        tokens[index] == SpecToken::LoopStart || tokens[index] == SpecToken::LoopContinue,
        token_at(tokens, index + 1) != Some(SpecToken::ConditionNonZero),
        token_at(tokens, index + 1) != Some(SpecToken::ConditionZero),
    ensures
        generate_from(tokens, index) == Err::<Seq<u8>, SpecAsmError>(
            SpecAsmError::ExpectedLoopCondition(token_at(tokens, index + 1)),
        ),
{
}

/// `swap` that is not followed by `values` or `stacks` is rejected with an
/// error that names the token found in its place.
pub proof fn lemma_swap_needs_kind(tokens: Seq<SpecToken>, index: int)
    requires
        0 <= index < tokens.len(),
        tokens[index] == SpecToken::Swap,
        token_at(tokens, index + 1) != Some(SpecToken::SwapValues),
        token_at(tokens, index + 1) != Some(SpecToken::SwapStacks),
    ensures
        generate_from(tokens, index) == Err::<Seq<u8>, SpecAsmError>(
            SpecAsmError::ExpectedSwapKind(token_at(tokens, index + 1)),
        ),
{
}

/// An operand, a qualifier or a digit that stands where a mnemonic has to
/// stand is rejected with an error that names it.
pub proof fn lemma_stray_token_is_rejected(tokens: Seq<SpecToken>, index: int)
    requires
        0 <= index < tokens.len(),
        tokens[index] is Target || tokens[index] is Literal || tokens[index] is StringLiteral
            || tokens[index] is JumpDistance || tokens[index] is ConditionNonZero
            || tokens[index] is ConditionZero || tokens[index] is SwapValues
            || tokens[index] is SwapStacks,
    ensures
        generate_from(tokens, index) == Err::<Seq<u8>, SpecAsmError>(
            SpecAsmError::UnexpectedToken(tokens[index]),
        ),
{
}

/// An error ends the translation: where the token at `index` is translated
/// and a later token is in error, the whole is that error.
pub proof fn lemma_first_error_wins(tokens: Seq<SpecToken>, index: int)
    requires
        0 <= index < tokens.len(),
        translate(tokens, index) is Ok,
    ensures
        generate_from(tokens, index + 1 + translate(tokens, index)->Ok_0.1) is Err
            ==> generate_from(tokens, index) == generate_from(
            tokens,
            index + 1 + translate(tokens, index)->Ok_0.1,
        ),
{
}

} // verus!
