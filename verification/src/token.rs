//! The words of the assembly language.

use crate::opcode::{
    AND, COMPLEMENT, DIVIDE, DROP, DUPLICATE, EQUAL, GREATER, LESS, MINUS, MODULO, NOT, OR, PLUS,
    PRINT, SKIP_IF_ZERO, STORE, TIMES, XOR,
};
use vstd::prelude::*;

verus! {

/// A place on one of the two stacks that an operand can be taken from.
#[derive(Clone, Copy, Debug, PartialEq, Eq, Structural)]
pub enum Target {
    /// `p1`: the top of the primary stack.
    P1,
    /// `p2`: the value below the top of the primary stack.
    P2,
    /// `s1`: the top of the secondary stack.
    S1,
    /// `s2`: the value below the top of the secondary stack.
    S2,
}

/// A mnemonic that takes a left and a right operand.
#[derive(Clone, Copy, Debug, PartialEq, Eq, Structural)]
pub enum BinaryOp {
    Add,
    Subtract,
    Multiply,
    Divide,
    Modulo,
    And,
    Or,
    Xor,
    Equal,
    Less,
    Greater,
}

/// A mnemonic that takes one operand.
#[derive(Clone, Copy, Debug, PartialEq, Eq, Structural)]
pub enum UnaryOp {
    /// `neg`, `inv`: bitwise complement.
    Complement,
    /// `not`: logical not.
    Not,
    /// `dup`.
    Duplicate,
    /// `drop`.
    Drop,
    /// `jz`: skip the next byte if the operand is zero.
    Conditional,
    /// `out`, `pri`.
    Print,
    /// `st`: store in the scratch register.
    Store,
}

impl BinaryOp {
    /// The machine instruction that carries the operation out.
    pub open spec fn spec_opcode(self) -> u8 {
        match self {
            BinaryOp::Add => PLUS,
            BinaryOp::Subtract => MINUS,
            BinaryOp::Multiply => TIMES,
            BinaryOp::Divide => DIVIDE,
            BinaryOp::Modulo => MODULO,
            BinaryOp::And => AND,
            BinaryOp::Or => OR,
            BinaryOp::Xor => XOR,
            BinaryOp::Equal => EQUAL,
            BinaryOp::Less => LESS,
            BinaryOp::Greater => GREATER,
        }
    }

    /// Whether the result is the same when the operands change places.
    pub open spec fn spec_is_symmetric(self) -> bool {
        match self {
            BinaryOp::Add | BinaryOp::Multiply | BinaryOp::And | BinaryOp::Or | BinaryOp::Xor
            | BinaryOp::Equal => true,
            _ => false,
        }
    }

    #[verifier::when_used_as_spec(spec_opcode)]
    pub fn opcode(self) -> (op: u8)
        ensures
            op == self.spec_opcode(),
    {
        match self {
            BinaryOp::Add => PLUS,
            BinaryOp::Subtract => MINUS,
            BinaryOp::Multiply => TIMES,
            BinaryOp::Divide => DIVIDE,
            BinaryOp::Modulo => MODULO,
            BinaryOp::And => AND,
            BinaryOp::Or => OR,
            BinaryOp::Xor => XOR,
            BinaryOp::Equal => EQUAL,
            BinaryOp::Less => LESS,
            BinaryOp::Greater => GREATER,
        }
    }

    #[verifier::when_used_as_spec(spec_is_symmetric)]
    pub fn is_symmetric(self) -> (symmetric: bool)
        ensures
            symmetric == self.spec_is_symmetric(),
    {
        match self {
            BinaryOp::Add | BinaryOp::Multiply | BinaryOp::And | BinaryOp::Or | BinaryOp::Xor
            | BinaryOp::Equal => true,
            _ => false,
        }
    }
}

impl UnaryOp {
    /// The machine instruction that carries the operation out.
    pub open spec fn spec_opcode(self) -> u8 {
        match self {
            UnaryOp::Complement => COMPLEMENT,
            UnaryOp::Not => NOT,
            UnaryOp::Duplicate => DUPLICATE,
            UnaryOp::Drop => DROP,
            UnaryOp::Conditional => SKIP_IF_ZERO,
            UnaryOp::Print => PRINT,
            UnaryOp::Store => STORE,
        }
    }

    #[verifier::when_used_as_spec(spec_opcode)]
    pub fn opcode(self) -> (op: u8)
        ensures
            op == self.spec_opcode(),
    {
        match self {
            UnaryOp::Complement => COMPLEMENT,
            UnaryOp::Not => NOT,
            UnaryOp::Duplicate => DUPLICATE,
            UnaryOp::Drop => DROP,
            UnaryOp::Conditional => SKIP_IF_ZERO,
            UnaryOp::Print => PRINT,
            UnaryOp::Store => STORE,
        }
    }
}

/// One word of the source text.
#[derive(Debug, PartialEq, Eq)]
pub enum Token {
    /// A mnemonic with two operands.
    Binary(BinaryOp),
    /// A mnemonic with one operand.
    Unary(UnaryOp),
    /// `while`, `loop`.
    LoopStart,
    /// `cont`, `next`.
    LoopContinue,
    /// `nonzero`.
    ConditionNonZero,
    /// `zero`.
    ConditionZero,
    /// `swap`.
    Swap,
    /// `values`.
    SwapValues,
    /// `stacks`.
    SwapStacks,
    /// `jmp`.
    Jump,
    /// One of the digits `1` to `9`, as a number.
    JumpDistance(u8),
    /// `push`.
    Push,
    /// A number or a character, in the form in which the machine reads it.
    Literal(Vec<u8>),
    /// The bytes between the quotes of a string.
    StringLiteral(Vec<u8>),
    /// `in`, `get`.
    Input,
    /// `ld`.
    LoadFromCell,
    /// `p1`, `p2`, `s1`, `s2`.
    Target(Target),
    /// `embed`.
    EmbeddedCode,
    /// Text that is no word of the language.
    Invalid(Vec<u8>),
}

/// A token as mathematics: its bytes are sequences.
pub enum SpecToken {
    Binary(BinaryOp),
    Unary(UnaryOp),
    LoopStart,
    LoopContinue,
    ConditionNonZero,
    ConditionZero,
    Swap,
    SwapValues,
    SwapStacks,
    Jump,
    JumpDistance(u8),
    Push,
    Literal(Seq<u8>),
    StringLiteral(Seq<u8>),
    Input,
    LoadFromCell,
    Target(Target),
    EmbeddedCode,
    Invalid(Seq<u8>),
}

impl View for Token {
    type V = SpecToken;

    open spec fn view(&self) -> SpecToken {
        match self {
            Token::Binary(op) => SpecToken::Binary(*op),
            Token::Unary(op) => SpecToken::Unary(*op),
            Token::LoopStart => SpecToken::LoopStart,
            Token::LoopContinue => SpecToken::LoopContinue,
            Token::ConditionNonZero => SpecToken::ConditionNonZero,
            Token::ConditionZero => SpecToken::ConditionZero,
            Token::Swap => SpecToken::Swap,
            Token::SwapValues => SpecToken::SwapValues,
            Token::SwapStacks => SpecToken::SwapStacks,
            Token::Jump => SpecToken::Jump,
            Token::JumpDistance(distance) => SpecToken::JumpDistance(*distance),
            Token::Push => SpecToken::Push,
            Token::Literal(text) => SpecToken::Literal(text@),
            Token::StringLiteral(text) => SpecToken::StringLiteral(text@),
            Token::Input => SpecToken::Input,
            Token::LoadFromCell => SpecToken::LoadFromCell,
            Token::Target(target) => SpecToken::Target(*target),
            Token::EmbeddedCode => SpecToken::EmbeddedCode,
            Token::Invalid(text) => SpecToken::Invalid(text@),
        }
    }
}

/// The tokens of a list, each as mathematics.
pub open spec fn token_views(tokens: Seq<Token>) -> Seq<SpecToken> {
    tokens.map_values(|t: Token| t@)
}

/// A copy of `bytes`.
pub fn copy_bytes(bytes: &Vec<u8>) -> (copy: Vec<u8>)
    ensures
        copy@ == bytes@,
{
    let mut copy: Vec<u8> = Vec::new();
    let mut i: usize = 0;
    while i < bytes.len()
        invariant
            i <= bytes@.len(),
            copy@ == bytes@.take(i as int),
        decreases bytes.len() - i,
    {
        copy.push(bytes[i]);
        i = i + 1;
        assert(copy@ =~= bytes@.take(i as int));
    }
    assert(bytes@.take(i as int) =~= bytes@);
    copy
}

impl Token {
    /// A copy of the token.
    pub fn duplicate(&self) -> (copy: Token)
        ensures
            copy@ == self@,
    {
        match self {
            Token::Binary(op) => Token::Binary(*op),
            Token::Unary(op) => Token::Unary(*op),
            Token::LoopStart => Token::LoopStart,
            Token::LoopContinue => Token::LoopContinue,
            Token::ConditionNonZero => Token::ConditionNonZero,
            Token::ConditionZero => Token::ConditionZero,
            Token::Swap => Token::Swap,
            Token::SwapValues => Token::SwapValues,
            Token::SwapStacks => Token::SwapStacks,
            Token::Jump => Token::Jump,
            Token::JumpDistance(distance) => Token::JumpDistance(*distance),
            Token::Push => Token::Push,
            Token::Literal(text) => Token::Literal(copy_bytes(text)),
            Token::StringLiteral(text) => Token::StringLiteral(copy_bytes(text)),
            Token::Input => Token::Input,
            Token::LoadFromCell => Token::LoadFromCell,
            Token::Target(target) => Token::Target(*target),
            Token::EmbeddedCode => Token::EmbeddedCode,
            Token::Invalid(text) => Token::Invalid(copy_bytes(text)),
        }
    }
}

impl Clone for Token {
    fn clone(&self) -> (copy: Self)
        ensures
            copy@ == self@,
    {
        self.duplicate()
    }
}

} // verus!
