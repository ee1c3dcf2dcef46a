//! The instruction encoding: one ASCII byte per opcode.
//!
//! The machine reads these bytes and the assembler writes them.

use vstd::prelude::*;

verus! {

/// `'`: push the next tape byte.
pub const PUSH_CHAR: u8 = 0x27;

/// `"`: push every byte up to the closing `"`.
pub const PUSH_STRING: u8 = 0x22;

/// `#`: push the byte that the next two hexadecimal digits spell.
pub const PUSH_HEX: u8 = 0x23;

/// `1`, the shortest relative jump.
pub const JUMP_MIN: u8 = 0x31;

/// `9`, the longest relative jump.
pub const JUMP_MAX: u8 = 0x39;

/// `[`: pop, and skip past the matching `]` if the value is zero.
pub const WHILE_OPEN: u8 = 0x5b;

/// `]`: pop, and go back to the matching `[` if the value is not zero.
pub const WHILE_CLOSE: u8 = 0x5d;

/// `(`: pop, and skip past the matching `)` if the value is not zero.
pub const UNTIL_OPEN: u8 = 0x28;

/// `)`: pop, and go back to the matching `(` if the value is zero.
pub const UNTIL_CLOSE: u8 = 0x29;

/// `.`: halt.
pub const HALT: u8 = 0x2e;

/// `:`: duplicate the top of the primary stack.
pub const DUPLICATE: u8 = 0x3a;

/// `` ` ``: drop the top of the primary stack.
pub const DROP: u8 = 0x60;

/// `{`: pop into the scratch register.
pub const STORE: u8 = 0x7b;

/// `}`: push the scratch register.
pub const LOAD: u8 = 0x7d;

/// `x`: swap the two topmost values of the primary stack.
pub const SWAP_VALUES: u8 = 0x78;

/// `X`: exchange the primary and the secondary stack.
pub const SWAP_STACKS: u8 = 0x58;

/// `!`: logical not.
pub const NOT: u8 = 0x21;

/// `<`: less than.
pub const LESS: u8 = 0x3c;

/// `>`: greater than.
pub const GREATER: u8 = 0x3e;

/// `=`: equal.
pub const EQUAL: u8 = 0x3d;

/// `+`: sum.
pub const PLUS: u8 = 0x2b;

/// `-`: difference.
pub const MINUS: u8 = 0x2d;

/// `*`: product.
pub const TIMES: u8 = 0x2a;

/// `/`: quotient.
pub const DIVIDE: u8 = 0x2f;

/// `%`: remainder.
pub const MODULO: u8 = 0x25;

/// `^`: bitwise exclusive or.
pub const XOR: u8 = 0x5e;

/// `&`: bitwise and.
pub const AND: u8 = 0x26;

/// `|`: bitwise or.
pub const OR: u8 = 0x7c;

/// `~`: bitwise complement.
pub const COMPLEMENT: u8 = 0x7e;

/// `?`: pop, and skip the next byte if the value is zero.
pub const SKIP_IF_ZERO: u8 = 0x3f;

/// `;`: pop and write one character.
pub const PRINT: u8 = 0x3b;

/// `@`: read one input unit and push it.
pub const INPUT: u8 = 0x40;

/// Whether `op` is one of the operators that pop a left and a right operand
/// and push one result.
pub open spec fn is_binary(op: u8) -> bool {
    op == LESS || op == GREATER || op == EQUAL || op == PLUS || op == MINUS || op == TIMES || op
        == DIVIDE || op == MODULO || op == XOR || op == AND || op == OR
}

/// Whether `op` is a relative jump, one of the digits `1` to `9`.
pub open spec fn is_jump(op: u8) -> bool {
    JUMP_MIN <= op <= JUMP_MAX
}

/// The number of bytes that the relative jump `op` skips.
pub open spec fn jump_distance(op: u8) -> nat
    recommends
        is_jump(op),
{
    (op - 0x30) as nat
}

} // verus!
