//! The assembler: from source text to machine code.

use crate::codegen::{assembled, generate, spec_generate, AsmError, SpecAsmError};
use crate::lexer::{spec_tokenize, tokenize};
use vstd::prelude::*;

verus! {

/// The machine code for the source `source`, or the first error in it.
pub open spec fn spec_assemble(source: Seq<u8>) -> Result<Seq<u8>, SpecAsmError> {
    spec_generate(spec_tokenize(source))
}

/// Compiles a program in the assembly language into a tape for the machine.
///
/// The result is the whole tape or an error, never part of a tape.
pub fn assemble(source: &[u8]) -> (result: Result<Vec<u8>, AsmError>)
    ensures
        assembled(result) == spec_assemble(source@),
{
    let tokens = tokenize(source);
    generate(tokens.as_slice())
}

} // verus!
