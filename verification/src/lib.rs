//! A two-stack byte-tape machine and the assembler that targets it.
//!
//! The machine runs a tape of one-byte instructions on two stacks of cells
//! and a scratch register. The assembler compiles a language of mnemonics
//! into such a tape: each mnemonic names its operands by their place on the
//! stacks, and the assembler writes the shuffles that bring them to where
//! the machine's instruction pops them.
//!
//! * [`cell`], [`tape`], [`opcode`], [`hex`], [`input`], [`error`]: what the
//!   machine is made of.
//! * [`model`]: the machine as mathematics, one step at a time.
//! * [`brackets`]: how a loop finds its other bracket.
//! * [`machine`]: the machine itself, verified against the model.
//! * [`token`], [`lexer`], [`codegen`], [`assembler`]: the assembler.
//! * [`display`]: what a front end needs to show a machine.
//! * [`laws`], [`assembly_laws`], [`shuffle_laws`]: what is proved of the
//!   machine, of the assembler, and of the code of the one run on the other.

pub mod assembler;
pub mod assembly_laws;
pub mod brackets;
pub mod cell;
pub mod codegen;
pub mod display;
pub mod error;
pub mod hex;
pub mod input;
pub mod laws;
pub mod lexer;
pub mod machine;
pub mod model;
pub mod opcode;
pub mod shuffle_laws;
pub mod tape;
mod text;
pub mod token;
