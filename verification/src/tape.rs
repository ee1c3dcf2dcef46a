//! The program: a sequence of bytes that never changes once it is made.

use vstd::prelude::*;
use vstd::slice::slice_to_vec;

verus! {

/// The longest relative jump that an instruction can make.
pub const MAX_JUMP: usize = 9;

/// A program tape.
///
/// A tape is short enough that a position one jump past its end still fits
/// in a `usize`, so the machine's position never overflows.
pub struct Tape {
    bytes: Vec<u8>,
}

impl View for Tape {
    type V = Seq<u8>;

    closed spec fn view(&self) -> Seq<u8> {
        self.bytes@
    }
}

impl Tape {
    #[verifier::type_invariant]
    spec fn jump_fits(&self) -> bool {
        self.bytes@.len() + MAX_JUMP <= usize::MAX
    }

    /// Whether a program of `len` bytes can be put on a tape.
    pub open spec fn fits(len: nat) -> bool {
        len + MAX_JUMP <= usize::MAX
    }

    /// Whether a program of `len` bytes can be put on a tape.
    pub fn can_hold(len: usize) -> (yes: bool)
        ensures
            yes == Self::fits(len as nat),
    {
        len <= usize::MAX - MAX_JUMP
    }

    /// Copies `bytes` onto a new tape.
    pub fn new(bytes: &[u8]) -> (tape: Tape)
        requires
            Self::fits(bytes@.len()),
        ensures
            tape@ == bytes@,
    {
        Tape { bytes: slice_to_vec(bytes) }
    }

    /// The number of bytes on the tape.
    pub fn len(&self) -> (n: usize)
        ensures
            n == self@.len(),
            Self::fits(self@.len()),
    {
        proof {
            use_type_invariant(self);
        }
        self.bytes.len()
    }

    /// The byte at `index`, if the tape is that long.
    pub fn get(&self, index: usize) -> (byte: Option<u8>)
        ensures
            byte == if index < self@.len() {
                Some(self@[index as int])
            } else {
                None
            },
            Self::fits(self@.len()),
    {
        proof {
            use_type_invariant(self);
        }
        if index < self.bytes.len() {
            Some(self.bytes[index])
        } else {
            None
        }
    }

    /// The byte at `index`.
    pub fn byte(&self, index: usize) -> (byte: u8)
        requires
            index < self@.len(),
        ensures
            byte == self@[index as int],
            Self::fits(self@.len()),
    {
        proof {
            use_type_invariant(self);
        }
        self.bytes[index]
    }

    /// The whole tape.
    pub fn as_slice(&self) -> (bytes: &[u8])
        ensures
            bytes@ == self@,
            Self::fits(self@.len()),
    {
        proof {
            use_type_invariant(self);
        }
        self.bytes.as_slice()
    }
}

} // verus!
