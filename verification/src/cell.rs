//! Cell values: fixed-width unsigned integers whose arithmetic wraps around.
//!
//! The machine is generic over its cell type. Contracts speak of a cell
//! through the natural number it holds and of the type through its modulus,
//! the number of values it can hold.

use vstd::arithmetic::power2::{lemma2_to64, pow2};
use vstd::prelude::*;

verus! {

/// `x` reduced into `0..modulus`; negative numbers wrap upward.
pub open spec fn wrap(x: int, modulus: nat) -> nat {
    (x % (modulus as int)) as nat
}

/// Bitwise and of two numbers that fit in 32 bits.
pub open spec fn bits_and(left: nat, right: nat) -> nat {
    ((left as u32) & (right as u32)) as nat
}

/// Bitwise or of two numbers that fit in 32 bits.
pub open spec fn bits_or(left: nat, right: nat) -> nat {
    ((left as u32) | (right as u32)) as nat
}

/// Bitwise exclusive or of two numbers that fit in 32 bits.
pub open spec fn bits_xor(left: nat, right: nat) -> nat {
    ((left as u32) ^ (right as u32)) as nat
}

/// The number whose bits, within the cell's width, are those of `value` inverted.
pub open spec fn bits_not(value: nat, modulus: nat) -> nat {
    (modulus - 1 - value) as nat
}

/// The character written for a cell that holds `value`: its low eight bits.
pub open spec fn output_char(value: nat) -> char {
    ((value % 256) as u8) as char
}

/// A fixed-width unsigned machine word.
///
/// Sums, differences and products are taken modulo `modulus()`: overflow and
/// underflow wrap silently and never fail.
pub trait Cell: Copy {
    /// Width of the cell in bits.
    spec fn width() -> nat;

    /// Number of distinct values, two to the power of the width.
    spec fn modulus() -> nat;

    /// The number that the cell holds.
    spec fn value(self) -> nat;

    /// The modulus is two to the power of the width, and the width is at
    /// least that of a tape byte and at most that of an input unit.
    proof fn modulus_is_power_of_two()
        ensures
            Self::modulus() == pow2(Self::width()),
            8 <= Self::width() <= 32,
            0x100 <= Self::modulus() <= 0x1_0000_0000,
    ;

    /// Every cell holds a number below the modulus.
    proof fn value_in_range(self)
        ensures
            self.value() < Self::modulus(),
    ;

    /// The cell that holds zero.
    fn zero() -> (c: Self)
        ensures
            c.value() == 0,
    ;

    /// A tape byte, zero-extended to the cell's width.
    fn from_byte(byte: u8) -> (c: Self)
        ensures
            c.value() == byte as nat,
    ;

    /// An input unit, truncated to the cell's width.
    fn from_unit(unit: u32) -> (c: Self)
        ensures
            c.value() == unit as nat % Self::modulus(),
    ;

    /// One for `true`, zero for `false`.
    fn from_bool(flag: bool) -> (c: Self)
        ensures
            c.value() == if flag { 1nat } else { 0nat },
    ;

    /// The low eight bits of the cell.
    fn low_byte(self) -> (byte: u8)
        ensures
            byte as nat == self.value() % 256,
    ;

    /// All the bits of the cell, zero-extended to 32 bits.
    fn to_unit(self) -> (unit: u32)
        ensures
            unit as nat == self.value(),
    ;

    /// Whether the cell holds zero.
    fn is_zero(self) -> (flag: bool)
        ensures
            flag == (self.value() == 0),
    ;

    /// Whether both cells hold the same number.
    fn same_as(self, other: Self) -> (flag: bool)
        ensures
            flag == (self.value() == other.value()),
    ;

    /// Whether the cell holds less than `other`.
    fn less_than(self, other: Self) -> (flag: bool)
        ensures
            flag == (self.value() < other.value()),
    ;

    /// `self + other`, wrapped.
    fn wrapping_sum(self, other: Self) -> (c: Self)
        ensures
            c.value() == wrap((self.value() + other.value()) as int, Self::modulus()),
            c.value() == (self.value() + other.value()) % Self::modulus(),
    ;

    /// `self - other`, wrapped.
    fn wrapping_difference(self, other: Self) -> (c: Self)
        ensures
            c.value() == wrap(self.value() - other.value(), Self::modulus()),
            self.value() >= other.value() ==> c.value() == self.value() - other.value(),
            self.value() < other.value() ==> c.value() == self.value() - other.value()
                + Self::modulus(),
    ;

    /// `self * other`, wrapped.
    fn wrapping_product(self, other: Self) -> (c: Self)
        ensures
            c.value() == wrap((self.value() * other.value()) as int, Self::modulus()),
            c.value() == (self.value() * other.value()) % Self::modulus(),
    ;

    /// `self / other`, rounded down.
    fn quotient(self, other: Self) -> (c: Self)
        requires
            other.value() != 0,
        ensures
            c.value() == self.value() / other.value(),
    ;

    /// The remainder of `self / other`.
    fn remainder(self, other: Self) -> (c: Self)
        requires
            other.value() != 0,
        ensures
            c.value() == self.value() % other.value(),
    ;

    /// Bitwise and.
    fn bit_and(self, other: Self) -> (c: Self)
        ensures
            c.value() == bits_and(self.value(), other.value()),
    ;

    /// Bitwise or.
    fn bit_or(self, other: Self) -> (c: Self)
        ensures
            c.value() == bits_or(self.value(), other.value()),
    ;

    /// Bitwise exclusive or.
    fn bit_xor(self, other: Self) -> (c: Self)
        ensures
            c.value() == bits_xor(self.value(), other.value()),
    ;

    /// Every bit of the cell inverted.
    fn complement(self) -> (c: Self)
        ensures
            c.value() == bits_not(self.value(), Self::modulus()),
    ;
}

impl Cell for u8 {
    open spec fn width() -> nat {
        8
    }

    open spec fn modulus() -> nat {
        0x100
    }

    open spec fn value(self) -> nat {
        self as nat
    }

    proof fn modulus_is_power_of_two() {
        lemma2_to64();
    }

    proof fn value_in_range(self) {
    }

    fn zero() -> (c: Self) {
        0
    }

    fn from_byte(byte: u8) -> (c: Self) {
        byte
    }

    fn from_unit(unit: u32) -> (c: Self) {
        (unit % 0x100) as u8
    }

    fn from_bool(flag: bool) -> (c: Self) {
        if flag {
            1
        } else {
            0
        }
    }

    fn low_byte(self) -> (byte: u8) {
        self
    }

    fn to_unit(self) -> (unit: u32) {
        self as u32
    }

    fn is_zero(self) -> (flag: bool) {
        self == 0
    }

    fn same_as(self, other: Self) -> (flag: bool) {
        self == other
    }

    fn less_than(self, other: Self) -> (flag: bool) {
        self < other
    }

    fn wrapping_sum(self, other: Self) -> (c: Self) {
        self.wrapping_add(other)
    }

    fn wrapping_difference(self, other: Self) -> (c: Self) {
        self.wrapping_sub(other)
    }

    fn wrapping_product(self, other: Self) -> (c: Self) {
        self.wrapping_mul(other)
    }

    fn quotient(self, other: Self) -> (c: Self) {
        self / other
    }

    fn remainder(self, other: Self) -> (c: Self) {
        self % other
    }

    fn bit_and(self, other: Self) -> (c: Self) {
        assert((self & other) as u32 == (self as u32) & (other as u32)) by (bit_vector);
        self & other
    }

    fn bit_or(self, other: Self) -> (c: Self) {
        assert((self | other) as u32 == (self as u32) | (other as u32)) by (bit_vector);
        self | other
    }

    fn bit_xor(self, other: Self) -> (c: Self) {
        assert((self ^ other) as u32 == (self as u32) ^ (other as u32)) by (bit_vector);
        self ^ other
    }

    fn complement(self) -> (c: Self) {
        assert(!self == 0xffu8 - self) by (bit_vector);
        !self
    }
}

impl Cell for u32 {
    open spec fn width() -> nat {
        32
    }

    open spec fn modulus() -> nat {
        0x1_0000_0000
    }

    open spec fn value(self) -> nat {
        self as nat
    }

    proof fn modulus_is_power_of_two() {
        lemma2_to64();
    }

    proof fn value_in_range(self) {
    }

    fn zero() -> (c: Self) {
        0
    }

    fn from_byte(byte: u8) -> (c: Self) {
        byte as u32
    }

    fn from_unit(unit: u32) -> (c: Self) {
        unit
    }

    fn from_bool(flag: bool) -> (c: Self) {
        if flag {
            1
        } else {
            0
        }
    }

    fn low_byte(self) -> (byte: u8) {
        (self % 0x100) as u8
    }

    fn to_unit(self) -> (unit: u32) {
        self
    }

    fn is_zero(self) -> (flag: bool) {
        self == 0
    }

    fn same_as(self, other: Self) -> (flag: bool) {
        self == other
    }

    fn less_than(self, other: Self) -> (flag: bool) {
        self < other
    }

    fn wrapping_sum(self, other: Self) -> (c: Self) {
        self.wrapping_add(other)
    }

    fn wrapping_difference(self, other: Self) -> (c: Self) {
        self.wrapping_sub(other)
    }

    fn wrapping_product(self, other: Self) -> (c: Self) {
        self.wrapping_mul(other)
    }

    fn quotient(self, other: Self) -> (c: Self) {
        self / other
    }

    fn remainder(self, other: Self) -> (c: Self) {
        self % other
    }

    fn bit_and(self, other: Self) -> (c: Self) {
        self & other
    }

    fn bit_or(self, other: Self) -> (c: Self) {
        self | other
    }

    fn bit_xor(self, other: Self) -> (c: Self) {
        self ^ other
    }

    fn complement(self) -> (c: Self) {
        assert(!self == 0xffff_ffffu32 - self) by (bit_vector);
        !self
    }
}

} // verus!
