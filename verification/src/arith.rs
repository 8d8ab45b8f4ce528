//! The arithmetic unit, and what the engine itself knows of doubles.
//!
//! A number is the bit pattern of an IEEE-754 double. The engine decides by
//! itself what the bits alone decide: whether a number is zero or one, and
//! its negation. Every operation that rounds is asked of an *arithmetic
//! unit*, a function that the caller hands in: the conversion of a numeral,
//! the five infix operators, and the built-in functions.
//!
//! The contracts of the functions that take a unit are stated over *oracles*,
//! mathematical functions from queries to answers. A contract of the form
//! `forall|o| agrees(unit, o) ==> ..` says what the function returns under
//! every oracle that answers as the unit does. A unit that computes a
//! function of its operation agrees with that function, which pins the
//! result down; of a unit that gives two answers to one question, such a
//! contract says nothing. The functions that ask the unit once say more:
//! what they return for whatever answer the unit gave ([`answers`]).

use crate::ast::BinaryOp;
use crate::bytecode::Builtin;
use vstd::prelude::*;

verus! {

/// One piece of rounding arithmetic that the engine asks of its arithmetic
/// unit. Operands and results are the bits of doubles.
pub enum Operation<'a> {
    /// The double nearest to a decimal numeral: digits with at most one `.`
    /// among them, and at least one digit.
    Parse(&'a str),
    /// An infix operator applied to two operands, left then right.
    Binary(BinaryOp, u64, u64),
    /// A built-in function applied to its arguments, in source order. The
    /// engine passes as many arguments as the source gives, whatever the
    /// function expects, and never asks for [`Builtin::Unknown`].
    Call(Builtin, &'a [u64]),
}

/// What an [`Operation`] asks, as a mathematical value.
pub enum Query {
    Parse(Seq<char>),
    Binary(BinaryOp, u64, u64),
    Call(Builtin, Seq<u64>),
}

impl<'a> View for Operation<'a> {
    type V = Query;

    open spec fn view(&self) -> Query {
        match *self {
            Operation::Parse(text) => Query::Parse(text@),
            Operation::Binary(op, a, b) => Query::Binary(op, a, b),
            Operation::Call(f, args) => Query::Call(f, args@),
        }
    }
}

/// A fixed answer to every query: the arithmetic as a mathematical function.
pub type Oracle = spec_fn(Query) -> u64;

/// The unit accepts every operation.
pub open spec fn total<F: Fn(Operation) -> u64>(unit: &F) -> bool {
    forall|q: Operation| unit.requires((q,))
}

/// Whatever the unit returns for an operation is the oracle's answer to it.
pub open spec fn agrees<F: Fn(Operation) -> u64>(unit: &F, o: Oracle) -> bool {
    forall|q: Operation, r: u64| unit.ensures((q,), r) ==> r == o(q@)
}

/// `r` is an answer that the unit may give to the query.
pub open spec fn answers<F: Fn(Operation) -> u64>(unit: &F, query: Query, r: u64) -> bool {
    exists|q: Operation| q@ == query && unit.ensures((q,), r)
}

/// The sign bit of a double.
pub const SIGN_BIT: u64 = 0x8000_0000_0000_0000;

/// The bits of `+0.0`.
pub const ZERO: u64 = 0;

/// The bits of `1.0`.
pub const ONE: u64 = 0x3FF0_0000_0000_0000;

/// The bits of positive infinity: the exponent all ones, the fraction zero.
pub const INFINITY: u64 = 0x7FF0_0000_0000_0000;

/// The bits of the quiet NaN that stands for "no value".
pub const NAN: u64 = 0x7FF8_0000_0000_0000;

/// Whether the bits are those of `+0.0` or `-0.0`, the two doubles that
/// compare equal to zero.
pub open spec fn is_zero(bits: u64) -> bool {
    bits == ZERO || bits == SIGN_BIT
}

/// Whether the bits are those of `1.0`, the one double that compares equal
/// to one.
pub open spec fn is_one(bits: u64) -> bool {
    bits == ONE
}

/// The bits of the negated double: the sign bit is flipped, all else kept.
pub open spec fn negated(bits: u64) -> u64 {
    if bits >= SIGN_BIT {
        (bits - SIGN_BIT) as u64
    } else {
        (bits + SIGN_BIT) as u64
    }
}

/// Whether a double compares equal to zero.
pub fn zero_bits(bits: u64) -> (r: bool)
    ensures
        r == is_zero(bits),
{
    bits == ZERO || bits == SIGN_BIT
}

/// Whether a double compares equal to one.
pub fn one_bits(bits: u64) -> (r: bool)
    ensures
        r == is_one(bits),
{
    bits == ONE
}

/// The negated double.
pub fn negate(bits: u64) -> (r: u64)
    ensures
        r == negated(bits),
        r == bits ^ SIGN_BIT,
        negated(r) == bits,
{
    assert(bits >= 0x8000_0000_0000_0000u64 ==> bits ^ 0x8000_0000_0000_0000u64 == bits
        - 0x8000_0000_0000_0000u64) by (bit_vector);
    assert(bits < 0x8000_0000_0000_0000u64 ==> bits ^ 0x8000_0000_0000_0000u64 == bits
        + 0x8000_0000_0000_0000u64) by (bit_vector);
    bits ^ SIGN_BIT
}

} // verus!
