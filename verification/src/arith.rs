//! The arithmetic unit: the one capability through which the engine rounds.
//!
//! A unit is any function from an operation and two operand patterns to a
//! result pattern. The engine asks two things of it, that it accepts every
//! request and that equal requests give equal results, and states all its
//! numeric contracts over `result_of`, the result the unit gives.

use vstd::prelude::*;

verus! {

/// An operation on double-precision numbers. The unary operations and
/// `FromCount` read their first operand only.
#[derive(Clone, Copy, PartialEq, Eq, Debug, Structural)]
pub enum Operation {
    /// `a + b`
    Add,
    /// `a - b`
    Subtract,
    /// `a * b`
    Multiply,
    /// `a / b`
    Divide,
    /// The square root of `a`.
    SquareRoot,
    /// `e` raised to `a`.
    Exponential,
    /// The natural logarithm of `a`.
    Logarithm,
    /// The number nearest to the unsigned integer `a` (not a pattern).
    FromCount,
    /// The unsigned integer (not a pattern) that `a` truncates to: zero for
    /// a NaN and below zero, the greatest integer above the range.
    ToCount,
}

/// What `unit` returns for `op` on `a` and `b`.
pub open spec fn result_of<A: Fn(Operation, u64, u64) -> u64>(
    unit: &A,
    op: Operation,
    a: u64,
    b: u64,
) -> u64 {
    choose|r: u64| call_ensures(*unit, (op, a, b), r)
}

/// `unit` accepts every request and answers each in one way only.
pub open spec fn well_defined<A: Fn(Operation, u64, u64) -> u64>(unit: &A) -> bool {
    &&& forall|op: Operation, a: u64, b: u64| #[trigger] call_requires(*unit, (op, a, b))
    &&& forall|op: Operation, a: u64, b: u64, r: u64| #[trigger]
        call_ensures(*unit, (op, a, b), r) ==> r == result_of(unit, op, a, b)
}

/// `a + b` as the unit rounds it.
pub open spec fn sum<A: Fn(Operation, u64, u64) -> u64>(unit: &A, a: u64, b: u64) -> u64 {
    result_of(unit, Operation::Add, a, b)
}

/// `a - b` as the unit rounds it.
pub open spec fn difference<A: Fn(Operation, u64, u64) -> u64>(unit: &A, a: u64, b: u64) -> u64 {
    result_of(unit, Operation::Subtract, a, b)
}

/// `a * b` as the unit rounds it.
pub open spec fn product<A: Fn(Operation, u64, u64) -> u64>(unit: &A, a: u64, b: u64) -> u64 {
    result_of(unit, Operation::Multiply, a, b)
}

/// `a / b` as the unit rounds it.
pub open spec fn quotient<A: Fn(Operation, u64, u64) -> u64>(unit: &A, a: u64, b: u64) -> u64 {
    result_of(unit, Operation::Divide, a, b)
}

/// The square root of `a` as the unit rounds it.
pub open spec fn square_root<A: Fn(Operation, u64, u64) -> u64>(unit: &A, a: u64) -> u64 {
    result_of(unit, Operation::SquareRoot, a, 0)
}

/// `e` raised to `a` as the unit rounds it.
pub open spec fn exponential<A: Fn(Operation, u64, u64) -> u64>(unit: &A, a: u64) -> u64 {
    result_of(unit, Operation::Exponential, a, 0)
}

/// The natural logarithm of `a` as the unit rounds it.
pub open spec fn logarithm<A: Fn(Operation, u64, u64) -> u64>(unit: &A, a: u64) -> u64 {
    result_of(unit, Operation::Logarithm, a, 0)
}

/// The number that the unit makes of the count `n`.
pub open spec fn from_count<A: Fn(Operation, u64, u64) -> u64>(unit: &A, n: nat) -> u64 {
    result_of(unit, Operation::FromCount, n as u64, 0)
}

/// The count that the unit makes of the number `a`.
pub open spec fn to_count<A: Fn(Operation, u64, u64) -> u64>(unit: &A, a: u64) -> u64 {
    result_of(unit, Operation::ToCount, a, 0)
}

/// Runs one operation on the unit.
pub fn apply<A: Fn(Operation, u64, u64) -> u64>(unit: &A, op: Operation, a: u64, b: u64) -> (r:
    u64)
    requires
        well_defined(unit),
    ensures
        r == result_of(unit, op, a, b),
{
    unit(op, a, b)
}

/// Converts a count to the nearest number.
pub fn count<A: Fn(Operation, u64, u64) -> u64>(unit: &A, n: usize) -> (r: u64)
    requires
        well_defined(unit),
    ensures
        r == from_count(unit, n as nat),
{
    unit(Operation::FromCount, n as u64, 0)
}

} // verus!
