//! Operands of the expression grammar.

use vstd::prelude::*;

verus! {

/// A number of the domain `T`, or `Invalid` for text that spells none.
#[derive(Debug)]
pub enum Operand<T> {
    Number(T),
    Invalid,
}

} // verus!
