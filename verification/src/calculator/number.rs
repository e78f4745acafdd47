//! The numeric domain that the calculator computes in.

use crate::calculator::token::operator::Operator;
use vstd::prelude::*;

verus! {

/// A numeric domain: how its literals read, what the five arithmetic
/// operators compute in it, and how a value is shown.
///
/// Each executable method is tied to a specification function, so that what
/// the calculator returns can be stated exactly for every domain. A domain
/// says what its three specification functions are; of a domain that leaves
/// them as they stand here nothing is known but that each method computes
/// some function of its arguments.
pub trait Number: Sized {
    /// The number that `text` spells, if it spells one.
    open spec fn parsed(text: Seq<char>) -> Option<Self> {
        arbitrary()
    }

    /// Reads a literal.
    fn parse(text: &str) -> (number: Option<Self>)
        ensures
            number == Self::parsed(text@),
    ;

    /// `a op b`, where the domain defines it. Only asked for the five
    /// arithmetic operators.
    open spec fn applied(op: Operator, a: Self, b: Self) -> Option<Self> {
        arbitrary()
    }

    /// Computes `a op b`.
    fn apply(op: Operator, a: Self, b: Self) -> (value: Option<Self>)
        requires
            op.is_arithmetic(),
        ensures
            value == Self::applied(op, a, b),
    ;

    /// The text that shows this number to the user.
    open spec fn rendered(&self) -> Seq<char> {
        arbitrary()
    }

    /// Shows this number.
    fn render(&self) -> (text: String)
        ensures
            text@ == self.rendered(),
    ;
}

} // verus!
