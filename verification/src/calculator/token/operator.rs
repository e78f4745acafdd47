//! Operators and brackets of the expression grammar.

use crate::text::same_text;
use vstd::prelude::*;

verus! {

/// An operator or bracket token. `Unknown` stands for text that is no operator.
#[derive(Debug, Clone, Copy, PartialEq, Eq, Structural)]
pub enum Operator {
    Addition,
    Subtraction,
    Multiplication,
    Division,
    Exponent,
    OpenParanthesis,
    CloseParanthesis,
    OpenBrace,
    CloseBrace,
    Unknown,
}

impl Operator {
    /// The operator that `text` spells: the whole text must be its symbol.
    pub open spec fn spelled(text: Seq<char>) -> Operator {
        if text == seq!['+'] {
            Operator::Addition
        } else if text == seq!['-'] {
            Operator::Subtraction
        } else if text == seq!['*'] {
            Operator::Multiplication
        } else if text == seq!['/'] {
            Operator::Division
        } else if text == seq!['*', '*'] {
            Operator::Exponent
        } else if text == seq!['('] {
            Operator::OpenParanthesis
        } else if text == seq![')'] {
            Operator::CloseParanthesis
        } else if text == seq!['{'] {
            Operator::OpenBrace
        } else if text == seq!['}'] {
            Operator::CloseBrace
        } else {
            Operator::Unknown
        }
    }

    /// Binding strength: exponent above multiplication and division, those
    /// above addition and subtraction; brackets and `Unknown` bind least.
    pub open spec fn strength(self) -> u8 {
        match self {
            Operator::Addition | Operator::Subtraction => 1,
            Operator::Multiplication | Operator::Division => 2,
            Operator::Exponent => 3,
            _ => 0,
        }
    }

    /// Whether this is one of the five arithmetic operators.
    pub open spec fn is_arithmetic(self) -> bool {
        self.strength() > 0
    }

    /// Reads an operator from its symbol; any other text gives `Unknown`.
    pub fn from(operator: &str) -> (op: Operator)
        ensures
            op == Operator::spelled(operator@),
    {
        proof {
            reveal_strlit("+");
            reveal_strlit("-");
            reveal_strlit("*");
            reveal_strlit("/");
            reveal_strlit("**");
            reveal_strlit("(");
            reveal_strlit(")");
            reveal_strlit("{");
            reveal_strlit("}");
            assert("+"@ =~= seq!['+']);
            assert("-"@ =~= seq!['-']);
            assert("*"@ =~= seq!['*']);
            assert("/"@ =~= seq!['/']);
            assert("**"@ =~= seq!['*', '*']);
            assert("("@ =~= seq!['(']);
            assert(")"@ =~= seq![')']);
            assert("{"@ =~= seq!['{']);
            assert("}"@ =~= seq!['}']);
        }
        if same_text(operator, "+") {
            Operator::Addition
        } else if same_text(operator, "-") {
            Operator::Subtraction
        } else if same_text(operator, "*") {
            Operator::Multiplication
        } else if same_text(operator, "/") {
            Operator::Division
        } else if same_text(operator, "**") {
            Operator::Exponent
        } else if same_text(operator, "(") {
            Operator::OpenParanthesis
        } else if same_text(operator, ")") {
            Operator::CloseParanthesis
        } else if same_text(operator, "{") {
            Operator::OpenBrace
        } else if same_text(operator, "}") {
            Operator::CloseBrace
        } else {
            Operator::Unknown
        }
    }

    /// The binding strength of this operator.
    pub fn precedence(&self) -> (p: u8)
        ensures
            p == self.strength(),
    {
        match self {
            Operator::Addition => 1,
            Operator::Subtraction => 1,
            Operator::Multiplication => 2,
            Operator::Division => 2,
            Operator::Exponent => 3,
            _ => 0,
        }
    }
}

} // verus!
