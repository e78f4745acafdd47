//! Expressions as trees, and the law that ties the calculator to them: an
//! expression of the grammar has the value of its tree.
//!
//! The grammar is the usual one. Exponentiation binds tightest and groups
//! to the right; multiplication and division come next, addition and
//! subtraction last, and these four group to the left. A pair of brackets,
//! round or curly, makes an operand of any expression.

use crate::calculator::number::Number;
use crate::calculator::token::operand::Operand;
use crate::calculator::token::operator::Operator;
use crate::calculator::token::{regex_matches, Token, Yard, TOKEN_PATTERN};
use crate::calculator::{CalculatorPlugin, ComputationError};
use vstd::prelude::*;

verus! {

/// An arithmetic expression as a tree.
pub enum Expression<N> {
    /// A number.
    Number(N),
    /// An operator between two expressions.
    Binary { op: Operator, left: Box<Expression<N>>, right: Box<Expression<N>> },
    /// An expression inside a pair of brackets, round or curly.
    Group { curly: bool, inner: Box<Expression<N>> },
}

/// The opening bracket of a pair.
pub open spec fn opening(curly: bool) -> Operator {
    if curly {
        Operator::OpenBrace
    } else {
        Operator::OpenParanthesis
    }
}

/// The closing bracket of a pair.
pub open spec fn closing(curly: bool) -> Operator {
    if curly {
        Operator::CloseBrace
    } else {
        Operator::CloseParanthesis
    }
}

/// Whether the waiting operator `top` is emitted when `op` arrives: it
/// binds at least as strongly, and the two are not both exponents.
pub open spec fn displaces(op: Operator, top: Operator) -> bool {
    !(top == Operator::Exponent && op == Operator::Exponent) && top.strength() >= op.strength()
}

/// The operators `waiting` as tokens in the order in which they are emitted:
/// the top, which stands last, first.
pub open spec fn released<N>(waiting: Seq<Operator>) -> Seq<Token<N>>
    decreases waiting.len(),
{
    if waiting.len() == 0 {
        Seq::empty()
    } else {
        seq![Token::Operator(waiting.last())] + released(waiting.drop_last())
    }
}

/// Operators that wait behind others are emitted before them.
pub proof fn lemma_released_append<N>(below: Seq<Operator>, above: Seq<Operator>)
    ensures
        released::<N>(below + above) == released::<N>(above) + released::<N>(below),
    decreases above.len(),
{
    if above.len() == 0 {
        assert(below + above =~= below);
        assert(released::<N>(above) + released::<N>(below) =~= released::<N>(below));
    } else {
        assert((below + above).drop_last() =~= below + above.drop_last());
        lemma_released_append::<N>(below, above.drop_last());
        assert(seq![Token::<N>::Operator(above.last())] + (released::<N>(above.drop_last())
            + released::<N>(below)) =~= released::<N>(above) + released::<N>(below));
    }
}

/// Whether `token` is one of the five arithmetic operators.
pub open spec fn is_operation<N>(token: Token<N>) -> bool {
    token matches Token::Operator(op) && op.is_arithmetic()
}

/// Whether an operand may end with `token`: it is an operand or a closing
/// bracket.
pub open spec fn ends_operand<N>(token: Token<N>) -> bool {
    match token {
        Token::Operand(_) => true,
        Token::Operator(op) => op == Operator::CloseParanthesis || op == Operator::CloseBrace,
        Token::Unknown => false,
    }
}

/// Texts among which no minus is a sign stay as they are.
pub proof fn lemma_unsigned<N: Number>(texts: Seq<Seq<char>>, from: int)
    requires
        0 <= from <= texts.len(),
        forall|at: int| !Token::<N>::is_sign(texts, at),
    ensures
        Token::<N>::signed_from(texts, from) == texts.skip(from),
    decreases texts.len() - from,
{
    if from < texts.len() {
        lemma_unsigned::<N>(texts, from + 1);
        assert(!Token::<N>::is_sign(texts, from));
        assert(seq![texts[from]] + texts.skip(from + 1) =~= texts.skip(from));
    } else {
        assert(texts.skip(from) =~= Seq::<Seq<char>>::empty());
    }
}

impl<N> Yard<N> {
    /// An arriving operator emits all waiting operators that it displaces,
    /// down to the first that it does not.
    pub proof fn lemma_yield(self, below: Seq<Operator>, above: Seq<Operator>, op: Operator)
        requires
            self.stack == below + above,
            forall|i: int| 0 <= i < above.len() ==> displaces(op, #[trigger] above[i]),
            below.len() > 0 ==> !displaces(op, below.last()),
        ensures
            self.yield_to(op) == (Yard { output: self.output + released(above), stack: below }),
        decreases above.len(),
    {
        if above.len() == 0 {
            assert(below + above =~= below);
            assert(self.output + released::<N>(above) =~= self.output);
        } else {
            assert(self.stack.last() == above[above.len() - 1]);
            let next = Yard {
                output: self.output.push(Token::Operator(self.stack.last())),
                stack: self.stack.drop_last(),
            };
            assert(self.stack.drop_last() =~= below + above.drop_last());
            assert forall|i: int| 0 <= i < above.drop_last().len() implies displaces(
                op,
                #[trigger] above.drop_last()[i],
            ) by {
                assert(above.drop_last()[i] == above[i]);
            }
            next.lemma_yield(below, above.drop_last(), op);
            assert(next.output + released::<N>(above.drop_last()) =~= self.output + released::<N>(
                above,
            ));
        }
    }

    /// A closing bracket emits the operators that wait above its partner and
    /// takes the partner away.
    pub proof fn lemma_close(self, below: Seq<Operator>, above: Seq<Operator>, open: Operator)
        requires
            self.stack == below.push(open) + above,
            forall|i: int| 0 <= i < above.len() ==> (#[trigger] above[i]).is_arithmetic(),
            !open.is_arithmetic(),
        ensures
            self.close_group(open) == (Yard { output: self.output + released(above), stack: below }),
        decreases above.len(),
    {
        if above.len() == 0 {
            assert(below.push(open) + above =~= below.push(open));
            assert(below.push(open).drop_last() =~= below);
            assert(self.output + released::<N>(above) =~= self.output);
        } else {
            assert(self.stack.last() == above[above.len() - 1]);
            let next = Yard {
                output: self.output.push(Token::Operator(self.stack.last())),
                stack: self.stack.drop_last(),
            };
            assert(self.stack.drop_last() =~= below.push(open) + above.drop_last());
            assert forall|i: int| 0 <= i < above.drop_last().len() implies (
            #[trigger] above.drop_last()[i]).is_arithmetic() by {
                assert(above.drop_last()[i] == above[i]);
            }
            next.lemma_close(below, above.drop_last(), open);
            assert(next.output + released::<N>(above.drop_last()) =~= self.output + released::<N>(
                above,
            ));
        }
    }

    /// At the end the waiting operators are emitted from the top down.
    pub proof fn lemma_flushed(self)
        ensures
            self.flushed() == self.output + released(self.stack),
        decreases self.stack.len(),
    {
        if self.stack.len() == 0 {
            assert(self.output + released::<N>(self.stack) =~= self.output);
        } else {
            let next = Yard {
                output: self.output.push(Token::Operator(self.stack.last())),
                stack: self.stack.drop_last(),
            };
            next.lemma_flushed();
            assert(next.output + released::<N>(next.stack) =~= self.output + released::<N>(
                self.stack,
            ));
        }
    }
}

impl<N: Number> Expression<N> {
    /// The operator at the top of the tree, if the tree is an operation.
    pub open spec fn root(self) -> Option<Operator> {
        match self {
            Expression::Binary { op, left, right } => Some(op),
            _ => None,
        }
    }

    /// Whether the tree is the reading of its own infix form under the
    /// grammar: every operator is arithmetic; to the left of an operator
    /// stands nothing that binds more weakly, and to the left of an exponent
    /// no bare operation at all; to the right of an operator stands only
    /// what binds more strongly, or an exponent to the right of an exponent.
    pub open spec fn grammatical(self) -> bool
        decreases self,
    {
        match self {
            Expression::Number(_) => true,
            Expression::Group { curly, inner } => inner.grammatical(),
            Expression::Binary { op, left, right } => {
                &&& op.is_arithmetic()
                &&& left.grammatical()
                &&& right.grammatical()
                &&& left.root() matches Some(lower) ==> op != Operator::Exponent
                    && lower.strength() >= op.strength()
                &&& right.root() matches Some(upper) ==> upper.strength() > op.strength() || (op
                    == Operator::Exponent && upper == Operator::Exponent)
            },
        }
    }

    /// The expression written out in infix order.
    pub open spec fn infix(self) -> Seq<Token<N>>
        decreases self,
    {
        match self {
            Expression::Number(number) => seq![Token::Operand(Operand::Number(number))],
            Expression::Binary { op, left, right } => left.infix() + seq![Token::Operator(op)]
                + right.infix(),
            Expression::Group { curly, inner } => seq![Token::Operator(opening(curly))]
                + inner.infix() + seq![Token::Operator(closing(curly))],
        }
    }

    /// The expression in postfix order.
    pub open spec fn postfix(self) -> Seq<Token<N>>
        decreases self,
    {
        match self {
            Expression::Number(number) => seq![Token::Operand(Operand::Number(number))],
            Expression::Binary { op, left, right } => left.postfix() + right.postfix() + seq![
                Token::Operator(op),
            ],
            Expression::Group { curly, inner } => inner.postfix(),
        }
    }

    /// The value of the expression: undefined as soon as the domain leaves
    /// one operation in it undefined.
    pub open spec fn value(self) -> Result<N, ComputationError>
        decreases self,
    {
        match self {
            Expression::Number(number) => Ok(number),
            Expression::Group { curly, inner } => inner.value(),
            Expression::Binary { op, left, right } => match left.value() {
                Ok(a) => match right.value() {
                    Ok(b) => match N::applied(op, a, b) {
                        Some(value) => Ok(value),
                        None => Err(ComputationError::Arithmetic),
                    },
                    Err(_) => Err(ComputationError::Arithmetic),
                },
                Err(_) => Err(ComputationError::Arithmetic),
            },
        }
    }

    /// The operators of the expression that still wait when its infix form
    /// has been converted: those on the way from the top of the tree to its
    /// rightmost operand, the top first.
    pub open spec fn waiting(self) -> Seq<Operator>
        decreases self,
    {
        match self {
            Expression::Binary { op, left, right } => seq![op] + right.waiting(),
            _ => Seq::empty(),
        }
    }

    /// What has been emitted when the infix form of the expression has been
    /// converted: its postfix form without the operators that wait.
    pub open spec fn emitted(self) -> Seq<Token<N>>
        decreases self,
    {
        match self {
            Expression::Number(number) => seq![Token::Operand(Operand::Number(number))],
            Expression::Binary { op, left, right } => left.postfix() + right.emitted(),
            Expression::Group { curly, inner } => inner.postfix(),
        }
    }

    /// Whether the operator on top of `stack` stays when the conversion of
    /// the expression begins.
    pub open spec fn guarded(self, stack: Seq<Operator>) -> bool {
        self.root() matches Some(op) ==> stack.len() == 0 || !displaces(op, stack.last())
    }

    /// The postfix form is what was emitted and then the waiting operators,
    /// the last of them first.
    pub proof fn lemma_postfix_splits(self)
        ensures
            self.postfix() == self.emitted() + released(self.waiting()),
        decreases self,
    {
        match self {
            Expression::Binary { op, left, right } => {
                right.lemma_postfix_splits();
                lemma_released_append::<N>(seq![op], right.waiting());
                assert(released::<N>(seq![op]) =~= seq![Token::<N>::Operator(op)]) by {
                    assert(seq![op].drop_last() =~= Seq::<Operator>::empty());
                    assert(released::<N>(Seq::<Operator>::empty()) =~= Seq::<Token<N>>::empty());
                }
                assert(self.postfix() =~= self.emitted() + released(self.waiting()));
            },
            _ => {
                assert(released::<N>(self.waiting()) =~= Seq::<Token<N>>::empty());
                assert(self.postfix() =~= self.emitted() + released(self.waiting()));
            },
        }
    }

    /// The waiting operators are arithmetic and bind at least as strongly as
    /// the operator at the top of the tree.
    pub proof fn lemma_waiting(self, i: int)
        requires
            self.grammatical(),
            0 <= i < self.waiting().len(),
        ensures
            self.waiting()[i].is_arithmetic(),
            self.root() matches Some(op) && self.waiting()[i].strength() >= op.strength(),
        decreases self,
    {
        match self {
            Expression::Binary { op, left, right } => {
                if i > 0 {
                    assert(self.waiting()[i] == right.waiting()[i - 1]);
                    right.lemma_waiting(i - 1);
                }
            },
            _ => {},
        }
    }

    /// Converting the infix form of an expression emits what `emitted` says
    /// and leaves the operators of `waiting` on top of those that waited
    /// before.
    pub proof fn lemma_conversion(self, yard: Yard<N>)
        requires
            self.grammatical(),
            self.guarded(yard.stack),
        ensures
            yard.run(self.infix()) == (Yard {
                output: yard.output + self.emitted(),
                stack: yard.stack + self.waiting(),
            }),
        decreases self,
    {
        match self {
            Expression::Number(number) => {
                let token = Token::Operand(Operand::Number(number));
                Yard::lemma_run_one(yard, token);
                assert(yard.output.push(token) =~= yard.output + self.emitted());
                assert(yard.stack + self.waiting() =~= yard.stack);
            },
            Expression::Group { curly, inner } => {
                let open = Token::<N>::Operator(opening(curly));
                let close = Token::<N>::Operator(closing(curly));
                Yard::lemma_run_one(yard, open);
                let opened = Yard { output: yard.output, stack: yard.stack.push(opening(curly)) };
                assert(inner.guarded(opened.stack)) by {
                    reveal_with_fuel(Expression::grammatical, 2);
                    assert(opened.stack.last() == opening(curly));
                }
                inner.lemma_conversion(opened);
                let inside = Yard {
                    output: yard.output + inner.emitted(),
                    stack: opened.stack + inner.waiting(),
                };
                assert forall|i: int| 0 <= i < inner.waiting().len() implies (
                #[trigger] inner.waiting()[i]).is_arithmetic() by {
                    inner.lemma_waiting(i);
                }
                inside.lemma_close(yard.stack, inner.waiting(), opening(curly));
                inner.lemma_postfix_splits();
                Yard::lemma_run_one(inside, close);
                Yard::lemma_run_append(yard, seq![open], inner.infix());
                Yard::lemma_run_append(yard, seq![open] + inner.infix(), seq![close]);
                assert(inside.output + released::<N>(inner.waiting()) =~= yard.output
                    + self.emitted());
                assert(yard.stack + self.waiting() =~= yard.stack);
            },
            Expression::Binary { op, left, right } => {
                let middle = Token::<N>::Operator(op);
                left.lemma_conversion(yard);
                let after_left = Yard {
                    output: yard.output + left.emitted(),
                    stack: yard.stack + left.waiting(),
                };
                assert forall|i: int| 0 <= i < left.waiting().len() implies displaces(
                    op,
                    #[trigger] left.waiting()[i],
                ) by {
                    left.lemma_waiting(i);
                }
                after_left.lemma_yield(yard.stack, left.waiting(), op);
                left.lemma_postfix_splits();
                let yielded = Yard { output: yard.output + left.postfix(), stack: yard.stack };
                assert(after_left.output + released::<N>(left.waiting()) =~= yielded.output);
                let pushed = Yard { output: yielded.output, stack: yard.stack.push(op) };
                assert(after_left.step(middle) == pushed);
                Yard::lemma_run_one(after_left, middle);
                right.lemma_conversion(pushed);
                Yard::lemma_run_append(yard, left.infix(), seq![middle]);
                Yard::lemma_run_append(yard, left.infix() + seq![middle], right.infix());
                assert(pushed.output + right.emitted() =~= yard.output + self.emitted());
                assert(pushed.stack + right.waiting() =~= yard.stack + self.waiting());
            },
        }
    }

    /// The brackets of the infix form pair up.
    pub proof fn lemma_brackets_pair_up(self, before: Seq<Token<N>>, open: Seq<Operator>)
        requires
            self.grammatical(),
            Token::open_after(before) == Some(open),
        ensures
            Token::open_after(before + self.infix()) == Some(open),
        decreases self,
    {
        match self {
            Expression::Number(number) => {
                let token = Token::Operand(Operand::Number(number));
                assert((before + seq![token]).drop_last() =~= before);
            },
            Expression::Binary { op, left, right } => {
                let middle = Token::<N>::Operator(op);
                left.lemma_brackets_pair_up(before, open);
                let first = before + left.infix() + seq![middle];
                assert(first.drop_last() =~= before + left.infix());
                right.lemma_brackets_pair_up(first, open);
                assert(first + right.infix() =~= before + self.infix());
            },
            Expression::Group { curly, inner } => {
                let opener = Token::<N>::Operator(opening(curly));
                let closer = Token::<N>::Operator(closing(curly));
                let first = before + seq![opener];
                assert(first.drop_last() =~= before);
                inner.lemma_brackets_pair_up(first, open.push(opening(curly)));
                let second = first + inner.infix() + seq![closer];
                assert(second.drop_last() =~= first + inner.infix());
                assert(open.push(opening(curly)).drop_last() =~= open);
                assert(second =~= before + self.infix());
            },
        }
    }

    /// Running the postfix form pushes the value of the expression, or fails
    /// where the expression has none.
    pub proof fn lemma_run(self, rest: Seq<Token<N>>, stack: Seq<Operand<N>>)
        requires
            self.grammatical(),
        ensures
            Token::run(self.postfix() + rest, stack) == (match self.value() {
                Ok(value) => Token::run(rest, stack.push(Operand::Number(value))),
                Err(_) => Err(ComputationError::Arithmetic),
            }),
        decreases self,
    {
        match self {
            Expression::Number(number) => {
                let token = Token::Operand(Operand::Number(number));
                assert((seq![token] + rest).drop_first() =~= rest);
            },
            Expression::Group { curly, inner } => {
                inner.lemma_run(rest, stack);
            },
            Expression::Binary { op, left, right } => {
                let middle = Token::<N>::Operator(op);
                let tail = seq![middle] + rest;
                assert(self.postfix() + rest =~= left.postfix() + (right.postfix() + tail));
                left.lemma_run(right.postfix() + tail, stack);
                if let Ok(a) = left.value() {
                    let one = stack.push(Operand::Number(a));
                    right.lemma_run(tail, one);
                    if let Ok(b) = right.value() {
                        let two = one.push(Operand::Number(b));
                        assert(tail.drop_first() =~= rest);
                        assert(Token::top_two(two) == Some((a, b)));
                        assert(two.take(two.len() - 2) =~= stack);
                    }
                }
            },
        }
    }

    /// Where an expression has no value, an operation in it is undefined.
    pub proof fn lemma_undefined(self)
        ensures
            self.value() matches Err(error) ==> error == ComputationError::Arithmetic,
        decreases self,
    {
        if let Expression::Group { curly, inner } = self {
            inner.lemma_undefined();
        }
    }

    /// In the infix form an operation never stands first, an operand always
    /// stands last, and before each operation stands the end of an operand:
    /// a number or a closing bracket.
    pub proof fn lemma_infix_shape(self)
        requires
            self.grammatical(),
        ensures
            self.infix().len() > 0,
            !is_operation(self.infix().first()),
            ends_operand(self.infix().last()),
            forall|i: int|
                0 <= i < self.infix().len() && is_operation(#[trigger] self.infix()[i]) ==> i > 0
                    && ends_operand(self.infix()[i - 1]),
        decreases self,
    {
        match self {
            Expression::Number(number) => {},
            Expression::Group { curly, inner } => {
                inner.lemma_infix_shape();
                let inside = inner.infix();
                let all = self.infix();
                assert(all.len() == inside.len() + 2);
                assert(all[0] == Token::<N>::Operator(opening(curly)));
                assert(all[all.len() - 1] == Token::<N>::Operator(closing(curly)));
                assert forall|i: int| 0 <= i < all.len() && is_operation(
                    #[trigger] all[i],
                ) implies i > 0 && ends_operand(all[i - 1]) by {
                    if 0 < i < all.len() - 1 {
                        assert(all[i] == inside[i - 1]);
                        assert(i - 1 > 0);
                        assert(all[i - 1] == inside[i - 2]);
                    }
                }
            },
            Expression::Binary { op, left, right } => {
                left.lemma_infix_shape();
                right.lemma_infix_shape();
                let before = left.infix();
                let after = right.infix();
                let all = self.infix();
                assert(all.len() == before.len() + 1 + after.len());
                assert(all[0] == before[0]);
                assert(all[all.len() - 1] == after[after.len() - 1]);
                assert forall|i: int| 0 <= i < all.len() && is_operation(
                    #[trigger] all[i],
                ) implies i > 0 && ends_operand(all[i - 1]) by {
                    if i < before.len() {
                        assert(all[i] == before[i]);
                        assert(all[i - 1] == before[i - 1]);
                    } else if i == before.len() {
                        assert(all[i - 1] == before[before.len() - 1]);
                    } else {
                        let j = i - before.len() - 1;
                        assert(all[i] == after[j]);
                        assert(j > 0);
                        assert(all[i - 1] == after[j - 1]);
                    }
                }
            },
        }
    }

    /// Where texts spell the infix form of an expression, none of them is a
    /// sign: every minus among them stands between two operands.
    pub proof fn lemma_no_signs(self, texts: Seq<Seq<char>>)
        requires
            self.grammatical(),
            Token::<N>::read_all(texts) == self.infix(),
            N::parsed(seq!['-']) is None,
        ensures
            Token::<N>::signed(texts) == texts,
    {
        self.lemma_infix_shape();
        assert forall|at: int| !Token::<N>::is_sign(texts, at) by {
            if 0 <= at < texts.len() && texts[at] == seq!['-'] {
                assert(seq!['-'][0] != seq!['+'][0]);
                assert(Operator::spelled(seq!['-']) == Operator::Subtraction);
                assert(self.infix()[at] == Token::<N>::read(texts[at]));
                assert(is_operation(self.infix()[at]));
                assert(self.infix()[at - 1] == Token::<N>::read(texts[at - 1]));
            }
        }
        lemma_unsigned::<N>(texts, 0);
        assert(texts.skip(0) =~= texts);
    }

    /// The calculator gives an expression of the grammar the value of its
    /// tree, where the texts that the pattern cuts out of the input spell the
    /// infix form of the expression. The law asks of the domain that a lone
    /// minus is no number.
    pub proof fn lemma_value_of_text(self, input: Seq<char>, texts: Seq<Seq<char>>)
        requires
            self.grammatical(),
            regex_matches(TOKEN_PATTERN@, input) == Some(texts),
            Token::<N>::read_all(texts) == self.infix(),
            N::parsed(seq!['-']) is None,
        ensures
            CalculatorPlugin::<N>::calculated(input) == self.value(),
    {
        self.lemma_no_signs(texts);
        self.lemma_value_of_tree();
    }

    /// An expression of the grammar has the value of its tree: its brackets
    /// pair up, its conversion gives the postfix form of the tree, and the
    /// evaluation of that form gives what the tree computes.
    pub proof fn lemma_value_of_tree(self)
        requires
            self.grammatical(),
        ensures
            Token::balanced(self.infix()),
            Token::postfix_of(self.infix()) == self.postfix(),
            Token::evaluated(self.infix()) == self.value(),
    {
        self.lemma_brackets_pair_up(Seq::empty(), Seq::empty());
        assert(Seq::<Token<N>>::empty() + self.infix() =~= self.infix());
        self.lemma_conversion(Yard::empty());
        let done = Yard::<N>::empty().run(self.infix());
        done.lemma_flushed();
        self.lemma_postfix_splits();
        assert(Seq::<Token<N>>::empty() + self.emitted() =~= self.emitted());
        assert(Seq::<Operator>::empty() + self.waiting() =~= self.waiting());
        self.lemma_run(Seq::empty(), Seq::empty());
        self.lemma_undefined();
        assert(self.postfix() + Seq::<Token<N>>::empty() =~= self.postfix());
        if let Ok(value) = self.value() {
            let stack = Seq::<Operand<N>>::empty().push(Operand::Number(value));
            assert(Token::run(Seq::<Token<N>>::empty(), stack) == Ok::<
                Seq<Operand<N>>,
                ComputationError,
            >(stack));
            assert(stack.last() == Operand::Number(value));
        }
    }
}

} // verus!
