//! Tokens of an arithmetic expression, and the conversion of an infix token
//! sequence to postfix order.

pub mod operand;
pub mod operator;

use crate::calculator::number::Number;
use crate::calculator::token::operand::Operand;
use crate::calculator::token::operator::Operator;
use crate::calculator::ComputationError;
use crate::text::{concat, same_text};
use vstd::prelude::*;

verus! {

/// One token: an operand, an operator or bracket, or `Unknown` for text that
/// is neither.
#[derive(Debug)]
pub enum Token<T> {
    Operand(Operand<T>),
    Operator(Operator),
    Unknown,
}

/// The two halves of a conversion in progress: what has been emitted, and the
/// operators that wait for their right operand (top last).
pub struct Yard<T> {
    pub output: Seq<Token<T>>,
    pub stack: Seq<Operator>,
}

impl<T> Yard<T> {
    /// Nothing emitted, nothing waiting.
    pub open spec fn empty() -> Yard<T> {
        Yard { output: Seq::empty(), stack: Seq::empty() }
    }

    /// Emits the waiting operators from the top down until `open` is on top,
    /// and drops that `open`; with no `open` waiting, everything is emitted.
    pub open spec fn close_group(self, open: Operator) -> Yard<T>
        decreases self.stack.len(),
    {
        if self.stack.len() == 0 {
            self
        } else if self.stack.last() == open {
            Yard { output: self.output, stack: self.stack.drop_last() }
        } else {
            Yard {
                output: self.output.push(Token::Operator(self.stack.last())),
                stack: self.stack.drop_last(),
            }.close_group(open)
        }
    }

    /// Emits the waiting operators that bind at least as strongly as `op`,
    /// from the top down. An exponent does not displace an exponent, which
    /// makes exponentiation group to the right.
    pub open spec fn yield_to(self, op: Operator) -> Yard<T>
        decreases self.stack.len(),
    {
        if self.stack.len() == 0 {
            self
        } else if self.stack.last() == Operator::Exponent && op == Operator::Exponent {
            self
        } else if self.stack.last().strength() >= op.strength() {
            Yard {
                output: self.output.push(Token::Operator(self.stack.last())),
                stack: self.stack.drop_last(),
            }.yield_to(op)
        } else {
            self
        }
    }

    /// The yard after one more token of the infix sequence.
    pub open spec fn step(self, token: Token<T>) -> Yard<T> {
        match token {
            Token::Operand(_) => Yard { output: self.output.push(token), stack: self.stack },
            Token::Operator(op) => match op {
                Operator::OpenParanthesis | Operator::OpenBrace => Yard {
                    output: self.output,
                    stack: self.stack.push(op),
                },
                Operator::CloseParanthesis => self.close_group(Operator::OpenParanthesis),
                Operator::CloseBrace => self.close_group(Operator::OpenBrace),
                _ => {
                    let yielded = self.yield_to(op);
                    Yard { output: yielded.output, stack: yielded.stack.push(op) }
                },
            },
            Token::Unknown => self,
        }
    }

    /// This yard after `tokens` more, taken from the left.
    pub open spec fn run(self, tokens: Seq<Token<T>>) -> Yard<T>
        decreases tokens.len(),
    {
        if tokens.len() == 0 {
            self
        } else {
            self.run(tokens.drop_last()).step(tokens.last())
        }
    }

    /// Running one token is one step.
    pub proof fn lemma_run_one(yard: Yard<T>, token: Token<T>)
        ensures
            yard.run(seq![token]) == yard.step(token),
    {
        assert(seq![token].drop_last() =~= Seq::<Token<T>>::empty());
        assert(yard.run(Seq::empty()) == yard);
    }

    /// Running two sequences one after the other is running them joined.
    pub proof fn lemma_run_append(yard: Yard<T>, first: Seq<Token<T>>, second: Seq<Token<T>>)
        ensures
            yard.run(first + second) == yard.run(first).run(second),
        decreases second.len(),
    {
        if second.len() == 0 {
            assert(first + second =~= first);
        } else {
            assert((first + second).drop_last() =~= first + second.drop_last());
            Yard::lemma_run_append(yard, first, second.drop_last());
        }
    }

    /// The yard after all of `tokens`, taken from the left, with nothing
    /// emitted and nothing waiting before.
    pub open spec fn after(tokens: Seq<Token<T>>) -> Yard<T> {
        Yard::empty().run(tokens)
    }

    /// What has been emitted, followed by every waiting operator from the top
    /// down.
    pub open spec fn flushed(self) -> Seq<Token<T>>
        decreases self.stack.len(),
    {
        if self.stack.len() == 0 {
            self.output
        } else {
            Yard {
                output: self.output.push(Token::Operator(self.stack.last())),
                stack: self.stack.drop_last(),
            }.flushed()
        }
    }
}

impl<T> Token<T> {
    /// The postfix order of an infix token sequence: operands keep their
    /// order, each operator follows its operands, brackets group and are
    /// dropped where they pair up.
    pub open spec fn postfix_of(tokens: Seq<Token<T>>) -> Seq<Token<T>> {
        Yard::after(tokens).flushed()
    }

    /// The opening brackets that still wait for their partner after
    /// `tokens`, innermost last; nothing once a closing bracket has met no
    /// partner of its kind.
    pub open spec fn open_after(tokens: Seq<Token<T>>) -> Option<Seq<Operator>>
        decreases tokens.len(),
    {
        if tokens.len() == 0 {
            Some(Seq::empty())
        } else {
            match Token::open_after(tokens.drop_last()) {
                None => None,
                Some(open) => match tokens.last() {
                    Token::Operator(Operator::OpenParanthesis) => Some(
                        open.push(Operator::OpenParanthesis),
                    ),
                    Token::Operator(Operator::OpenBrace) => Some(open.push(Operator::OpenBrace)),
                    Token::Operator(Operator::CloseParanthesis) => if open.len() > 0
                        && open.last() == Operator::OpenParanthesis {
                        Some(open.drop_last())
                    } else {
                        None
                    },
                    Token::Operator(Operator::CloseBrace) => if open.len() > 0 && open.last()
                        == Operator::OpenBrace {
                        Some(open.drop_last())
                    } else {
                        None
                    },
                    _ => Some(open),
                },
            }
        }
    }

    /// Whether every bracket of `tokens` has a partner of its own kind, the
    /// pairs properly nested.
    pub open spec fn balanced(tokens: Seq<Token<T>>) -> bool {
        Token::open_after(tokens) == Some(Seq::<Operator>::empty())
    }

    /// Tests whether the brackets of `tokens` pair up.
    pub fn is_balanced(tokens: &Vec<Token<T>>) -> (balanced: bool)
        ensures
            balanced == Token::balanced(tokens@),
    {
        let mut open: Vec<Operator> = Vec::new();
        let mut i: usize = 0;
        while i < tokens.len()
            invariant
                i <= tokens.len(),
                Token::open_after(tokens@.take(i as int)) == Some(open@),
            decreases tokens.len() - i,
        {
            assert(tokens@.take(i + 1).drop_last() =~= tokens@.take(i as int));
            match &tokens[i] {
                Token::Operator(Operator::OpenParanthesis) => open.push(Operator::OpenParanthesis),
                Token::Operator(Operator::OpenBrace) => open.push(Operator::OpenBrace),
                Token::Operator(Operator::CloseParanthesis) => {
                    if open.len() > 0 && open[open.len() - 1] == Operator::OpenParanthesis {
                        open.pop();
                    } else {
                        proof {
                            Token::lemma_unbalanced_stays(tokens@, i + 1);
                        }
                        return false;
                    }
                },
                Token::Operator(Operator::CloseBrace) => {
                    if open.len() > 0 && open[open.len() - 1] == Operator::OpenBrace {
                        open.pop();
                    } else {
                        proof {
                            Token::lemma_unbalanced_stays(tokens@, i + 1);
                        }
                        return false;
                    }
                },
                _ => {},
            }
            i += 1;
        }
        assert(tokens@.take(tokens.len() as int) =~= tokens@);
        assert(open.len() == 0 ==> open@ =~= Seq::<Operator>::empty());
        open.len() == 0
    }

    /// Once a closing bracket has met no partner, no later token mends it.
    pub proof fn lemma_unbalanced_stays(tokens: Seq<Token<T>>, n: int)
        requires
            0 <= n <= tokens.len(),
            Token::open_after(tokens.take(n)) is None,
        ensures
            Token::open_after(tokens) is None,
        decreases tokens.len() - n,
    {
        if n < tokens.len() {
            assert(tokens.take(n + 1).drop_last() =~= tokens.take(n));
            Token::lemma_unbalanced_stays(tokens, n + 1);
        } else {
            assert(tokens.take(n) =~= tokens);
        }
    }

    fn close_group(postfix: &mut Vec<Token<T>>, stack: &mut Vec<Operator>, open: Operator)
        ensures
            (Yard { output: final(postfix)@, stack: final(stack)@ }) == (Yard {
                output: old(postfix)@,
                stack: old(stack)@,
            }).close_group(open),
    {
        let ghost goal = (Yard { output: postfix@, stack: stack@ }).close_group(open);
        loop
            invariant_except_break
                (Yard { output: postfix@, stack: stack@ }).close_group(open) == goal,
            ensures
                (Yard { output: postfix@, stack: stack@ }) == goal,
            decreases stack.len(),
        {
            match stack.pop() {
                Some(top) => {
                    if top == open {
                        break ;
                    }
                    postfix.push(Token::Operator(top));
                },
                None => {
                    break ;
                },
            }
        }
    }

    fn yield_to(postfix: &mut Vec<Token<T>>, stack: &mut Vec<Operator>, op: Operator)
        ensures
            (Yard { output: final(postfix)@, stack: final(stack)@ }) == (Yard {
                output: old(postfix)@,
                stack: old(stack)@,
            }).yield_to(op),
    {
        let ghost goal = (Yard { output: postfix@, stack: stack@ }).yield_to(op);
        loop
            invariant
                (Yard { output: postfix@, stack: stack@ }).yield_to(op) == goal,
            ensures
                (Yard { output: postfix@, stack: stack@ }) == goal,
            decreases stack.len(),
        {
            if stack.len() == 0 {
                break ;
            }
            let top = stack[stack.len() - 1];
            if top == Operator::Exponent && op == Operator::Exponent {
                break ;
            }
            if top.precedence() >= op.precedence() {
                stack.pop();
                postfix.push(Token::Operator(top));
            } else {
                break ;
            }
        }
    }

    /// Reorders an infix token sequence into postfix order. Total: brackets
    /// that do not pair up are not an error here, see `postfix_of`.
    pub fn convert_infix_to_postfix(tokens: Vec<Token<T>>) -> (postfix: Vec<Token<T>>)
        ensures
            postfix@ == Token::postfix_of(tokens@),
    {
        let mut postfix_expression: Vec<Token<T>> = Vec::new();
        let mut operator_stack: Vec<Operator> = Vec::new();
        let ghost all = tokens@;
        for token in it: tokens
            invariant
                it.seq() == all,
                (Yard { output: postfix_expression@, stack: operator_stack@ }) == Yard::after(
                    all.take(it.index() as int),
                ),
        {
            assert(all.take(it.index() + 1).drop_last() =~= all.take(it.index() as int));
            match token {
                Token::Operand(operand) => postfix_expression.push(Token::Operand(operand)),
                Token::Operator(operator) => match operator {
                    Operator::OpenParanthesis | Operator::OpenBrace => operator_stack.push(
                        operator,
                    ),
                    Operator::CloseParanthesis => Token::close_group(
                        &mut postfix_expression,
                        &mut operator_stack,
                        Operator::OpenParanthesis,
                    ),
                    Operator::CloseBrace => Token::close_group(
                        &mut postfix_expression,
                        &mut operator_stack,
                        Operator::OpenBrace,
                    ),
                    _ => {
                        Token::yield_to(&mut postfix_expression, &mut operator_stack, operator);
                        operator_stack.push(operator);
                    },
                },
                Token::Unknown => {},
            }
        }
        assert(all.take(all.len() as int) =~= all);
        let ghost goal = Yard::after(all).flushed();
        loop
            invariant
                (Yard { output: postfix_expression@, stack: operator_stack@ }).flushed() == goal,
            ensures
                postfix_expression@ == goal,
            decreases operator_stack.len(),
        {
            match operator_stack.pop() {
                Some(top) => postfix_expression.push(Token::Operator(top)),
                None => {
                    break ;
                },
            }
        }
        postfix_expression
    }
}

/// The pattern that cuts an expression into token texts: a number without
/// sign, with an optional fraction; a one-character operator; `*` or `**`;
/// or a bracket. Whether a minus is a sign is decided after the cut, see
/// `signed`.
pub const TOKEN_PATTERN: &'static str = r"(\d+(?:\.\d+)?)|([+|\-|/])|(\*{1,2})|([\(|\)|\{|\}])";

/// The successive non-overlapping matches of `pattern` in `haystack`, from the
/// left, as the pattern engine finds them; nothing where the engine rejects
/// the pattern.
pub uninterp spec fn regex_matches(pattern: Seq<char>, haystack: Seq<char>) -> Option<
    Seq<Seq<char>>,
>;

/// Compiles `pattern` with `regex::Regex::new` and collects the text of every
/// match that `Regex::find_iter` yields on `haystack`. A pattern that the
/// engine rejects gives `None`. Whether it does, and what the matches are,
/// depends on the two arguments alone.
#[verifier::external_body]
fn find_matches(pattern: &str, haystack: &str) -> (found: Option<Vec<String>>)
    ensures
        match found {
            Some(texts) => regex_matches(pattern@, haystack@) == Some(texts.deep_view()),
            None => regex_matches(pattern@, haystack@) is None,
        },
{
    match regex::Regex::new(pattern) {
        Ok(compiled) => Some(
            compiled.find_iter(haystack).map(|found| found.as_str().to_string()).collect(),
        ),
        Err(_) => None,
    }
}

impl<N: Number> Token<N> {
    /// The token that `text` spells: a number of the domain if it reads as
    /// one, else an operator or bracket, else `Unknown`.
    pub open spec fn read(text: Seq<char>) -> Token<N> {
        match N::parsed(text) {
            Some(number) => Token::Operand(Operand::Number(number)),
            None => match Operator::spelled(text) {
                Operator::Unknown => Token::Unknown,
                op => Token::Operator(op),
            },
        }
    }

    /// The tokens that a sequence of texts spells, one for one.
    pub open spec fn read_all(texts: Seq<Seq<char>>) -> Seq<Token<N>> {
        Seq::new(texts.len(), |i: int| Token::read(texts[i]))
    }

    /// The two numbers on top of `stack`, the upper one second.
    pub open spec fn top_two(stack: Seq<Operand<N>>) -> Option<(N, N)> {
        if stack.len() >= 2 {
            match (stack[stack.len() - 2], stack[stack.len() - 1]) {
                (Operand::Number(a), Operand::Number(b)) => Some((a, b)),
                _ => None,
            }
        } else {
            None
        }
    }

    /// Runs the postfix `tokens` from the left on `stack`. An operand is
    /// pushed. An arithmetic operator takes the two numbers on top and pushes
    /// what the domain computes; where the domain computes nothing the run
    /// fails with `Arithmetic`. An operator that does not find two numbers on
    /// top, and a bracket, make the run fail with `Incomplete`. The result
    /// is the stack at the end.
    pub open spec fn run(tokens: Seq<Token<N>>, stack: Seq<Operand<N>>) -> Result<
        Seq<Operand<N>>,
        ComputationError,
    >
        decreases tokens.len(),
    {
        if tokens.len() == 0 {
            Ok(stack)
        } else {
            let rest = tokens.drop_first();
            match tokens.first() {
                Token::Operand(operand) => Token::run(rest, stack.push(operand)),
                Token::Unknown => Token::run(rest, stack),
                Token::Operator(op) => if !op.is_arithmetic() {
                    Err(ComputationError::Incomplete)
                } else {
                    match Token::top_two(stack) {
                        Some((a, b)) => match N::applied(op, a, b) {
                            Some(value) => Token::run(
                                rest,
                                stack.take(stack.len() - 2).push(Operand::Number(value)),
                            ),
                            None => Err(ComputationError::Arithmetic),
                        },
                        None => Err(ComputationError::Incomplete),
                    }
                },
            }
        }
    }

    /// The value of a postfix expression: the one number that the run leaves
    /// on the stack. A run that leaves nothing, more than one operand, or
    /// something that is no number, has no value.
    pub open spec fn value_of(postfix: Seq<Token<N>>) -> Result<N, ComputationError> {
        match Token::run(postfix, Seq::empty()) {
            Ok(stack) => if stack.len() == 1 && stack[0] is Number {
                Ok(stack[0]->Number_0)
            } else {
                Err(ComputationError::Incomplete)
            },
            Err(error) => Err(error),
        }
    }

    /// Whether an operand may follow the token that `text` spells: after an
    /// arithmetic operator and after an opening bracket.
    pub open spec fn opens_operand(text: Seq<char>) -> bool {
        match Token::<N>::read(text) {
            Token::Operator(op) => op.is_arithmetic() || op == Operator::OpenParanthesis || op
                == Operator::OpenBrace,
            _ => false,
        }
    }

    /// Whether the text at `at` is a minus that is the sign of the number
    /// after it: it stands where an operand may begin, at the start or after
    /// a text that opens an operand, and together with the next text it
    /// spells a number.
    pub open spec fn is_sign(texts: Seq<Seq<char>>, at: int) -> bool {
        &&& 0 <= at
        &&& at + 1 < texts.len()
        &&& texts[at] == seq!['-']
        &&& at == 0 || Token::<N>::opens_operand(texts[at - 1])
        &&& N::parsed(seq!['-'] + texts[at + 1]) is Some
    }

    /// The texts from `from` on, each sign joined to its number.
    pub open spec fn signed_from(texts: Seq<Seq<char>>, from: int) -> Seq<Seq<char>>
        decreases texts.len() - from,
    {
        if from < 0 || from >= texts.len() {
            Seq::empty()
        } else if Token::<N>::is_sign(texts, from) {
            seq![seq!['-'] + texts[from + 1]] + Token::<N>::signed_from(texts, from + 2)
        } else {
            seq![texts[from]] + Token::<N>::signed_from(texts, from + 1)
        }
    }

    /// The texts with each sign joined to its number. A minus between two
    /// operands stays an operator: `3-2` is `3`, `-`, `2`, while `3*-2` is
    /// `3`, `*`, `-2`.
    pub open spec fn signed(texts: Seq<Seq<char>>) -> Seq<Seq<char>> {
        Token::<N>::signed_from(texts, 0)
    }

    /// Reads one token from its text.
    pub fn from(token_string: &str) -> (token: Token<N>)
        ensures
            token == Token::<N>::read(token_string@),
    {
        match N::parse(token_string) {
            Some(number) => Token::Operand(Operand::Number(number)),
            None => {
                let operator = Operator::from(token_string);
                match operator {
                    Operator::Unknown => Token::Unknown,
                    _ => Token::Operator(operator),
                }
            },
        }
    }

    /// Reads every text of `texts` as a token.
    pub fn classify(texts: &Vec<String>) -> (tokens: Vec<Token<N>>)
        ensures
            tokens@ == Token::<N>::read_all(texts.deep_view()),
    {
        let mut tokens: Vec<Token<N>> = Vec::new();
        let mut i: usize = 0;
        while i < texts.len()
            invariant
                i <= texts.len(),
                tokens@ =~= Token::<N>::read_all(texts.deep_view().take(i as int)),
            decreases texts.len() - i,
        {
            assert(texts.deep_view()[i as int] == texts[i as int]@);
            tokens.push(Token::from(texts[i].as_str()));
            i += 1;
        }
        assert(texts.deep_view().take(texts.len() as int) =~= texts.deep_view());
        tokens
    }

    /// Tests whether an operand may follow the token that `text` spells.
    pub fn may_open_operand(text: &str) -> (opens: bool)
        ensures
            opens == Token::<N>::opens_operand(text@),
    {
        match Token::<N>::from(text) {
            Token::Operator(op) => op.precedence() > 0 || op == Operator::OpenParanthesis || op
                == Operator::OpenBrace,
            _ => false,
        }
    }

    /// Joins each sign to its number.
    pub fn sign_numbers(texts: &Vec<String>) -> (joined: Vec<String>)
        ensures
            joined.deep_view() == Token::<N>::signed(texts.deep_view()),
    {
        let ghost all = texts.deep_view();
        let mut joined: Vec<String> = Vec::new();
        let mut i: usize = 0;
        proof {
            reveal_strlit("-");
            assert("-"@ =~= seq!['-']);
            assert(joined.deep_view() + Token::<N>::signed_from(all, 0) =~= Token::<N>::signed(
                all,
            ));
        }
        while i < texts.len()
            invariant
                i <= texts.len(),
                all == texts.deep_view(),
                "-"@ == seq!['-'],
                joined.deep_view() + Token::<N>::signed_from(all, i as int) == Token::<N>::signed(
                    all,
                ),
            decreases texts.len() - i,
        {
            let ghost before = joined.deep_view();
            assert(all[i as int] == texts[i as int]@);
            let mut sign: Option<String> = None;
            if i + 1 < texts.len() && same_text(texts[i].as_str(), "-") {
                assert(all[i + 1] == texts[i + 1]@);
                let open = if i == 0 {
                    true
                } else {
                    assert(all[i - 1] == texts[i - 1]@);
                    Token::<N>::may_open_operand(texts[i - 1].as_str())
                };
                if open {
                    let number = concat("-", texts[i + 1].as_str());
                    if N::parse(number.as_str()).is_some() {
                        sign = Some(number);
                    }
                }
            }
            match sign {
                Some(number) => {
                    assert(Token::<N>::is_sign(all, i as int));
                    joined.push(number);
                    assert(joined.deep_view() =~= before.push(seq!['-'] + all[i + 1]));
                    assert(joined.deep_view() + Token::<N>::signed_from(all, i + 2) =~= before
                        + Token::<N>::signed_from(all, i as int));
                    i += 2;
                },
                None => {
                    assert(!Token::<N>::is_sign(all, i as int));
                    joined.push(texts[i].clone());
                    assert(joined.deep_view() =~= before.push(all[i as int]));
                    assert(joined.deep_view() + Token::<N>::signed_from(all, i + 1) =~= before
                        + Token::<N>::signed_from(all, i as int));
                    i += 1;
                },
            }
        }
        assert(joined.deep_view() + Token::<N>::signed_from(all, i as int) =~= joined.deep_view());
        joined
    }

    /// The tokens of `expression`: what `TOKEN_PATTERN` cuts out of it is
    /// read text by text, each sign first joined to its number. `Pattern`
    /// where the pattern engine rejects the pattern.
    pub open spec fn tokens_of(expression: Seq<char>) -> Result<Seq<Token<N>>, ComputationError> {
        match regex_matches(TOKEN_PATTERN@, expression) {
            Some(texts) => Ok(Token::read_all(Token::<N>::signed(texts))),
            None => Err(ComputationError::Pattern),
        }
    }

    /// Cuts `expression` into tokens with `TOKEN_PATTERN`. Text between the
    /// matches is skipped.
    pub fn tokenize(expression: &str) -> (tokens: Result<Vec<Token<N>>, ComputationError>)
        ensures
            match tokens {
                Ok(found) => Token::<N>::tokens_of(expression@) == Ok::<
                    Seq<Token<N>>,
                    ComputationError,
                >(found@),
                Err(error) => Token::<N>::tokens_of(expression@) == Err::<
                    Seq<Token<N>>,
                    ComputationError,
                >(error),
            },
    {
        match find_matches(TOKEN_PATTERN, expression) {
            Some(texts) => {
                let joined = Token::<N>::sign_numbers(&texts);
                Ok(Token::classify(&joined))
            },
            None => Err(ComputationError::Pattern),
        }
    }

    /// The value of an infix expression: none where its brackets do not pair
    /// up, else the value of its postfix order.
    pub open spec fn evaluated(tokens: Seq<Token<N>>) -> Result<N, ComputationError> {
        if !Token::balanced(tokens) {
            Err(ComputationError::Unbalanced)
        } else {
            Token::value_of(Token::postfix_of(tokens))
        }
    }

    /// Evaluates an infix expression. Brackets that do not pair up give
    /// `Unbalanced`, whatever else the expression holds.
    pub fn evaluate_tokens(tokens: Vec<Token<N>>) -> (value: Result<N, ComputationError>)
        ensures
            value == Token::evaluated(tokens@),
            !Token::balanced(tokens@) ==> value == Err::<N, ComputationError>(
                ComputationError::Unbalanced,
            ),
    {
        if !Token::is_balanced(&tokens) {
            return Err(ComputationError::Unbalanced);
        }
        let postfix = Token::convert_infix_to_postfix(tokens);
        Token::evaluate_postfix_expression(postfix)
    }

    /// Evaluates a postfix expression on a stack of operands.
    pub fn evaluate_postfix_expression(postfix_expression: Vec<Token<N>>) -> (value: Result<
        N,
        ComputationError,
    >)
        ensures
            value == Token::value_of(postfix_expression@),
    {
        let mut result: Vec<Operand<N>> = Vec::new();
        let mut failure: Option<ComputationError> = None;
        let ghost all = postfix_expression@;
        assert(all.skip(0) =~= all);
        for token in it: postfix_expression
            invariant
                it.seq() == all,
                failure is None ==> Token::run(all.skip(it.index() as int), result@) == Token::run(
                    all,
                    Seq::empty(),
                ),
                failure matches Some(error) ==> Token::run(all, Seq::empty()) == Err::<
                    Seq<Operand<N>>,
                    ComputationError,
                >(error),
        {
            assert(all.skip(it.index() as int).drop_first() =~= all.skip(it.index() + 1));
            if failure.is_none() {
                let ghost before = result@;
                match token {
                    Token::Operand(operand) => result.push(operand),
                    Token::Operator(operator) => {
                        if operator.precedence() == 0 {
                            failure = Some(ComputationError::Incomplete);
                        } else {
                            match result.pop() {
                                Some(Operand::Number(value_b)) => match result.pop() {
                                    Some(Operand::Number(value_a)) => {
                                        assert(Token::top_two(before) == Some((value_a, value_b)));
                                        assert(result@ =~= before.take(before.len() - 2));
                                        match N::apply(operator, value_a, value_b) {
                                            Some(value) => result.push(Operand::Number(value)),
                                            None => {
                                                failure = Some(ComputationError::Arithmetic);
                                            },
                                        }
                                    },
                                    _ => {
                                        assert(Token::<N>::top_two(before) is None);
                                        failure = Some(ComputationError::Incomplete);
                                    },
                                },
                                _ => {
                                    assert(Token::<N>::top_two(before) is None);
                                    failure = Some(ComputationError::Incomplete);
                                },
                            }
                        }
                    },
                    Token::Unknown => {},
                }
            }
        }
        match failure {
            Some(error) => Err(error),
            None => {
                if result.len() != 1 {
                    return Err(ComputationError::Incomplete);
                }
                match result.pop() {
                    Some(Operand::Number(value)) => Ok(value),
                    _ => Err(ComputationError::Incomplete),
                }
            },
        }
    }
}

} // verus!
