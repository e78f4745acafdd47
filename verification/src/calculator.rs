//! The expression calculator: one example search provider.

pub mod expression;
pub mod number;
pub mod token;
pub mod whole;

use crate::calculator::number::Number;
use crate::calculator::token::Token;
use crate::config::Settings;
use crate::plugin_api::result::{Action, Icon, SearchResult, SearchResultView, ActionView};
use crate::plugin_api::{Metadata, Plugin};
use crate::text::{concat, same_text};
use vstd::prelude::*;
use vstd::string::StringExecFns;

verus! {

/// Why an expression has no value.
#[derive(Debug, Clone, Copy, PartialEq, Eq, Structural)]
pub enum ComputationError {
    /// A bracket has no partner of its own kind.
    Unbalanced,
    /// The expression is malformed: an operator lacks an operand, or the
    /// expression leaves no number or more than one operand behind.
    Incomplete,
    /// The numeric domain does not define one of the operations asked for.
    Arithmetic,
    /// The token pattern was not accepted by the pattern engine.
    Pattern,
}

impl ComputationError {
    /// A short description for logs.
    pub fn message(&self) -> (text: String)
        ensures
            text@ == (match *self {
                ComputationError::Unbalanced => "Unbalanced brackets"@,
                ComputationError::Incomplete => "Unable to compute result"@,
                ComputationError::Arithmetic => "Undefined arithmetic"@,
                ComputationError::Pattern => "Invalid token pattern"@,
            }),
    {
        match self {
            ComputationError::Unbalanced => String::from_str("Unbalanced brackets"),
            ComputationError::Incomplete => String::from_str("Unable to compute result"),
            ComputationError::Arithmetic => String::from_str("Undefined arithmetic"),
            ComputationError::Pattern => String::from_str("Invalid token pattern"),
        }
    }
}

/// The calculator as a search provider: where the query is an expression
/// with a value, it contributes that value as one result.
pub struct CalculatorPlugin<N: Number> {
    result: Option<N>,
}

/// What the calculator contributes while it shows `shown`: one result that
/// reads `= ` and the value, and copies the value when picked; nothing while
/// it shows no value.
pub open spec fn contribution_for(shown: Option<Seq<char>>) -> Seq<SearchResultView> {
    match shown {
        Some(text) => seq![
            SearchResultView {
                title: "= "@ + text,
                description: None,
                icon: Some(Icon::Copy),
                action: Some(ActionView::Copy(text)),
                priority: 10,
            },
        ],
        None => Seq::empty(),
    }
}

/// What is shown for an evaluation that ended in `outcome`.
pub open spec fn shown_for<N: Number>(outcome: Result<N, ComputationError>) -> Option<Seq<char>> {
    match outcome {
        Ok(value) => Some(value.rendered()),
        Err(_) => None,
    }
}

impl<N: Number> Default for CalculatorPlugin<N> {
    /// A calculator that shows nothing yet.
    fn default() -> (plugin: CalculatorPlugin<N>)
        ensures
            plugin.shown() is None,
    {
        CalculatorPlugin::new()
    }
}

impl<N: Number> CalculatorPlugin<N> {
    /// The value that the calculator shows, as text; none before the first
    /// evaluation and after one that failed.
    pub closed spec fn shown(&self) -> Option<Seq<char>> {
        match self.result {
            Some(value) => Some(value.rendered()),
            None => None,
        }
    }

    /// A calculator that shows nothing yet.
    pub fn new() -> (plugin: CalculatorPlugin<N>)
        ensures
            plugin.shown() is None,
    {
        CalculatorPlugin { result: None }
    }

    /// The value of the text `input` as an expression: that of its tokens.
    pub open spec fn calculated(input: Seq<char>) -> Result<N, ComputationError> {
        match Token::<N>::tokens_of(input) {
            Ok(tokens) => Token::evaluated(tokens),
            Err(error) => Err(error),
        }
    }

    /// The value of the expression `input`. Fails with `Unbalanced` where
    /// its brackets do not pair up, whatever else it holds.
    pub fn calculate(input: &str) -> (value: Result<N, ComputationError>)
        ensures
            value == CalculatorPlugin::<N>::calculated(input@),
            Token::<N>::tokens_of(input@) matches Ok(tokens) && !Token::balanced(tokens) ==> value
                == Err::<N, ComputationError>(ComputationError::Unbalanced),
    {
        match Token::tokenize(input) {
            Ok(tokens) => Token::evaluate_tokens(tokens),
            Err(error) => Err(error),
        }
    }

    /// A copy of what the calculator contributes now.
    pub fn contribution(&self) -> (list: Vec<SearchResult>)
        ensures
            list.deep_view() == contribution_for(self.shown()),
    {
        let mut list: Vec<SearchResult> = Vec::new();
        match &self.result {
            Some(value) => {
                let title = concat("= ", value.render().as_str());
                list.push(
                    SearchResult::new(
                        title,
                        None,
                        Some(Icon::Copy),
                        Some(Action::Copy(value.render())),
                        Some(10),
                    ),
                );
            },
            None => {},
        }
        assert(list.deep_view() =~= contribution_for(self.shown()));
        list
    }

    /// Takes the outcome of an evaluation. The calculator then shows the
    /// value, or nothing after a failure, and answers with its whole
    /// contribution if that changed what it shows or a new round began.
    pub fn respond(&mut self, outcome: Result<N, ComputationError>, new_round: bool) -> (answer:
        Option<Vec<SearchResult>>)
        ensures
            final(self).shown() == shown_for(outcome),
            match answer {
                Some(list) => (new_round || final(self).shown() != old(self).shown())
                    && list.deep_view() == contribution_for(final(self).shown()),
                None => !new_round && final(self).shown() == old(self).shown(),
            },
    {
        let changed = match (&outcome, &self.result) {
            (Ok(value), Some(previous)) => !same_text(
                value.render().as_str(),
                previous.render().as_str(),
            ),
            (Err(_), None) => false,
            _ => true,
        };
        self.result = match outcome {
            Ok(value) => Some(value),
            Err(_) => None,
        };
        if changed || new_round {
            Some(self.contribution())
        } else {
            None
        }
    }
}

impl<N: Number + Send + Sync> Plugin for CalculatorPlugin<N> {
    open spec fn name(&self) -> Seq<char> {
        "Calculator"@
    }

    /// The calculator answers with the value of the query where a new round
    /// began or what it shows changes.
    open spec fn answer(
        &self,
        query: Seq<char>,
        config: Seq<(Seq<char>, Seq<char>)>,
        new_round: bool,
    ) -> Option<Seq<SearchResultView>> {
        let shown = shown_for(CalculatorPlugin::<N>::calculated(query));
        if new_round || shown != self.shown() {
            Some(contribution_for(shown))
        } else {
            None
        }
    }

    fn init(&mut self) {
    }

    /// Evaluates the query as an expression and answers as `respond` says.
    fn start(&mut self, query: &str, config: &Settings, new_round: bool) -> (contribution: Option<
        Vec<SearchResult>,
    >)
        ensures
            final(self).shown() == shown_for(CalculatorPlugin::<N>::calculated(query@)),
            match contribution {
                Some(list) => (new_round || final(self).shown() != old(self).shown())
                    && list.deep_view() == contribution_for(final(self).shown()),
                None => !new_round && final(self).shown() == old(self).shown(),
            },
    {
        let outcome = CalculatorPlugin::<N>::calculate(query);
        self.respond(outcome, new_round)
    }

    fn get_metadata(&self) -> (metadata: Metadata)
        ensures
            metadata.name@ == "Calculator"@,
            metadata.description@ == "A calculator plugin"@,
            metadata.icon is None,
            metadata.url is None,
    {
        Metadata {
            name: String::from_str("Calculator"),
            description: String::from_str("A calculator plugin"),
            icon: None,
            url: None,
        }
    }

    fn get_config(&self) -> (config: Settings)
        ensures
            config@.len() == 0,
    {
        Settings::new()
    }

    fn destroy(&mut self) {
    }
}

} // verus!
