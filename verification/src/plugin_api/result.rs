//! The result model: what a search provider contributes for a query.

use crate::text::{duplicate_text, same_optional_text, text_view};
use vstd::prelude::*;

verus! {

/// The symbol shown next to a result.
#[derive(Debug, Clone, Copy, PartialEq, Eq, Structural)]
pub enum Icon {
    File,
    Folder,
    Copy,
}

/// What happens when the user picks a result.
#[derive(Debug)]
pub enum Action {
    /// Open the file or directory at this path.
    Open(String),
    /// Launch the application at this path.
    LaunchApplication(String),
    /// Copy this text to the clipboard.
    Copy(String),
}

/// An action with its text as characters.
pub enum ActionView {
    Open(Seq<char>),
    LaunchApplication(Seq<char>),
    Copy(Seq<char>),
}

impl View for Action {
    type V = ActionView;

    open spec fn view(&self) -> ActionView {
        match *self {
            Action::Open(path) => ActionView::Open(path@),
            Action::LaunchApplication(path) => ActionView::LaunchApplication(path@),
            Action::Copy(text) => ActionView::Copy(text@),
        }
    }
}

impl Action {
    /// A copy of this action.
    pub fn duplicate(&self) -> (copy: Action)
        ensures
            copy == *self,
    {
        match self {
            Action::Open(path) => Action::Open(path.clone()),
            Action::LaunchApplication(path) => Action::LaunchApplication(path.clone()),
            Action::Copy(text) => Action::Copy(text.clone()),
        }
    }

    /// Whether both actions are of one kind and carry the same text.
    pub fn same_as(&self, other: &Action) -> (same: bool)
        ensures
            same == (self@ == other@),
    {
        match (self, other) {
            (Action::Open(a), Action::Open(b)) => *a == *b,
            (Action::LaunchApplication(a), Action::LaunchApplication(b)) => *a == *b,
            (Action::Copy(a), Action::Copy(b)) => *a == *b,
            _ => false,
        }
    }
}

/// One ranked search result. Immutable once produced: a provider replaces
/// its results as a whole.
#[derive(Debug)]
pub struct SearchResult {
    title: String,
    description: Option<String>,
    icon: Option<Icon>,
    action: Option<Action>,
    priority: u8,
}

/// A search result as plain mathematical values.
pub struct SearchResultView {
    pub title: Seq<char>,
    pub description: Option<Seq<char>>,
    pub icon: Option<Icon>,
    pub action: Option<ActionView>,
    pub priority: u8,
}

impl View for SearchResult {
    type V = SearchResultView;

    closed spec fn view(&self) -> SearchResultView {
        SearchResultView {
            title: self.title@,
            description: text_view(self.description),
            icon: self.icon,
            action: match self.action {
                Some(action) => Some(action@),
                None => None,
            },
            priority: self.priority,
        }
    }
}

impl DeepView for SearchResult {
    type V = SearchResultView;

    open spec fn deep_view(&self) -> SearchResultView {
        self@
    }
}

impl SearchResult {
    /// A result with the given parts; a missing priority is 0.
    pub fn new(
        title: String,
        description: Option<String>,
        icon: Option<Icon>,
        action: Option<Action>,
        priority: Option<u8>,
    ) -> (result: SearchResult)
        ensures
            result@ == (SearchResultView {
                title: title@,
                description: text_view(description),
                icon,
                action: match action {
                    Some(inner) => Some(inner@),
                    None => None,
                },
                priority: match priority {
                    Some(value) => value,
                    None => 0,
                },
            }),
    {
        let priority = match priority {
            Some(value) => value,
            None => 0,
        };
        SearchResult { title, description, icon, action, priority }
    }

    /// The text shown for this result.
    pub fn title(&self) -> (title: &str)
        ensures
            title@ == self@.title,
    {
        self.title.as_str()
    }

    /// The second line shown for this result, if any.
    pub fn description(&self) -> (description: Option<&str>)
        ensures
            match description {
                Some(text) => self@.description == Some(text@),
                None => self@.description is None,
            },
    {
        match &self.description {
            Some(text) => Some(text.as_str()),
            None => None,
        }
    }

    /// The symbol shown for this result, if any.
    pub fn icon(&self) -> (icon: Option<Icon>)
        ensures
            icon == self@.icon,
    {
        self.icon
    }

    /// What picking this result does, if anything.
    pub fn action(&self) -> (action: Option<&Action>)
        ensures
            match action {
                Some(inner) => self@.action == Some(inner@),
                None => self@.action is None,
            },
    {
        match &self.action {
            Some(inner) => Some(inner),
            None => None,
        }
    }

    /// The rank of this result: a higher priority is listed first.
    pub fn priority(&self) -> (priority: u8)
        ensures
            priority == self@.priority,
    {
        self.priority
    }

    /// A copy of this result.
    pub fn duplicate(&self) -> (copy: SearchResult)
        ensures
            copy == *self,
            copy@ == self@,
    {
        SearchResult {
            title: self.title.clone(),
            description: duplicate_text(&self.description),
            icon: self.icon,
            action: match &self.action {
                Some(inner) => Some(inner.duplicate()),
                None => None,
            },
            priority: self.priority,
        }
    }

    /// Whether both results show the same and do the same.
    pub fn same_as(&self, other: &SearchResult) -> (same: bool)
        ensures
            same == (self@ == other@),
    {
        let same_action = match (&self.action, &other.action) {
            (Some(a), Some(b)) => a.same_as(b),
            (None, None) => true,
            _ => false,
        };
        self.title == other.title && same_optional_text(&self.description, &other.description)
            && self.icon == other.icon && same_action && self.priority == other.priority
    }
}

/// Whether two result lists hold the same results in the same order.
pub fn same_results(a: &Vec<SearchResult>, b: &Vec<SearchResult>) -> (same: bool)
    ensures
        same == (a.deep_view() == b.deep_view()),
{
    if a.len() != b.len() {
        assert(a.deep_view().len() != b.deep_view().len());
        return false;
    }
    let mut i: usize = 0;
    while i < a.len()
        invariant
            i <= a.len(),
            a.len() == b.len(),
            forall|j: int| 0 <= j < i ==> a[j]@ == b[j]@,
        decreases a.len() - i,
    {
        if !a[i].same_as(&b[i]) {
            assert(a.deep_view()[i as int] != b.deep_view()[i as int]);
            return false;
        }
        i += 1;
    }
    assert(a.deep_view() =~= b.deep_view());
    true
}

/// A copy of a result list.
pub fn duplicate_results(list: &Vec<SearchResult>) -> (copy: Vec<SearchResult>)
    ensures
        copy@ == list@,
        copy.deep_view() == list.deep_view(),
{
    let mut copy: Vec<SearchResult> = Vec::new();
    let mut i: usize = 0;
    while i < list.len()
        invariant
            i <= list.len(),
            copy@ =~= list@.take(i as int),
        decreases list.len() - i,
    {
        copy.push(list[i].duplicate());
        i += 1;
    }
    assert(copy@ =~= list@);
    assert(copy.deep_view() =~= list.deep_view());
    copy
}

} // verus!
