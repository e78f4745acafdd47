//! The filesystem search provider and the indexing cache behind it.

pub mod cache;
pub mod db;
pub mod table;

use crate::config::{lookup, Settings};
use crate::filesystem::cache::{
    begun,
    completed,
    probed,
    reconfigured,
    Cache,
    CacheStatus,
    CacheView,
    Completion,
    Refresh,
    RefreshView,
    StoreError,
    SweepPlan,
};
use crate::filesystem::db::fs::{Entry, EntryKind, EntryView};
use crate::filesystem::table::selected;
use crate::plugin_api::result::{Action, ActionView, Icon, SearchResult, SearchResultView};
use crate::plugin_api::{Metadata, Plugin};
use crate::text::same_text;
use vstd::prelude::*;
use vstd::string::StringExecFns;

verus! {

/// How many rows a lookup answers at most.
pub const RESULT_LIMIT: usize = 100;

/// The priority of every result of this provider.
pub const RESULT_PRIORITY: u8 = 10;

/// The filesystem search provider: it answers a query with the rows of the
/// index whose name or path contains it.
///
/// Sweeping the filesystem and writing the store are not done here. When a
/// sweep falls due the provider keeps its plan. Whoever drives the provider
/// takes the plan with `take_sweep`, sweeps, and hands the outcome to
/// `complete`; that can happen on a thread of its own, so that answering
/// queries never waits for a sweep.
#[derive(Debug)]
pub struct FsPlugin {
    cache: Cache,
    config: Settings,
    last_query: String,
    answered: Option<u64>,
    pending: Option<SweepPlan>,
}

/// A sweep that waits to be taken, as plain values.
pub struct PendingView {
    pub root: Option<Seq<char>>,
    pub overwrite: bool,
}

/// The sweep that waits after the cache answered `refresh`, where
/// `waiting` waited before.
pub open spec fn pending_after(waiting: Option<PendingView>, refresh: RefreshView) -> Option<
    PendingView,
> {
    match refresh {
        RefreshView::Sweep { root, overwrite } => Some(PendingView { root, overwrite }),
        _ => waiting,
    }
}

/// The index after the provider followed the settings `config`, and what
/// the cache answered: the root under `path` is configured, and settings
/// without a `path` change nothing.
pub open spec fn followed(index: CacheView, config: Seq<(Seq<char>, Seq<char>)>) -> (
    CacheView,
    RefreshView,
) {
    match lookup(config, "path"@) {
        Some(root) => reconfigured(index, root),
        None => (index, RefreshView::Fresh),
    }
}

/// The symbol for a row of kind `kind`.
pub open spec fn icon_for(kind: EntryKind) -> Option<Icon> {
    match kind {
        EntryKind::Directory => Some(Icon::Folder),
        EntryKind::File => Some(Icon::File),
        _ => None,
    }
}

/// What picking a row does: an application is launched, a file or
/// directory is opened.
pub open spec fn action_for(row: EntryView) -> Option<ActionView> {
    match row.kind {
        EntryKind::Application => Some(ActionView::LaunchApplication(row.path)),
        EntryKind::Directory | EntryKind::File => Some(ActionView::Open(row.path)),
        EntryKind::Symlink => None,
    }
}

/// The search result that shows `row`.
pub open spec fn result_for(row: EntryView) -> SearchResultView {
    SearchResultView {
        title: row.name,
        description: None,
        icon: icon_for(row.kind),
        action: action_for(row),
        priority: RESULT_PRIORITY,
    }
}

/// The search results that show `rows`, one for one.
pub open spec fn results_for(rows: Seq<EntryView>) -> Seq<SearchResultView> {
    Seq::new(rows.len(), |i: int| result_for(rows[i]))
}

impl FsPlugin {
    /// The indexing cache of the provider.
    pub closed spec fn index(&self) -> CacheView {
        self.cache@
    }

    /// The table generation that the provider last answered from, if it has
    /// answered.
    pub closed spec fn answered(&self) -> Option<u64> {
        self.answered
    }

    /// The query that the provider last answered.
    pub closed spec fn last_query(&self) -> Seq<char> {
        self.last_query@
    }

    /// The settings that the provider starts with.
    pub closed spec fn settings(&self) -> Seq<(Seq<char>, Seq<char>)> {
        self.config@
    }

    /// The sweep that is due and has not been taken yet.
    pub closed spec fn pending(&self) -> Option<PendingView> {
        match self.pending {
            Some(plan) => Some(
                PendingView {
                    root: match plan.root {
                        Some(root) => Some(root@),
                        None => None,
                    },
                    overwrite: plan.overwrite,
                },
            ),
            None => None,
        }
    }

    /// A provider with a stale, empty index, set to index `home`.
    pub fn new(home: &str) -> (plugin: FsPlugin)
        ensures
            plugin.index() == (CacheView {
                status: CacheStatus::Outdated,
                root: None,
                rows: Seq::empty(),
                generation: 0,
            }),
            plugin.answered() is None,
            plugin.pending() is None,
            lookup(plugin.settings(), "path"@) == Some(home@),
    {
        let mut config = Settings::new();
        config.set("path", home);
        FsPlugin {
            cache: Cache::new(),
            config,
            last_query: String::new(),
            answered: None,
            pending: None,
        }
    }

    fn keep(&mut self, refresh: Refresh)
        ensures
            final(self).index() == old(self).index(),
            final(self).answered() == old(self).answered(),
            final(self).last_query() == old(self).last_query(),
            final(self).settings() == old(self).settings(),
            final(self).pending() == pending_after(old(self).pending(), refresh@),
    {
        match refresh {
            Refresh::Sweep(plan) => {
                self.pending = Some(plan);
            },
            _ => {},
        }
    }

    /// The indexing cache, to read.
    pub fn cache(&self) -> (cache: &Cache)
        ensures
            cache@ == self.index(),
    {
        &self.cache
    }

    /// Takes what the store held at start; where it held nothing, a first
    /// sweep falls due.
    pub fn load(&mut self, persisted: Vec<Entry>)
        ensures
            final(self).index() == begun(
                probed(old(self).index(), persisted.deep_view()),
                false,
                false,
            ).0,
            final(self).pending() == pending_after(
                old(self).pending(),
                begun(probed(old(self).index(), persisted.deep_view()), false, false).1,
            ),
            final(self).answered() == old(self).answered(),
            final(self).last_query() == old(self).last_query(),
            final(self).settings() == old(self).settings(),
    {
        let refresh = self.cache.init(persisted);
        self.keep(refresh);
    }

    /// Follows the root that `config` names under `path`: where it differs
    /// from the one that the index was built for, the index is cleared and a
    /// sweep that overwrites it falls due.
    pub fn refresh(&mut self, config: &Settings)
        ensures
            final(self).answered() == old(self).answered(),
            final(self).last_query() == old(self).last_query(),
            final(self).settings() == old(self).settings(),
            final(self).index() == followed(old(self).index(), config@).0,
            final(self).pending() == pending_after(
                old(self).pending(),
                followed(old(self).index(), config@).1,
            ),
    {
        let refresh = match config.get("path") {
            Some(root) => self.cache.reconfigure(root),
            None => Refresh::Fresh,
        };
        self.keep(refresh);
    }

    /// Hands out the sweep that is due, once.
    pub fn take_sweep(&mut self) -> (plan: Option<SweepPlan>)
        ensures
            final(self).pending() is None,
            final(self).index() == old(self).index(),
            final(self).answered() == old(self).answered(),
            final(self).last_query() == old(self).last_query(),
            final(self).settings() == old(self).settings(),
            match plan {
                Some(due) => old(self).pending() == Some(
                    PendingView {
                        root: match due.root {
                            Some(root) => Some(root@),
                            None => None,
                        },
                        overwrite: due.overwrite,
                    },
                ),
                None => old(self).pending() is None,
            },
    {
        let mut plan: Option<SweepPlan> = None;
        core::mem::swap(&mut plan, &mut self.pending);
        plan
    }

    /// Ends the sweep that is under way.
    pub fn complete(&mut self, outcome: Result<Vec<Entry>, StoreError>) -> (completion: Completion)
        ensures
            final(self).answered() == old(self).answered(),
            final(self).last_query() == old(self).last_query(),
            final(self).settings() == old(self).settings(),
            final(self).pending() == old(self).pending(),
            (final(self).index(), completion) == completed(
                old(self).index(),
                match outcome {
                    Ok(entries) => Ok(entries.deep_view()),
                    Err(error) => Err(error),
                },
            ),
    {
        self.cache.complete(outcome)
    }

    /// The rows of the index whose name or path contains `filter`:
    /// applications first, then the most recently accessed first, at most
    /// `RESULT_LIMIT` rows.
    pub fn get_files(&self, filter: &str) -> (files: Vec<Entry>)
        ensures
            files.deep_view() == selected(self.index().rows, filter@, RESULT_LIMIT as nat),
    {
        self.cache.query(filter, RESULT_LIMIT)
    }

    /// The search result that shows `entry`.
    pub fn to_result(entry: &Entry) -> (result: SearchResult)
        ensures
            result@ == result_for(entry@),
    {
        let icon = match entry.kind {
            EntryKind::Application => None,
            EntryKind::Directory => Some(Icon::Folder),
            EntryKind::File => Some(Icon::File),
            EntryKind::Symlink => None,
        };
        let action = match entry.kind {
            EntryKind::Application => Some(Action::LaunchApplication(entry.path.clone())),
            EntryKind::Directory | EntryKind::File => Some(Action::Open(entry.path.clone())),
            EntryKind::Symlink => None,
        };
        SearchResult::new(entry.name.clone(), None, icon, action, Some(RESULT_PRIORITY))
    }

    /// The search results that show `entries`.
    pub fn to_results(entries: &Vec<Entry>) -> (results: Vec<SearchResult>)
        ensures
            results.deep_view() == results_for(entries.deep_view()),
    {
        let mut results: Vec<SearchResult> = Vec::new();
        let mut i: usize = 0;
        while i < entries.len()
            invariant
                i <= entries.len(),
                results.deep_view() =~= results_for(entries.deep_view().take(i as int)),
            decreases entries.len() - i,
        {
            let ghost listed = results.deep_view();
            results.push(FsPlugin::to_result(&entries[i]));
            assert(results.deep_view() =~= listed.push(result_for(entries[i as int]@)));
            i += 1;
        }
        assert(entries.deep_view().take(entries.len() as int) =~= entries.deep_view());
        results
    }
}

impl Plugin for FsPlugin {
    open spec fn name(&self) -> Seq<char> {
        "FS Walk"@
    }

    /// The provider answers from the index as it is once the root that
    /// `config` names has been followed; nothing where neither the round,
    /// nor the query, nor the table has changed since its last answer.
    open spec fn answer(
        &self,
        query: Seq<char>,
        config: Seq<(Seq<char>, Seq<char>)>,
        new_round: bool,
    ) -> Option<Seq<SearchResultView>> {
        let index = followed(self.index(), config).0;
        if !new_round && self.last_query() == query && self.answered() == Some(index.generation) {
            None
        } else {
            Some(results_for(selected(index.rows, query, RESULT_LIMIT as nat)))
        }
    }

    fn init(&mut self) {
    }

    /// One evaluation: the provider first follows the root that `config`
    /// names, then answers `query` from the index as it then is. It answers
    /// in a new round, for another query than the last, and whenever the
    /// table has changed since its last answer; else its previous answer
    /// stands.
    fn start(&mut self, query: &str, config: &Settings, new_round: bool) -> (contribution: Option<
        Vec<SearchResult>,
    >)
        ensures
            final(self).index() == followed(old(self).index(), config@).0,
            final(self).pending() == pending_after(
                old(self).pending(),
                followed(old(self).index(), config@).1,
            ),
            final(self).settings() == old(self).settings(),
            contribution is None <==> !new_round && old(self).last_query() == query@
                && old(self).answered() == Some(final(self).index().generation),
            match contribution {
                Some(list) => final(self).answered() == Some(final(self).index().generation)
                    && final(self).last_query() == query@ && list.deep_view() == results_for(
                    selected(final(self).index().rows, query@, RESULT_LIMIT as nat),
                ),
                None => final(self).answered() == old(self).answered()
                    && final(self).last_query() == old(self).last_query(),
            },
    {
        self.refresh(config);
        let generation = self.cache.generation();
        let current = match self.answered {
            Some(seen) => seen == generation,
            None => false,
        };
        if current && !new_round && same_text(self.last_query.as_str(), query) {
            return None;
        }
        let files = self.get_files(query);
        let results = FsPlugin::to_results(&files);
        self.last_query = String::from_str(query);
        self.answered = Some(generation);
        Some(results)
    }

    fn get_metadata(&self) -> (metadata: Metadata)
        ensures
            metadata.name@ == "FS Walk"@,
            metadata.description@ == "A plugin to traverse the filesystem"@,
            metadata.icon is None,
            metadata.url is None,
    {
        Metadata {
            name: String::from_str("FS Walk"),
            description: String::from_str("A plugin to traverse the filesystem"),
            icon: None,
            url: None,
        }
    }

    fn get_config(&self) -> (config: Settings)
        ensures
            config@ == self.settings(),
    {
        self.config.duplicate()
    }

    fn destroy(&mut self) {
    }
}

} // verus!
