//! The indexing cache: a state machine that says when the index has to be
//! swept anew, around the table that holds the index.
//!
//! The cache itself reads no directory and touches no store. It hands out a
//! plan when a sweep is due, and takes the entries of the sweep, or the
//! failure of the store, when the sweep has ended. Between the two the cache
//! is `Updating`, and a second sweep is not handed out.

use crate::filesystem::db::fs::{Entry, EntryView};
use crate::filesystem::table::{
    lemma_position,
    position_of,
    selected,
    unique_paths,
    upserted_all,
    Table,
};
use crate::text::same_text;
use vstd::prelude::*;
use vstd::string::StringExecFns;

verus! {

/// What a cache entry caches.
#[derive(Debug, Clone, Copy, PartialEq, Eq, Structural)]
pub enum CacheType {
    Filesystem,
}

/// Whether the persisted index reflects the filesystem.
#[derive(Debug, Clone, Copy, PartialEq, Eq, Structural)]
pub enum CacheStatus {
    /// The index is missing or stale.
    Outdated,
    /// The index holds one complete sweep.
    Updated,
    /// A sweep is under way.
    Updating,
}

/// The state of one cached thing.
#[derive(Debug, Clone, Copy, PartialEq, Eq, Structural)]
pub struct CacheEntry {
    pub kind: CacheType,
    pub status: CacheStatus,
}

/// How the store failed.
#[derive(Debug, Clone, Copy, PartialEq, Eq, Structural)]
pub enum StoreError {
    Connection,
    Transaction,
    Migration,
}

/// What a due sweep is to do.
#[derive(Debug)]
pub struct SweepPlan {
    /// The directory to walk; the home directory where none is configured.
    pub root: Option<String>,
    /// Whether the persisted table is cleared before the sweep is written.
    pub overwrite: bool,
}

/// The answer to a request for a fresh index.
#[derive(Debug)]
pub enum Refresh {
    /// The index is up to date; nothing is to be done.
    Fresh,
    /// A sweep is under way already; nothing is to be done now.
    InFlight,
    /// A sweep is due, and the cache is `Updating` until it is completed.
    Sweep(SweepPlan),
}

/// A `Refresh` as plain values.
pub enum RefreshView {
    Fresh,
    InFlight,
    Sweep { root: Option<Seq<char>>, overwrite: bool },
}

impl View for Refresh {
    type V = RefreshView;

    open spec fn view(&self) -> RefreshView {
        match *self {
            Refresh::Fresh => RefreshView::Fresh,
            Refresh::InFlight => RefreshView::InFlight,
            Refresh::Sweep(plan) => RefreshView::Sweep {
                root: match plan.root {
                    Some(root) => Some(root@),
                    None => None,
                },
                overwrite: plan.overwrite,
            },
        }
    }
}

/// How a sweep ended for the cache.
#[derive(Debug, Clone, Copy, PartialEq, Eq, Structural)]
pub enum Completion {
    /// The entries are in the table and the cache is `Updated`.
    Committed,
    /// The store failed; the cache is `Outdated` again.
    Reverted(StoreError),
    /// No sweep was under way; nothing changed.
    Ignored,
}

/// The cache as plain values.
pub struct CacheView {
    pub status: CacheStatus,
    pub root: Option<Seq<char>>,
    pub rows: Seq<EntryView>,
    pub generation: u64,
}

/// The number of the table generation that follows `generation`.
pub open spec fn next_generation(generation: u64) -> u64 {
    if generation == u64::MAX {
        0
    } else {
        (generation + 1) as u64
    }
}

/// The cache after the store was probed and held `persisted`: the table
/// holds these rows, and where there is any row the cache trusts them and is
/// `Updated`. A cache that is `Updating` is not touched.
pub open spec fn probed(cache: CacheView, persisted: Seq<EntryView>) -> CacheView {
    if cache.status == CacheStatus::Updating {
        cache
    } else {
        let rows = upserted_all(Seq::empty(), persisted);
        CacheView {
            status: if rows.len() > 0 {
                CacheStatus::Updated
            } else {
                cache.status
            },
            rows,
            generation: next_generation(cache.generation),
            ..cache
        }
    }
}

/// The cache after a fresh index was asked for, and what it answered. An
/// `Updated` cache answers `Fresh` unless `force` is set; a cache that sweeps
/// already answers `InFlight`. Otherwise a sweep is handed out, the cache is
/// `Updating`, and with `overwrite` the table is cleared at once.
pub open spec fn begun(cache: CacheView, force: bool, overwrite: bool) -> (CacheView, RefreshView) {
    if cache.status == CacheStatus::Updating {
        (cache, RefreshView::InFlight)
    } else if cache.status == CacheStatus::Updated && !force {
        (cache, RefreshView::Fresh)
    } else {
        (
            CacheView {
                status: CacheStatus::Updating,
                rows: if overwrite {
                    Seq::empty()
                } else {
                    cache.rows
                },
                generation: if overwrite {
                    next_generation(cache.generation)
                } else {
                    cache.generation
                },
                ..cache
            },
            RefreshView::Sweep { root: cache.root, overwrite },
        )
    }
}

/// The cache after a sweep ended with `outcome`. The entries of a sweep are
/// written as one: either all of them are in the table and the cache is
/// `Updated`, or the table is as it was and the cache is `Outdated`.
pub open spec fn completed(cache: CacheView, outcome: Result<Seq<EntryView>, StoreError>) -> (
    CacheView,
    Completion,
) {
    if cache.status != CacheStatus::Updating {
        (cache, Completion::Ignored)
    } else {
        match outcome {
            Ok(entries) => (
                CacheView {
                    status: CacheStatus::Updated,
                    rows: upserted_all(cache.rows, entries),
                    generation: next_generation(cache.generation),
                    ..cache
                },
                Completion::Committed,
            ),
            Err(error) => (
                CacheView { status: CacheStatus::Outdated, ..cache },
                Completion::Reverted(error),
            ),
        }
    }
}

/// The cache after `root` was configured as the directory to index. A root
/// that differs from the current one makes the cache stale and starts a
/// sweep that overwrites the table. The same root changes nothing, and
/// neither does any root while a sweep is under way.
pub open spec fn reconfigured(cache: CacheView, root: Seq<char>) -> (CacheView, RefreshView) {
    if cache.status == CacheStatus::Updating {
        (cache, RefreshView::InFlight)
    } else if cache.root == Some(root) {
        (cache, RefreshView::Fresh)
    } else {
        begun(CacheView { status: CacheStatus::Outdated, root: Some(root), ..cache }, true, true)
    }
}

/// The indexing cache.
#[derive(Debug)]
pub struct Cache {
    filesystem: CacheEntry,
    filesystem_root: Option<String>,
    table: Table,
    generation: u64,
}

impl View for Cache {
    type V = CacheView;

    closed spec fn view(&self) -> CacheView {
        CacheView {
            status: self.filesystem.status,
            root: match self.filesystem_root {
                Some(root) => Some(root@),
                None => None,
            },
            rows: self.table@,
            generation: self.generation,
        }
    }
}

impl Default for Cache {
    /// A stale cache with no root configured and an empty table.
    fn default() -> (cache: Cache)
        ensures
            cache@ == (CacheView {
                status: CacheStatus::Outdated,
                root: None,
                rows: Seq::empty(),
                generation: 0,
            }),
    {
        Cache::new()
    }
}

impl Cache {
    /// A stale cache with no root configured and an empty table.
    pub fn new() -> (cache: Cache)
        ensures
            cache@ == (CacheView {
                status: CacheStatus::Outdated,
                root: None,
                rows: Seq::empty(),
                generation: 0,
            }),
    {
        Cache {
            filesystem: CacheEntry { kind: CacheType::Filesystem, status: CacheStatus::Outdated },
            filesystem_root: None,
            table: Table::new(),
            generation: 0,
        }
    }

    fn advance(&mut self)
        ensures
            final(self).filesystem == old(self).filesystem,
            final(self).filesystem_root == old(self).filesystem_root,
            final(self).table == old(self).table,
            final(self).generation == next_generation(old(self).generation),
    {
        self.generation = if self.generation == u64::MAX {
            0
        } else {
            self.generation + 1
        };
    }

    fn plan(&self, overwrite: bool) -> (plan: SweepPlan)
        ensures
            plan.overwrite == overwrite,
            match plan.root {
                Some(root) => self@.root == Some(root@),
                None => self@.root is None,
            },
    {
        SweepPlan {
            root: match &self.filesystem_root {
                Some(root) => Some(root.clone()),
                None => None,
            },
            overwrite,
        }
    }

    /// Brings the cache to the start of its life: the store was probed and
    /// held `persisted`; then a fresh index is asked for without force.
    pub fn init(&mut self, persisted: Vec<Entry>) -> (refresh: Refresh)
        ensures
            (final(self)@, refresh@) == begun(
                probed(old(self)@, persisted.deep_view()),
                false,
                false,
            ),
    {
        self.update_cache_states(persisted);
        self.cache_file_system(false, false)
    }

    /// Takes what the store held when it was probed.
    pub fn update_cache_states(&mut self, persisted: Vec<Entry>)
        ensures
            final(self)@ == probed(old(self)@, persisted.deep_view()),
    {
        if self.filesystem.status == CacheStatus::Updating {
            return ;
        }
        self.table.clear();
        self.table.upsert_all(persisted);
        if self.table.len() > 0 {
            self.filesystem.status = CacheStatus::Updated;
        }
        self.advance();
    }

    /// Whether the index is up to date.
    pub fn get_cache_status(&self) -> (updated: bool)
        ensures
            updated == (self@.status == CacheStatus::Updated),
    {
        self.filesystem.status == CacheStatus::Updated
    }

    /// The status of the cache.
    pub fn status(&self) -> (status: CacheStatus)
        ensures
            status == self@.status,
    {
        self.filesystem.status
    }

    /// The number of the table generation: it changes whenever the rows do.
    pub fn generation(&self) -> (generation: u64)
        ensures
            generation == self@.generation,
    {
        self.generation
    }

    /// The configured root, if any.
    pub fn root(&self) -> (root: Option<&str>)
        ensures
            match root {
                Some(text) => self@.root == Some(text@),
                None => self@.root is None,
            },
    {
        match &self.filesystem_root {
            Some(root) => Some(root.as_str()),
            None => None,
        }
    }

    /// Asks for a fresh index: with `upsert` set even where the cache is
    /// `Updated`, and with `overwrite` such that the table is cleared first.
    pub fn cache_file_system(&mut self, upsert: bool, overwrite: bool) -> (refresh: Refresh)
        ensures
            (final(self)@, refresh@) == begun(old(self)@, upsert, overwrite),
    {
        if self.filesystem.status == CacheStatus::Updating {
            return Refresh::InFlight;
        }
        if !(upsert || !self.get_cache_status()) {
            return Refresh::Fresh;
        }
        if overwrite {
            self.table.clear();
            self.advance();
        }
        self.filesystem.status = CacheStatus::Updating;
        Refresh::Sweep(self.plan(overwrite))
    }

    /// Ends the sweep that is under way: with the entries it found, once the
    /// store has written them all, or with the failure of the store.
    pub fn complete(&mut self, outcome: Result<Vec<Entry>, StoreError>) -> (completion: Completion)
        ensures
            (final(self)@, completion) == completed(
                old(self)@,
                match outcome {
                    Ok(entries) => Ok(entries.deep_view()),
                    Err(error) => Err(error),
                },
            ),
    {
        if self.filesystem.status != CacheStatus::Updating {
            return Completion::Ignored;
        }
        match outcome {
            Ok(entries) => {
                self.table.upsert_all(entries);
                self.advance();
                self.filesystem.status = CacheStatus::Updated;
                Completion::Committed
            },
            Err(error) => {
                self.filesystem.status = CacheStatus::Outdated;
                Completion::Reverted(error)
            },
        }
    }

    /// Configures `root` as the directory to index.
    pub fn reconfigure(&mut self, root: &str) -> (refresh: Refresh)
        ensures
            (final(self)@, refresh@) == reconfigured(old(self)@, root@),
    {
        if self.filesystem.status == CacheStatus::Updating {
            return Refresh::InFlight;
        }
        let same = match &self.filesystem_root {
            Some(current) => same_text(current.as_str(), root),
            None => false,
        };
        if same {
            return Refresh::Fresh;
        }
        self.filesystem_root = Some(String::from_str(root));
        self.filesystem.status = CacheStatus::Outdated;
        self.cache_file_system(true, true)
    }

    /// Looks up `filter` in the index: see `selected`.
    pub fn query(&self, filter: &str, limit: usize) -> (answer: Vec<Entry>)
        ensures
            answer.deep_view() == selected(self@.rows, filter@, limit as nat),
    {
        self.table.query(filter, limit)
    }

    /// A copy of the rows of the index, in table order. No two of them
    /// share a path.
    pub fn rows(&self) -> (rows: Vec<Entry>)
        ensures
            rows.deep_view() == self@.rows,
            unique_paths(self@.rows),
    {
        self.table.rows()
    }
}

/// Asking twice for a fresh index without force sweeps at most once: once
/// the first request is settled, the cache is `Updated` and the second
/// request changes nothing. A stale cache sweeps exactly once.
pub proof fn lemma_second_request_is_idle(cache: CacheView, entries: Seq<EntryView>)
    requires
        cache.status != CacheStatus::Updating,
    ensures
        ({
            let (started, first) = begun(cache, false, false);
            let settled = if first is Sweep {
                completed(started, Ok(entries)).0
            } else {
                started
            };
            &&& cache.status == CacheStatus::Outdated <==> first is Sweep
            &&& settled.status == CacheStatus::Updated
            &&& begun(settled, false, false) == (settled, RefreshView::Fresh)
        }),
{
}

/// Every row written into an empty table by a batch is an entry of the
/// batch.
pub proof fn lemma_rows_stem_from_batch(batch: Seq<EntryView>, i: int)
    requires
        0 <= i < upserted_all(Seq::empty(), batch).len(),
    ensures
        batch.contains(upserted_all(Seq::empty(), batch)[i]),
    decreases batch.len(),
{
    if batch.len() > 0 {
        let before = upserted_all(Seq::empty(), batch.drop_last());
        let last = batch.last();
        lemma_position(before, last.path);
        let written = position_of(before, last.path);
        if i == written {
            assert(batch[batch.len() - 1] == last);
        } else {
            lemma_rows_stem_from_batch(batch.drop_last(), i);
            let from = choose|from: int|
                0 <= from < batch.drop_last().len() && batch.drop_last()[from] == before[i];
            assert(batch[from] == before[i]);
        }
    }
}

/// Configuring another root drops the whole previous index: the sweep that
/// it starts overwrites the table, and once that sweep is written the table
/// holds entries of that sweep and nothing else.
pub proof fn lemma_new_root_drops_previous_index(
    cache: CacheView,
    root: Seq<char>,
    entries: Seq<EntryView>,
)
    requires
        cache.status != CacheStatus::Updating,
        cache.root != Some(root),
    ensures
        ({
            let (started, refresh) = reconfigured(cache, root);
            let (settled, completion) = completed(started, Ok(entries));
            &&& refresh == (RefreshView::Sweep { root: Some(root), overwrite: true })
            &&& started.rows.len() == 0
            &&& completion == Completion::Committed
            &&& settled.status == CacheStatus::Updated
            &&& settled.root == Some(root)
            &&& forall|i: int|
                0 <= i < settled.rows.len() ==> entries.contains(#[trigger] settled.rows[i])
        }),
{
    let (started, refresh) = reconfigured(cache, root);
    let (settled, completion) = completed(started, Ok(entries));
    assert(started.rows =~= Seq::empty());
    assert forall|i: int| 0 <= i < settled.rows.len() implies entries.contains(
        #[trigger] settled.rows[i],
    ) by {
        lemma_rows_stem_from_batch(entries, i);
    }
}

} // verus!
