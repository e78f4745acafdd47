//! What search providers and the runtime that drives them share: the result
//! model, the hub that holds the query and the merged results, and the
//! provider registry.

pub mod hub;
pub mod result;

use crate::config::{updated, Settings};
use crate::plugin_api::hub::{
    lemma_merge_touches_one_slice,
    lemma_ranked_holds,
    merged,
    merged_all,
    next_round,
    owned_by,
    ranked,
    results_of,
    slice_of,
    ClientState,
    HubView,
    Merge,
    SlotView,
};
use crate::plugin_api::result::{SearchResult, SearchResultView};
use crate::sequences::lemma_filter_member;
use crate::text::{duplicate_text, same_text};
use vstd::prelude::*;

verus! {

/// How long a worker rests between two steps, in milliseconds.
pub const WORKER_INTERVAL_MS: u64 = 100;

/// How a provider presents itself.
#[derive(Debug)]
pub struct Metadata {
    pub name: String,
    pub description: String,
    pub icon: Option<String>,
    pub url: Option<String>,
}

impl Metadata {
    /// A copy of this description.
    pub fn duplicate(&self) -> (copy: Metadata)
        ensures
            copy == *self,
    {
        Metadata {
            name: self.name.clone(),
            description: self.description.clone(),
            icon: duplicate_text(&self.icon),
            url: duplicate_text(&self.url),
        }
    }
}

/// What a provider answered, as plain values.
pub open spec fn answer_view(answer: Option<Vec<SearchResult>>) -> Option<Seq<SearchResultView>> {
    match answer {
        Some(list) => Some(list.deep_view()),
        None => None,
    }
}

/// A search provider. It keeps scratch state of its own and speaks to the
/// rest of the system only through what `start` returns, which the runtime
/// merges into the hub as this provider's slice.
///
/// A provider says what its name is and what it answers by two
/// specification functions; of a provider that leaves them as they stand
/// here nothing is known but that there is a name and an answer.
pub trait Plugin: Send + Sync {
    /// The name under which the provider presents itself. It never changes.
    open spec fn name(&self) -> Seq<char> {
        arbitrary()
    }

    /// What the provider, as it is now, answers to `query` under the
    /// settings `config`: the whole contribution that is to replace its
    /// previous one, or nothing where the previous one stands.
    open spec fn answer(
        &self,
        query: Seq<char>,
        config: Seq<(Seq<char>, Seq<char>)>,
        new_round: bool,
    ) -> Option<Seq<SearchResultView>> {
        arbitrary()
    }

    /// Prepares the provider. Called once, before the first `start`.
    fn init(&mut self)
        ensures
            final(self).name() == old(self).name(),
    ;

    /// Evaluates the provider against `query` under the settings `config`.
    /// `Some` holds the whole contribution that is to replace the previous
    /// one; `None` says that the previous one stands. In a round in which the
    /// provider has not answered yet, `new_round` is set and it must answer
    /// in full. A provider whose computation fails contributes an empty
    /// list.
    fn start(&mut self, query: &str, config: &Settings, new_round: bool) -> (contribution: Option<
        Vec<SearchResult>,
    >)
        ensures
            new_round ==> contribution is Some,
            answer_view(contribution) == old(self).answer(query@, config@, new_round),
            final(self).name() == old(self).name(),
    ;

    /// How the provider presents itself.
    fn get_metadata(&self) -> (metadata: Metadata)
        ensures
            metadata.name@ == self.name(),
    ;

    /// The settings that the provider starts with.
    fn get_config(&self) -> Settings;

    /// Releases what the provider holds. Called once, after the last `start`.
    fn destroy(&mut self)
        ensures
            final(self).name() == old(self).name(),
    ;
}

/// The stage of the runtime's life, and with it of every provider in it.
#[derive(Debug, Clone, Copy, PartialEq, Eq, Structural)]
pub enum Lifecycle {
    Uninitialized,
    Running,
    Destroyed,
}

/// Why a provider was not registered.
#[derive(Debug, Clone, Copy, PartialEq, Eq, Structural)]
pub enum RegistrationError {
    /// A provider is registered under this identifier already.
    Duplicate,
    /// The runtime has been started; providers are registered before that.
    AlreadyStarted,
}

/// A registered provider with what the runtime keeps about it.
pub struct LoadedPlugin<P: Plugin> {
    pub plugin: P,
    pub metadata: Metadata,
    pub config: Settings,
    identifier: String,
    answered: Option<u64>,
}

/// What the runtime tells about a registered provider.
#[derive(Debug)]
pub struct PluginData {
    pub metadata: Metadata,
    pub config: Settings,
}

/// The names of `providers`, one for one.
pub open spec fn names_of<P: Plugin>(providers: Seq<P>) -> Seq<Seq<char>> {
    Seq::new(providers.len(), |i: int| providers[i].name())
}

/// How many of `names` are registered, one after the other, before one of
/// them is taken already: by one of `taken` or by a name before it.
pub open spec fn accepted(taken: Seq<Seq<char>>, names: Seq<Seq<char>>) -> int
    decreases names.len(),
{
    if names.len() == 0 {
        0
    } else if taken.contains(names.first()) {
        0
    } else {
        1 + accepted(taken.push(names.first()), names.drop_first())
    }
}

/// Whether no two of `names` are the same and none is among `taken`.
pub open spec fn distinct_and_new(taken: Seq<Seq<char>>, names: Seq<Seq<char>>) -> bool {
    &&& forall|i: int| 0 <= i < names.len() ==> !taken.contains(#[trigger] names[i])
    &&& forall|i: int, j: int| 0 <= i < j < names.len() ==> names[i] != names[j]
}

/// All names are registered exactly if no two of them are the same and
/// none is taken.
pub proof fn lemma_accepted(taken: Seq<Seq<char>>, names: Seq<Seq<char>>)
    ensures
        0 <= accepted(taken, names) <= names.len(),
        accepted(taken, names) == names.len() <==> distinct_and_new(taken, names),
    decreases names.len(),
{
    if names.len() > 0 {
        let first = names.first();
        let rest = names.drop_first();
        let more = taken.push(first);
        if taken.contains(first) {
            assert(names[0] == first);
        } else {
            lemma_accepted(more, rest);
            if distinct_and_new(taken, names) {
                assert forall|i: int| 0 <= i < rest.len() implies !more.contains(
                    #[trigger] rest[i],
                ) by {
                    assert(rest[i] == names[i + 1]);
                    if more.contains(rest[i]) {
                        let at = choose|at: int| 0 <= at < more.len() && more[at] == rest[i];
                        if at < taken.len() {
                            assert(taken[at] == names[i + 1]);
                        } else {
                            assert(names[0] == names[i + 1]);
                        }
                    }
                }
                assert forall|i: int, j: int| 0 <= i < j < rest.len() implies rest[i]
                    != rest[j] by {
                    assert(rest[i] == names[i + 1] && rest[j] == names[j + 1]);
                }
            }
            if distinct_and_new(more, rest) {
                assert forall|i: int| 0 <= i < names.len() implies !taken.contains(
                    #[trigger] names[i],
                ) by {
                    if i > 0 {
                        assert(rest[i - 1] == names[i]);
                        if taken.contains(names[i]) {
                            let at = choose|at: int| 0 <= at < taken.len() && taken[at] == names[i];
                            assert(more[at] == rest[i - 1]);
                        }
                    }
                }
                assert forall|i: int, j: int| 0 <= i < j < names.len() implies names[i]
                    != names[j] by {
                    assert(rest[j - 1] == names[j]);
                    if i == 0 {
                        assert(more[taken.len() as int] == first);
                    } else {
                        assert(rest[i - 1] == names[i]);
                    }
                }
            }
        }
    }
}

/// The provider runtime: the registry, the hub, and one step of each
/// provider's worker. `P` is the kind of provider it drives; a runtime for
/// providers of several kinds takes an enum of them.
///
/// The runtime is one flow of control. Workers that run side by side share
/// it behind one lock and take that lock for one `run_worker` at a time, so
/// that no merge can fall between another worker's read and write.
pub struct PluginManager<P: Plugin> {
    plugins: Vec<LoadedPlugin<P>>,
    client_state: ClientState,
    state: Lifecycle,
}

impl<P: Plugin> Default for PluginManager<P> {
    /// A runtime with no providers and an empty hub.
    fn default() -> (manager: PluginManager<P>)
        ensures
            manager.wf(),
            manager.identifiers() == Seq::<Seq<char>>::empty(),
            manager.hub() == (HubView { query: Seq::empty(), slots: Seq::empty(), round: 0 }),
            manager.lifecycle() == Lifecycle::Uninitialized,
    {
        PluginManager::new()
    }
}

impl<P: Plugin> PluginManager<P> {
    /// The identifiers of the registered providers, in registration order.
    pub closed spec fn identifiers(&self) -> Seq<Seq<char>> {
        Seq::new(self.plugins@.len(), |i: int| self.plugins@[i].identifier@)
    }

    /// The registered providers as they are now, in registration order.
    pub closed spec fn providers(&self) -> Seq<P> {
        Seq::new(self.plugins@.len(), |i: int| self.plugins@[i].plugin)
    }

    /// How the registered providers presented themselves at registration,
    /// in registration order.
    pub closed spec fn metadata(&self) -> Seq<Metadata> {
        Seq::new(self.plugins@.len(), |i: int| self.plugins@[i].metadata)
    }

    /// The settings of the registered providers, in registration order.
    pub closed spec fn configs(&self) -> Seq<Seq<(Seq<char>, Seq<char>)>> {
        Seq::new(self.plugins@.len(), |i: int| self.plugins@[i].config@)
    }

    /// For each registered provider, in registration order, the round in
    /// which it last took a worker step; nothing before its first step.
    pub closed spec fn answered(&self) -> Seq<Option<u64>> {
        Seq::new(self.plugins@.len(), |i: int| self.plugins@[i].answered)
    }

    /// The hub.
    pub closed spec fn hub(&self) -> HubView {
        self.client_state@
    }

    /// The stage of the runtime's life.
    pub closed spec fn lifecycle(&self) -> Lifecycle {
        self.state
    }

    /// Whether a worker step of provider `index` takes place: the runtime is
    /// running and `index` names a provider.
    pub open spec fn steps(&self, index: int) -> bool {
        self.lifecycle() == Lifecycle::Running && 0 <= index < self.identifiers().len()
    }

    /// Whether provider `index` has not taken a step in the current round
    /// yet, so that its next step has to answer in full.
    pub open spec fn owes_answer(&self, index: int) -> bool {
        self.steps(index) && self.answered()[index] != Some(self.hub().round)
    }

    /// What provider `index`, as it is now, answers in its next worker step:
    /// its answer to the current query under its settings.
    pub open spec fn answer_of(&self, index: int) -> Option<Seq<SearchResultView>> {
        self.providers()[index].answer(
            self.hub().query,
            self.configs()[index],
            self.owes_answer(index),
        )
    }

    /// The merges of one step of each of the first `upto` workers, in
    /// registration order: that of each provider that answers.
    pub open spec fn round_merges(&self, upto: int) -> Seq<Merge>
        decreases upto,
    {
        if upto <= 0 {
            Seq::empty()
        } else {
            match self.answer_of(upto - 1) {
                Some(contribution) => self.round_merges(upto - 1).push(
                    Merge { owner: self.identifiers()[upto - 1], contribution },
                ),
                None => self.round_merges(upto - 1),
            }
        }
    }

    /// No identifier is registered twice, and the registry keeps one record
    /// of each kind for each provider.
    pub open spec fn wf(&self) -> bool {
        &&& self.identifiers().no_duplicates()
        &&& self.providers().len() == self.identifiers().len()
        &&& self.metadata().len() == self.identifiers().len()
        &&& self.configs().len() == self.identifiers().len()
        &&& self.answered().len() == self.identifiers().len()
    }

    /// Whether `before` and this runtime hold the same registry but for the
    /// providers themselves: identifiers, metadata, settings and steps
    /// taken.
    pub open spec fn same_records(&self, before: &PluginManager<P>) -> bool {
        &&& self.identifiers() == before.identifiers()
        &&& self.metadata() == before.metadata()
        &&& self.configs() == before.configs()
        &&& self.answered() == before.answered()
    }

    /// Whether this runtime holds as many providers as `before`, each under
    /// the name that it had.
    pub open spec fn same_names(&self, before: &PluginManager<P>) -> bool {
        names_of(self.providers()) == names_of(before.providers())
    }

    /// A runtime with no providers and an empty hub.
    pub fn new() -> (manager: PluginManager<P>)
        ensures
            manager.wf(),
            manager.identifiers() == Seq::<Seq<char>>::empty(),
            manager.hub() == (HubView { query: Seq::empty(), slots: Seq::empty(), round: 0 }),
            manager.lifecycle() == Lifecycle::Uninitialized,
    {
        let manager = PluginManager {
            plugins: Vec::new(),
            client_state: ClientState::new(),
            state: Lifecycle::Uninitialized,
        };
        assert(manager.identifiers() =~= Seq::empty());
        manager
    }

    /// The place of `identifier` in the registry, if it is registered.
    pub fn position(&self, identifier: &str) -> (place: Option<usize>)
        ensures
            match place {
                Some(index) => index < self.identifiers().len() && self.identifiers()[index as int]
                    == identifier@,
                None => !self.identifiers().contains(identifier@),
            },
    {
        let mut i: usize = 0;
        while i < self.plugins.len()
            invariant
                i <= self.plugins.len(),
                forall|j: int| 0 <= j < i ==> self.identifiers()[j] != identifier@,
            decreases self.plugins.len() - i,
        {
            if same_text(self.plugins[i].identifier.as_str(), identifier) {
                return Some(i);
            }
            i += 1;
        }
        None
    }

    /// Adds `plugin` to the registry under `identifier`, with the metadata
    /// and settings that it gives. Refused once the runtime has been
    /// started, and for an identifier that is taken; a refusal changes
    /// nothing.
    pub fn register(&mut self, identifier: String, plugin: P) -> (outcome: Result<
        (),
        RegistrationError,
    >)
        requires
            old(self).wf(),
        ensures
            final(self).wf(),
            final(self).hub() == old(self).hub(),
            final(self).lifecycle() == old(self).lifecycle(),
            outcome == (if old(self).lifecycle() != Lifecycle::Uninitialized {
                Err::<(), RegistrationError>(RegistrationError::AlreadyStarted)
            } else if old(self).identifiers().contains(identifier@) {
                Err::<(), RegistrationError>(RegistrationError::Duplicate)
            } else {
                Ok::<(), RegistrationError>(())
            }),
            outcome is Ok ==> {
                &&& final(self).identifiers() == old(self).identifiers().push(identifier@)
                &&& final(self).providers() == old(self).providers().push(plugin)
                &&& final(self).answered() == old(self).answered().push(None)
                &&& final(self).metadata().drop_last() == old(self).metadata()
                &&& final(self).metadata().last().name@ == plugin.name()
                &&& final(self).configs().drop_last() == old(self).configs()
            },
            outcome is Err ==> final(self).same_records(old(self)) && final(self).providers()
                == old(self).providers(),
    {
        if self.state != Lifecycle::Uninitialized {
            return Err(RegistrationError::AlreadyStarted);
        }
        if self.position(identifier.as_str()).is_some() {
            return Err(RegistrationError::Duplicate);
        }
        let metadata = plugin.get_metadata();
        let config = plugin.get_config();
        let ghost name = identifier@;
        let loaded = LoadedPlugin { plugin, metadata, config, identifier, answered: None };
        self.plugins.push(loaded);
        assert(self.identifiers() =~= old(self).identifiers().push(name));
        assert(self.providers() =~= old(self).providers().push(plugin));
        assert(self.answered() =~= old(self).answered().push(None));
        assert(self.metadata().drop_last() =~= old(self).metadata());
        assert(self.configs().drop_last() =~= old(self).configs());
        Ok(())
    }

    /// Registers each of `plugins` under its name, then starts the runtime.
    /// Succeeds exactly if the runtime has not been started, no two of the
    /// names are the same, and none is taken. It stops at the first provider
    /// that is refused; those before it stay registered, and the runtime is
    /// not started.
    pub fn init(&mut self, plugins: Vec<P>) -> (outcome: Result<(), RegistrationError>)
        requires
            old(self).wf(),
        ensures
            final(self).wf(),
            final(self).hub() == old(self).hub(),
            outcome == (if old(self).lifecycle() != Lifecycle::Uninitialized {
                Err::<(), RegistrationError>(RegistrationError::AlreadyStarted)
            } else if distinct_and_new(old(self).identifiers(), names_of(plugins@)) {
                Ok::<(), RegistrationError>(())
            } else {
                Err::<(), RegistrationError>(RegistrationError::Duplicate)
            }),
            final(self).lifecycle() == (if outcome is Ok {
                Lifecycle::Running
            } else {
                old(self).lifecycle()
            }),
            old(self).lifecycle() != Lifecycle::Uninitialized ==> final(self).same_records(
                old(self),
            ) && final(self).providers() == old(self).providers(),
            old(self).lifecycle() == Lifecycle::Uninitialized ==> {
                let count = accepted(old(self).identifiers(), names_of(plugins@));
                let before = old(self).identifiers().len() as int;
                &&& final(self).identifiers() == old(self).identifiers() + names_of(plugins@).take(
                    count,
                )
                &&& names_of(final(self).providers()) == names_of(old(self).providers())
                    + names_of(plugins@).take(count)
                &&& final(self).metadata().take(before) == old(self).metadata()
                &&& final(self).configs().take(before) == old(self).configs()
                &&& final(self).answered() == old(self).answered() + Seq::new(
                    count as nat,
                    |i: int| None::<u64>,
                )
                &&& forall|i: int|
                    0 <= i < count ==> (#[trigger] final(self).metadata()[before + i]).name@
                        == plugins[i].name()
            },
    {
        if self.state != Lifecycle::Uninitialized {
            return Err(RegistrationError::AlreadyStarted);
        }
        let ghost given = plugins@;
        let ghost names = names_of(plugins@);
        let ghost before = old(self).identifiers().len() as int;
        proof {
            lemma_accepted(old(self).identifiers(), names);
            assert(names.skip(0) =~= names);
            assert(names.take(0) =~= Seq::<Seq<char>>::empty());
            assert(self.identifiers() =~= old(self).identifiers() + names.take(0));
            assert(self.providers() =~= old(self).providers() + given.take(0));
            assert(self.answered() =~= old(self).answered() + Seq::new(0, |i: int| None::<u64>));
            assert(self.metadata().take(before) =~= old(self).metadata());
            assert(self.configs().take(before) =~= old(self).configs());
        }
        for plugin in it: plugins
            invariant
                it.seq() == given,
                names == names_of(given),
                before == old(self).identifiers().len(),
                old(self).wf(),
                self.wf(),
                self.hub() == old(self).hub(),
                self.lifecycle() == Lifecycle::Uninitialized,
                old(self).lifecycle() == Lifecycle::Uninitialized,
                self.identifiers() == old(self).identifiers() + names.take(it.index() as int),
                self.providers() == old(self).providers() + given.take(it.index() as int),
                self.answered() == old(self).answered() + Seq::new(
                    it.index() as nat,
                    |i: int| None::<u64>,
                ),
                self.metadata().take(before) == old(self).metadata(),
                self.configs().take(before) == old(self).configs(),
                forall|i: int|
                    0 <= i < it.index() ==> (#[trigger] self.metadata()[before + i]).name@
                        == given[i].name(),
                accepted(old(self).identifiers(), names) == it.index() + accepted(
                    self.identifiers(),
                    names.skip(it.index() as int),
                ),
                distinct_and_new(old(self).identifiers(), names) <==> accepted(
                    old(self).identifiers(),
                    names,
                ) == names.len(),
        {
            let ghost i = it.index() as int;
            let ghost records = self.metadata();
            let ghost settings = self.configs();
            let name = plugin.get_metadata().name;
            proof {
                assert(names[i] == plugin.name());
                assert(names.skip(i).first() == names[i]);
                assert(names.skip(i).drop_first() =~= names.skip(i + 1));
                assert(names.take(i + 1) =~= names.take(i).push(names[i]));
                assert(given.take(i + 1) =~= given.take(i).push(given[i]));
                lemma_accepted(
                    self.identifiers().push(names[i]),
                    names.skip(i + 1),
                );
            }
            match self.register(name, plugin) {
                Ok(()) => {
                    proof {
                        assert(self.identifiers() =~= old(self).identifiers() + names.take(i + 1));
                        assert(self.providers() =~= old(self).providers() + given.take(i + 1));
                        assert(self.answered() =~= old(self).answered() + Seq::new(
                            (i + 1) as nat,
                            |k: int| None::<u64>,
                        ));
                        assert(self.metadata().take(before) =~= records.take(before)) by {
                            assert(self.metadata().drop_last() == records);
                        }
                        assert(self.configs().take(before) =~= settings.take(before)) by {
                            assert(self.configs().drop_last() == settings);
                        }
                        assert forall|k: int| 0 <= k < i + 1 implies (
                        #[trigger] self.metadata()[before + k]).name@ == given[k].name() by {
                            if k < i {
                                assert(self.metadata().drop_last()[before + k] == records[before
                                    + k]);
                            } else {
                                assert(self.metadata().last() == self.metadata()[before + k]);
                            }
                        }
                    }
                },
                Err(error) => {
                    proof {
                        assert(accepted(self.identifiers(), names.skip(i)) == 0);
                        let count = accepted(old(self).identifiers(), names);
                        assert(count == i);
                        assert(names_of(self.providers()) =~= names_of(old(self).providers())
                            + names.take(i)) by {
                            assert forall|k: int| 0 <= k < i implies names.take(i)[k] == (
                            old(self).providers() + given.take(i))[old(self).providers().len()
                                + k].name() by {
                                assert(given.take(i)[k] == given[k]);
                            }
                        }
                    }
                    return Err(error);
                },
            }
        }
        proof {
            assert(names.skip(names.len() as int) =~= Seq::<Seq<char>>::empty());
            assert(names_of(self.providers()) =~= names_of(old(self).providers()) + names.take(
                names.len() as int,
            )) by {
                assert forall|k: int| 0 <= k < names.len() implies names[k] == (
                old(self).providers() + given)[old(self).providers().len() + k].name() by {
                    assert(given.take(given.len() as int) =~= given);
                }
                assert(given.take(given.len() as int) =~= given);
            }
        }
        let ghost registered = names_of(self.providers());
        self.start_all();
        Ok(())
    }

    /// Prepares every registered provider and sets the runtime running. Does
    /// nothing unless the runtime is uninitialized.
    pub fn start_all(&mut self)
        requires
            old(self).wf(),
        ensures
            final(self).wf(),
            final(self).hub() == old(self).hub(),
            final(self).same_records(old(self)),
            final(self).same_names(old(self)),
            old(self).lifecycle() != Lifecycle::Uninitialized ==> final(self).providers() == old(self).providers(),
            final(self).lifecycle() == (if old(self).lifecycle() == Lifecycle::Uninitialized {
                Lifecycle::Running
            } else {
                old(self).lifecycle()
            }),
    {
        if self.state != Lifecycle::Uninitialized {
            return ;
        }
        let mut i: usize = 0;
        while i < self.plugins.len()
            invariant
                i <= self.plugins.len(),
                self.wf(),
                self.same_records(old(self)),
                self.same_names(old(self)),
                self.hub() == old(self).hub(),
                self.state == old(self).state,
            decreases self.plugins.len() - i,
        {
            let ghost before = self.providers();
            self.plugins[i].plugin.init();
            proof {
                assert(self.identifiers() =~= old(self).identifiers());
                assert(self.metadata() =~= old(self).metadata());
                assert(self.configs() =~= old(self).configs());
                assert(self.answered() =~= old(self).answered());
                assert(names_of(self.providers()) =~= names_of(before)) by {
                    assert forall|k: int| 0 <= k < before.len() implies (
                    #[trigger] self.providers()[k]).name() == before[k].name() by {}
                }
            }
            i += 1;
        }
        self.state = Lifecycle::Running;
    }

    /// Whether workers are to go on: true from `start_all` to `destroy_all`.
    pub fn is_running(&self) -> (running: bool)
        ensures
            running == (self.lifecycle() == Lifecycle::Running),
    {
        self.state == Lifecycle::Running
    }

    /// The number of registered providers.
    pub fn plugin_count(&self) -> (count: usize)
        ensures
            count == self.identifiers().len(),
    {
        self.plugins.len()
    }

    /// Takes what provider `index` answered in a worker step: an answer
    /// replaces the provider's slice of the result list, no answer leaves
    /// the list as it is, and either way the provider has now taken its
    /// step in the current round. Returns whether anything was merged.
    /// Outside the running stage, and for an `index` that names no provider,
    /// nothing happens.
    pub fn take_answer(&mut self, index: usize, answer: Option<Vec<SearchResult>>) -> (wrote: bool)
        requires
            old(self).wf(),
        ensures
            final(self).wf(),
            final(self).identifiers() == old(self).identifiers(),
            final(self).metadata() == old(self).metadata(),
            final(self).configs() == old(self).configs(),
            final(self).providers() == old(self).providers(),
            final(self).lifecycle() == old(self).lifecycle(),
            final(self).hub().query == old(self).hub().query,
            final(self).hub().round == old(self).hub().round,
            wrote == (old(self).steps(index as int) && answer is Some),
            final(self).answered() == (if old(self).steps(index as int) {
                old(self).answered().update(index as int, Some(old(self).hub().round))
            } else {
                old(self).answered()
            }),
            final(self).hub().slots == (match answer {
                Some(contribution) if old(self).steps(index as int) => merged(
                    old(self).hub().slots,
                    old(self).identifiers()[index as int],
                    contribution.deep_view(),
                ),
                _ => old(self).hub().slots,
            }),
    {
        if self.state != Lifecycle::Running || index >= self.plugins.len() {
            return false;
        }
        let round = self.client_state.round();
        self.plugins[index].answered = Some(round);
        assert(self.identifiers() =~= old(self).identifiers());
        assert(self.metadata() =~= old(self).metadata());
        assert(self.configs() =~= old(self).configs());
        assert(self.providers() =~= old(self).providers());
        assert(self.answered() =~= old(self).answered().update(index as int, Some(round)));
        match answer {
            Some(contribution) => {
                let owner = self.plugins[index].identifier.clone();
                self.client_state.merge_results(owner.as_str(), contribution);
                true
            },
            None => false,
        }
    }

    /// One step of the worker of provider `index`: the provider is evaluated
    /// against the current query under its settings, and what it answers
    /// replaces its slice of the result list, as `take_answer` says. Returns
    /// whether anything was merged.
    ///
    /// A provider that has not taken a step in the current round is told so
    /// and answers in full, so that its step merges. The query and the round
    /// stay, and no other provider is touched, nor its results. Outside the
    /// running stage, and for an `index` that names no provider, nothing
    /// happens.
    pub fn run_worker(&mut self, index: usize) -> (wrote: bool)
        requires
            old(self).wf(),
        ensures
            final(self).wf(),
            final(self).identifiers() == old(self).identifiers(),
            final(self).metadata() == old(self).metadata(),
            final(self).configs() == old(self).configs(),
            final(self).same_names(old(self)),
            forall|other: int|
                0 <= other < old(self).providers().len() && (other != index || !old(self).steps(
                    index as int,
                )) ==> #[trigger] final(self).providers()[other] == old(self).providers()[other],
            final(self).lifecycle() == old(self).lifecycle(),
            final(self).hub().query == old(self).hub().query,
            final(self).hub().round == old(self).hub().round,
            final(self).answered() == (if old(self).steps(index as int) {
                old(self).answered().update(index as int, Some(old(self).hub().round))
            } else {
                old(self).answered()
            }),
            wrote == (old(self).steps(index as int) && old(self).answer_of(index as int) is Some),
            old(self).owes_answer(index as int) ==> wrote,
            final(self).hub().slots == (if wrote {
                merged(
                    old(self).hub().slots,
                    old(self).identifiers()[index as int],
                    old(self).answer_of(index as int)->Some_0,
                )
            } else {
                old(self).hub().slots
            }),
    {
        if self.state != Lifecycle::Running || index >= self.plugins.len() {
            assert(names_of(self.providers()) =~= names_of(old(self).providers()));
            return false;
        }
        let round = self.client_state.round();
        let new_round = match self.plugins[index].answered {
            Some(seen) => seen != round,
            None => true,
        };
        assert(new_round == old(self).owes_answer(index as int));
        let query = self.client_state.get_search_query().to_owned();
        let config = self.plugins[index].config.duplicate();
        assert(config@ == old(self).configs()[index as int]);
        assert(self.plugins@[index as int].plugin == old(self).providers()[index as int]);
        let answer = self.plugins[index].plugin.start(query.as_str(), &config, new_round);
        proof {
            assert(answer_view(answer) == old(self).answer_of(index as int));
            assert(self.identifiers() =~= old(self).identifiers());
            assert(self.metadata() =~= old(self).metadata());
            assert(self.configs() =~= old(self).configs());
            assert(self.answered() =~= old(self).answered());
            assert(names_of(self.providers()) =~= names_of(old(self).providers())) by {
                assert forall|k: int| 0 <= k < old(self).providers().len() implies (
                #[trigger] self.providers()[k]).name() == old(self).providers()[k].name() by {}
            }
            assert forall|other: int|
                0 <= other < old(self).providers().len() && other != index implies (
            #[trigger] self.providers()[other]) == old(self).providers()[other] by {}
        }
        let ghost stepped = self.providers();
        let wrote = self.take_answer(index, answer);
        assert(self.providers() == stepped);
        wrote
    }

    /// One step of every worker, in registration order: the result list
    /// afterwards is the one before with the merge of each provider that
    /// answers applied, in registration order. Outside the running stage
    /// nothing happens.
    pub fn run_round(&mut self)
        requires
            old(self).wf(),
        ensures
            final(self).wf(),
            final(self).identifiers() == old(self).identifiers(),
            final(self).metadata() == old(self).metadata(),
            final(self).configs() == old(self).configs(),
            final(self).same_names(old(self)),
            final(self).lifecycle() == old(self).lifecycle(),
            final(self).hub().query == old(self).hub().query,
            final(self).hub().round == old(self).hub().round,
            old(self).lifecycle() != Lifecycle::Running ==> final(self).hub() == old(self).hub()
                && final(self).answered() == old(self).answered() && final(self).providers()
                == old(self).providers(),
            old(self).lifecycle() == Lifecycle::Running ==> {
                &&& final(self).hub().slots == merged_all(
                    old(self).hub().slots,
                    old(self).round_merges(old(self).identifiers().len() as int),
                )
                &&& forall|i: int|
                    0 <= i < final(self).answered().len() ==> #[trigger] final(self).answered()[i]
                        == Some(old(self).hub().round)
            },
    {
        let mut i: usize = 0;
        assert(self.hub().slots == merged_all(old(self).hub().slots, old(self).round_merges(0)));
        while i < self.plugins.len()
            invariant
                i <= self.plugins.len(),
                self.plugins.len() == old(self).identifiers().len(),
                old(self).wf(),
                self.wf(),
                self.identifiers() == old(self).identifiers(),
                self.metadata() == old(self).metadata(),
                self.configs() == old(self).configs(),
                self.same_names(old(self)),
                self.lifecycle() == old(self).lifecycle(),
                self.hub().query == old(self).hub().query,
                self.hub().round == old(self).hub().round,
                old(self).lifecycle() != Lifecycle::Running ==> self.hub() == old(self).hub()
                    && self.answered() == old(self).answered() && self.providers() == old(self).providers(),
                forall|k: int|
                    i <= k < self.plugins.len() ==> #[trigger] self.providers()[k] == old(self).providers()[k] && self.answered()[k] == old(self).answered()[k],
                old(self).lifecycle() == Lifecycle::Running ==> forall|k: int|
                    0 <= k < i ==> #[trigger] self.answered()[k] == Some(old(self).hub().round),
                old(self).lifecycle() == Lifecycle::Running ==> self.hub().slots == merged_all(
                    old(self).hub().slots,
                    old(self).round_merges(i as int),
                ),
            decreases self.plugins.len() - i,
        {
            let ghost before = *self;
            proof {
                if self.lifecycle() == Lifecycle::Running {
                    assert(self.owes_answer(i as int) == old(self).owes_answer(i as int));
                    assert(self.answer_of(i as int) == old(self).answer_of(i as int));
                    let merges = old(self).round_merges(i as int);
                    if let Some(contribution) = old(self).answer_of(i as int) {
                        let merge = Merge {
                            owner: old(self).identifiers()[i as int],
                            contribution,
                        };
                        assert(merges.push(merge).drop_last() =~= merges);
                    }
                }
            }
            self.run_worker(i);
            proof {
                if old(self).lifecycle() != Lifecycle::Running {
                    assert(self.providers() =~= old(self).providers());
                }
                assert forall|k: int| i + 1 <= k < self.plugins.len() implies #[trigger] self.providers()[k]
                    == old(self).providers()[k] && self.answered()[k] == old(self).answered()[k] by {
                    assert(before.providers()[k] == old(self).providers()[k]);
                    assert(self.providers()[k] == before.providers()[k]);
                    assert(self.answered()[k] == before.answered()[k]);
                }
            }
            i += 1;
        }
    }

    /// Begins a new round with `query`: the result list starts empty.
    pub fn update_search_query(&mut self, query: String)
        ensures
            final(self).same_records(old(self)),
            final(self).providers() == old(self).providers(),
            final(self).lifecycle() == old(self).lifecycle(),
            final(self).hub() == (HubView {
                query: query@,
                slots: Seq::empty(),
                round: next_round(old(self).hub().round),
            }),
    {
        self.client_state.update_search_query(query);
    }

    /// A copy of the merged result list, in rank order.
    pub fn get_aggregated_results(&self) -> (results: Vec<SearchResult>)
        ensures
            results.deep_view() == ranked(results_of(self.hub().slots)),
    {
        self.client_state.get_search_results()
    }

    /// The hub, to read.
    pub fn get_client_state(&self) -> (hub: &ClientState)
        ensures
            hub@ == self.hub(),
    {
        &self.client_state
    }

    /// The identifier, metadata and settings of every registered provider,
    /// in registration order.
    pub fn get_plugins(&self) -> (loaded: Vec<(String, PluginData)>)
        ensures
            loaded.len() == self.identifiers().len(),
            forall|i: int|
                0 <= i < loaded.len() ==> (#[trigger] loaded[i]).0@ == self.identifiers()[i]
                    && loaded[i].1.metadata == self.metadata()[i] && loaded[i].1.config@
                    == self.configs()[i],
    {
        let mut loaded: Vec<(String, PluginData)> = Vec::new();
        let mut i: usize = 0;
        while i < self.plugins.len()
            invariant
                i <= self.plugins.len(),
                loaded.len() == i,
                forall|j: int|
                    0 <= j < i ==> (#[trigger] loaded[j]).0@ == self.identifiers()[j]
                        && loaded[j].1.metadata == self.metadata()[j] && loaded[j].1.config@
                        == self.configs()[j],
            decreases self.plugins.len() - i,
        {
            let plugin = &self.plugins[i];
            loaded.push(
                (
                    plugin.identifier.clone(),
                    PluginData {
                        metadata: plugin.metadata.duplicate(),
                        config: plugin.config.duplicate(),
                    },
                ),
            );
            i += 1;
        }
        loaded
    }

    /// Sets `key` to `value` in the settings of the provider registered as
    /// `identifier`. Returns whether there is such a provider.
    pub fn configure(&mut self, identifier: &str, key: &str, value: &str) -> (found: bool)
        requires
            old(self).wf(),
        ensures
            final(self).wf(),
            found == old(self).identifiers().contains(identifier@),
            final(self).identifiers() == old(self).identifiers(),
            final(self).metadata() == old(self).metadata(),
            final(self).answered() == old(self).answered(),
            final(self).providers() == old(self).providers(),
            final(self).hub() == old(self).hub(),
            final(self).lifecycle() == old(self).lifecycle(),
            final(self).configs().len() == old(self).configs().len(),
            forall|i: int|
                0 <= i < old(self).configs().len() ==> #[trigger] final(self).configs()[i] == (
                if old(self).identifiers()[i] == identifier@ {
                    updated(old(self).configs()[i], key@, value@)
                } else {
                    old(self).configs()[i]
                }),
    {
        match self.position(identifier) {
            Some(index) => {
                self.plugins[index].config.set(key, value);
                assert(self.identifiers() =~= old(self).identifiers());
                assert(self.metadata() =~= old(self).metadata());
                assert(self.answered() =~= old(self).answered());
                assert(self.providers() =~= old(self).providers());
                assert forall|i: int| 0 <= i < old(self).configs().len() implies #[trigger] self.configs()[i]
                    == (if old(self).identifiers()[i] == identifier@ {
                    updated(old(self).configs()[i], key@, value@)
                } else {
                    old(self).configs()[i]
                }) by {
                    if i != index {
                        assert(old(self).identifiers()[i] != old(self).identifiers()[index as int]);
                    }
                }
                true
            },
            None => false,
        }
    }

    /// Stops the runtime: every provider is released, and from now on
    /// `is_running` tells the workers to end. Does nothing unless the runtime
    /// is running.
    pub fn destroy_all(&mut self)
        ensures
            final(self).hub() == old(self).hub(),
            final(self).same_records(old(self)),
            final(self).same_names(old(self)),
            old(self).lifecycle() != Lifecycle::Running ==> final(self).providers() == old(self).providers(),
            final(self).lifecycle() == (if old(self).lifecycle() == Lifecycle::Running {
                Lifecycle::Destroyed
            } else {
                old(self).lifecycle()
            }),
    {
        if self.state != Lifecycle::Running {
            return ;
        }
        let mut i: usize = 0;
        while i < self.plugins.len()
            invariant
                i <= self.plugins.len(),
                self.same_records(old(self)),
                self.same_names(old(self)),
                self.hub() == old(self).hub(),
                self.state == old(self).state,
            decreases self.plugins.len() - i,
        {
            let ghost before = self.providers();
            self.plugins[i].plugin.destroy();
            proof {
                assert(self.identifiers() =~= old(self).identifiers());
                assert(self.metadata() =~= old(self).metadata());
                assert(self.configs() =~= old(self).configs());
                assert(self.answered() =~= old(self).answered());
                assert(names_of(self.providers()) =~= names_of(before)) by {
                    assert forall|k: int| 0 <= k < before.len() implies (
                    #[trigger] self.providers()[k]).name() == before[k].name() by {}
                }
            }
            i += 1;
        }
        self.state = Lifecycle::Destroyed;
    }

    /// No write is lost in a round: after one step of every worker, each
    /// provider that answered contributes exactly its answer, whatever the
    /// others answered.
    pub proof fn lemma_round_keeps_every_answer(&self, slots: Seq<SlotView>, upto: int, index: int)
        requires
            self.wf(),
            0 <= index < upto <= self.identifiers().len(),
            self.answer_of(index) is Some,
        ensures
            slice_of(merged_all(slots, self.round_merges(upto)), self.identifiers()[index])
                == self.answer_of(index)->Some_0,
        decreases upto,
    {
        let last = upto - 1;
        let before = merged_all(slots, self.round_merges(last));
        match self.answer_of(last) {
            Some(contribution) => {
                let merge = Merge { owner: self.identifiers()[last], contribution };
                assert(self.round_merges(last).push(merge).drop_last() =~= self.round_merges(last));
                lemma_merge_touches_one_slice(
                    before,
                    self.identifiers()[last],
                    contribution,
                    self.identifiers()[index],
                );
                if index < last {
                    self.lemma_round_keeps_every_answer(slots, last, index);
                }
            },
            None => {
                self.lemma_round_keeps_every_answer(slots, last, index);
            },
        }
    }

    /// After one step of every worker the ranked result list shows every
    /// result of every provider that answered.
    pub proof fn lemma_round_shows_every_answer(&self, slots: Seq<SlotView>, index: int, place: int)
        requires
            self.wf(),
            0 <= index < self.identifiers().len(),
            self.answer_of(index) is Some,
            0 <= place < self.answer_of(index)->Some_0.len(),
        ensures
            ranked(
                results_of(
                    merged_all(slots, self.round_merges(self.identifiers().len() as int)),
                ),
            ).contains(self.answer_of(index)->Some_0[place]),
    {
        let after = merged_all(slots, self.round_merges(self.identifiers().len() as int));
        let owner = self.identifiers()[index];
        let result = self.answer_of(index)->Some_0[place];
        self.lemma_round_keeps_every_answer(slots, self.identifiers().len() as int, index);
        let own = after.filter(owned_by(owner));
        assert(results_of(own)[place] == result);
        lemma_filter_member(after, owned_by(owner), place);
        let at = choose|at: int| 0 <= at < after.len() && after[at] == own[place];
        assert(results_of(after)[at] == result);
        lemma_ranked_holds(results_of(after), result);
    }
}

} // verus!
