//! The hub: the one shared region that holds the current query and the
//! merged result list.
//!
//! Every operation takes the hub by exclusive reference, so each is a single
//! indivisible step: whoever shares a hub between workers puts it behind one
//! lock and holds that lock for one call at a time. No operation does more
//! than a fixed number of passes over the result list.

use crate::plugin_api::result::{duplicate_results, SearchResult, SearchResultView};
use crate::sequences::{
    lemma_filter_all,
    lemma_filter_keeps,
    lemma_filter_member,
    lemma_filter_narrows,
    lemma_filter_none,
};
use crate::text::same_text;
use vstd::prelude::*;

verus! {

/// One entry of the result list with the provider that contributed it.
struct Slot {
    owner: Option<String>,
    result: SearchResult,
}

/// An entry of the result list as plain values. Results put in place as a
/// whole list have no owner.
pub struct SlotView {
    pub owner: Option<Seq<char>>,
    pub result: SearchResultView,
}

/// The hub as plain values: the query, the result list in the order in
/// which it was filled, and the number of the current round.
pub struct HubView {
    pub query: Seq<char>,
    pub slots: Seq<SlotView>,
    pub round: u64,
}

/// The hub. A round begins with each new query; the results of a round are
/// replaced slice by slice, never patched in place.
pub struct ClientState {
    search_query: String,
    search_results: Vec<Slot>,
    round: u64,
}

/// The slots that `owner` did not contribute.
pub open spec fn not_owned_by(owner: Seq<char>) -> spec_fn(SlotView) -> bool {
    |slot: SlotView| slot.owner != Some(owner)
}

/// The slots that `owner` contributed.
pub open spec fn owned_by(owner: Seq<char>) -> spec_fn(SlotView) -> bool {
    |slot: SlotView| slot.owner == Some(owner)
}

/// The results with priority `priority`.
pub open spec fn with_priority(priority: u8) -> spec_fn(SearchResultView) -> bool {
    |result: SearchResultView| result.priority == priority
}

/// `contribution` as slots of `owner`.
pub open spec fn slots_of(owner: Option<Seq<char>>, contribution: Seq<SearchResultView>) -> Seq<
    SlotView,
> {
    Seq::new(contribution.len(), |i: int| SlotView { owner, result: contribution[i] })
}

/// The results that the slots hold, in slot order.
pub open spec fn results_of(slots: Seq<SlotView>) -> Seq<SearchResultView> {
    Seq::new(slots.len(), |i: int| slots[i].result)
}

/// What `owner` currently contributes, in the order in which it gave it.
pub open spec fn slice_of(slots: Seq<SlotView>, owner: Seq<char>) -> Seq<SearchResultView> {
    results_of(slots.filter(owned_by(owner)))
}

/// The result list after `owner` merged `contribution`: what it contributed
/// before is gone, the new contribution stands at the end, everything else
/// keeps its place.
pub open spec fn merged(
    slots: Seq<SlotView>,
    owner: Seq<char>,
    contribution: Seq<SearchResultView>,
) -> Seq<SlotView> {
    slots.filter(not_owned_by(owner)) + slots_of(Some(owner), contribution)
}

/// The results of priority `lowest` and above, in rank order.
pub open spec fn ranked_from(results: Seq<SearchResultView>, lowest: int) -> Seq<SearchResultView>
    decreases 256 - lowest,
{
    if lowest > 255 {
        Seq::empty()
    } else {
        ranked_from(results, lowest + 1) + results.filter(with_priority(lowest as u8))
    }
}

/// The rank order: a higher priority is listed first, and results of one
/// priority keep the order in which they were inserted.
pub open spec fn ranked(results: Seq<SearchResultView>) -> Seq<SearchResultView> {
    ranked_from(results, 0)
}

/// The number of the round that follows `round`.
pub open spec fn next_round(round: u64) -> u64 {
    if round == u64::MAX {
        0
    } else {
        (round + 1) as u64
    }
}

impl Slot {
    spec fn view(self) -> SlotView {
        SlotView {
            owner: match self.owner {
                Some(name) => Some(name@),
                None => None,
            },
            result: self.result@,
        }
    }
}

spec fn slot_views(slots: Seq<Slot>) -> Seq<SlotView> {
    Seq::new(slots.len(), |i: int| slots[i].view())
}

impl View for ClientState {
    type V = HubView;

    closed spec fn view(&self) -> HubView {
        HubView {
            query: self.search_query@,
            slots: slot_views(self.search_results@),
            round: self.round,
        }
    }
}

impl Default for ClientState {
    /// An empty hub in round 0.
    fn default() -> (hub: ClientState)
        ensures
            hub@ == (HubView { query: Seq::empty(), slots: Seq::empty(), round: 0 }),
    {
        ClientState::new()
    }
}

impl ClientState {
    /// An empty hub in round 0: no query text, no results.
    pub fn new() -> (hub: ClientState)
        ensures
            hub@ == (HubView { query: Seq::empty(), slots: Seq::empty(), round: 0 }),
    {
        let hub = ClientState { search_query: String::new(), search_results: Vec::new(), round: 0 };
        assert(hub@.slots =~= Seq::empty());
        hub
    }

    /// Replaces the query and clears the result list: a new round begins.
    pub fn update_search_query(&mut self, query: String)
        ensures
            final(self)@ == (HubView {
                query: query@,
                slots: Seq::empty(),
                round: next_round(old(self)@.round),
            }),
    {
        self.search_query = query;
        self.search_results.clear();
        self.round = if self.round == u64::MAX {
            0
        } else {
            self.round + 1
        };
        assert(self@.slots =~= Seq::empty());
    }

    /// Swaps in `results` as the whole result list, owned by no provider.
    pub fn update_search_results(&mut self, results: Vec<SearchResult>)
        ensures
            final(self)@ == (HubView {
                slots: slots_of(None, results.deep_view()),
                ..old(self)@
            }),
    {
        let mut slots: Vec<Slot> = Vec::new();
        let ghost all = results@;
        for result in it: results
            invariant
                it.seq() == all,
                slots.len() == it.index(),
                forall|j: int|
                    0 <= j < slots.len() ==> (#[trigger] slots[j]).view() == (SlotView {
                        owner: None,
                        result: all[j]@,
                    }),
        {
            assert(result == all[it.index() as int]);
            slots.push(Slot { owner: None, result });
        }
        self.search_results = slots;
        assert(self@.slots =~= slots_of(None, results.deep_view()));
    }

    /// Replaces what `owner` contributes by `contribution`, in one step: the
    /// results of every other provider stay as they are.
    pub fn merge_results(&mut self, owner: &str, contribution: Vec<SearchResult>)
        ensures
            final(self)@ == (HubView {
                slots: merged(old(self)@.slots, owner@, contribution.deep_view()),
                ..old(self)@
            }),
    {
        let mut previous: Vec<Slot> = Vec::new();
        core::mem::swap(&mut previous, &mut self.search_results);
        let mut slots: Vec<Slot> = Vec::new();
        let ghost before = slot_views(previous@);
        let ghost moved = previous@;
        assert(before.take(0).filter(not_owned_by(owner@)) =~= Seq::empty()) by {
            reveal(Seq::filter);
        }
        for slot in it: previous
            invariant
                it.seq() == moved,
                before == slot_views(moved),
                slot_views(slots@) =~= before.take(it.index() as int).filter(
                    not_owned_by(owner@),
                ),
        {
            proof {
                let i = it.index() as int;
                assert(before.take(i + 1) =~= before.take(i).push(before[i]));
                before.take(i).lemma_filter_push(before[i], not_owned_by(owner@));
                assert(before[i] == slot.view());
            }
            let keep = match &slot.owner {
                Some(name) => !same_text(name.as_str(), owner),
                None => true,
            };
            if keep {
                slots.push(slot);
            }
        }
        assert(before.take(before.len() as int) =~= before);
        let ghost kept = slot_views(slots@);
        let ghost given = contribution@;
        for result in it: contribution
            invariant
                it.seq() == given,
                slots.len() == kept.len() + it.index(),
                forall|j: int| 0 <= j < kept.len() ==> (#[trigger] slots[j]).view() == kept[j],
                forall|j: int|
                    kept.len() <= j < slots.len() ==> (#[trigger] slots[j]).view() == (SlotView {
                        owner: Some(owner@),
                        result: given[j - kept.len()]@,
                    }),
        {
            assert(result == given[it.index() as int]);
            slots.push(Slot { owner: Some(owner.to_owned()), result });
        }
        self.search_results = slots;
        assert(self@.slots =~= merged(old(self)@.slots, owner@, contribution.deep_view()));
    }

    /// The current query.
    pub fn get_search_query(&self) -> (query: &str)
        ensures
            query@ == self@.query,
    {
        self.search_query.as_str()
    }

    /// The number of the current round.
    pub fn round(&self) -> (round: u64)
        ensures
            round == self@.round,
    {
        self.round
    }

    /// A copy of what `owner` currently contributes.
    pub fn contribution_of(&self, owner: &str) -> (contribution: Vec<SearchResult>)
        ensures
            contribution.deep_view() == slice_of(self@.slots, owner@),
    {
        let mut found: Vec<SearchResult> = Vec::new();
        let ghost views = slot_views(self.search_results@);
        assert(views.take(0).filter(owned_by(owner@)) =~= Seq::empty()) by {
            reveal(Seq::filter);
        }
        let mut i: usize = 0;
        while i < self.search_results.len()
            invariant
                i <= self.search_results.len(),
                views == slot_views(self.search_results@),
                found.deep_view() =~= results_of(views.take(i as int).filter(owned_by(owner@))),
            decreases self.search_results.len() - i,
        {
            proof {
                let seen = views.take(i as int);
                assert(views.take(i + 1) =~= seen.push(views[i as int]));
                seen.lemma_filter_push(views[i as int], owned_by(owner@));
                assert(results_of(seen.filter(owned_by(owner@)).push(views[i as int]))
                    =~= results_of(seen.filter(owned_by(owner@))).push(views[i as int].result));
                assert(views[i as int] == self.search_results[i as int].view());
            }
            let slot = &self.search_results[i];
            let owned = match &slot.owner {
                Some(name) => same_text(name.as_str(), owner),
                None => false,
            };
            if owned {
                found.push(slot.result.duplicate());
            }
            i += 1;
        }
        assert(views.take(views.len() as int) =~= views);
        found
    }

    /// Which priorities occur in the result list.
    fn priorities(&self) -> (present: Vec<bool>)
        ensures
            present.len() == 256,
            forall|j: int|
                0 <= j < self@.slots.len() ==> present[(
                #[trigger] self@.slots[j]).result.priority as int],
    {
        let mut present: Vec<bool> = Vec::new();
        while present.len() < 256
            invariant
                present.len() <= 256,
                forall|priority: int| 0 <= priority < present.len() ==> !present[priority],
            decreases 256 - present.len(),
        {
            present.push(false);
        }
        let mut i: usize = 0;
        while i < self.search_results.len()
            invariant
                i <= self.search_results.len(),
                present.len() == 256,
                forall|j: int|
                    0 <= j < i ==> present[(#[trigger] self@.slots[j]).result.priority as int],
            decreases self.search_results.len() - i,
        {
            assert(self@.slots[i as int] == self.search_results[i as int].view());
            present.set(self.search_results[i].result.priority() as usize, true);
            i += 1;
        }
        present
    }

    /// A copy of the result list in rank order.
    pub fn get_search_results(&self) -> (results: Vec<SearchResult>)
        ensures
            results.deep_view() == ranked(results_of(self@.slots)),
    {
        let present = self.priorities();
        let mut results: Vec<SearchResult> = Vec::new();
        let ghost all = results_of(slot_views(self.search_results@));
        let mut priority: u8 = 255;
        let mut done = false;
        while !done
            invariant
                all == results_of(slot_views(self.search_results@)),
                present.len() == 256,
                forall|j: int|
                    0 <= j < self@.slots.len() ==> present[(
                    #[trigger] self@.slots[j]).result.priority as int],
                !done ==> results.deep_view() =~= ranked_from(all, priority + 1),
                done ==> results.deep_view() =~= ranked_from(all, 0),
            decreases priority + (if done { 0int } else { 1int }),
        {
            let ghost above = results.deep_view();
            if present[priority as usize] {
                assert(all.take(0).filter(with_priority(priority)) =~= Seq::empty()) by {
                    reveal(Seq::filter);
                }
                let mut i: usize = 0;
                while i < self.search_results.len()
                    invariant
                        i <= self.search_results.len(),
                        all == results_of(slot_views(self.search_results@)),
                        results.deep_view() =~= above + all.take(i as int).filter(
                            with_priority(priority),
                        ),
                    decreases self.search_results.len() - i,
                {
                    proof {
                        assert(all.take(i + 1) =~= all.take(i as int).push(all[i as int]));
                        all.take(i as int).lemma_filter_push(
                            all[i as int],
                            with_priority(priority),
                        );
                        assert(all[i as int] == self.search_results[i as int].result@);
                    }
                    let slot = &self.search_results[i];
                    let ghost listed = results.deep_view();
                    if slot.result.priority() == priority {
                        results.push(slot.result.duplicate());
                        assert(results.deep_view() =~= listed.push(all[i as int]));
                    }
                    i += 1;
                }
                assert(all.take(all.len() as int) =~= all);
            } else {
                proof {
                    assert forall|j: int| 0 <= j < all.len() implies !with_priority(priority)(
                        #[trigger] all[j],
                    ) by {
                        assert(all[j] == self@.slots[j].result);
                    }
                    lemma_filter_none(all, with_priority(priority));
                    assert(above + Seq::<SearchResultView>::empty() =~= above);
                }
            }
            if priority == 0 {
                done = true;
            } else {
                priority -= 1;
            }
        }
        results
    }
}

/// One provider's merge in a sequence of merges: who merges, and what.
pub struct Merge {
    pub owner: Seq<char>,
    pub contribution: Seq<SearchResultView>,
}

/// The result list after each of `merges` was applied, in order.
pub open spec fn merged_all(slots: Seq<SlotView>, merges: Seq<Merge>) -> Seq<SlotView>
    decreases merges.len(),
{
    if merges.len() == 0 {
        slots
    } else {
        merged(
            merged_all(slots, merges.drop_last()),
            merges.last().owner,
            merges.last().contribution,
        )
    }
}

/// After a merge the provider contributes exactly what it merged, and
/// every other provider contributes what it did before.
pub proof fn lemma_merge_touches_one_slice(
    slots: Seq<SlotView>,
    owner: Seq<char>,
    contribution: Seq<SearchResultView>,
    other: Seq<char>,
)
    ensures
        slice_of(merged(slots, owner, contribution), owner) == contribution,
        other != owner ==> slice_of(merged(slots, owner, contribution), other) == slice_of(
            slots,
            other,
        ),
{
    let kept = slots.filter(not_owned_by(owner));
    let given = slots_of(Some(owner), contribution);
    assert forall|i: int| 0 <= i < kept.len() implies !owned_by(owner)(#[trigger] kept[i]) by {
        lemma_filter_member(slots, not_owned_by(owner), i);
    }
    Seq::filter_distributes_over_add(kept, given, owned_by(owner));
    lemma_filter_none(kept, owned_by(owner));
    lemma_filter_all(given, owned_by(owner));
    assert((kept + given).filter(owned_by(owner)) =~= given);
    assert(results_of(given) =~= contribution);
    if other != owner {
        Seq::filter_distributes_over_add(kept, given, owned_by(other));
        lemma_filter_none(given, owned_by(other));
        lemma_filter_narrows(slots, not_owned_by(owner), owned_by(other));
        assert((kept + given).filter(owned_by(other)) =~= slots.filter(owned_by(other)));
    }
}

/// No write is lost: when providers with distinct names each merge once, in
/// whatever order their merges fall, the result list holds the full
/// contribution of every one of them.
pub proof fn lemma_no_lost_contribution(slots: Seq<SlotView>, merges: Seq<Merge>, k: int)
    requires
        0 <= k < merges.len(),
        forall|i: int, j: int| 0 <= i < j < merges.len() ==> merges[i].owner != merges[j].owner,
    ensures
        slice_of(merged_all(slots, merges), merges[k].owner) == merges[k].contribution,
    decreases merges.len(),
{
    let before = merged_all(slots, merges.drop_last());
    let last = merges.last();
    lemma_merge_touches_one_slice(before, last.owner, last.contribution, merges[k].owner);
    if k < merges.len() - 1 {
        assert(merges.drop_last()[k] == merges[k]);
        assert forall|i: int, j: int| 0 <= i < j < merges.drop_last().len() implies merges.drop_last()[i].owner
            != merges.drop_last()[j].owner by {
            assert(merges.drop_last()[i] == merges[i] && merges.drop_last()[j] == merges[j]);
        }
        lemma_no_lost_contribution(slots, merges.drop_last(), k);
    }
}

/// Ranking neither drops nor invents a result: among the results of
/// priority `lowest` and above, the ranked list holds what the list holds.
pub proof fn lemma_ranked_from_holds(
    results: Seq<SearchResultView>,
    lowest: int,
    result: SearchResultView,
)
    requires
        0 <= lowest <= 256,
    ensures
        ranked_from(results, lowest).contains(result) <==> results.contains(result)
            && result.priority >= lowest,
    decreases 256 - lowest,
{
    if lowest <= 255 {
        let above = ranked_from(results, lowest + 1);
        let here = results.filter(with_priority(lowest as u8));
        lemma_ranked_from_holds(results, lowest + 1, result);
        if (above + here).contains(result) {
            let at = choose|at: int| 0 <= at < (above + here).len() && (above + here)[at] == result;
            if at < above.len() {
                assert(above[at] == result);
            } else {
                assert(here[at - above.len()] == result);
                lemma_filter_member(results, with_priority(lowest as u8), at - above.len());
            }
        }
        if results.contains(result) && result.priority >= lowest {
            if result.priority == lowest {
                let at = choose|at: int| 0 <= at < results.len() && results[at] == result;
                lemma_filter_keeps(results, with_priority(lowest as u8), at);
                let to = choose|to: int| 0 <= to < here.len() && here[to] == result;
                assert((above + here)[above.len() + to] == result);
            } else {
                let at = choose|at: int| 0 <= at < above.len() && above[at] == result;
                assert((above + here)[at] == result);
            }
        }
    }
}

/// The ranked list holds exactly the results of the list.
pub proof fn lemma_ranked_holds(results: Seq<SearchResultView>, result: SearchResultView)
    ensures
        ranked(results).contains(result) <==> results.contains(result),
{
    lemma_ranked_from_holds(results, 0, result);
}

/// In the ranked list no result stands behind one of lower priority.
pub proof fn lemma_ranked_descends(results: Seq<SearchResultView>, lowest: int, i: int, j: int)
    requires
        0 <= lowest <= 256,
        0 <= i < j < ranked_from(results, lowest).len(),
    ensures
        ranked_from(results, lowest)[i].priority >= ranked_from(results, lowest)[j].priority,
        ranked_from(results, lowest)[j].priority >= lowest,
    decreases 256 - lowest,
{
    if lowest <= 255 {
        let above = ranked_from(results, lowest + 1);
        let here = results.filter(with_priority(lowest as u8));
        if j < above.len() {
            lemma_ranked_descends(results, lowest + 1, i, j);
        } else {
            lemma_filter_member(results, with_priority(lowest as u8), j - above.len());
            if i < above.len() {
                lemma_ranked_lowest(results, lowest + 1, i);
            } else {
                lemma_filter_member(results, with_priority(lowest as u8), i - above.len());
            }
        }
    }
}

/// Every result of `ranked_from(results, lowest)` has priority `lowest` or
/// above.
pub proof fn lemma_ranked_lowest(results: Seq<SearchResultView>, lowest: int, i: int)
    requires
        0 <= lowest <= 256,
        0 <= i < ranked_from(results, lowest).len(),
    ensures
        ranked_from(results, lowest)[i].priority >= lowest,
    decreases 256 - lowest,
{
    if lowest <= 255 {
        let above = ranked_from(results, lowest + 1);
        if i < above.len() {
            lemma_ranked_lowest(results, lowest + 1, i);
        } else {
            lemma_filter_member(results, with_priority(lowest as u8), i - above.len());
        }
    }
}

/// Results of one priority keep the order in which they were inserted:
/// among the results of priority `lowest` and above, those of priority
/// `priority` stand in the ranked list as they stand in the list.
pub proof fn lemma_ranked_from_keeps_order(
    results: Seq<SearchResultView>,
    lowest: int,
    priority: u8,
)
    requires
        0 <= lowest <= 256,
    ensures
        ranked_from(results, lowest).filter(with_priority(priority)) == (if priority >= lowest {
            results.filter(with_priority(priority))
        } else {
            Seq::empty()
        }),
    decreases 256 - lowest,
{
    if lowest <= 255 {
        let above = ranked_from(results, lowest + 1);
        let here = results.filter(with_priority(lowest as u8));
        lemma_ranked_from_keeps_order(results, lowest + 1, priority);
        Seq::filter_distributes_over_add(above, here, with_priority(priority));
        if priority == lowest {
            assert forall|i: int| 0 <= i < here.len() implies with_priority(priority)(
                #[trigger] here[i],
            ) by {
                lemma_filter_member(results, with_priority(lowest as u8), i);
            }
            lemma_filter_all(here, with_priority(priority));
            assert(above.filter(with_priority(priority)) + here =~= here);
        } else {
            assert forall|i: int| 0 <= i < here.len() implies !with_priority(priority)(
                #[trigger] here[i],
            ) by {
                lemma_filter_member(results, with_priority(lowest as u8), i);
            }
            lemma_filter_none(here, with_priority(priority));
            assert(above.filter(with_priority(priority)) + Seq::<SearchResultView>::empty()
                =~= above.filter(with_priority(priority)));
        }
    } else {
        assert(ranked_from(results, lowest).filter(with_priority(priority)) =~= Seq::empty()) by {
            reveal(Seq::filter);
        }
    }
}

/// Ties are broken by insertion order: the results of one priority stand in
/// the ranked list as they stand in the list.
pub proof fn lemma_ranked_keeps_order(results: Seq<SearchResultView>, priority: u8)
    ensures
        ranked(results).filter(with_priority(priority)) == results.filter(with_priority(priority)),
{
    lemma_ranked_from_keeps_order(results, 0, priority);
}

/// When providers with distinct names each merge once, the ranked result
/// list shows every result of every one of them.
pub proof fn lemma_all_contributions_shown(
    slots: Seq<SlotView>,
    merges: Seq<Merge>,
    k: int,
    i: int,
)
    requires
        0 <= k < merges.len(),
        0 <= i < merges[k].contribution.len(),
        forall|a: int, b: int| 0 <= a < b < merges.len() ==> merges[a].owner != merges[b].owner,
    ensures
        ranked(results_of(merged_all(slots, merges))).contains(merges[k].contribution[i]),
{
    let after = merged_all(slots, merges);
    let owner = merges[k].owner;
    lemma_no_lost_contribution(slots, merges, k);
    let own = after.filter(owned_by(owner));
    assert(results_of(own)[i] == merges[k].contribution[i]);
    lemma_filter_member(after, owned_by(owner), i);
    let at = choose|at: int| 0 <= at < after.len() && after[at] == own[i];
    assert(results_of(after)[at] == merges[k].contribution[i]);
    lemma_ranked_holds(results_of(after), merges[k].contribution[i]);
}

/// A new round starts with nothing to show.
pub proof fn lemma_new_round_shows_nothing()
    ensures
        ranked(results_of(Seq::<SlotView>::empty())) == Seq::<SearchResultView>::empty(),
{
    let none = results_of(Seq::<SlotView>::empty());
    assert(none =~= Seq::empty());
    assert forall|result: SearchResultView| !ranked(none).contains(result) by {
        lemma_ranked_holds(none, result);
    }
    if ranked(none).len() > 0 {
        assert(ranked(none).contains(ranked(none)[0]));
    }
    assert(ranked(none) =~= Seq::empty());
}

} // verus!
