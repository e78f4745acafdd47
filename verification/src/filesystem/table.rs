//! The searchable table of index entries: rows keyed by path, upsert of
//! whole sweeps, and the ranked substring lookup.

use crate::filesystem::db::fs::{Entry, EntryKind, EntryView};
use crate::sequences::lemma_filter_member;
use crate::text::{contains_text, occurs, same_text, to_chars};
use std::collections::HashMap;
use vstd::prelude::*;
use vstd::string::StringSliceAdditionalSpecFns;

verus! {

broadcast use vstd::std_specs::hash::group_hash_axioms;

/// The rows that a lookup for `filter` considers: those whose name or path
/// contains it.
pub open spec fn matching(filter: Seq<char>) -> spec_fn(EntryView) -> bool {
    |row: EntryView| contains_text(row.name, filter) || contains_text(row.path, filter)
}

/// Applications form the first group of a lookup's answer, all else the
/// second.
pub open spec fn group(row: EntryView) -> int {
    if row.kind == EntryKind::Application {
        0
    } else {
        1
    }
}

/// Whether `a` is listed strictly before `b`: its group comes first, or
/// within one group it was accessed more recently.
pub open spec fn precedes(a: EntryView, b: EntryView) -> bool {
    group(a) < group(b) || (group(a) == group(b) && a.atime > b.atime)
}

/// Whether no row of `rows` is listed after one that it precedes.
pub open spec fn in_rank_order(rows: Seq<EntryView>) -> bool {
    forall|i: int, j: int| 0 <= i < j < rows.len() ==> !precedes(rows[j], rows[i])
}

/// Where `row` goes into the ranked `rows`: in front of the rows at the end
/// that it precedes, behind everything else.
pub open spec fn place(rows: Seq<EntryView>, row: EntryView) -> int
    decreases rows.len(),
{
    if rows.len() == 0 {
        0
    } else if precedes(row, rows.last()) {
        place(rows.drop_last(), row)
    } else {
        rows.len() as int
    }
}

/// `rows` in rank order: applications first, within each group the most
/// recently accessed first, and rows that tie in the order of the table.
pub open spec fn ranked(rows: Seq<EntryView>) -> Seq<EntryView>
    decreases rows.len(),
{
    if rows.len() == 0 {
        rows
    } else {
        let before = ranked(rows.drop_last());
        before.insert(place(before, rows.last()), rows.last())
    }
}

/// The first `count` of `rows`, or all of them where there are fewer.
pub open spec fn head(rows: Seq<EntryView>, count: nat) -> Seq<EntryView> {
    if count < rows.len() {
        rows.take(count as int)
    } else {
        rows
    }
}

/// The answer to a lookup: the matching rows in rank order, cut off after
/// `limit`.
pub open spec fn selected(rows: Seq<EntryView>, filter: Seq<char>, limit: nat) -> Seq<EntryView> {
    head(ranked(rows.filter(matching(filter))), limit)
}

/// Where the first row with path `path` stands in `rows`; the length of
/// `rows` where no row has this path.
pub open spec fn position_of(rows: Seq<EntryView>, path: Seq<char>) -> int
    decreases rows.len(),
{
    if rows.len() == 0 {
        0
    } else if rows.first().path == path {
        0
    } else {
        1 + position_of(rows.drop_first(), path)
    }
}

/// `rows` after `row` was written: it takes the place of the row with the
/// same path, and without such a row it is added at the end.
pub open spec fn upserted(rows: Seq<EntryView>, row: EntryView) -> Seq<EntryView> {
    if position_of(rows, row.path) < rows.len() {
        rows.update(position_of(rows, row.path), row)
    } else {
        rows.push(row)
    }
}

/// `rows` after each of `batch` was written, in order.
pub open spec fn upserted_all(rows: Seq<EntryView>, batch: Seq<EntryView>) -> Seq<EntryView>
    decreases batch.len(),
{
    if batch.len() == 0 {
        rows
    } else {
        upserted(upserted_all(rows, batch.drop_last()), batch.last())
    }
}

/// Whether no two rows share a path.
pub open spec fn unique_paths(rows: Seq<EntryView>) -> bool {
    forall|i: int, j: int| 0 <= i < j < rows.len() ==> rows[i].path != rows[j].path
}

/// `place` names the one position with the rows that `row` precedes behind
/// it and a row that it does not precede, if any, right in front.
pub proof fn lemma_place(rows: Seq<EntryView>, row: EntryView)
    ensures
        0 <= place(rows, row) <= rows.len(),
        forall|j: int| place(rows, row) <= j < rows.len() ==> precedes(row, #[trigger] rows[j]),
        place(rows, row) > 0 ==> !precedes(row, rows[place(rows, row) - 1]),
    decreases rows.len(),
{
    if rows.len() > 0 && precedes(row, rows.last()) {
        lemma_place(rows.drop_last(), row);
        let p = place(rows.drop_last(), row);
        assert forall|j: int| p <= j < rows.len() implies precedes(row, #[trigger] rows[j]) by {
            if j < rows.len() - 1 {
                assert(rows.drop_last()[j] == rows[j]);
            }
        }
        if p > 0 {
            assert(rows.drop_last()[p - 1] == rows[p - 1]);
        }
    }
}

/// A position with the two properties of `place` is `place`.
pub proof fn lemma_place_found(rows: Seq<EntryView>, row: EntryView, p: int)
    requires
        0 <= p <= rows.len(),
        forall|j: int| p <= j < rows.len() ==> precedes(row, #[trigger] rows[j]),
        p > 0 ==> !precedes(row, rows[p - 1]),
    ensures
        place(rows, row) == p,
{
    lemma_place(rows, row);
    let q = place(rows, row);
    if q < p {
        assert(precedes(row, rows[p - 1]));
    }
    if p < q {
        assert(precedes(row, rows[q - 1]));
    }
}

/// Putting a row in its place keeps the rank order.
pub proof fn lemma_insert_keeps_order(rows: Seq<EntryView>, row: EntryView)
    requires
        in_rank_order(rows),
    ensures
        in_rank_order(rows.insert(place(rows, row), row)),
{
    lemma_place(rows, row);
    let p = place(rows, row);
    let out = rows.insert(p, row);
    assert forall|i: int, j: int| 0 <= i < j < out.len() implies !precedes(out[j], out[i]) by {
        if j < p {
            assert(out[i] == rows[i] && out[j] == rows[j]);
        } else if j == p {
            assert(out[i] == rows[i] && out[j] == row);
            if p > 0 && i < p - 1 {
                assert(!precedes(rows[p - 1], rows[i]));
            }
        } else if i < p {
            assert(out[i] == rows[i] && out[j] == rows[j - 1]);
        } else if i == p {
            assert(out[i] == row && out[j] == rows[j - 1]);
            assert(precedes(row, rows[j - 1]));
        } else {
            assert(out[i] == rows[i - 1] && out[j] == rows[j - 1]);
        }
    }
}

/// `ranked` gives rank order.
pub proof fn lemma_ranked_in_order(rows: Seq<EntryView>)
    ensures
        in_rank_order(ranked(rows)),
        ranked(rows).len() == rows.len(),
    decreases rows.len(),
{
    if rows.len() > 0 {
        lemma_ranked_in_order(rows.drop_last());
        lemma_place(ranked(rows.drop_last()), rows.last());
        lemma_insert_keeps_order(ranked(rows.drop_last()), rows.last());
    }
}

/// Every row of `ranked(rows)` is a row of `rows`.
pub proof fn lemma_ranked_rows(rows: Seq<EntryView>, i: int)
    requires
        0 <= i < ranked(rows).len(),
    ensures
        rows.contains(ranked(rows)[i]),
    decreases rows.len(),
{
    if rows.len() > 0 {
        let before = ranked(rows.drop_last());
        lemma_place(before, rows.last());
        let p = place(before, rows.last());
        if i == p {
            assert(rows[rows.len() - 1] == rows.last());
        } else {
            let k = if i < p {
                i
            } else {
                i - 1
            };
            assert(ranked(rows)[i] == before[k]);
            lemma_ranked_rows(rows.drop_last(), k);
            let at = choose|at: int|
                0 <= at < rows.drop_last().len() && rows.drop_last()[at] == before[k];
            assert(rows[at] == before[k]);
        }
    }
}

/// Only the first `count` ranked rows decide the first `count` after one
/// more row is put in its place.
pub proof fn lemma_head_insert(rows: Seq<EntryView>, row: EntryView, count: nat)
    requires
        in_rank_order(rows),
    ensures
        head(rows.insert(place(rows, row), row), count) == head(
            head(rows, count).insert(place(head(rows, count), row), row),
            count,
        ),
{
    if count < rows.len() {
        lemma_place(rows, row);
        let p = place(rows, row);
        let top = rows.take(count as int);
        if p < count {
            assert forall|j: int| p <= j < top.len() implies precedes(row, #[trigger] top[j]) by {
                assert(top[j] == rows[j]);
            }
            if p > 0 {
                assert(top[p - 1] == rows[p - 1]);
            }
            lemma_place_found(top, row, p);
            assert(rows.insert(p, row).take(count as int) =~= top.insert(p, row).take(
                count as int,
            ));
        } else {
            if count > 0 {
                if p > count {
                    assert(!precedes(rows[p - 1], rows[count - 1]));
                }
                assert(!precedes(row, rows[count - 1]));
                assert(top[count - 1] == rows[count - 1]);
            }
            lemma_place_found(top, row, count as int);
            assert(rows.insert(p, row).take(count as int) =~= top);
            assert(top.insert(count as int, row).take(count as int) =~= top);
        }
    }
}

/// What a lookup answers: only rows of the table whose name or path
/// contains the filter; applications before all other rows; within each of
/// the two groups the most recently accessed first; and no more rows than
/// the limit.
pub proof fn lemma_selected(rows: Seq<EntryView>, filter: Seq<char>, limit: nat)
    ensures
        selected(rows, filter, limit).len() <= limit,
        selected(rows, filter, limit).len() <= rows.len(),
        forall|i: int|
            0 <= i < selected(rows, filter, limit).len() ==> {
                let row = #[trigger] selected(rows, filter, limit)[i];
                rows.contains(row) && (contains_text(row.name, filter) || contains_text(
                    row.path,
                    filter,
                ))
            },
        forall|i: int, j: int|
            0 <= i < j < selected(rows, filter, limit).len() ==> {
                let first = #[trigger] selected(rows, filter, limit)[i];
                let second = #[trigger] selected(rows, filter, limit)[j];
                (second.kind == EntryKind::Application ==> first.kind == EntryKind::Application)
                    && ((first.kind == EntryKind::Application) == (second.kind
                    == EntryKind::Application) ==> first.atime >= second.atime)
            },
{
    let found = rows.filter(matching(filter));
    let answer = selected(rows, filter, limit);
    lemma_ranked_in_order(found);
    rows.lemma_filter_len(matching(filter));
    assert forall|i: int| 0 <= i < answer.len() implies {
        let row = #[trigger] answer[i];
        rows.contains(row) && (contains_text(row.name, filter) || contains_text(row.path, filter))
    } by {
        assert(answer[i] == ranked(found)[i]);
        lemma_ranked_rows(found, i);
        let at = choose|at: int| 0 <= at < found.len() && found[at] == answer[i];
        lemma_filter_member(rows, matching(filter), at);
    }
    assert forall|i: int, j: int| 0 <= i < j < answer.len() implies {
        let first = #[trigger] answer[i];
        let second = #[trigger] answer[j];
        (second.kind == EntryKind::Application ==> first.kind == EntryKind::Application) && ((
        first.kind == EntryKind::Application) == (second.kind == EntryKind::Application)
            ==> first.atime >= second.atime)
    } by {
        assert(answer[i] == ranked(found)[i] && answer[j] == ranked(found)[j]);
        assert(!precedes(ranked(found)[j], ranked(found)[i]));
    }
}

/// The start value of the path hash.
const HASH_SEED: u64 = 14695981039346656037;

/// The path hash after one more byte.
spec fn mixed(hash: u64, byte: u8) -> u64 {
    ((hash * 31 + byte) % 0x1_0000_0000_0000_0000) as u64
}

/// The hash of the bytes `bytes`.
spec fn hash_of(bytes: Seq<u8>) -> u64
    decreases bytes.len(),
{
    if bytes.len() == 0 {
        HASH_SEED
    } else {
        mixed(hash_of(bytes.drop_last()), bytes.last())
    }
}

/// The key under which the table finds the rows with path `path`.
spec fn key_of(path: Seq<char>) -> u64 {
    hash_of(vstd::utf8::encode_utf8(path))
}

/// `position_of` names the first row with the path, if there is one.
pub proof fn lemma_position(rows: Seq<EntryView>, path: Seq<char>)
    ensures
        0 <= position_of(rows, path) <= rows.len(),
        position_of(rows, path) < rows.len() ==> rows[position_of(rows, path)].path == path,
        forall|j: int| 0 <= j < position_of(rows, path) ==> (#[trigger] rows[j]).path != path,
    decreases rows.len(),
{
    if rows.len() > 0 && rows.first().path != path {
        lemma_position(rows.drop_first(), path);
        let p = position_of(rows.drop_first(), path);
        if p < rows.drop_first().len() {
            assert(rows.drop_first()[p] == rows[p + 1]);
        }
        assert forall|j: int| 0 <= j < p + 1 implies (#[trigger] rows[j]).path != path by {
            if j > 0 {
                assert(rows.drop_first()[j - 1] == rows[j]);
            }
        }
    }
}

/// One write into rows with unique paths: the paths stay unique, the
/// written row is a row, and every row with another path stays a row.
pub proof fn lemma_upserted(rows: Seq<EntryView>, row: EntryView)
    requires
        unique_paths(rows),
    ensures
        unique_paths(upserted(rows, row)),
        upserted(rows, row).contains(row),
        forall|i: int|
            0 <= i < rows.len() && (#[trigger] rows[i]).path != row.path ==> upserted(
                rows,
                row,
            ).contains(rows[i]),
        forall|i: int|
            0 <= i < upserted(rows, row).len() ==> (#[trigger] upserted(rows, row)[i]) == row
                || rows.contains(upserted(rows, row)[i]),
{
    lemma_position(rows, row.path);
    let at = position_of(rows, row.path);
    let after = upserted(rows, row);
    if at < rows.len() {
        assert(after[at] == row);
        assert forall|i: int, j: int| 0 <= i < j < after.len() implies after[i].path
            != after[j].path by {
            assert(after[i].path == rows[i].path && after[j].path == rows[j].path);
        }
        assert forall|i: int| 0 <= i < rows.len() && (#[trigger] rows[i]).path
            != row.path implies after.contains(rows[i]) by {
            assert(after[i] == rows[i]);
        }
        assert forall|i: int| 0 <= i < after.len() implies (#[trigger] after[i]) == row
            || rows.contains(after[i]) by {
            if i != at {
                assert(after[i] == rows[i]);
            }
        }
    } else {
        assert(after[rows.len() as int] == row);
        assert forall|i: int, j: int| 0 <= i < j < after.len() implies after[i].path
            != after[j].path by {
            assert(after[i] == rows[i]);
            if j < rows.len() {
                assert(after[j] == rows[j]);
            }
        }
        assert forall|i: int| 0 <= i < rows.len() && (#[trigger] rows[i]).path
            != row.path implies after.contains(rows[i]) by {
            assert(after[i] == rows[i]);
        }
        assert forall|i: int| 0 <= i < after.len() implies (#[trigger] after[i]) == row
            || rows.contains(after[i]) by {
            if i < rows.len() {
                assert(after[i] == rows[i]);
            }
        }
    }
}

/// Whether no entry of `batch` has the path `path`.
pub open spec fn absent(batch: Seq<EntryView>, path: Seq<char>) -> bool {
    forall|j: int| 0 <= j < batch.len() ==> (#[trigger] batch[j]).path != path
}

/// Whether entry `k` of `batch` is the last one with its path.
pub open spec fn last_of_its_path(batch: Seq<EntryView>, k: int) -> bool {
    forall|j: int| k < j < batch.len() ==> (#[trigger] batch[j]).path != batch[k].path
}

/// A batch written into rows with unique paths leaves the paths unique:
/// each path has one row.
pub proof fn lemma_upserted_all_unique(rows: Seq<EntryView>, batch: Seq<EntryView>)
    requires
        unique_paths(rows),
    ensures
        unique_paths(upserted_all(rows, batch)),
    decreases batch.len(),
{
    if batch.len() > 0 {
        lemma_upserted_all_unique(rows, batch.drop_last());
        lemma_upserted(upserted_all(rows, batch.drop_last()), batch.last());
    }
}

/// After a batch was written, the row of each of its paths is the last
/// entry of the batch with this path.
pub proof fn lemma_upserted_all_writes(rows: Seq<EntryView>, batch: Seq<EntryView>, k: int)
    requires
        unique_paths(rows),
        0 <= k < batch.len(),
        last_of_its_path(batch, k),
    ensures
        upserted_all(rows, batch).contains(batch[k]),
    decreases batch.len(),
{
    let front = batch.drop_last();
    let before = upserted_all(rows, front);
    lemma_upserted_all_unique(rows, front);
    lemma_upserted(before, batch.last());
    if k < batch.len() - 1 {
        assert(front[k] == batch[k]);
        assert(last_of_its_path(front, k)) by {
            assert forall|j: int| k < j < front.len() implies (#[trigger] front[j]).path
                != front[k].path by {
                assert(front[j] == batch[j]);
            }
        }
        lemma_upserted_all_writes(rows, front, k);
        let at = choose|at: int| 0 <= at < before.len() && before[at] == batch[k];
        assert(batch[batch.len() - 1].path != batch[k].path);
        assert(before[at].path != batch.last().path);
    }
}

/// After a batch was written, every row whose path the batch does not hold
/// is as it was.
pub proof fn lemma_upserted_all_keeps(rows: Seq<EntryView>, batch: Seq<EntryView>, i: int)
    requires
        unique_paths(rows),
        0 <= i < rows.len(),
        absent(batch, rows[i].path),
    ensures
        upserted_all(rows, batch).contains(rows[i]),
    decreases batch.len(),
{
    if batch.len() > 0 {
        let front = batch.drop_last();
        let before = upserted_all(rows, front);
        lemma_upserted_all_unique(rows, front);
        lemma_upserted(before, batch.last());
        assert(absent(front, rows[i].path)) by {
            assert forall|j: int| 0 <= j < front.len() implies (#[trigger] front[j]).path
                != rows[i].path by {
                assert(front[j] == batch[j]);
            }
        }
        lemma_upserted_all_keeps(rows, front, i);
        let at = choose|at: int| 0 <= at < before.len() && before[at] == rows[i];
        assert(batch[batch.len() - 1].path != rows[i].path);
        assert(before[at].path != batch.last().path);
    } else {
        assert(rows[i] == rows[i]);
    }
}

/// The table of index entries. No two rows share a path. A hash index over
/// the paths makes an upsert cost a lookup, not a pass over the rows.
#[derive(Debug)]
pub struct Table {
    rows: Vec<Entry>,
    index: HashMap<u64, Vec<usize>>,
}

impl View for Table {
    type V = Seq<EntryView>;

    closed spec fn view(&self) -> Seq<EntryView> {
        self.rows.deep_view()
    }
}

/// Whether `index` lists every row of `rows` under the key of its path, and
/// nothing else.
spec fn indexes(index: Map<u64, Vec<usize>>, rows: Seq<EntryView>) -> bool {
    &&& forall|i: int|
        0 <= i < rows.len() ==> index.contains_key(key_of(#[trigger] rows[i].path)) && index[key_of(
            rows[i].path,
        )]@.contains(i as usize)
    &&& forall|key: u64, j: int|
        index.contains_key(key) && 0 <= j < index[key]@.len() ==> (#[trigger] index[key]@[j])
            < rows.len() && key_of(rows[index[key]@[j] as int].path) == key
}

fn hash(path: &str) -> (key: u64)
    ensures
        key == key_of(path@),
{
    let bytes = path.as_bytes();
    let mut key: u64 = HASH_SEED;
    let mut i: usize = 0;
    assert(bytes@.take(0) =~= Seq::empty());
    while i < bytes.len()
        invariant
            i <= bytes.len(),
            key == hash_of(bytes@.take(i as int)),
        decreases bytes.len() - i,
    {
        assert(bytes@.take(i + 1).drop_last() =~= bytes@.take(i as int));
        let wide: u128 = (key as u128 * 31 + bytes[i] as u128) % 0x1_0000_0000_0000_0000u128;
        key = wide as u64;
        i += 1;
    }
    assert(bytes@.take(bytes.len() as int) =~= bytes@);
    key
}

impl Table {
    #[verifier::type_invariant]
    spec fn inv(self) -> bool {
        unique_paths(self.rows.deep_view()) && indexes(self.index@, self.rows.deep_view())
    }

    /// An empty table.
    pub fn new() -> (table: Table)
        ensures
            table@ == Seq::<EntryView>::empty(),
    {
        let rows: Vec<Entry> = Vec::new();
        assert(rows.deep_view() =~= Seq::empty());
        Table { rows, index: HashMap::new() }
    }

    /// The number of rows.
    pub fn len(&self) -> (count: usize)
        ensures
            count == self@.len(),
    {
        self.rows.len()
    }

    /// Removes every row.
    pub fn clear(&mut self)
        ensures
            final(self)@ == Seq::<EntryView>::empty(),
    {
        *self = Table::new();
    }

    /// A copy of the rows, in table order. No two of them share a path.
    pub fn rows(&self) -> (rows: Vec<Entry>)
        ensures
            rows.deep_view() == self@,
            unique_paths(self@),
    {
        proof {
            use_type_invariant(self);
        }
        let mut rows: Vec<Entry> = Vec::new();
        let mut i: usize = 0;
        while i < self.rows.len()
            invariant
                i <= self.rows.len(),
                rows.deep_view() =~= self@.take(i as int),
            decreases self.rows.len() - i,
        {
            let ghost listed = rows.deep_view();
            rows.push(self.rows[i].duplicate());
            assert(rows.deep_view() =~= listed.push(self@[i as int]));
            i += 1;
        }
        assert(self@.take(self@.len() as int) =~= self@);
        rows
    }

    /// Looks for the row with path `path` among the rows that `bucket`
    /// lists.
    fn find(rows: &Vec<Entry>, bucket: &Vec<usize>, path: &str) -> (at: Option<usize>)
        requires
            forall|j: int| 0 <= j < bucket.len() ==> (#[trigger] bucket[j]) < rows.len(),
        ensures
            match at {
                Some(place) => place < rows.len() && rows[place as int]@.path == path@,
                None => forall|j: int|
                    0 <= j < bucket.len() ==> rows[(#[trigger] bucket[j]) as int]@.path != path@,
            },
    {
        let mut j: usize = 0;
        while j < bucket.len()
            invariant
                j <= bucket.len(),
                forall|k: int| 0 <= k < bucket.len() ==> (#[trigger] bucket[k]) < rows.len(),
                forall|k: int| 0 <= k < j ==> rows[(#[trigger] bucket[k]) as int]@.path != path@,
            decreases bucket.len() - j,
        {
            let place = bucket[j];
            if same_text(rows[place].path.as_str(), path) {
                return Some(place);
            }
            j += 1;
        }
        None
    }

    /// Writes `entry`: it takes the place of a row with the same path.
    pub fn upsert(&mut self, entry: Entry)
        ensures
            final(self)@ == upserted(old(self)@, entry@),
    {
        proof {
            use_type_invariant(&*self);
        }
        let mut taken = Table::new();
        core::mem::swap(self, &mut taken);
        let Table { mut rows, mut index } = taken;
        let ghost before = rows.deep_view();
        let ghost listed = index@;
        let key = hash(entry.path.as_str());
        let found = match index.get(&key) {
            Some(bucket) => {
                assert(listed.contains_key(key) && listed[key] == *bucket);
                assert forall|j: int| 0 <= j < bucket.len() implies (#[trigger] bucket[j])
                    < rows.len() by {
                    assert(listed[key]@[j] < before.len());
                }
                Table::find(&rows, bucket, entry.path.as_str())
            },
            None => None,
        };
        proof {
            lemma_position(before, entry@.path);
        }
        match found {
            Some(at) => {
                proof {
                    let first = position_of(before, entry@.path);
                    assert(before[at as int] == rows[at as int]@);
                    if first != at {
                        assert(before[first].path == before[at as int].path);
                    }
                }
                rows.set(at, entry);
                assert(rows.deep_view() =~= before.update(at as int, entry@));
                proof {
                    let after = rows.deep_view();
                    assert forall|i: int| 0 <= i < after.len() implies (#[trigger] after[i]).path
                        == before[i].path by {}
                    assert(unique_paths(after)) by {
                        assert forall|i: int, j: int| 0 <= i < j < after.len() implies after[i].path
                            != after[j].path by {
                            assert(after[i].path == before[i].path);
                            assert(after[j].path == before[j].path);
                        }
                    }
                    assert(indexes(index@, after)) by {
                        assert forall|i: int| 0 <= i < after.len() implies index@.contains_key(
                            key_of(#[trigger] after[i].path),
                        ) && index@[key_of(after[i].path)]@.contains(i as usize) by {
                            assert(after[i].path == before[i].path);
                        }
                        assert forall|k: u64, j: int|
                            index@.contains_key(k) && 0 <= j < index@[k]@.len() implies (
                        #[trigger] index@[k]@[j]) < after.len() && key_of(
                            after[index@[k]@[j] as int].path,
                        ) == k by {
                            let place = index@[k]@[j] as int;
                            assert(place < before.len());
                            assert(after[place].path == before[place].path);
                        }
                    }
                }
            },
            None => {
                proof {
                    let first = position_of(before, entry@.path);
                    if first < before.len() {
                        assert(listed.contains_key(key));
                        let bucket = listed[key];
                        let j = choose|j: int|
                            0 <= j < bucket@.len() && bucket@[j] == first as usize;
                        assert(before[first] == rows[bucket@[j] as int]@);
                    }
                }
                let place = rows.len();
                let ghost entered = entry@;
                rows.push(entry);
                assert(rows.deep_view() =~= before.push(entered));
                let mut bucket = match index.remove(&key) {
                    Some(bucket) => bucket,
                    None => Vec::new(),
                };
                let ghost earlier = bucket@;
                bucket.push(place);
                index.insert(key, bucket);
                proof {
                    let after = rows.deep_view();
                    assert(index@ == listed.remove(key).insert(key, bucket));
                    assert(listed.contains_key(key) ==> earlier == listed[key]@);
                    assert(!listed.contains_key(key) ==> earlier == Seq::<usize>::empty());
                    assert(unique_paths(after)) by {
                        assert forall|i: int, j: int| 0 <= i < j < after.len() implies after[i].path
                            != after[j].path by {
                            assert(after[i] == before[i]);
                            if j < before.len() {
                                assert(after[j] == before[j]);
                            }
                        }
                    }
                    assert(indexes(index@, after)) by {
                        assert forall|i: int| 0 <= i < after.len() implies index@.contains_key(
                            key_of(#[trigger] after[i].path),
                        ) && index@[key_of(after[i].path)]@.contains(i as usize) by {
                            if i < before.len() {
                                assert(after[i] == before[i]);
                                let k = key_of(before[i].path);
                                if k == key {
                                    let j = choose|j: int|
                                        0 <= j < earlier.len() && earlier[j] == i as usize;
                                    assert(bucket@[j] == i as usize);
                                }
                            } else {
                                assert(bucket@[earlier.len() as int] == i as usize);
                            }
                        }
                        assert forall|k: u64, j: int|
                            index@.contains_key(k) && 0 <= j < index@[k]@.len() implies (
                        #[trigger] index@[k]@[j]) < after.len() && key_of(
                            after[index@[k]@[j] as int].path,
                        ) == k by {
                            if k == key {
                                if j < earlier.len() {
                                    assert(bucket@[j] == listed[key]@[j]);
                                    assert(after[listed[key]@[j] as int] == before[listed[key]@[
                                        j] as int]);
                                }
                            } else {
                                assert(index@[k] == listed[k]);
                                assert(after[listed[k]@[j] as int] == before[listed[k]@[j] as int]);
                            }
                        }
                    }
                }
            },
        }
        *self = Table { rows, index };
    }

    /// Writes each of `entries`, in order.
    pub fn upsert_all(&mut self, entries: Vec<Entry>)
        ensures
            final(self)@ == upserted_all(old(self)@, entries.deep_view()),
    {
        let ghost before = self@;
        let ghost batch = entries.deep_view();
        let ghost given = entries@;
        for entry in it: entries
            invariant
                it.seq() == given,
                batch == Seq::new(given.len(), |i: int| given[i]@),
                self@ == upserted_all(before, batch.take(it.index() as int)),
        {
            assert(batch.take(it.index() + 1).drop_last() =~= batch.take(it.index() as int));
            assert(batch[it.index() as int] == entry@);
            self.upsert(entry);
        }
        assert(batch.take(batch.len() as int) =~= batch);
    }

    fn listed_before(a: &Entry, b: &Entry) -> (before: bool)
        ensures
            before == precedes(a@, b@),
    {
        let group_a: u8 = if a.kind == EntryKind::Application {
            0
        } else {
            1
        };
        let group_b: u8 = if b.kind == EntryKind::Application {
            0
        } else {
            1
        };
        group_a < group_b || (group_a == group_b && a.atime > b.atime)
    }

    /// Looks up `filter`: the rows whose name or path contains it, in rank
    /// order, at most `limit` of them.
    pub fn query(&self, filter: &str, limit: usize) -> (answer: Vec<Entry>)
        ensures
            answer.deep_view() == selected(self@, filter@, limit as nat),
    {
        let mut best: Vec<Entry> = Vec::new();
        let needle = to_chars(filter);
        let ghost rows = self@;
        assert(rows.take(0).filter(matching(filter@)) =~= Seq::empty()) by {
            reveal(Seq::filter);
        }
        let mut i: usize = 0;
        while i < self.rows.len()
            invariant
                i <= self.rows.len(),
                rows == self@,
                needle@ == filter@,
                best.len() <= limit,
                best.deep_view() == head(
                    ranked(rows.take(i as int).filter(matching(filter@))),
                    limit as nat,
                ),
            decreases self.rows.len() - i,
        {
            let row = &self.rows[i];
            let ghost seen = rows.take(i as int).filter(matching(filter@));
            proof {
                assert(rows.take(i + 1) =~= rows.take(i as int).push(rows[i as int]));
                rows.take(i as int).lemma_filter_push(rows[i as int], matching(filter@));
                assert(rows[i as int] == row@);
                assert(seen.push(row@).drop_last() =~= seen);
                lemma_ranked_in_order(seen);
                lemma_head_insert(ranked(seen), row@, limit as nat);
            }
            if occurs(&to_chars(row.name.as_str()), &needle) || occurs(
                &to_chars(row.path.as_str()),
                &needle,
            ) {
                let ghost top = best.deep_view();
                let mut p: usize = best.len();
                while p > 0 && Table::listed_before(row, &best[p - 1])
                    invariant
                        p <= best.len(),
                        top == best.deep_view(),
                        forall|j: int| p <= j < top.len() ==> precedes(row@, #[trigger] top[j]),
                    decreases p,
                {
                    p -= 1;
                }
                proof {
                    if p > 0 {
                        assert(top[p - 1] == best[p - 1]@);
                    }
                    lemma_place_found(top, row@, p as int);
                }
                if p < limit {
                    best.insert(p, row.duplicate());
                    assert(best.deep_view() =~= top.insert(p as int, row@));
                    if best.len() > limit {
                        best.pop();
                        assert(best.deep_view() =~= top.insert(p as int, row@).take(limit as int));
                    }
                } else {
                    assert(top.insert(p as int, row@).take(limit as int) =~= top);
                }
            }
            i += 1;
        }
        assert(rows.take(rows.len() as int) =~= rows);
        best
    }
}

} // verus!
