//! The dynamic table: header fields kept in the order they came, the oldest
//! leaving first when the byte limit is reached (RFC 7541, sections 2.3.2 and 4).

use vstd::prelude::*;
use std::collections::VecDeque;
use std::sync::Arc;
use vstd::slice::slice_subrange;
use crate::sliceable::{bytes_eq, Sliceable};

verus! {

/// The size that an entry counts for: the lengths of its name and its value
/// and 32 octets on top.
pub open spec fn entry_size(name: Seq<u8>, value: Seq<u8>) -> int {
    (name.len() + value.len() + 32) as int
}

/// The sum of the sizes of `entries`.
pub open spec fn table_size(entries: Seq<(Seq<u8>, Seq<u8>)>) -> int
    decreases entries.len(),
{
    if entries.len() == 0 {
        0
    } else {
        table_size(entries.drop_last()) + entry_size(entries.last().0, entries.last().1)
    }
}

/// What is left of `entries`, oldest first, once the oldest have gone until
/// the rest is no larger than `limit`.
pub open spec fn evicted(entries: Seq<(Seq<u8>, Seq<u8>)>, limit: int) -> Seq<(Seq<u8>, Seq<u8>)>
    decreases entries.len(),
{
    if entries.len() == 0 || table_size(entries) <= limit {
        entries
    } else {
        evicted(entries.skip(1), limit)
    }
}

/// The index, counted from the newest entry, of the newest entry of
/// `entries` named `name`.
pub open spec fn newest_named(entries: Seq<(Seq<u8>, Seq<u8>)>, name: Seq<u8>) -> Option<int>
    decreases entries.len(),
{
    if entries.len() == 0 {
        None
    } else if entries.last().0 == name {
        Some(0)
    } else {
        match newest_named(entries.drop_last(), name) {
            Some(i) => Some(i + 1),
            None => None,
        }
    }
}

/// The index, counted from the newest entry, of the newest entry of
/// `entries` with the name `name` and the value `value`.
pub open spec fn newest_equal(entries: Seq<(Seq<u8>, Seq<u8>)>, name: Seq<u8>, value: Seq<u8>) -> Option<int>
    decreases entries.len(),
{
    if entries.len() == 0 {
        None
    } else if entries.last() == (name, value) {
        Some(0)
    } else {
        match newest_equal(entries.drop_last(), name, value) {
            Some(i) => Some(i + 1),
            None => None,
        }
    }
}

/// What a dynamic table holds: its entries in the order they came, oldest
/// first, and its limit in octets.
pub struct TableView {
    pub entries: Seq<(Seq<u8>, Seq<u8>)>,
    pub limit: int,
}

impl TableView {
    /// The entry at `index`, where 0 is the newest entry.
    pub open spec fn lookup(self, index: int) -> Option<(Seq<u8>, Seq<u8>)> {
        if 0 <= index < self.entries.len() {
            Some(self.entries[self.entries.len() - 1 - index])
        } else {
            None
        }
    }

    /// The table after `(name, value)` came in: the longest run of entries up
    /// to the new one that is within the limit. It is empty where the new
    /// entry alone is over the limit.
    pub open spec fn prepend(self, name: Seq<u8>, value: Seq<u8>) -> TableView {
        TableView { entries: evicted(self.entries.push((name, value)), self.limit), limit: self.limit }
    }

    /// The table after its limit was set to `limit`.
    pub open spec fn resize(self, limit: int) -> TableView {
        TableView { entries: evicted(self.entries, limit), limit }
    }

    /// The table is within its limit, and the limit is one that a machine
    /// can count to.
    pub open spec fn valid(self) -> bool {
        0 <= self.limit <= usize::MAX && table_size(self.entries) <= self.limit
    }
}

/// A valid table stays valid when an entry comes in or the limit is set.
pub proof fn lemma_valid_preserved(table: TableView, name: Seq<u8>, value: Seq<u8>, limit: int)
    requires
        table.valid(),
    ensures
        table.prepend(name, value).valid(),
        0 <= limit <= usize::MAX ==> table.resize(limit).valid(),
        table.entries.len() * 32 <= usize::MAX,
{
    lemma_evicted(table.entries.push((name, value)), table.limit);
    if 0 <= limit {
        lemma_evicted(table.entries, limit);
    }
    lemma_table_size_nonnegative(table.entries);
}

pub proof fn lemma_table_size_nonnegative(entries: Seq<(Seq<u8>, Seq<u8>)>)
    ensures
        table_size(entries) >= 32 * entries.len(),
    decreases entries.len(),
{
    if entries.len() > 0 {
        lemma_table_size_nonnegative(entries.drop_last());
    }
}

pub proof fn lemma_table_size_push(entries: Seq<(Seq<u8>, Seq<u8>)>, e: (Seq<u8>, Seq<u8>))
    ensures
        table_size(entries.push(e)) == table_size(entries) + entry_size(e.0, e.1),
{
    assert(entries.push(e).drop_last() =~= entries);
}

/// The size of a table is that of its oldest entry and of the rest.
pub proof fn lemma_table_size_front(entries: Seq<(Seq<u8>, Seq<u8>)>)
    requires
        entries.len() > 0,
    ensures
        table_size(entries) == entry_size(entries[0].0, entries[0].1) + table_size(entries.skip(1)),
    decreases entries.len(),
{
    if entries.len() == 1 {
        assert(entries.drop_last() =~= entries.skip(1));
    } else {
        lemma_table_size_front(entries.drop_last());
        assert(entries.drop_last().skip(1) =~= entries.skip(1).drop_last());
    }
}

/// Eviction leaves a table within its limit, made of the newest entries.
pub proof fn lemma_evicted(entries: Seq<(Seq<u8>, Seq<u8>)>, limit: int)
    requires
        0 <= limit,
    ensures
        table_size(evicted(entries, limit)) <= limit,
        evicted(entries, limit).len() <= entries.len(),
        evicted(entries, limit) == entries.skip(entries.len() - evicted(entries, limit).len()),
        evicted(entries, limit).len() < entries.len() ==> table_size(
            entries.skip(entries.len() - evicted(entries, limit).len() - 1),
        ) > limit,
    decreases entries.len(),
{
    if entries.len() == 0 || table_size(entries) <= limit {
        assert(entries.skip(0) =~= entries);
    } else {
        lemma_evicted(entries.skip(1), limit);
        let rest = evicted(entries.skip(1), limit);
        let cut = entries.len() - rest.len();
        assert(entries.skip(1).skip(cut - 1) =~= entries.skip(cut));
        if rest.len() < entries.len() - 1 {
            assert(entries.skip(1).skip(cut - 2) =~= entries.skip(cut - 1));
        } else {
            assert(entries.skip(0) =~= entries);
        }
    }
}

/// A new entry makes the oldest leave until it fits; it does not stay where
/// it is larger than the limit by itself.
pub proof fn lemma_evicted_push(entries: Seq<(Seq<u8>, Seq<u8>)>, e: (Seq<u8>, Seq<u8>), limit: int)
    ensures
        evicted(entries.push(e), limit) == if entry_size(e.0, e.1) <= limit {
            evicted(entries, limit - entry_size(e.0, e.1)).push(e)
        } else {
            Seq::empty()
        },
    decreases entries.len(),
{
    let size = entry_size(e.0, e.1);
    let all = entries.push(e);
    lemma_table_size_push(entries, e);
    lemma_table_size_nonnegative(entries);
    if entries.len() == 0 {
        assert(all.skip(1) =~= Seq::empty());
        assert(evicted(all.skip(1), limit) =~= Seq::empty());
    } else if table_size(all) > limit {
        assert(all.skip(1) =~= entries.skip(1).push(e));
        lemma_evicted_push(entries.skip(1), e, limit);
        if size > limit {
        } else {
            assert(table_size(entries) > limit - size);
        }
    }
}

/// A hit of `newest_named` is an entry of that name, and no newer entry has
/// the name.
pub proof fn lemma_newest_named(entries: Seq<(Seq<u8>, Seq<u8>)>, name: Seq<u8>)
    ensures
        match newest_named(entries, name) {
            Some(i) => 0 <= i < entries.len() && entries[entries.len() - 1 - i].0 == name
                && forall|j: int| 0 <= j < i ==> (#[trigger] entries[entries.len() - 1 - j]).0 != name,
            None => forall|j: int| 0 <= j < entries.len() ==> (#[trigger] entries[j]).0 != name,
        },
    decreases entries.len(),
{
    if entries.len() > 0 && entries.last().0 != name {
        let rest = entries.drop_last();
        lemma_newest_named(rest, name);
        match newest_named(rest, name) {
            Some(i) => {
                assert forall|j: int| 0 <= j < i + 1 implies (#[trigger] entries[entries.len() - 1
                    - j]).0 != name by {
                    if j > 0 {
                        assert(entries[entries.len() - 1 - j] == rest[rest.len() - 1 - (j - 1)]);
                    }
                }
            },
            None => {
                assert forall|j: int| 0 <= j < entries.len() implies (#[trigger] entries[j]).0
                    != name by {
                    if j < rest.len() {
                        assert(entries[j] == rest[j]);
                    }
                }
            },
        }
    }
}

/// A hit of `newest_equal` is an entry with that name and value, and no
/// newer entry has both.
pub proof fn lemma_newest_equal(entries: Seq<(Seq<u8>, Seq<u8>)>, name: Seq<u8>, value: Seq<u8>)
    ensures
        match newest_equal(entries, name, value) {
            Some(i) => 0 <= i < entries.len() && entries[entries.len() - 1 - i] == (name, value)
                && forall|j: int| 0 <= j < i ==> #[trigger] entries[entries.len() - 1 - j] != (name, value),
            None => forall|j: int| 0 <= j < entries.len() ==> #[trigger] entries[j] != (name, value),
        },
    decreases entries.len(),
{
    if entries.len() > 0 && entries.last() != (name, value) {
        let rest = entries.drop_last();
        lemma_newest_equal(rest, name, value);
        match newest_equal(rest, name, value) {
            Some(i) => {
                assert forall|j: int| 0 <= j < i + 1 implies #[trigger] entries[entries.len() - 1
                    - j] != (name, value) by {
                    if j > 0 {
                        assert(entries[entries.len() - 1 - j] == rest[rest.len() - 1 - (j - 1)]);
                    }
                }
            },
            None => {
                assert forall|j: int| 0 <= j < entries.len() implies #[trigger] entries[j] != (
                    name,
                    value,
                ) by {
                    if j < rest.len() {
                        assert(entries[j] == rest[j]);
                    }
                }
            },
        }
    }
}

/// The table that a run of insertions leaves behind, under the limit
/// `limit` and starting from the empty table.
pub open spec fn after_inserts(inserts: Seq<(Seq<u8>, Seq<u8>)>, limit: int) -> Seq<(Seq<u8>, Seq<u8>)>
    decreases inserts.len(),
{
    if inserts.len() == 0 {
        Seq::empty()
    } else {
        evicted(after_inserts(inserts.drop_last(), limit).push(inserts.last()), limit)
    }
}

/// After any run of insertions under one limit the table is within the
/// limit, and it holds the last of the inserted fields, in their order and
/// without a gap.
pub proof fn lemma_after_inserts(inserts: Seq<(Seq<u8>, Seq<u8>)>, limit: int)
    requires
        0 <= limit,
    ensures
        table_size(after_inserts(inserts, limit)) <= limit,
        after_inserts(inserts, limit).len() <= inserts.len(),
        after_inserts(inserts, limit) == inserts.skip(
            inserts.len() - after_inserts(inserts, limit).len(),
        ),
    decreases inserts.len(),
{
    if inserts.len() == 0 {
        assert(inserts.skip(0) =~= inserts);
    } else {
        let before = after_inserts(inserts.drop_last(), limit);
        lemma_after_inserts(inserts.drop_last(), limit);
        let grown = before.push(inserts.last());
        lemma_evicted(grown, limit);
        let kept = evicted(grown, limit);
        let start = inserts.len() - 1 - before.len();
        assert(grown =~= inserts.skip(start));
        assert(grown.skip(grown.len() - kept.len()) =~= inserts.skip(inserts.len() - kept.len()));
    }
}

/// A byte string kept in a dynamic table: a part of a block of bytes that
/// stays alive as long as anything refers to it, also after its entry has
/// left the table.
#[derive(Debug)]
pub struct CachedStr {
    block: Arc<Vec<u8>>,
    start: usize,
    len: usize,
}

impl View for CachedStr {
    type V = Seq<u8>;

    closed spec fn view(&self) -> Seq<u8> {
        self.block@.subrange(self.start as int, self.start + self.len)
    }
}

impl CachedStr {
    #[verifier::type_invariant]
    spec fn inv(self) -> bool {
        self.start + self.len <= self.block@.len()
    }

    fn new(block: Arc<Vec<u8>>, start: usize, len: usize) -> (r: CachedStr)
        requires
            start + len <= block@.len(),
        ensures
            r@ == block@.subrange(start as int, start + len),
    {
        CachedStr { block, start, len }
    }

}

impl Clone for CachedStr {
    /// A handle on the same bytes.
    fn clone(&self) -> (r: CachedStr)
        ensures
            r@ == self@,
    {
        proof {
            use_type_invariant(self);
        }
        CachedStr { block: self.block.clone(), start: self.start, len: self.len }
    }
}

impl Sliceable for CachedStr {
    open spec fn bytes(&self) -> Seq<u8> {
        self@
    }

    fn as_slice(&self) -> (r: &[u8]) {
        proof {
            use_type_invariant(self);
        }
        let whole: &Vec<u8> = &self.block;
        let n = whole.len();
        slice_subrange(whole.as_slice(), self.start, self.start + self.len)
    }
}

/// An entry of a dynamic table, as handed out.
#[derive(Debug)]
pub struct Item {
    pub name: CachedStr,
    pub value: Option<CachedStr>,
    /// The index of the entry when it was handed out; 0 is the newest entry.
    pub index: usize,
}

/// The number by which an entry is known for as long as it stays.
pub type SeqId = u64;

/// The sequence id that comes `steps` after `id`. The ids go round after the
/// greatest.
pub open spec fn id_after(id: SeqId, steps: int) -> SeqId {
    ((id + steps) % 0x1_0000_0000_0000_0000) as u64
}

/// Hands out sequence ids, each one more than the one before.
#[derive(Debug)]
pub struct SeqIdGen {
    last: SeqId,
}

impl SeqIdGen {
    pub fn new() -> (r: SeqIdGen)
        ensures
            r.upcoming() == 0,
    {
        SeqIdGen { last: 0 }
    }

    /// The id that `next` returns next.
    pub closed spec fn upcoming(&self) -> SeqId {
        self.last
    }

    pub fn next(&mut self) -> (r: SeqId)
        ensures
            r == old(self).upcoming(),
            final(self).upcoming() == id_after(r, 1),
    {
        let res = self.last;
        self.last = self.last.wrapping_add(1);
        res
    }
}

/// Whether room could be made for an entry.
#[derive(Debug, Clone, Copy, PartialEq, Eq, Structural)]
pub enum MakeRoomResult {
    NoRoom,
    Enough,
}

/// An entry as the table keeps it: its name followed by its value in one
/// block, and its sequence id.
struct Entry {
    seq_id: SeqId,
    block: Arc<Vec<u8>>,
    name_len: usize,
}

impl Entry {
    spec fn well_formed(self) -> bool {
        self.name_len <= self.block@.len()
    }

    spec fn field(self) -> (Seq<u8>, Seq<u8>) {
        (self.block@.take(self.name_len as int), self.block@.skip(self.name_len as int))
    }

    fn name(&self) -> (r: CachedStr)
        requires
            self.well_formed(),
        ensures
            r@ == self.field().0,
    {
        CachedStr::new(self.block.clone(), 0, self.name_len)
    }

    fn value(&self) -> (r: CachedStr)
        requires
            self.well_formed(),
        ensures
            r@ == self.field().1,
    {
        let whole: &Vec<u8> = &self.block;
        CachedStr::new(self.block.clone(), self.name_len, whole.len() - self.name_len)
    }

    fn size(&self) -> (r: usize)
        requires
            self.well_formed(),
            self.block@.len() + 32 <= usize::MAX,
        ensures
            r == entry_size(self.field().0, self.field().1),
    {
        let whole: &Vec<u8> = &self.block;
        whole.len() + 32
    }
}

/// The size that an entry of these lengths counts for, where a `usize` can
/// hold it.
pub fn h2_size_from_len(name_len: usize, value_len: usize) -> (r: Option<usize>)
    ensures
        match r {
            Some(size) => size == name_len + value_len + 32,
            None => name_len + value_len + 32 > usize::MAX,
        },
{
    if name_len > usize::MAX - 32 || value_len > usize::MAX - 32 - name_len {
        None
    } else {
        Some(name_len + value_len + 32)
    }
}

/// The size that the entry `(name, value)` counts for, where a `usize` can
/// hold it.
pub fn h2_size(name: &[u8], value: &[u8]) -> (r: Option<usize>)
    ensures
        match r {
            Some(size) => size == entry_size(name@, value@),
            None => entry_size(name@, value@) > usize::MAX,
        },
{
    h2_size_from_len(name.len(), value.len())
}

/// A dynamic table.
pub struct DynamicTable {
    h2_used_size: usize,
    h2_limit_size: usize,
    seq_id_gen: SeqIdGen,
    cache: VecDeque<Entry>,
}

impl View for DynamicTable {
    type V = TableView;

    closed spec fn view(&self) -> TableView {
        TableView {
            entries: self.cache@.map_values(|e: Entry| e.field()),
            limit: self.h2_limit_size as int,
        }
    }
}

impl DynamicTable {
    /// The table keeps its books: the size it has counted is the size of its
    /// entries and within the limit, and the sequence ids of its entries
    /// follow one another up to the next to be handed out.
    pub closed spec fn wf(&self) -> bool {
        &&& self.h2_used_size == table_size(self@.entries)
        &&& self.h2_used_size <= self.h2_limit_size
        &&& forall|i: int| 0 <= i < self.cache@.len() ==> (#[trigger] self.cache@[i]).well_formed()
        &&& forall|i: int|
            0 <= i < self.cache@.len() ==> self.seq_id_gen.upcoming() == id_after(
                (#[trigger] self.cache@[i]).seq_id,
                self.cache@.len() - i,
            )
    }

    /// What a table that keeps its books holds is valid.
    pub proof fn lemma_wf_valid(&self)
        requires
            self.wf(),
        ensures
            self@.valid(),
    {
    }

    /// An empty table with the limit `cap`.
    pub fn with_capacity(cap: usize) -> (r: DynamicTable)
        ensures
            r.wf(),
            r@ == (TableView { entries: Seq::empty(), limit: cap as int }),
    {
        let r = DynamicTable {
            h2_used_size: 0,
            h2_limit_size: cap,
            seq_id_gen: SeqIdGen::new(),
            cache: VecDeque::new(),
        };
        assert(r@.entries =~= Seq::empty());
        r
    }

    /// The entry at `index`, where 0 is the newest; `None` beyond the oldest.
    pub fn get(&self, index: usize) -> (r: Option<Item>)
        requires
            self.wf(),
        ensures
            match self@.lookup(index as int) {
                Some(field) => match r {
                    Some(item) => item.name@ == field.0 && item.index == index && match item.value {
                        Some(v) => v@ == field.1,
                        None => false,
                    },
                    None => false,
                },
                None => r.is_none(),
            },
    {
        if index >= self.cache.len() {
            return None;
        }
        let entry = &self.cache[self.cache.len() - 1 - index];
        Some(Item { name: entry.name(), value: Some(entry.value()), index })
    }

    /// The number of entries.
    pub fn len(&self) -> (r: usize)
        ensures
            r == self@.entries.len(),
    {
        self.cache.len()
    }

    /// The size of the entries together.
    pub fn size(&self) -> (r: usize)
        requires
            self.wf(),
        ensures
            r == table_size(self@.entries),
            r <= self@.limit,
    {
        self.h2_used_size
    }

    /// The limit on the size of the entries together.
    pub fn capacity(&self) -> (r: usize)
        ensures
            r == self@.limit,
    {
        self.h2_limit_size
    }

    /// Lets the oldest entries go until `space` more octets fit, or until no
    /// entry is left. Says whether they fit then.
    fn make_room(&mut self, space: usize) -> (r: MakeRoomResult)
        requires
            old(self).wf(),
        ensures
            final(self).wf(),
            final(self)@.limit == old(self)@.limit,
            final(self)@.entries == evicted(old(self)@.entries, old(self)@.limit - space),
            final(self).seq_id_gen == old(self).seq_id_gen,
            (r == MakeRoomResult::Enough) == (space <= old(self)@.limit),
            r == MakeRoomResult::Enough ==> table_size(final(self)@.entries) + space
                <= final(self)@.limit,
    {
        let ghost goal = self.h2_limit_size - space;
        while self.cache.len() > 0 && (space > self.h2_limit_size || self.h2_used_size
            > self.h2_limit_size - space)
            invariant
                self.wf(),
                self.h2_limit_size == old(self).h2_limit_size,
                self.seq_id_gen == old(self).seq_id_gen,
                goal == self.h2_limit_size - space,
                evicted(self@.entries, goal) == evicted(old(self)@.entries, goal),
            decreases self.cache.len(),
        {
            let ghost before = self.cache@;
            let ghost fields = self@.entries;
            proof {
                lemma_table_size_front(fields);
                lemma_table_size_nonnegative(fields.skip(1));
            }
            let oldest = self.cache.pop_front();
            match oldest {
                Some(entry) => {
                    let size = entry.size();
                    self.h2_used_size -= size;
                },
                None => {},
            }
            proof {
                assert(self.cache@ =~= before.skip(1));
                assert(self@.entries =~= fields.skip(1));
                assert forall|i: int| 0 <= i < self.cache@.len() implies self.seq_id_gen.upcoming()
                    == id_after((#[trigger] self.cache@[i]).seq_id, self.cache@.len() - i) by {
                    assert(self.cache@[i] == before[i + 1]);
                }
            }
        }
        proof {
            lemma_table_size_nonnegative(self@.entries);
        }
        if space <= self.h2_limit_size && self.h2_used_size <= self.h2_limit_size - space {
            MakeRoomResult::Enough
        } else {
            assert(self@.entries =~= Seq::empty());
            MakeRoomResult::NoRoom
        }
    }

    /// Puts a new entry in front of all others, after the oldest entries have
    /// left to make room for it. Returns the new entry. Where the entry
    /// alone is over the limit, all entries leave, the new one does not
    /// stay, and nothing is returned.
    pub fn prepend(&mut self, name: &[u8], value: &[u8]) -> (r: Option<Item>)
        requires
            old(self).wf(),
        ensures
            final(self).wf(),
            final(self)@ == old(self)@.prepend(name@, value@),
            match r {
                Some(item) => entry_size(name@, value@) <= old(self)@.limit && item.name@ == name@
                    && item.index == 0 && match item.value {
                    Some(v) => v@ == value@,
                    None => false,
                },
                None => entry_size(name@, value@) > old(self)@.limit && final(self)@.entries
                    == Seq::<(Seq<u8>, Seq<u8>)>::empty(),
            },
    {
        proof {
            lemma_evicted_push(self@.entries, (name@, value@), self@.limit);
        }
        let size = match h2_size(name, value) {
            Some(size) => size,
            None => {
                // Too large to be counted: larger than any limit.
                let _ = self.make_room(self.h2_limit_size);
                self.clear();
                return None;
            },
        };
        match self.make_room(size) {
            MakeRoomResult::NoRoom => {
                proof {
                    lemma_evicted(old(self)@.entries, 0);
                }
                self.clear();
                None
            },
            MakeRoomResult::Enough => {
                let seq_id = self.seq_id_gen.next();
                let mut block: Vec<u8> = Vec::with_capacity(size - 32);
                block.extend_from_slice(name);
                block.extend_from_slice(value);
                assert(block@ =~= name@ + value@);
                let entry = Entry { seq_id, block: Arc::new(block), name_len: name.len() };
                assert(entry.field().0 =~= name@);
                assert(entry.field().1 =~= value@);
                let item = Item { name: entry.name(), value: Some(entry.value()), index: 0 };
                let ghost before = self.cache@;
                let ghost fields = self@.entries;
                self.cache.push_back(entry);
                self.h2_used_size += size;
                proof {
                    assert(self@.entries =~= fields.push((name@, value@)));
                    lemma_table_size_push(fields, (name@, value@));
                    assert forall|i: int| 0 <= i < self.cache@.len() implies (
                    #[trigger] self.cache@[i]).well_formed() by {
                        if i < before.len() {
                            assert(self.cache@[i] == before[i]);
                        }
                    }
                    assert forall|i: int| 0 <= i < self.cache@.len() implies self.seq_id_gen.upcoming()
                        == id_after((#[trigger] self.cache@[i]).seq_id, self.cache@.len() - i) by {
                        if i < before.len() {
                            assert(self.cache@[i] == before[i]);
                        }
                    }
                }
                Some(item)
            },
        }
    }

    /// Lets all entries go.
    fn clear(&mut self)
        requires
            old(self).h2_used_size <= old(self).h2_limit_size,
        ensures
            final(self).wf(),
            final(self)@ == (TableView { entries: Seq::empty(), limit: old(self)@.limit }),
    {
        self.cache.clear();
        self.h2_used_size = 0;
        assert(self@.entries =~= Seq::empty());
    }

    /// Sets the limit, and lets the oldest entries go until the table is
    /// within it.
    pub fn update_capacity(&mut self, new_cap: usize)
        requires
            old(self).wf(),
        ensures
            final(self).wf(),
            final(self)@ == old(self)@.resize(new_cap as int),
    {
        if new_cap >= self.h2_limit_size {
            self.h2_limit_size = new_cap;
            assert(self@.entries == old(self)@.entries);
        } else {
            // Under the old limit, ask for as much room as the limit goes down by.
            let surplus = self.h2_limit_size - new_cap;
            let _ = self.make_room(surplus);
            self.h2_limit_size = new_cap;
            proof {
                lemma_evicted(old(self)@.entries, new_cap as int);
            }
        }
    }

    /// The index that the entry with the sequence id `seq_id` has now.
    fn seq_id_to_index(&self, seq_id: SeqId) -> (r: Option<usize>)
        requires
            self.wf(),
        ensures
            self.cache@.len() == 0 ==> r.is_none(),
            forall|i: int|
                0 <= i < self.cache@.len() && (#[trigger] self.cache@[i]).seq_id == seq_id ==> r
                    == Some((self.cache@.len() - 1 - i) as usize),
    {
        if self.cache.len() == 0 {
            None
        } else {
            let newest = &self.cache[self.cache.len() - 1];
            Some(newest.seq_id.wrapping_sub(seq_id) as usize)
        }
    }

    /// The index of the newest entry named `name`.
    pub fn seek_with_name(&self, name: &[u8]) -> (r: Option<usize>)
        requires
            self.wf(),
        ensures
            match r {
                Some(i) => newest_named(self@.entries, name@) == Some(i as int),
                None => newest_named(self@.entries, name@).is_none(),
            },
    {
        let mut at = self.cache.len();
        let ghost fields = self@.entries;
        proof {
            assert(fields.take(at as int) =~= fields);
        }
        while at > 0
            invariant
                self.wf(),
                fields == self@.entries,
                at <= self.cache.len(),
                newest_named(fields, name@) == match newest_named(fields.take(at as int), name@) {
                    Some(i) => Some(i + self.cache.len() - at),
                    None => None,
                },
            decreases at,
        {
            at -= 1;
            let entry = &self.cache[at];
            proof {
                assert(fields.take(at + 1).drop_last() =~= fields.take(at as int));
                assert(fields.take(at + 1).last() == entry.field());
            }
            let whole: &Vec<u8> = &entry.block;
            if bytes_eq(slice_subrange(whole.as_slice(), 0, entry.name_len), name) {
                assert(whole@.subrange(0, entry.name_len as int) =~= entry.field().0);
                return self.seq_id_to_index(entry.seq_id);
            }
            assert(whole@.subrange(0, entry.name_len as int) =~= entry.field().0);
        }
        proof {
            assert(fields.take(0) =~= Seq::empty());
        }
        None
    }

    /// The index of the newest entry with the name `name` and the value
    /// `value`.
    pub fn seek_with_name_value(&self, name: &[u8], value: &[u8]) -> (r: Option<usize>)
        requires
            self.wf(),
        ensures
            match r {
                Some(i) => newest_equal(self@.entries, name@, value@) == Some(i as int),
                None => newest_equal(self@.entries, name@, value@).is_none(),
            },
    {
        let mut at = self.cache.len();
        let ghost fields = self@.entries;
        proof {
            assert(fields.take(at as int) =~= fields);
        }
        while at > 0
            invariant
                self.wf(),
                fields == self@.entries,
                at <= self.cache.len(),
                newest_equal(fields, name@, value@) == match newest_equal(
                    fields.take(at as int),
                    name@,
                    value@,
                ) {
                    Some(i) => Some(i + self.cache.len() - at),
                    None => None,
                },
            decreases at,
        {
            at -= 1;
            let entry = &self.cache[at];
            proof {
                assert(fields.take(at + 1).drop_last() =~= fields.take(at as int));
                assert(fields.take(at + 1).last() == entry.field());
            }
            let whole: &Vec<u8> = &entry.block;
            let bytes = whole.as_slice();
            assert(whole@.subrange(0, entry.name_len as int) =~= entry.field().0);
            assert(whole@.subrange(entry.name_len as int, whole@.len() as int) =~= entry.field().1);
            if bytes_eq(slice_subrange(bytes, 0, entry.name_len), name) && bytes_eq(
                slice_subrange(bytes, entry.name_len, bytes.len()),
                value,
            ) {
                return self.seq_id_to_index(entry.seq_id);
            }
        }
        proof {
            assert(fields.take(0) =~= Seq::empty());
        }
        None
    }
}

} // verus!
