//! The static table (RFC 7541, Appendix A): 61 header fields that every
//! endpoint knows, at the indices 1 to 61, and the search in it.

use vstd::prelude::*;
use crate::sliceable::bytes_eq;
use super::static_entries::{
    entry_bytes, key_of, lemma_bare_key_unique, lemma_field_key_unique, lemma_name_key,
    lemma_value_key, static_name, static_value, value_key_of,
};

verus! {

/// The number of entries.
pub const TABLE_LEN: usize = 61;

/// The length of the table when a place is counted for the index 0, which no
/// entry has.
pub const RAW_TABLE_LEN: usize = 62;

/// An entry of the static table.
#[derive(Debug)]
pub struct Item {
    pub name: &'static [u8],
    pub value: Option<&'static [u8]>,
}

/// The entry at `idx`. At the index 0, which no entry has, the name is empty
/// and there is no value.
pub fn raw_table(idx: usize) -> (r: Item)
    requires
        idx < RAW_TABLE_LEN,
    ensures
        r.name@ == static_name(idx as int),
        match r.value {
            Some(v) => static_value(idx as int) == Some(v@),
            None => static_value(idx as int).is_none(),
        },
{
    let (name, value) = entry_bytes(idx);
    Item { name, value }
}

/// The lowest index from `from` on of an entry named `name`.
pub open spec fn first_named(name: Seq<u8>, from: int) -> Option<int>
    decreases 62 - from,
{
    if from < 1 || from > 61 {
        None
    } else if static_name(from) == name {
        Some(from)
    } else {
        first_named(name, from + 1)
    }
}

/// The lowest index from `from` on of an entry with the name `name` and the
/// value `value`.
pub open spec fn first_equal(name: Seq<u8>, value: Seq<u8>, from: int) -> Option<int>
    decreases 62 - from,
{
    if from < 1 || from > 61 {
        None
    } else if static_name(from) == name && static_value(from) == Some(value) {
        Some(from)
    } else {
        first_equal(name, value, from + 1)
    }
}

/// The lowest index from `from` on of an entry named `name` that has no value.
pub open spec fn first_bare(name: Seq<u8>, from: int) -> Option<int>
    decreases 62 - from,
{
    if from < 1 || from > 61 {
        None
    } else if static_name(from) == name && static_value(from).is_none() {
        Some(from)
    } else {
        first_bare(name, from + 1)
    }
}

/// The lowest index of an entry named `name`.
pub open spec fn static_seek_name(name: Seq<u8>) -> Option<int> {
    first_named(name, 1)
}

/// The index of the entry with the name `name` and the value `value`.
pub open spec fn static_seek_field(name: Seq<u8>, value: Seq<u8>) -> Option<int> {
    first_equal(name, value, 1)
}

/// Finds entries of the static table by what they hold.
#[derive(Debug)]
pub struct Seeker {}

impl Seeker {
    pub fn new() -> Seeker {
        Seeker {  }
    }

    /// The lowest index of an entry named `name`.
    pub fn seek_with_name(&self, name: &[u8]) -> (r: Option<usize>)
        ensures
            match r {
                Some(i) => static_seek_name(name@) == Some(i as int),
                None => static_seek_name(name@).is_none(),
            },
    {
        let mut idx: usize = 1;
        while idx <= TABLE_LEN
            invariant
                1 <= idx <= 62,
                first_named(name@, 1) == first_named(name@, idx as int),
            decreases 62 - idx,
        {
            let item = raw_table(idx);
            if bytes_eq(item.name, name) {
                return Some(idx);
            }
            idx += 1;
        }
        None
    }

    /// The index of the entry with the name `name` and the value `value`.
    pub fn seek_with_name_value(&self, name: &[u8], value: &[u8]) -> (r: Option<usize>)
        ensures
            match r {
                Some(i) => static_seek_field(name@, value@) == Some(i as int),
                None => static_seek_field(name@, value@).is_none(),
            },
    {
        let mut idx: usize = 1;
        while idx <= TABLE_LEN
            invariant
                1 <= idx <= 62,
                first_equal(name@, value@, 1) == first_equal(name@, value@, idx as int),
            decreases 62 - idx,
        {
            let item = raw_table(idx);
            let hit = match item.value {
                Some(v) => bytes_eq(item.name, name) && bytes_eq(v, value),
                None => false,
            };
            if hit {
                return Some(idx);
            }
            idx += 1;
        }
        None
    }
}

/// Finds an entry for a header: one that has the name and no value, or else
/// one that has the name and the value.
#[derive(Debug)]
pub struct StaticTableSeeker {}

impl StaticTableSeeker {
    pub fn new() -> StaticTableSeeker {
        StaticTableSeeker {  }
    }

    pub fn seek(&self, header: &[u8], value: &[u8]) -> (r: Option<usize>)
        ensures
            match r {
                Some(i) => Some(i as int) == match first_bare(header@, 1) {
                    Some(j) => Some(j),
                    None => first_equal(header@, value@, 1),
                },
                None => first_bare(header@, 1).is_none() && first_equal(header@, value@, 1).is_none(),
            },
    {
        let res = self.seek_in_no_value_headers(header);
        if res.is_some() {
            return res;
        }
        self.seek_in_full_headers(header, value)
    }

    pub fn seek_in_no_value_headers(&self, header: &[u8]) -> (r: Option<usize>)
        ensures
            match r {
                Some(i) => first_bare(header@, 1) == Some(i as int),
                None => first_bare(header@, 1).is_none(),
            },
    {
        let mut idx: usize = 1;
        while idx <= TABLE_LEN
            invariant
                1 <= idx <= 62,
                first_bare(header@, 1) == first_bare(header@, idx as int),
            decreases 62 - idx,
        {
            let item = raw_table(idx);
            if item.value.is_none() && bytes_eq(item.name, header) {
                return Some(idx);
            }
            idx += 1;
        }
        None
    }

    pub fn seek_in_full_headers(&self, header: &[u8], value: &[u8]) -> (r: Option<usize>)
        ensures
            match r {
                Some(i) => first_equal(header@, value@, 1) == Some(i as int),
                None => first_equal(header@, value@, 1).is_none(),
            },
    {
        Seeker::new().seek_with_name_value(header, value)
    }
}

/// A hit of `first_named` is an entry of that name.
pub proof fn lemma_first_named(name: Seq<u8>, from: int)
    ensures
        match first_named(name, from) {
            Some(i) => 1 <= i <= 61 && from <= i && static_name(i) == name,
            None => true,
        },
    decreases 62 - from,
{
    if 1 <= from <= 61 && static_name(from) != name {
        lemma_first_named(name, from + 1);
    }
}

/// A hit of `first_equal` is an entry with that name and value.
pub proof fn lemma_first_equal(name: Seq<u8>, value: Seq<u8>, from: int)
    ensures
        match first_equal(name, value, from) {
            Some(i) => 1 <= i <= 61 && from <= i && static_name(i) == name && static_value(i)
                == Some(value),
            None => true,
        },
    decreases 62 - from,
{
    if 1 <= from <= 61 && !(static_name(from) == name && static_value(from) == Some(value)) {
        lemma_first_equal(name, value, from + 1);
    }
}

/// No entry has the name of an entry without a value but that entry.
pub proof fn lemma_bare_name_unique(i: int, j: int)
    requires
        1 <= i <= 61,
        1 <= j <= 61,
        i != j,
        static_value(i).is_none(),
    ensures
        static_name(j) != static_name(i),
{
    lemma_name_key(i);
    lemma_name_key(j);
    lemma_bare_key_unique(i, j);
}

/// No two entries have the same name and the same value.
pub proof fn lemma_field_unique(i: int, j: int)
    requires
        1 <= i <= 61,
        1 <= j <= 61,
        i != j,
        static_value(i).is_some(),
    ensures
        !(static_name(j) == static_name(i) && static_value(j) == static_value(i)),
{
    if static_value(j).is_some() {
        lemma_name_key(i);
        lemma_name_key(j);
        lemma_value_key(i);
        lemma_value_key(j);
        lemma_field_key_unique(i, j);
    }
}

proof fn lemma_first_named_hit(name: Seq<u8>, from: int, idx: int)
    requires
        1 <= from <= idx <= 61,
        static_name(idx) == name,
        forall|j: int| from <= j < idx ==> static_name(j) != name,
    ensures
        first_named(name, from) == Some(idx),
    decreases idx - from,
{
    if from < idx {
        lemma_first_named_hit(name, from + 1, idx);
    }
}

proof fn lemma_first_equal_hit(name: Seq<u8>, value: Seq<u8>, from: int, idx: int)
    requires
        1 <= from <= idx <= 61,
        static_name(idx) == name,
        static_value(idx) == Some(value),
        forall|j: int| from <= j < idx ==> !(static_name(j) == name && static_value(j) == Some(value)),
    ensures
        first_equal(name, value, from) == Some(idx),
    decreases idx - from,
{
    if from < idx {
        lemma_first_equal_hit(name, value, from + 1, idx);
    }
}

/// Every entry is found by what it holds: an entry with a value by its name
/// and value, an entry without a value by its name.
pub proof fn lemma_static_table_exhaustive(idx: int)
    requires
        1 <= idx <= 61,
    ensures
        match static_value(idx) {
            Some(v) => static_seek_field(static_name(idx), v) == Some(idx),
            None => static_seek_name(static_name(idx)) == Some(idx),
        },
{
    match static_value(idx) {
        Some(v) => {
            assert forall|j: int| 1 <= j < idx implies !(static_name(j) == static_name(idx)
                && static_value(j) == Some(v)) by {
                lemma_field_unique(idx, j);
            }
            lemma_first_equal_hit(static_name(idx), v, 1, idx);
        },
        None => {
            assert forall|j: int| 1 <= j < idx implies static_name(j) != static_name(idx) by {
                lemma_bare_name_unique(idx, j);
            }
            lemma_first_named_hit(static_name(idx), 1, idx);
        },
    }
}

} // verus!
