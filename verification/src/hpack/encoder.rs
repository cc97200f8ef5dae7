//! The HPACK encoder (RFC 7541, sections 2.4 and 6).

use vstd::prelude::*;
use super::dynamic_table::{
    lemma_newest_equal, lemma_newest_named, lemma_valid_preserved, newest_equal, newest_named,
    DynamicTable, TableView,
};
use super::field::{CacheHint, EncoderField};
use super::integer::{serialize_uint, uint_encoding};
use super::static_table::{static_seek_field, static_seek_name, Seeker};
use super::string::{serialize_string, string_encoding};

verus! {

/// The index, in the index space of both tables, of an entry with the name
/// `name` and the value `value`: one of the static table where there is
/// one, else the newest of the dynamic table.
pub open spec fn seek_field(table: TableView, name: Seq<u8>, value: Seq<u8>) -> Option<int> {
    match static_seek_field(name, value) {
        Some(i) => Some(i),
        None => match newest_equal(table.entries, name, value) {
            Some(i) => Some(i + 62),
            None => None,
        },
    }
}

/// The index, in the index space of both tables, of an entry named `name`:
/// the lowest of the static table where there is one, else the newest of
/// the dynamic table.
pub open spec fn seek_name(table: TableView, name: Seq<u8>) -> Option<int> {
    match static_seek_name(name) {
        Some(i) => Some(i),
        None => match newest_named(table.entries, name) {
            Some(i) => Some(i + 62),
            None => None,
        },
    }
}

/// The width of the index of a literal field and the bits above it, by the
/// hint that asks for the representation.
pub open spec fn literal_prefix(hint: CacheHint) -> (int, u8) {
    match hint {
        CacheHint::PREFER_CACHE => (6, 0x40),
        CacheHint::PREFER_NOT_CACHE => (4, 0x00),
        CacheHint::NEVER_CACHE => (4, 0x10),
    }
}

/// The encoding of a header field under the dynamic table `table`, and the
/// table afterwards.
///
/// A field that a table holds is encoded as the index of its entry. Any
/// other field is encoded as a literal of the kind that the hint asks for,
/// its name as the index of an entry of that name where there is one. A
/// literal with incremental indexing is put into the table.
pub open spec fn field_encoding(table: TableView, hint: CacheHint, name: Seq<u8>, value: Seq<u8>) -> (
    Seq<u8>,
    TableView,
) {
    match seek_field(table, name, value) {
        Some(i) => (uint_encoding(i as u64, 7, 0x80), table),
        None => {
            let (bits, flags) = literal_prefix(hint);
            let bytes = match seek_name(table, name) {
                Some(i) => uint_encoding(i as u64, bits, flags) + string_encoding(value),
                None => uint_encoding(0, bits, flags) + string_encoding(name) + string_encoding(
                    value,
                ),
            };
            (
                bytes,
                if hint == CacheHint::PREFER_CACHE {
                    table.prepend(name, value)
                } else {
                    table
                },
            )
        },
    }
}

/// The encoding of header fields, `(hint, name, value)` each, one after the
/// other, and the table afterwards.
pub open spec fn fields_encoding(table: TableView, fields: Seq<(CacheHint, Seq<u8>, Seq<u8>)>) -> (
    Seq<u8>,
    TableView,
)
    decreases fields.len(),
{
    if fields.len() == 0 {
        (Seq::empty(), table)
    } else {
        let before = fields_encoding(table, fields.drop_last());
        let last = field_encoding(before.1, fields.last().0, fields.last().1, fields.last().2);
        (before.0 + last.0, last.1)
    }
}

/// The encoding of a header block: a dynamic table size update where the
/// limit is to change, then the fields.
pub open spec fn block_encoding(
    table: TableView,
    pending: Option<int>,
    fields: Seq<(CacheHint, Seq<u8>, Seq<u8>)>,
) -> (Seq<u8>, TableView) {
    match pending {
        Some(cap) => {
            let body = fields_encoding(table.resize(cap), fields);
            (uint_encoding(cap as u64, 5, 0x20) + body.0, body.1)
        },
        None => fields_encoding(table, fields),
    }
}

/// The limit that the next header block is to set, after the limit
/// `new_cap` has been asked for: `new_cap`, unless that is the limit that
/// the table is to have anyway.
pub open spec fn pending_after(pending: Option<int>, table: TableView, new_cap: int) -> Option<int> {
    let target = match pending {
        Some(cap) => cap,
        None => table.limit,
    };
    if new_cap == target {
        pending
    } else {
        Some(new_cap)
    }
}

/// What the encoder is to be handed of a list of fields.
pub open spec fn field_specs(fields: Seq<EncoderField>) -> Seq<(CacheHint, Seq<u8>, Seq<u8>)> {
    fields.map_values(|f: EncoderField| (f.spec_hint(), f.spec_name(), f.spec_value()))
}

/// The encoder of one direction of a connection, with its dynamic table.
pub struct Encoder {
    dyntbl: DynamicTable,
    static_seeker: Seeker,
    /// The limit that the table is to get at the start of the next block.
    pending_capacity: Option<usize>,
}

impl Encoder {
    /// The dynamic table.
    pub closed spec fn table(&self) -> TableView {
        self.dyntbl@
    }

    /// The limit that the next header block is to set, where one is to be
    /// set.
    pub closed spec fn pending(&self) -> Option<int> {
        match self.pending_capacity {
            Some(cap) => Some(cap as int),
            None => None,
        }
    }

    pub closed spec fn wf(&self) -> bool {
        self.dyntbl.wf()
    }

    /// An encoder with an empty table of the limit `cap`.
    pub fn with_capacity(cap: usize) -> (r: Encoder)
        ensures
            r.wf(),
            r.table() == (TableView { entries: Seq::empty(), limit: cap as int }),
            r.pending().is_none(),
    {
        Encoder {
            dyntbl: DynamicTable::with_capacity(cap),
            static_seeker: Seeker::new(),
            pending_capacity: None,
        }
    }

    /// The dynamic table, to look into.
    pub fn dynamic_table(&self) -> (r: &DynamicTable)
        requires
            self.wf(),
        ensures
            r.wf(),
            r@ == self.table(),
    {
        &self.dyntbl
    }

    /// Asks for a new limit of the dynamic table. The table gets it at the
    /// start of the next header block, which tells the decoder; of several
    /// limits asked for before that, the last one counts. Nothing changes
    /// where the limit asked for is the one that the table is to have anyway.
    pub fn update_capacity(&mut self, new_cap: usize)
        requires
            old(self).wf(),
        ensures
            final(self).wf(),
            final(self).table() == old(self).table(),
            final(self).pending() == pending_after(
                old(self).pending(),
                old(self).table(),
                new_cap as int,
            ),
    {
        let target = match self.pending_capacity {
            Some(cap) => cap,
            None => self.dyntbl.capacity(),
        };
        if new_cap != target {
            self.pending_capacity = Some(new_cap);
        }
    }

    /// Appends the encoding of a header field to `out`.
    pub fn encode_header_field(&mut self, out: &mut Vec<u8>, hint: CacheHint, name: &[u8], value: &[u8])
        requires
            old(self).wf(),
        ensures
            final(self).wf(),
            final(self).pending() == old(self).pending(),
            final(out)@ == old(out)@ + field_encoding(old(self).table(), hint, name@, value@).0,
            final(self).table() == field_encoding(old(self).table(), hint, name@, value@).1,
    {
        proof {
            self.dyntbl.lemma_wf_valid();
            lemma_valid_preserved(self.table(), name@, value@, 0);
            lemma_newest_equal(self.table().entries, name@, value@);
            lemma_newest_named(self.table().entries, name@);
        }
        let idx = match self.static_seeker.seek_with_name_value(name, value) {
            Some(i) => Some(i as u64),
            None => match self.dyntbl.seek_with_name_value(name, value) {
                Some(i) => Some(i as u64 + 62),
                None => None,
            },
        };
        match idx {
            Some(idx) => {
                serialize_uint(out, idx, 7, 0x80);
                return ;
            },
            None => (),
        }
        let (bits, flags): (usize, u8) = match hint {
            CacheHint::PREFER_CACHE => (6, 0x40),
            CacheHint::PREFER_NOT_CACHE => (4, 0x00),
            CacheHint::NEVER_CACHE => (4, 0x10),
        };
        let idx = match self.static_seeker.seek_with_name(name) {
            Some(i) => Some(i as u64),
            None => match self.dyntbl.seek_with_name(name) {
                Some(i) => Some(i as u64 + 62),
                None => None,
            },
        };
        let ghost start = out@;
        match idx {
            Some(idx) => {
                serialize_uint(out, idx, bits, flags);
                serialize_string(out, value);
                assert(out@ =~= start + (uint_encoding(idx, bits as int, flags) + string_encoding(
                    value@,
                )));
            },
            None => {
                serialize_uint(out, 0, bits, flags);
                serialize_string(out, name);
                serialize_string(out, value);
                assert(out@ =~= start + (uint_encoding(0, bits as int, flags) + string_encoding(
                    name@,
                ) + string_encoding(value@)));
            },
        }
        match hint {
            CacheHint::PREFER_CACHE => {
                let _ = self.dyntbl.prepend(name, value);
            },
            _ => {},
        }
    }

    /// Appends the encoding of a header block to `out`: a dynamic table size
    /// update where a new limit has been asked for, then the fields.
    pub fn encode_header_block(&mut self, out: &mut Vec<u8>, fields: &Vec<EncoderField>)
        requires
            old(self).wf(),
        ensures
            final(self).wf(),
            final(self).pending().is_none(),
            final(out)@ == old(out)@ + block_encoding(
                old(self).table(),
                old(self).pending(),
                field_specs(fields@),
            ).0,
            final(self).table() == block_encoding(
                old(self).table(),
                old(self).pending(),
                field_specs(fields@),
            ).1,
    {
        let ghost start = out@;
        match self.pending_capacity {
            Some(cap) => {
                serialize_uint(out, cap as u64, 5, 0x20);
                self.dyntbl.update_capacity(cap);
                self.pending_capacity = None;
            },
            None => {},
        }
        let ghost head = out@;
        let ghost table = self.table();
        let ghost specs = field_specs(fields@);
        let mut i: usize = 0;
        proof {
            assert(specs.take(0) =~= Seq::empty());
            assert(head + fields_encoding(table, specs.take(0)).0 =~= head);
        }
        while i < fields.len()
            invariant
                self.wf(),
                self.pending().is_none(),
                i <= fields.len(),
                specs == field_specs(fields@),
                out@ == head + fields_encoding(table, specs.take(i as int)).0,
                self.table() == fields_encoding(table, specs.take(i as int)).1,
            decreases fields.len() - i,
        {
            let field = &fields[i];
            proof {
                assert(specs.take(i + 1).drop_last() =~= specs.take(i as int));
                assert(specs.take(i + 1).last() == (
                    field.spec_hint(),
                    field.spec_name(),
                    field.spec_value(),
                ));
            }
            let ghost before = out@;
            self.encode_header_field(out, field.hint(), field.name(), field.value());
            proof {
                let step = field_encoding(
                    fields_encoding(table, specs.take(i as int)).1,
                    field.spec_hint(),
                    field.spec_name(),
                    field.spec_value(),
                );
                assert(out@ =~= head + (fields_encoding(table, specs.take(i as int)).0 + step.0));
            }
            i += 1;
        }
        proof {
            assert(specs.take(fields.len() as int) =~= specs);
            match old(self).pending() {
                Some(cap) => {
                    assert(out@ =~= start + (uint_encoding(cap as u64, 5, 0x20) + fields_encoding(
                        table,
                        specs,
                    ).0));
                },
                None => {},
            }
        }
    }
}

} // verus!
