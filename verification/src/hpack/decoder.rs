//! The HPACK decoder (RFC 7541, sections 3 and 6).

use vstd::prelude::*;
use vstd::slice::slice_subrange;
use crate::sliceable::Sliceable;
use super::DecodeError;
use super::dynamic_table::{DynamicTable, TableView, lemma_evicted, table_size};
use super::field::{FieldKind, FieldView, HeaderField};
use super::integer::{lemma_uint_decoding_used, parse_uint, uint_decoding};
use super::self_owned_slice::SelfOwnedSlice;
use super::static_entries::{static_name, static_value};
use super::static_table::{raw_table, RAW_TABLE_LEN};
use super::string::{lemma_string_decoding_used, parse_string, string_decoding};

verus! {

/// The name and the value of the entry at `idx` in the index space of both
/// tables: 1 to 61 are the static table, 62 is the newest entry of `table`.
pub open spec fn indexed_field(table: TableView, idx: int) -> Option<(Seq<u8>, Option<Seq<u8>>)> {
    if 1 <= idx <= 61 {
        Some((static_name(idx), static_value(idx)))
    } else {
        match table.lookup(idx - 62) {
            Some(field) => Some((field.0, Some(field.1))),
            None => None,
        }
    }
}

/// What decoding a literal field with an index of `prefix_bits` bits gives:
/// the name, the value and the number of octets it took. The name is that of
/// the entry at the index, or a string of its own where the index is 0.
#[verifier::opaque]
pub open spec fn literal_decoding(table: TableView, input: Seq<u8>, prefix_bits: int) -> Result<
    (Seq<u8>, Seq<u8>, int),
    DecodeError,
> {
    match uint_decoding(input, prefix_bits) {
        Err(e) => Err(e),
        Ok((idx, used)) => {
            let name = if idx > 0 {
                match indexed_field(table, idx as int) {
                    Some(field) => Ok((field.0, used)),
                    None => Err(DecodeError::IndexOutOfRange),
                }
            } else {
                match string_decoding(input.skip(used)) {
                    Ok((name, len)) => Ok((name, used + len)),
                    Err(e) => Err(e),
                }
            };
            match name {
                Err(e) => Err(e),
                Ok((name, at)) => match string_decoding(input.skip(at)) {
                    Ok((value, len)) => Ok((name, value, at + len)),
                    Err(e) => Err(e),
                },
            }
        },
    }
}

/// What decoding one header field from the start of `input` gives under the
/// dynamic table `table`: the field, the number of octets it took, and the
/// table afterwards.
#[verifier::opaque]
pub open spec fn field_decoding(table: TableView, input: Seq<u8>) -> Result<
    (FieldView, int, TableView),
    DecodeError,
> {
    if input.len() == 0 {
        Err(DecodeError::Shortage)
    } else if input[0] & 0x80 == 0x80 {
        match uint_decoding(input, 7) {
            Err(e) => Err(e),
            Ok((idx, used)) => if idx == 0 {
                Err(DecodeError::IndexZero)
            } else {
                match indexed_field(table, idx as int) {
                    None => Err(DecodeError::IndexOutOfRange),
                    Some(field) => match field.1 {
                        None => Err(DecodeError::NoValue),
                        Some(value) => Ok(
                            (
                                FieldView {
                                    kind: FieldKind::Indexed,
                                    name: field.0,
                                    value,
                                    raw: Seq::empty(),
                                },
                                used,
                                table,
                            ),
                        ),
                    },
                }
            },
        }
    } else if input[0] & 0xC0 == 0x40 {
        match literal_decoding(table, input, 6) {
            Err(e) => Err(e),
            Ok((name, value, used)) => Ok(
                (
                    FieldView {
                        kind: FieldKind::IncrementalIndexing,
                        name,
                        value,
                        raw: Seq::empty(),
                    },
                    used,
                    table.prepend(name, value),
                ),
            ),
        }
    } else if input[0] & 0xE0 == 0x20 {
        Err(DecodeError::MisplacedSizeUpdate)
    } else if input[0] & 0xF0 == 0x10 {
        match literal_decoding(table, input, 4) {
            Err(e) => Err(e),
            Ok((name, value, used)) => Ok(
                (
                    FieldView { kind: FieldKind::NeverIndexed, name, value, raw: input.take(used) },
                    used,
                    table,
                ),
            ),
        }
    } else {
        match literal_decoding(table, input, 4) {
            Err(e) => Err(e),
            Ok((name, value, used)) => Ok(
                (
                    FieldView {
                        kind: FieldKind::WithoutIndexing,
                        name,
                        value,
                        raw: Seq::empty(),
                    },
                    used,
                    table,
                ),
            ),
        }
    }
}

/// What the dynamic table size updates at the start of `input` give: the
/// number of octets they took, or the error that ended them, and the table
/// as they left it. An update to more than `max` is an error.
pub open spec fn size_updates_decoding(table: TableView, max: int, input: Seq<u8>) -> (
    Result<int, DecodeError>,
    TableView,
)
    decreases input.len(),
{
    if input.len() > 0 && input[0] & 0xE0 == 0x20 {
        match uint_decoding(input, 5) {
            Err(e) => (Err(e), table),
            Ok((cap, used)) => if cap > max {
                (Err(DecodeError::OversizedSizeUpdate), table)
            } else if 0 < used <= input.len() {
                let more = size_updates_decoding(table.resize(cap as int), max, input.skip(used));
                (
                    match more.0 {
                        Ok(n) => Ok(used + n),
                        Err(e) => Err(e),
                    },
                    more.1,
                )
            } else {
                (Err(DecodeError::Shortage), table)
            },
        }
    } else {
        (Ok(0), table)
    }
}

/// What decoding header fields until `input` is used up gives: the fields,
/// or the error that ended the decoding, and the table as the fields that
/// were decoded left it.
pub open spec fn fields_decoding(table: TableView, input: Seq<u8>) -> (
    Result<Seq<FieldView>, DecodeError>,
    TableView,
)
    decreases input.len(),
{
    if input.len() == 0 {
        (Ok(Seq::empty()), table)
    } else {
        match field_decoding(table, input) {
            Err(e) => (Err(e), table),
            Ok((field, used, after)) => if 0 < used <= input.len() {
                let more = fields_decoding(after, input.skip(used));
                (
                    match more.0 {
                        Ok(fields) => Ok(seq![field] + fields),
                        Err(e) => Err(e),
                    },
                    more.1,
                )
            } else {
                (Err(DecodeError::Shortage), table)
            },
        }
    }
}

/// What decoding the header block `input` gives: the fields, or the error
/// that ended the decoding, and the table afterwards. Dynamic table size
/// updates may stand at the start of the block and nowhere else.
pub open spec fn block_decoding(table: TableView, max: int, input: Seq<u8>) -> (
    Result<Seq<FieldView>, DecodeError>,
    TableView,
) {
    let updates = size_updates_decoding(table, max, input);
    match updates.0 {
        Err(e) => (Err(e), updates.1),
        Ok(used) => fields_decoding(updates.1, input.skip(used)),
    }
}

/// A decoded literal took at least one octet, and no more than there are.
pub proof fn lemma_literal_decoding_used(table: TableView, input: Seq<u8>, prefix_bits: int)
    ensures
        match literal_decoding(table, input, prefix_bits) {
            Ok((_, _, used)) => 1 <= used <= input.len(),
            Err(_) => true,
        },
{
    reveal(literal_decoding);
    lemma_uint_decoding_used(input, prefix_bits);
    match uint_decoding(input, prefix_bits) {
        Err(_) => {},
        Ok((idx, used)) => {
            let tail = input.skip(used);
            lemma_string_decoding_used(tail);
            if idx == 0 {
                match string_decoding(tail) {
                    Ok((_, len)) => {
                        lemma_string_decoding_used(input.skip(used + len));
                    },
                    Err(_) => {},
                }
            }
        },
    }
}

/// A decoded field took at least one octet, and no more than there are.
pub proof fn lemma_field_decoding_used(table: TableView, input: Seq<u8>)
    ensures
        match field_decoding(table, input) {
            Ok((_, used, _)) => 1 <= used <= input.len(),
            Err(_) => true,
        },
{
    reveal(field_decoding);
    lemma_uint_decoding_used(input, 7);
    lemma_literal_decoding_used(table, input, 6);
    lemma_literal_decoding_used(table, input, 4);
}

/// The size updates at the start of a block took no more octets than there
/// are.
pub proof fn lemma_size_updates_used(table: TableView, max: int, input: Seq<u8>)
    ensures
        match size_updates_decoding(table, max, input).0 {
            Ok(used) => 0 <= used <= input.len(),
            Err(_) => true,
        },
    decreases input.len(),
{
    if input.len() > 0 && input[0] & 0xE0 == 0x20 {
        match uint_decoding(input, 5) {
            Err(_) => {},
            Ok((cap, used)) => {
                if cap <= max && 0 < used <= input.len() {
                    lemma_size_updates_used(table.resize(cap as int), max, input.skip(used));
                }
            },
        }
    }
}

/// The decoder of one direction of a connection, with its dynamic table.
pub struct Decoder {
    dyntbl: DynamicTable,
    /// The most that the other side may set the limit of the table to.
    max_capacity: usize,
}

impl Decoder {
    /// The dynamic table.
    pub closed spec fn table(&self) -> TableView {
        self.dyntbl@
    }

    /// The most that a dynamic table size update may ask for.
    pub closed spec fn max_capacity(&self) -> int {
        self.max_capacity as int
    }

    pub closed spec fn wf(&self) -> bool {
        self.dyntbl.wf()
    }

    /// A decoder with an empty table of the limit `cap`, which is also the
    /// most that the limit may be set to.
    pub fn with_capacity(cap: usize) -> (r: Decoder)
        ensures
            r.wf(),
            r.table() == (TableView { entries: Seq::empty(), limit: cap as int }),
            r.max_capacity() == cap,
    {
        Decoder { dyntbl: DynamicTable::with_capacity(cap), max_capacity: cap }
    }

    /// The dynamic table, to look into.
    pub fn dynamic_table(&self) -> (r: &DynamicTable)
        requires
            self.wf(),
        ensures
            r.wf(),
            r@ == self.table(),
    {
        &self.dyntbl
    }

    /// Sets the most that a dynamic table size update may ask for: the
    /// header table size that this side has announced.
    pub fn set_max_capacity(&mut self, max: usize)
        requires
            old(self).wf(),
        ensures
            final(self).wf(),
            final(self).table() == old(self).table(),
            final(self).max_capacity() == max,
    {
        self.max_capacity = max;
    }

    /// Decodes one header field from the start of `input` and returns it with
    /// the input that follows it. A literal field with incremental indexing
    /// is put into the dynamic table before it is returned.
    pub fn parse_header_field<'a, 'b>(&'a mut self, input: &'b [u8]) -> (r: Result<
        (&'b [u8], HeaderField),
        DecodeError,
    >)
        requires
            old(self).wf(),
        ensures
            final(self).wf(),
            final(self).max_capacity() == old(self).max_capacity(),
            match field_decoding(old(self).table(), input@) {
                Ok((field, used, after)) => final(self).table() == after && match r {
                    Ok((rest, f)) => f@ == field && rest@ == input@.skip(used),
                    Err(_) => false,
                },
                Err(e) => final(self).table() == old(self).table() && match r {
                    Ok(_) => false,
                    Err(x) => x == e,
                },
            },
    {
        proof {
            reveal(field_decoding);
        }
        if input.len() == 0 {
            return Err(DecodeError::Shortage);
        }
        let first = input[0];
        proof {
            lemma_field_decoding_used(self.table(), input@);
        }
        if first & 0x80 == 0x80 {
            let (rem, idx) = match parse_uint(input, 7) {
                Ok(x) => x,
                Err(e) => {
                    return Err(e);
                },
            };
            if idx == 0 {
                return Err(DecodeError::IndexZero);
            }
            match self.get_from_index_table(idx) {
                None => Err(DecodeError::IndexOutOfRange),
                Some((name, value)) => match value {
                    None => Err(DecodeError::NoValue),
                    Some(value) => Ok((rem, HeaderField::Index((name, value)))),
                },
            }
        } else if first & 0xC0 == 0x40 {
            let (rem, name, value) = match self.parse_literal(input, 6) {
                Ok(x) => x,
                Err(e) => {
                    return Err(e);
                },
            };
            let item = self.dyntbl.prepend(name.as_slice(), value.as_slice());
            match item {
                Some(item) => {
                    let cached_name = SelfOwnedSlice::new_with_cached_str(&item.name);
                    match item.value {
                        Some(v) => Ok(
                            (
                                rem,
                                HeaderField::IncrementalIndex(
                                    (cached_name, SelfOwnedSlice::new_with_cached_str(&v)),
                                ),
                            ),
                        ),
                        None => Ok((rem, HeaderField::IncrementalIndex((name, value)))),
                    }
                },
                None => Ok((rem, HeaderField::IncrementalIndex((name, value)))),
            }
        } else if first & 0xE0 == 0x20 {
            Err(DecodeError::MisplacedSizeUpdate)
        } else if first & 0xF0 == 0x10 {
            let (rem, name, value) = match self.parse_literal(input, 4) {
                Ok(x) => x,
                Err(e) => {
                    return Err(e);
                },
            };
            let raw = slice_subrange(input, 0, input.len() - rem.len());
            let raw = SelfOwnedSlice::new_with_slice(raw);
            Ok((rem, HeaderField::NeverIndex((name, value, raw))))
        } else {
            let (rem, name, value) = match self.parse_literal(input, 4) {
                Ok(x) => x,
                Err(e) => {
                    return Err(e);
                },
            };
            Ok((rem, HeaderField::NotIndex((name, value))))
        }
    }

    /// Decodes a header block: the dynamic table size updates at its start,
    /// each of which sets the limit of the table, and then header fields
    /// until the block is used up. After an error the table is as the
    /// updates and fields before the error left it.
    pub fn parse_header_block(&mut self, input: &[u8]) -> (r: Result<Vec<HeaderField>, DecodeError>)
        requires
            old(self).wf(),
        ensures
            final(self).wf(),
            final(self).max_capacity() == old(self).max_capacity(),
            final(self).table() == block_decoding(
                old(self).table(),
                old(self).max_capacity(),
                input@,
            ).1,
            match block_decoding(old(self).table(), old(self).max_capacity(), input@).0 {
                Ok(fields) => match r {
                    Ok(v) => v@.map_values(|f: HeaderField| f@) == fields,
                    Err(_) => false,
                },
                Err(e) => match r {
                    Ok(_) => false,
                    Err(x) => x == e,
                },
            },
    {
        let ghost max = self.max_capacity();
        let ghost whole = block_decoding(self.table(), max, input@);
        let mut rest = input;
        while rest.len() > 0 && rest[0] & 0xE0 == 0x20
            invariant
                self.wf(),
                self.max_capacity() == max,
                max == old(self).max_capacity(),
                whole == block_decoding(old(self).table(), max, input@),
                whole == block_decoding(self.table(), max, rest@),
            decreases rest.len(),
        {
            proof {
                lemma_uint_decoding_used(rest@, 5);
            }
            let (rem, cap) = match parse_uint(rest, 5) {
                Ok(x) => x,
                Err(e) => {
                    return Err(e);
                },
            };
            if cap > self.max_capacity as u64 {
                return Err(DecodeError::OversizedSizeUpdate);
            }
            proof {
                let used = uint_decoding(rest@, 5).unwrap().1;
                let next = self.table().resize(cap as int);
                lemma_size_updates_used(next, max, rest@.skip(used));
                match size_updates_decoding(next, max, rest@.skip(used)).0 {
                    Ok(more) => {
                        assert(rest@.skip(used).skip(more) =~= rest@.skip(used + more));
                    },
                    Err(_) => {},
                }
            }
            self.dyntbl.update_capacity(cap as usize);
            rest = rem;
        }
        let mut fields: Vec<HeaderField> = Vec::new();
        proof {
            assert(rest@.skip(0) =~= rest@);
            assert(fields@.map_values(|f: HeaderField| f@) =~= Seq::<FieldView>::empty());
            match fields_decoding(self.table(), rest@).0 {
                Ok(more) => {
                    assert(Seq::<FieldView>::empty() + more =~= more);
                },
                Err(_) => {},
            }
        }
        while rest.len() > 0
            invariant
                self.wf(),
                self.max_capacity() == max,
                max == old(self).max_capacity(),
                whole == block_decoding(old(self).table(), max, input@),
                whole.1 == fields_decoding(self.table(), rest@).1,
                whole.0 == match fields_decoding(self.table(), rest@).0 {
                    Ok(more) => Ok(fields@.map_values(|f: HeaderField| f@) + more),
                    Err(e) => Err(e),
                },
            decreases rest.len(),
        {
            proof {
                lemma_field_decoding_used(self.table(), rest@);
            }
            let ghost before = fields@.map_values(|f: HeaderField| f@);
            let ghost table = self.table();
            match self.parse_header_field(rest) {
                Ok((rem, field)) => {
                    proof {
                        let used = field_decoding(table, rest@).unwrap().1;
                        match fields_decoding(self.table(), rest@.skip(used)).0 {
                            Ok(more) => {
                                assert(before.push(field@) + more =~= before + (seq![field@]
                                    + more));
                            },
                            Err(_) => {},
                        }
                        assert(fields@.push(field).map_values(|f: HeaderField| f@) =~= before.push(
                            field@,
                        ));
                    }
                    fields.push(field);
                    rest = rem;
                },
                Err(e) => {
                    return Err(e);
                },
            }
        }
        proof {
            assert(fields@.map_values(|f: HeaderField| f@) + Seq::<FieldView>::empty()
                =~= fields@.map_values(|f: HeaderField| f@));
        }
        Ok(fields)
    }

    /// Decodes a literal field whose index has `prefix_bits` bits: the name
    /// from a table or as a string, then the value.
    fn parse_literal<'a, 'b>(&'a self, input: &'b [u8], prefix_bits: usize) -> (r: Result<
        (&'b [u8], SelfOwnedSlice, SelfOwnedSlice),
        DecodeError,
    >)
        requires
            self.wf(),
            1 <= prefix_bits <= 8,
        ensures
            match literal_decoding(self.table(), input@, prefix_bits as int) {
                Ok((name, value, used)) => match r {
                    Ok((rest, n, v)) => n@ == name && v@ == value && rest@ == input@.skip(used)
                        && used <= input@.len(),
                    Err(_) => false,
                },
                Err(e) => match r {
                    Ok(_) => false,
                    Err(x) => x == e,
                },
            },
    {
        proof {
            reveal(literal_decoding);
            lemma_uint_decoding_used(input@, prefix_bits as int);
            lemma_literal_decoding_used(self.table(), input@, prefix_bits as int);
        }
        let (rem, idx) = match parse_uint(input, prefix_bits) {
            Ok(x) => x,
            Err(e) => {
                return Err(e);
            },
        };
        let ghost used = uint_decoding(input@, prefix_bits as int).unwrap().1;
        let (rem, name) = if idx > 0 {
            match self.get_from_index_table(idx) {
                Some((name, _)) => (rem, name),
                None => {
                    return Err(DecodeError::IndexOutOfRange);
                },
            }
        } else {
            match parse_string(rem) {
                Ok((rest, name)) => {
                    proof {
                        let len = string_decoding(input@.skip(used)).unwrap().1;
                        lemma_string_decoding_used(input@.skip(used));
                        assert(input@.skip(used).skip(len) =~= input@.skip(used + len));
                    }
                    (rest, SelfOwnedSlice::new_with_maybe_owned_slice(name))
                },
                Err(e) => {
                    return Err(e);
                },
            }
        };
        let ghost at = input@.len() - rem@.len();
        assert(rem@ =~= input@.skip(at));
        match parse_string(rem) {
            Ok((rest, value)) => {
                proof {
                    let len = string_decoding(input@.skip(at)).unwrap().1;
                    lemma_string_decoding_used(input@.skip(at));
                    assert(input@.skip(at).skip(len) =~= input@.skip(at + len));
                }
                Ok((rest, name, SelfOwnedSlice::new_with_maybe_owned_slice(value)))
            },
            Err(e) => Err(e),
        }
    }

    /// Decodes a literal field without indexing.
    pub fn parse_without_indexing<'a, 'b>(&'a self, input: &'b [u8]) -> (r: Result<
        (&'b [u8], SelfOwnedSlice, SelfOwnedSlice),
        DecodeError,
    >)
        requires
            self.wf(),
        ensures
            match literal_decoding(self.table(), input@, 4) {
                Ok((name, value, used)) => match r {
                    Ok((rest, n, v)) => n@ == name && v@ == value && rest@ == input@.skip(used),
                    Err(_) => false,
                },
                Err(e) => match r {
                    Ok(_) => false,
                    Err(x) => x == e,
                },
            },
    {
        self.parse_literal(input, 4)
    }

    /// The entry at `idx` in the index space of both tables.
    fn get_from_index_table(&self, idx: u64) -> (r: Option<(SelfOwnedSlice, Option<SelfOwnedSlice>)>)
        requires
            self.wf(),
            idx > 0,
        ensures
            match indexed_field(self.table(), idx as int) {
                Some(field) => match r {
                    Some((name, value)) => name@ == field.0 && match field.1 {
                        Some(v) => value.is_some() && value.unwrap()@ == v,
                        None => value.is_none(),
                    },
                    None => false,
                },
                None => r.is_none(),
            },
    {
        if idx < RAW_TABLE_LEN as u64 {
            Some(self.get_from_static_table(idx as usize))
        } else {
            self.get_from_dynamic_table(idx)
        }
    }

    fn get_from_static_table(&self, idx: usize) -> (r: (SelfOwnedSlice, Option<SelfOwnedSlice>))
        requires
            1 <= idx <= 61,
        ensures
            r.0@ == static_name(idx as int),
            match static_value(idx as int) {
                Some(v) => r.1.is_some() && r.1.unwrap()@ == v,
                None => r.1.is_none(),
            },
    {
        let item = raw_table(idx);
        let name = SelfOwnedSlice::new_with_slice(item.name);
        let value = match item.value {
            Some(x) => Some(SelfOwnedSlice::new_with_slice(x)),
            None => None,
        };
        (name, value)
    }

    fn get_from_dynamic_table(&self, idx: u64) -> (r: Option<
        (SelfOwnedSlice, Option<SelfOwnedSlice>),
    >)
        requires
            self.wf(),
            idx >= 62,
        ensures
            match self.table().lookup(idx - 62) {
                Some(field) => match r {
                    Some((name, value)) => name@ == field.0 && value.is_some() && value.unwrap()@
                        == field.1,
                    None => false,
                },
                None => r.is_none(),
            },
    {
        let at = idx - RAW_TABLE_LEN as u64;
        if at >= self.dyntbl.len() as u64 {
            return None;
        }
        match self.dyntbl.get(at as usize) {
            Some(item) => {
                let name = SelfOwnedSlice::new_with_cached_str(&item.name);
                let value = match item.value {
                    Some(x) => Some(SelfOwnedSlice::new_with_cached_str(&x)),
                    None => None,
                };
                Some((name, value))
            },
            None => None,
        }
    }
}

} // verus!
