//! Encoder and decoder agree: what the encoder writes, the decoder reads back
//! as the fields that went in, and the dynamic tables of both stay the same.

use vstd::prelude::*;
use super::DecodeError;
use super::decoder::{
    block_decoding, field_decoding, fields_decoding, indexed_field, literal_decoding,
    size_updates_decoding,
};
use super::dynamic_table::{
    lemma_newest_equal, lemma_newest_named, lemma_valid_preserved, newest_equal, newest_named,
    TableView,
};
use super::encoder::{
    block_encoding, field_encoding, fields_encoding, literal_prefix, seek_field, seek_name,
};
use super::field::{CacheHint, FieldKind, FieldView};
use super::integer::{lemma_uint_roundtrip, prefix_mask, uint_decoding, uint_encoding};
use super::static_table::{
    lemma_first_equal, lemma_first_named, static_seek_field, static_seek_name,
};
use super::string::{lemma_string_roundtrip, string_decoding, string_encoding};

verus! {

/// The field that the encoding of `(hint, name, value)` decodes to: indexed
/// where a table holds the field, else a literal of the kind that the hint
/// asks for.
pub open spec fn decoded_view(table: TableView, hint: CacheHint, name: Seq<u8>, value: Seq<u8>) -> FieldView {
    match seek_field(table, name, value) {
        Some(_) => FieldView { kind: FieldKind::Indexed, name, value, raw: Seq::empty() },
        None => match hint {
            CacheHint::PREFER_CACHE => FieldView {
                kind: FieldKind::IncrementalIndexing,
                name,
                value,
                raw: Seq::empty(),
            },
            CacheHint::PREFER_NOT_CACHE => FieldView {
                kind: FieldKind::WithoutIndexing,
                name,
                value,
                raw: Seq::empty(),
            },
            CacheHint::NEVER_CACHE => FieldView {
                kind: FieldKind::NeverIndexed,
                name,
                value,
                raw: field_encoding(table, hint, name, value).0,
            },
        },
    }
}

/// The fields that the encodings of `fields` decode to, one after the other.
pub open spec fn decoded_views(table: TableView, fields: Seq<(CacheHint, Seq<u8>, Seq<u8>)>) -> Seq<
    FieldView,
>
    decreases fields.len(),
{
    if fields.len() == 0 {
        Seq::empty()
    } else {
        let first = fields[0];
        seq![decoded_view(table, first.0, first.1, first.2)] + decoded_views(
            field_encoding(table, first.0, first.1, first.2).1,
            fields.skip(1),
        )
    }
}

/// No name and no value is longer than a length on the wire can say.
pub open spec fn encodable(fields: Seq<(CacheHint, Seq<u8>, Seq<u8>)>) -> bool {
    forall|i: int|
        0 <= i < fields.len() ==> (#[trigger] fields[i]).1.len() <= u64::MAX && fields[i].2.len()
            <= u64::MAX
}

/// The first octet of a representation tells its kind.
pub proof fn lemma_first_octet_kind(v: u64, prefix_bits: int, flags: u8)
    requires
        (prefix_bits == 7 && flags == 0x80) || (prefix_bits == 6 && flags == 0x40) || (prefix_bits
            == 5 && flags == 0x20) || (prefix_bits == 4 && flags == 0x10) || (prefix_bits == 4
            && flags == 0x00),
    ensures
        uint_encoding(v, prefix_bits, flags).len() >= 1,
        ({
            let b = uint_encoding(v, prefix_bits, flags)[0];
            &&& (b & 0x80 == 0x80) == (flags == 0x80)
            &&& (b & 0xC0 == 0x40) == (flags == 0x40)
            &&& (b & 0xE0 == 0x20) == (flags == 0x20)
            &&& (b & 0xF0 == 0x10) == (flags == 0x10)
        }),
{
    let mask = prefix_mask(prefix_bits);
    let low: u8 = if v < mask {
        v as u8
    } else {
        mask
    };
    let b = (flags & !mask) | low;
    assert(uint_encoding(v, prefix_bits, flags)[0] == b);
    assert({
        &&& (b & 0x80 == 0x80) == (flags == 0x80)
        &&& (b & 0xC0 == 0x40) == (flags == 0x40)
        &&& (b & 0xE0 == 0x20) == (flags == 0x20)
        &&& (b & 0xF0 == 0x10) == (flags == 0x10)
    }) by (bit_vector)
        requires
            b == (flags & !mask) | low,
            low <= mask,
            (mask == 0x7f && flags == 0x80) || (mask == 0x3f && flags == 0x40) || (mask == 0x1f
                && flags == 0x20) || (mask == 0x0f && flags == 0x10) || (mask == 0x0f && flags
                == 0x00),
    ;
}

/// An index that `seek_field` gives names an entry with that name and
/// value, and fits 64 bits.
pub proof fn lemma_seek_field(table: TableView, name: Seq<u8>, value: Seq<u8>)
    requires
        table.valid(),
    ensures
        match seek_field(table, name, value) {
            Some(i) => 1 <= i <= u64::MAX && indexed_field(table, i) == Some((name, Some(value))),
            None => true,
        },
{
    lemma_first_equal(name, value, 1);
    lemma_newest_equal(table.entries, name, value);
    lemma_valid_preserved(table, name, value, 0);
}

/// An index that `seek_name` gives names an entry with that name, and fits
/// 64 bits.
pub proof fn lemma_seek_name(table: TableView, name: Seq<u8>)
    requires
        table.valid(),
    ensures
        match seek_name(table, name) {
            Some(i) => 1 <= i <= u64::MAX && match indexed_field(table, i) {
                Some(field) => field.0 == name,
                None => false,
            },
            None => true,
        },
{
    lemma_first_named(name, 1);
    lemma_newest_named(table.entries, name);
    lemma_valid_preserved(table, name, name, 0);
}

/// A literal whose name is an index decodes to the name of the entry and to
/// the value that it was made of.
proof fn lemma_literal_indexed_name(
    table: TableView,
    prefix_bits: int,
    flags: u8,
    idx: u64,
    name: Seq<u8>,
    value: Seq<u8>,
    rest: Seq<u8>,
)
    requires
        1 <= prefix_bits <= 8,
        idx >= 1,
        match indexed_field(table, idx as int) {
            Some(field) => field.0 == name,
            None => false,
        },
        value.len() <= u64::MAX,
    ensures
        literal_decoding(
            table,
            uint_encoding(idx, prefix_bits, flags) + string_encoding(value) + rest,
            prefix_bits,
        ) == Ok::<(Seq<u8>, Seq<u8>, int), DecodeError>(
            (
                name,
                value,
                (uint_encoding(idx, prefix_bits, flags) + string_encoding(value)).len() as int,
            ),
        ),
{
    reveal(literal_decoding);
    let head = uint_encoding(idx, prefix_bits, flags);
    let coded_value = string_encoding(value);
    let input = head + coded_value + rest;
    lemma_uint_roundtrip(idx, prefix_bits, flags, coded_value + rest);
    assert(input =~= head + (coded_value + rest));
    assert(input.skip(head.len() as int) =~= coded_value + rest);
    lemma_string_roundtrip(value, rest);
}

/// A literal with a name of its own decodes to the name and the value that
/// it was made of.
proof fn lemma_literal_new_name(
    table: TableView,
    prefix_bits: int,
    flags: u8,
    name: Seq<u8>,
    value: Seq<u8>,
    rest: Seq<u8>,
)
    requires
        1 <= prefix_bits <= 8,
        name.len() <= u64::MAX,
        value.len() <= u64::MAX,
    ensures
        literal_decoding(
            table,
            uint_encoding(0, prefix_bits, flags) + string_encoding(name) + string_encoding(value)
                + rest,
            prefix_bits,
        ) == Ok::<(Seq<u8>, Seq<u8>, int), DecodeError>(
            (
                name,
                value,
                (uint_encoding(0, prefix_bits, flags) + string_encoding(name) + string_encoding(
                    value,
                )).len() as int,
            ),
        ),
{
    reveal(literal_decoding);
    let head = uint_encoding(0, prefix_bits, flags);
    let coded_name = string_encoding(name);
    let coded_value = string_encoding(value);
    let input = head + coded_name + coded_value + rest;
    lemma_uint_roundtrip(0, prefix_bits, flags, coded_name + coded_value + rest);
    assert(input =~= head + (coded_name + coded_value + rest));
    assert(input.skip(head.len() as int) =~= coded_name + (coded_value + rest));
    lemma_string_roundtrip(name, coded_value + rest);
    assert(input.skip((head.len() + coded_name.len()) as int) =~= coded_value + rest);
    lemma_string_roundtrip(value, rest);
}

/// A literal decodes to the name and the value that it was made of.
proof fn lemma_literal_roundtrip(
    table: TableView,
    hint: CacheHint,
    name: Seq<u8>,
    value: Seq<u8>,
    rest: Seq<u8>,
)
    requires
        table.valid(),
        name.len() <= u64::MAX,
        value.len() <= u64::MAX,
        seek_field(table, name, value).is_none(),
    ensures
        literal_decoding(
            table,
            field_encoding(table, hint, name, value).0 + rest,
            literal_prefix(hint).0,
        ) == Ok::<(Seq<u8>, Seq<u8>, int), DecodeError>(
            (name, value, field_encoding(table, hint, name, value).0.len() as int),
        ),
{
    let (bits, flags) = literal_prefix(hint);
    lemma_seek_name(table, name);
    match seek_name(table, name) {
        Some(i) => {
            lemma_literal_indexed_name(table, bits, flags, i as u64, name, value, rest);
        },
        None => {
            lemma_literal_new_name(table, bits, flags, name, value, rest);
        },
    }
}

/// Decoding undoes encoding, field by field: whatever the hint, and whatever
/// follows the encoding, the decoder reads the name and the value that the
/// encoder was given, stops where the encoding ends, and leaves its dynamic
/// table as the encoder left its own.
pub proof fn lemma_field_roundtrip(
    table: TableView,
    hint: CacheHint,
    name: Seq<u8>,
    value: Seq<u8>,
    rest: Seq<u8>,
)
    requires
        table.valid(),
        name.len() <= u64::MAX,
        value.len() <= u64::MAX,
    ensures
        field_decoding(table, field_encoding(table, hint, name, value).0 + rest) == Ok::<
            (FieldView, int, TableView),
            DecodeError,
        >(
            (
                decoded_view(table, hint, name, value),
                field_encoding(table, hint, name, value).0.len() as int,
                field_encoding(table, hint, name, value).1,
            ),
        ),
        decoded_view(table, hint, name, value).name == name,
        decoded_view(table, hint, name, value).value == value,
        field_encoding(table, hint, name, value).0.len() >= 1,
        field_encoding(table, hint, name, value).0[0] & 0xE0 != 0x20,
{
    reveal(field_decoding);
    let enc = field_encoding(table, hint, name, value).0;
    let input = enc + rest;
    lemma_seek_field(table, name, value);
    match seek_field(table, name, value) {
        Some(i) => {
            lemma_first_octet_kind(i as u64, 7, 0x80);
            lemma_uint_roundtrip(i as u64, 7, 0x80, rest);
            assert(input[0] == enc[0]);
        },
        None => {
            let (bits, flags) = literal_prefix(hint);
            let idx: u64 = match seek_name(table, name) {
                Some(i) => i as u64,
                None => 0,
            };
            lemma_seek_name(table, name);
            lemma_first_octet_kind(idx, bits, flags);
            let head = uint_encoding(idx, bits, flags);
            assert(enc[0] == head[0]);
            assert(input[0] == enc[0]);
            lemma_literal_roundtrip(table, hint, name, value, rest);
            assert(input.take(enc.len() as int) =~= enc);
        },
    }
}

/// The encoding of fields begins with the encoding of the first.
pub proof fn lemma_fields_encoding_front(table: TableView, fields: Seq<(CacheHint, Seq<u8>, Seq<u8>)>)
    requires
        fields.len() > 0,
    ensures
        fields_encoding(table, fields) == ({
            let first = field_encoding(table, fields[0].0, fields[0].1, fields[0].2);
            let more = fields_encoding(first.1, fields.skip(1));
            (first.0 + more.0, more.1)
        }),
    decreases fields.len(),
{
    let first = field_encoding(table, fields[0].0, fields[0].1, fields[0].2);
    if fields.len() == 1 {
        let none = Seq::<(CacheHint, Seq<u8>, Seq<u8>)>::empty();
        assert(fields.drop_last() =~= none);
        assert(fields.skip(1) =~= none);
        assert(fields.last() == fields[0]);
        assert(fields_encoding(table, none) == (Seq::<u8>::empty(), table));
        assert(fields_encoding(first.1, none) == (Seq::<u8>::empty(), first.1));
        assert(Seq::<u8>::empty() + first.0 =~= first.0 + Seq::<u8>::empty());
    } else {
        let init = fields.drop_last();
        lemma_fields_encoding_front(table, init);
        assert(init[0] == fields[0]);
        assert(init.skip(1) =~= fields.skip(1).drop_last());
        assert(fields.skip(1).last() == fields.last());
        let middle = fields_encoding(first.1, init.skip(1));
        let last = field_encoding(middle.1, fields.last().0, fields.last().1, fields.last().2);
        assert(fields_encoding(table, init) == (first.0 + middle.0, middle.1));
        assert(fields_encoding(table, fields) == ((first.0 + middle.0) + last.0, last.1));
        assert(fields_encoding(first.1, fields.skip(1)) == (middle.0 + last.0, last.1));
        assert((first.0 + middle.0) + last.0 =~= first.0 + (middle.0 + last.0));
    }
}

/// Decoding undoes encoding, for any run of fields: from the encodings of
/// the fields one after the other, the decoder reads fields with the names
/// and values that the encoder was given, in their order, and its dynamic
/// table ends as that of the encoder does.
pub proof fn lemma_fields_roundtrip(table: TableView, fields: Seq<(CacheHint, Seq<u8>, Seq<u8>)>)
    requires
        table.valid(),
        encodable(fields),
    ensures
        fields_decoding(table, fields_encoding(table, fields).0) == (
            Ok::<Seq<FieldView>, DecodeError>(decoded_views(table, fields)),
            fields_encoding(table, fields).1,
        ),
        decoded_views(table, fields).len() == fields.len(),
        forall|i: int|
            0 <= i < fields.len() ==> (#[trigger] decoded_views(table, fields)[i]).name
                == fields[i].1 && decoded_views(table, fields)[i].value == fields[i].2,
        fields_encoding(table, fields).1.valid(),
        fields.len() > 0 ==> fields_encoding(table, fields).0.len() > 0 && fields_encoding(
            table,
            fields,
        ).0[0] & 0xE0 != 0x20,
    decreases fields.len(),
{
    if fields.len() > 0 {
        let f = fields[0];
        let first = field_encoding(table, f.0, f.1, f.2);
        let more = fields_encoding(first.1, fields.skip(1));
        lemma_fields_encoding_front(table, fields);
        lemma_field_roundtrip(table, f.0, f.1, f.2, more.0);
        lemma_valid_preserved(table, f.1, f.2, 0);
        assert(encodable(fields.skip(1))) by {
            assert forall|i: int| 0 <= i < fields.skip(1).len() implies (
            #[trigger] fields.skip(1)[i]).1.len() <= u64::MAX && fields.skip(1)[i].2.len()
                <= u64::MAX by {
                assert(fields.skip(1)[i] == fields[i + 1]);
            }
        }
        lemma_fields_roundtrip(first.1, fields.skip(1));
        let input = first.0 + more.0;
        assert(input.skip(first.0.len() as int) =~= more.0);
        let views = decoded_views(table, fields);
        let tail = decoded_views(first.1, fields.skip(1));
        assert forall|i: int| 0 <= i < fields.len() implies (#[trigger] views[i]).name
            == fields[i].1 && views[i].value == fields[i].2 by {
            if i > 0 {
                assert(views[i] == tail[i - 1]);
                assert(fields.skip(1)[i - 1] == fields[i]);
            }
        }
        assert(input[0] == first.0[0]);
    }
}

/// Decoding undoes encoding, block by block: where the encoder sets a new
/// limit that the decoder allows, both tables get the limit, and the fields
/// are read back as they went in.
pub proof fn lemma_block_roundtrip(
    table: TableView,
    pending: Option<int>,
    max: int,
    fields: Seq<(CacheHint, Seq<u8>, Seq<u8>)>,
)
    requires
        table.valid(),
        encodable(fields),
        match pending {
            Some(cap) => 0 <= cap <= max && cap <= usize::MAX,
            None => true,
        },
    ensures
        block_decoding(table, max, block_encoding(table, pending, fields).0) == (
            Ok::<Seq<FieldView>, DecodeError>(
                decoded_views(
                    match pending {
                        Some(cap) => table.resize(cap),
                        None => table,
                    },
                    fields,
                ),
            ),
            block_encoding(table, pending, fields).1,
        ),
{
    let start = match pending {
        Some(cap) => table.resize(cap),
        None => table,
    };
    lemma_valid_preserved(
        table,
        Seq::empty(),
        Seq::empty(),
        match pending {
            Some(cap) => cap,
            None => 0,
        },
    );
    lemma_fields_roundtrip(start, fields);
    let body = fields_encoding(start, fields).0;
    assert(size_updates_decoding(start, max, body) == (Ok::<int, DecodeError>(0), start));
    assert(body.skip(0) =~= body);
    match pending {
        Some(cap) => {
            let head = uint_encoding(cap as u64, 5, 0x20);
            lemma_first_octet_kind(cap as u64, 5, 0x20);
            lemma_uint_roundtrip(cap as u64, 5, 0x20, body);
            let input = head + body;
            assert(input[0] == head[0]);
            assert(input.skip(head.len() as int) =~= body);
            assert(input.skip(head.len() as int + 0) =~= body);
        },
        None => {},
    }
}

} // verus!
