//! Header fields as the decoder hands them out and as the encoder takes them.

use vstd::prelude::*;
use crate::sliceable::{AnySliceable, Sliceable};
use super::self_owned_slice::SelfOwnedSlice;

verus! {

/// A decoded header field, by the representation it came in.
#[derive(Debug, PartialEq, Eq)]
pub enum HeaderField {
    /// An indexed field: `(name, value)`.
    Index((SelfOwnedSlice, SelfOwnedSlice)),
    /// A literal field with incremental indexing: `(name, value)`. It has
    /// been put into the dynamic table.
    IncrementalIndex((SelfOwnedSlice, SelfOwnedSlice)),
    /// A literal field without indexing: `(name, value)`.
    NotIndex((SelfOwnedSlice, SelfOwnedSlice)),
    /// A literal field never to be indexed: `(name, value, raw)`, where `raw`
    /// holds the octets of the representation as they came, to be passed on.
    NeverIndex((SelfOwnedSlice, SelfOwnedSlice, SelfOwnedSlice)),
}

/// The decoded header field of the frame layer.
pub type DecoderField = HeaderField;

/// The representation that a header field came in.
pub enum FieldKind {
    Indexed,
    IncrementalIndexing,
    WithoutIndexing,
    NeverIndexed,
}

/// What a decoded header field holds.
pub struct FieldView {
    pub kind: FieldKind,
    pub name: Seq<u8>,
    pub value: Seq<u8>,
    /// The octets of the representation, for a field never to be indexed;
    /// empty for the others.
    pub raw: Seq<u8>,
}

impl View for HeaderField {
    type V = FieldView;

    open spec fn view(&self) -> FieldView {
        match self {
            HeaderField::Index((name, value)) => FieldView {
                kind: FieldKind::Indexed,
                name: name@,
                value: value@,
                raw: Seq::empty(),
            },
            HeaderField::IncrementalIndex((name, value)) => FieldView {
                kind: FieldKind::IncrementalIndexing,
                name: name@,
                value: value@,
                raw: Seq::empty(),
            },
            HeaderField::NotIndex((name, value)) => FieldView {
                kind: FieldKind::WithoutIndexing,
                name: name@,
                value: value@,
                raw: Seq::empty(),
            },
            HeaderField::NeverIndex((name, value, raw)) => FieldView {
                kind: FieldKind::NeverIndexed,
                name: name@,
                value: value@,
                raw: raw@,
            },
        }
    }
}

impl HeaderField {
    /// The name of the field.
    pub fn name(&self) -> (r: &[u8])
        ensures
            r@ == self@.name,
    {
        match self {
            HeaderField::Index((name, _)) => name.as_slice(),
            HeaderField::IncrementalIndex((name, _)) => name.as_slice(),
            HeaderField::NotIndex((name, _)) => name.as_slice(),
            HeaderField::NeverIndex((name, _, _)) => name.as_slice(),
        }
    }

    /// The value of the field.
    pub fn value(&self) -> (r: &[u8])
        ensures
            r@ == self@.value,
    {
        match self {
            HeaderField::Index((_, value)) => value.as_slice(),
            HeaderField::IncrementalIndex((_, value)) => value.as_slice(),
            HeaderField::NotIndex((_, value)) => value.as_slice(),
            HeaderField::NeverIndex((_, value, _)) => value.as_slice(),
        }
    }
}

/// What the encoder is asked to do about the dynamic table.
#[allow(non_camel_case_types)]
#[derive(Debug, Clone, Copy, PartialEq, Eq, Structural)]
pub enum CacheHint {
    /// Put the field into the dynamic table, where it is not yet in a table.
    PREFER_CACHE,
    /// Leave the dynamic table as it is.
    PREFER_NOT_CACHE,
    /// Leave the dynamic table as it is, and tell everyone on the way to do
    /// the same.
    NEVER_CACHE,
}

/// A header field to be encoded, `(name, value)`, by what is to be done about
/// the dynamic table.
#[derive(Debug)]
pub enum EncoderField {
    ToCache((AnySliceable, AnySliceable)),
    NotCache((AnySliceable, AnySliceable)),
    NeverCache((AnySliceable, AnySliceable)),
}

impl EncoderField {
    /// The hint that the kind of field stands for.
    pub open spec fn spec_hint(&self) -> CacheHint {
        match self {
            EncoderField::ToCache(_) => CacheHint::PREFER_CACHE,
            EncoderField::NotCache(_) => CacheHint::PREFER_NOT_CACHE,
            EncoderField::NeverCache(_) => CacheHint::NEVER_CACHE,
        }
    }

    /// The name of the field.
    pub open spec fn spec_name(&self) -> Seq<u8> {
        match self {
            EncoderField::ToCache((name, _)) => name@,
            EncoderField::NotCache((name, _)) => name@,
            EncoderField::NeverCache((name, _)) => name@,
        }
    }

    /// The value of the field.
    pub open spec fn spec_value(&self) -> Seq<u8> {
        match self {
            EncoderField::ToCache((_, value)) => value@,
            EncoderField::NotCache((_, value)) => value@,
            EncoderField::NeverCache((_, value)) => value@,
        }
    }

    pub fn hint(&self) -> (r: CacheHint)
        ensures
            r == self.spec_hint(),
    {
        match self {
            EncoderField::ToCache(_) => CacheHint::PREFER_CACHE,
            EncoderField::NotCache(_) => CacheHint::PREFER_NOT_CACHE,
            EncoderField::NeverCache(_) => CacheHint::NEVER_CACHE,
        }
    }

    pub fn name(&self) -> (r: &[u8])
        ensures
            r@ == self.spec_name(),
    {
        match self {
            EncoderField::ToCache((name, _)) => name.as_slice(),
            EncoderField::NotCache((name, _)) => name.as_slice(),
            EncoderField::NeverCache((name, _)) => name.as_slice(),
        }
    }

    pub fn value(&self) -> (r: &[u8])
        ensures
            r@ == self.spec_value(),
    {
        match self {
            EncoderField::ToCache((_, value)) => value.as_slice(),
            EncoderField::NotCache((_, value)) => value.as_slice(),
            EncoderField::NeverCache((_, value)) => value.as_slice(),
        }
    }
}

} // verus!
