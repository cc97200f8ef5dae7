//! A byte string that may borrow its bytes: short ones inline, longer ones
//! as a slice, in a buffer of their own or in the block of a dynamic table
//! entry.

use vstd::prelude::*;
use std::cmp::Ordering;
use vstd::std_specs::cmp::{PartialEqSpecImpl, PartialOrdSpecImpl};
use crate::ordering::{compare_bytes, lex_order};
use crate::sliceable::{
    bytes_eq, debug_bytes, debug_text, inline_bytes, inline_slice, try_inline, Sliceable,
};
use super::dynamic_table::CachedStr;

verus! {

#[derive(Debug)]
pub enum MaybeOwnedSlice<'a> {
    /// Up to 15 bytes, with their number.
    Array((u8, [u8; 15])),
    Slice(&'a [u8]),
    Vec(Vec<u8>),
    CachedStr(CachedStr),
}

impl<'a> View for MaybeOwnedSlice<'a> {
    type V = Seq<u8>;

    open spec fn view(&self) -> Seq<u8> {
        match self {
            MaybeOwnedSlice::Array((len, arr)) => inline_bytes(*len, *arr),
            MaybeOwnedSlice::Slice(x) => x@,
            MaybeOwnedSlice::Vec(x) => x@,
            MaybeOwnedSlice::CachedStr(x) => x@,
        }
    }
}

impl<'a> MaybeOwnedSlice<'a> {
    pub fn new_with_slice(v: &'a [u8]) -> (r: MaybeOwnedSlice<'a>)
        ensures
            r@ == v@,
            v@.len() <= 15 <==> r is Array,
    {
        match MaybeOwnedSlice::try_new_with_array(v) {
            Some(x) => x,
            None => MaybeOwnedSlice::Slice(v),
        }
    }

    pub fn new_with_vec(v: Vec<u8>) -> (r: MaybeOwnedSlice<'static>)
        ensures
            r@ == v@,
            v@.len() <= 15 <==> r is Array,
    {
        match MaybeOwnedSlice::try_new_with_array(v.as_slice()) {
            Some(x) => x,
            None => MaybeOwnedSlice::Vec(v),
        }
    }

    pub fn new_with_cached_str(v: &CachedStr) -> (r: MaybeOwnedSlice<'static>)
        ensures
            r@ == v@,
            v@.len() <= 15 <==> r is Array,
    {
        match MaybeOwnedSlice::try_new_with_array(v.as_slice()) {
            Some(x) => x,
            None => MaybeOwnedSlice::CachedStr(v.clone()),
        }
    }

    /// The text that the byte string is shown as for debugging: that of a
    /// slice with its bytes.
    pub fn to_debug_string(&self) -> (r: String)
        ensures
            r@ == debug_text(self@),
    {
        debug_bytes(self.as_slice())
    }

    /// The inline form of `v`, where `v` has 15 bytes at most.
    pub fn try_new_with_array(v: &[u8]) -> (r: Option<MaybeOwnedSlice<'static>>)
        ensures
            r.is_some() == (v@.len() < 16),
            match r {
                Some(x) => x@ == v@ && x is Array,
                None => true,
            },
    {
        match try_inline(v) {
            Some(packed) => Some(MaybeOwnedSlice::Array(packed)),
            None => None,
        }
    }
}

impl<'a> Sliceable for MaybeOwnedSlice<'a> {
    open spec fn bytes(&self) -> Seq<u8> {
        self@
    }

    fn as_slice(&self) -> (r: &[u8]) {
        match self {
            MaybeOwnedSlice::Array((len, arr)) => inline_slice(*len, arr),
            MaybeOwnedSlice::Slice(x) => x,
            MaybeOwnedSlice::Vec(x) => x.as_slice(),
            MaybeOwnedSlice::CachedStr(x) => x.as_slice(),
        }
    }
}

impl<'a> PartialEq for MaybeOwnedSlice<'a> {
    /// Byte strings are equal where their bytes are, however they are kept.
    fn eq(&self, other: &Self) -> (r: bool) {
        bytes_eq(self.as_slice(), other.as_slice())
    }
}

impl<'a> PartialEqSpecImpl for MaybeOwnedSlice<'a> {
    open spec fn obeys_eq_spec() -> bool {
        true
    }

    open spec fn eq_spec(&self, other: &Self) -> bool {
        self@ == other@
    }
}

impl<'a> Eq for MaybeOwnedSlice<'a> {

}

impl<'a> PartialOrd for MaybeOwnedSlice<'a> {
    /// Byte strings are ordered byte by byte.
    fn partial_cmp(&self, other: &Self) -> (r: Option<Ordering>) {
        Some(compare_bytes(self.as_slice(), other.as_slice()))
    }
}

impl<'a> PartialOrdSpecImpl for MaybeOwnedSlice<'a> {
    open spec fn obeys_partial_cmp_spec() -> bool {
        true
    }

    open spec fn partial_cmp_spec(&self, other: &Self) -> Option<Ordering> {
        Some(lex_order(self@, other@))
    }
}

} // verus!
