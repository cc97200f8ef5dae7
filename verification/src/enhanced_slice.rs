//! A byte string that keeps short contents inline and borrows or owns long
//! ones.

use vstd::prelude::*;
use std::cmp::Ordering;
use vstd::std_specs::cmp::{PartialEqSpecImpl, PartialOrdSpecImpl};
use crate::ordering::{compare_bytes, lex_order};
use crate::sliceable::{
    bytes_eq, debug_bytes, debug_text, inline_bytes, inline_slice, try_inline,
};

verus! {

#[derive(Debug)]
pub enum EnhancedSlice<'a> {
    /// Up to 15 bytes, with their number.
    Array((u8, [u8; 15])),
    Slice(&'a [u8]),
    Vec(Vec<u8>),
}

impl<'a> View for EnhancedSlice<'a> {
    type V = Seq<u8>;

    open spec fn view(&self) -> Seq<u8> {
        match self {
            EnhancedSlice::Array((len, arr)) => inline_bytes(*len, *arr),
            EnhancedSlice::Slice(x) => x@,
            EnhancedSlice::Vec(x) => x@,
        }
    }
}

impl<'a> EnhancedSlice<'a> {
    /// A byte string with the bytes of `v`: a copy where `v` has 15 bytes at
    /// most, else `v` itself.
    pub fn new_with_slice(v: &'a [u8]) -> (r: EnhancedSlice<'a>)
        ensures
            r@ == v@,
            v@.len() <= 15 <==> r is Array,
    {
        match try_inline(v) {
            Some(packed) => EnhancedSlice::Array(packed),
            None => EnhancedSlice::Slice(v),
        }
    }

    /// A byte string with the bytes of `v`: a copy where `v` has 15 bytes at
    /// most, else `v` itself.
    pub fn new_with_vec(v: Vec<u8>) -> (r: EnhancedSlice<'static>)
        ensures
            r@ == v@,
            v@.len() <= 15 <==> r is Array,
    {
        match try_inline(v.as_slice()) {
            Some(packed) => EnhancedSlice::Array(packed),
            None => EnhancedSlice::Vec(v),
        }
    }

    pub fn as_slice(&self) -> (r: &[u8])
        ensures
            r@ == self@,
    {
        match self {
            EnhancedSlice::Array((len, arr)) => inline_slice(*len, arr),
            EnhancedSlice::Slice(x) => x,
            EnhancedSlice::Vec(x) => x.as_slice(),
        }
    }

    /// The text that the byte string is shown as for debugging: that of a
    /// slice with its bytes.
    pub fn to_debug_string(&self) -> (r: String)
        ensures
            r@ == debug_text(self@),
    {
        debug_bytes(self.as_slice())
    }
}

impl<'a> PartialEq for EnhancedSlice<'a> {
    /// Byte strings are equal where their bytes are, however they are kept.
    fn eq(&self, other: &Self) -> (r: bool) {
        bytes_eq(self.as_slice(), other.as_slice())
    }
}

impl<'a> PartialEqSpecImpl for EnhancedSlice<'a> {
    open spec fn obeys_eq_spec() -> bool {
        true
    }

    open spec fn eq_spec(&self, other: &Self) -> bool {
        self@ == other@
    }
}

impl<'a> Eq for EnhancedSlice<'a> {

}

impl<'a> PartialOrd for EnhancedSlice<'a> {
    /// Byte strings are ordered byte by byte.
    fn partial_cmp(&self, other: &Self) -> (r: Option<Ordering>) {
        Some(compare_bytes(self.as_slice(), other.as_slice()))
    }
}

impl<'a> PartialOrdSpecImpl for EnhancedSlice<'a> {
    open spec fn obeys_partial_cmp_spec() -> bool {
        true
    }

    open spec fn partial_cmp_spec(&self, other: &Self) -> Option<Ordering> {
        Some(lex_order(self@, other@))
    }
}

} // verus!
