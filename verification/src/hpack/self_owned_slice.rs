//! A byte string that lives by itself: short ones inline, longer ones in a
//! buffer of their own or in the block of a dynamic table entry.

use vstd::prelude::*;
use std::cmp::Ordering;
use vstd::std_specs::cmp::{PartialEqSpecImpl, PartialOrdSpecImpl};
use crate::ordering::{compare_bytes, lex_order};
use vstd::slice::slice_to_vec;
use crate::sliceable::{
    bytes_eq, debug_bytes, debug_text, inline_bytes, inline_slice, try_inline, Sliceable,
};
use super::dynamic_table::CachedStr;
use super::string::MaybeOwnedSlice;

verus! {

#[derive(Debug)]
pub enum SelfOwnedSlice {
    /// Up to 15 bytes, with their number.
    Array((u8, [u8; 15])),
    Vec(Vec<u8>),
    CachedStr(CachedStr),
}

impl View for SelfOwnedSlice {
    type V = Seq<u8>;

    open spec fn view(&self) -> Seq<u8> {
        match self {
            SelfOwnedSlice::Array((len, arr)) => inline_bytes(*len, *arr),
            SelfOwnedSlice::Vec(x) => x@,
            SelfOwnedSlice::CachedStr(x) => x@,
        }
    }
}

impl SelfOwnedSlice {
    pub fn new_with_slice(v: &[u8]) -> (r: SelfOwnedSlice)
        ensures
            r@ == v@,
            v@.len() <= 15 <==> r is Array,
    {
        match SelfOwnedSlice::try_new_with_array(v) {
            Some(x) => x,
            None => SelfOwnedSlice::Vec(slice_to_vec(v)),
        }
    }

    pub fn new_with_vec(v: Vec<u8>) -> (r: SelfOwnedSlice)
        ensures
            r@ == v@,
            v@.len() <= 15 <==> r is Array,
    {
        match SelfOwnedSlice::try_new_with_array(v.as_slice()) {
            Some(x) => x,
            None => SelfOwnedSlice::Vec(v),
        }
    }

    pub fn new_with_cached_str(v: &CachedStr) -> (r: SelfOwnedSlice)
        ensures
            r@ == v@,
            v@.len() <= 15 <==> r is Array,
    {
        match SelfOwnedSlice::try_new_with_array(v.as_slice()) {
            Some(x) => x,
            None => SelfOwnedSlice::CachedStr(v.clone()),
        }
    }

    pub fn new_with_maybe_owned_slice(v: MaybeOwnedSlice) -> (r: SelfOwnedSlice)
        ensures
            r@ == v@,
            v@.len() <= 15 <==> r is Array,
    {
        match v {
            MaybeOwnedSlice::Slice(v) => SelfOwnedSlice::new_with_slice(v),
            MaybeOwnedSlice::Vec(v) => SelfOwnedSlice::new_with_vec(v),
        }
    }

    /// The text that the byte string is shown as for debugging: that of a
    /// slice with its bytes.
    pub fn to_debug_string(&self) -> (r: String)
        ensures
            r@ == debug_text(self@),
    {
        debug_bytes(self.as_slice())
    }

    /// The inline form of `v`, where `v` has 15 bytes at most.
    pub fn try_new_with_array(v: &[u8]) -> (r: Option<SelfOwnedSlice>)
        ensures
            r.is_some() == (v@.len() < 16),
            match r {
                Some(x) => x@ == v@ && x is Array,
                None => true,
            },
    {
        match try_inline(v) {
            Some(packed) => Some(SelfOwnedSlice::Array(packed)),
            None => None,
        }
    }
}

impl Sliceable for SelfOwnedSlice {
    open spec fn bytes(&self) -> Seq<u8> {
        self@
    }

    fn as_slice(&self) -> (r: &[u8]) {
        match self {
            SelfOwnedSlice::Array((len, arr)) => inline_slice(*len, arr),
            SelfOwnedSlice::Vec(x) => x.as_slice(),
            SelfOwnedSlice::CachedStr(x) => x.as_slice(),
        }
    }
}

impl PartialEq for SelfOwnedSlice {
    /// Byte strings are equal where their bytes are, however they are kept.
    fn eq(&self, other: &Self) -> (r: bool) {
        bytes_eq(self.as_slice(), other.as_slice())
    }
}

impl PartialEqSpecImpl for SelfOwnedSlice {
    open spec fn obeys_eq_spec() -> bool {
        true
    }

    open spec fn eq_spec(&self, other: &Self) -> bool {
        self@ == other@
    }
}

impl Eq for SelfOwnedSlice {

}

impl PartialOrd for SelfOwnedSlice {
    /// Byte strings are ordered byte by byte.
    fn partial_cmp(&self, other: &Self) -> (r: Option<Ordering>) {
        Some(compare_bytes(self.as_slice(), other.as_slice()))
    }
}

impl PartialOrdSpecImpl for SelfOwnedSlice {
    open spec fn obeys_partial_cmp_spec() -> bool {
        true
    }

    open spec fn partial_cmp_spec(&self, other: &Self) -> Option<Ordering> {
        Some(lex_order(self@, other@))
    }
}

} // verus!
