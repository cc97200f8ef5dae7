//! The order of byte strings: byte by byte, a string before any string that
//! it begins.

use vstd::prelude::*;
use std::cmp::Ordering;

verus! {

/// How `a` compares to `b`, byte by byte.
pub open spec fn lex_order(a: Seq<u8>, b: Seq<u8>) -> Ordering
    decreases a.len(),
{
    if a.len() == 0 {
        if b.len() == 0 {
            Ordering::Equal
        } else {
            Ordering::Less
        }
    } else if b.len() == 0 {
        Ordering::Greater
    } else if a[0] < b[0] {
        Ordering::Less
    } else if a[0] > b[0] {
        Ordering::Greater
    } else {
        lex_order(a.skip(1), b.skip(1))
    }
}

/// Byte strings compare equal where they are equal, and there only.
pub proof fn lemma_lex_order_equal(a: Seq<u8>, b: Seq<u8>)
    ensures
        (lex_order(a, b) == Ordering::Equal) == (a == b),
    decreases a.len(),
{
    if a.len() > 0 && b.len() > 0 && a[0] == b[0] {
        lemma_lex_order_equal(a.skip(1), b.skip(1));
        if a.skip(1) == b.skip(1) {
            assert(a =~= seq![a[0]] + a.skip(1));
            assert(b =~= seq![b[0]] + b.skip(1));
        }
    } else if a.len() == 0 && b.len() == 0 {
        assert(a =~= b);
    }
}

/// What `lex_order` says of strings that agree up to a place.
proof fn lemma_lex_order_from(a: Seq<u8>, b: Seq<u8>, at: int)
    requires
        0 <= at <= a.len(),
        at <= b.len(),
        forall|j: int| 0 <= j < at ==> a[j] == b[j],
    ensures
        lex_order(a, b) == lex_order(a.skip(at), b.skip(at)),
    decreases at,
{
    if at > 0 {
        lemma_lex_order_from(a.skip(1), b.skip(1), at - 1);
        assert(a.skip(1).skip(at - 1) =~= a.skip(at));
        assert(b.skip(1).skip(at - 1) =~= b.skip(at));
    } else {
        assert(a.skip(0) =~= a);
        assert(b.skip(0) =~= b);
    }
}

/// Compares two byte strings byte by byte.
pub fn compare_bytes(a: &[u8], b: &[u8]) -> (r: Ordering)
    ensures
        r == lex_order(a@, b@),
{
    let mut i: usize = 0;
    while i < a.len() && i < b.len()
        invariant
            i <= a.len(),
            i <= b.len(),
            forall|j: int| 0 <= j < i ==> a@[j] == b@[j],
        decreases a.len() - i,
    {
        if a[i] < b[i] {
            proof {
                lemma_lex_order_from(a@, b@, i + 0);
            }
            return Ordering::Less;
        }
        if a[i] > b[i] {
            proof {
                lemma_lex_order_from(a@, b@, i + 0);
            }
            return Ordering::Greater;
        }
        i += 1;
    }
    proof {
        lemma_lex_order_from(a@, b@, i + 0);
    }
    if i < b.len() {
        Ordering::Less
    } else if i < a.len() {
        Ordering::Greater
    } else {
        Ordering::Equal
    }
}

} // verus!
