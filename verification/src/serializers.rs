//! Writing unsigned integers in network byte order.

use vstd::prelude::*;
use vstd::arithmetic::div_mod::lemma_div_denominator;
use crate::parsers::{be_value, pow256};

verus! {

/// The `n` low bytes of `v`, the most significant first.
pub open spec fn be_bytes(v: int, n: int) -> Seq<u8>
    decreases n,
{
    if n <= 0 {
        Seq::empty()
    } else {
        be_bytes(v / 256, n - 1).push((v % 256) as u8)
    }
}

pub proof fn lemma_be_bytes_len(v: int, n: int)
    requires
        n >= 0,
    ensures
        be_bytes(v, n).len() == n,
    decreases n,
{
    if n > 0 {
        lemma_be_bytes_len(v / 256, n - 1);
    }
}

pub proof fn lemma_pow256_positive(n: int)
    ensures
        pow256(n) > 0,
    decreases n,
{
    if n > 0 {
        lemma_pow256_positive(n - 1);
    }
}

/// Each byte written is the byte of `v` at its place.
pub proof fn lemma_be_bytes_index(v: int, n: int, i: int)
    requires
        0 <= i < n,
        0 <= v,
    ensures
        be_bytes(v, n).len() == n,
        be_bytes(v, n)[i] == ((v / pow256(n - 1 - i)) % 256) as u8,
    decreases n,
{
    lemma_be_bytes_len(v, n);
    lemma_be_bytes_len(v / 256, n - 1);
    if i < n - 1 {
        lemma_be_bytes_index(v / 256, n - 1, i);
        lemma_pow256_positive(n - 2 - i);
        lemma_div_denominator(v, 256, pow256(n - 2 - i));
        assert(pow256(n - 1 - i) == 256 * pow256(n - 2 - i));
    } else {
        assert(pow256(0) == 1);
    }
}

/// Reading gives back what was written, where the bytes written hold all
/// of it.
pub proof fn lemma_be_roundtrip(v: int, n: int)
    requires
        n >= 0,
        0 <= v < pow256(n),
    ensures
        be_value(be_bytes(v, n)) == v,
    decreases n,
{
    if n > 0 {
        lemma_be_roundtrip(v / 256, n - 1);
        lemma_be_bytes_len(v / 256, n - 1);
        assert(be_bytes(v, n).drop_last() =~= be_bytes(v / 256, n - 1));
    }
}

/// Appends to `buf` the `n` low bytes of `v`, the most significant first.
pub fn serialize_uint(buf: &mut Vec<u8>, v: u64, n: usize)
    requires
        n <= 8,
    ensures
        final(buf)@ == old(buf)@ + be_bytes(v as int, n as int),
{
    let ghost start = buf@;
    // The bytes of `v`, the least significant first.
    let mut low_first = [0u8;8];
    let mut rest = v;
    let mut j: usize = 0;
    while j < n
        invariant
            j <= n <= 8,
            rest as int == (v as int) / pow256(j as int),
            forall|i: int| 0 <= i < j ==> low_first@[i] == (((v as int) / pow256(i)) % 256) as u8,
        decreases n - j,
    {
        proof {
            lemma_pow256_positive(j as int);
            lemma_div_denominator(v as int, pow256(j as int), 256);
            assert(pow256(j + 1) == 256 * pow256(j as int));
            assert(pow256(j as int) * 256 == 256 * pow256(j as int)) by (nonlinear_arith);
        }
        low_first[j] = (rest % 256) as u8;
        rest = rest / 256;
        j += 1;
    }
    let mut k: usize = 0;
    proof {
        lemma_be_bytes_len(v as int, n as int);
        assert(be_bytes(v as int, n as int).take(0) =~= Seq::<u8>::empty());
        assert(start + Seq::<u8>::empty() =~= start);
    }
    while k < n
        invariant
            k <= n <= 8,
            be_bytes(v as int, n as int).len() == n,
            forall|i: int| 0 <= i < n ==> low_first@[i] == (((v as int) / pow256(i)) % 256) as u8,
            buf@ == start + be_bytes(v as int, n as int).take(k as int),
        decreases n - k,
    {
        proof {
            lemma_be_bytes_index(v as int, n as int, k as int);
            let all = be_bytes(v as int, n as int);
            assert(all.take(k + 1) =~= all.take(k as int).push(all[k as int]));
        }
        buf.push(low_first[n - 1 - k]);
        k += 1;
    }
    proof {
        assert(be_bytes(v as int, n as int).take(n as int) =~= be_bytes(v as int, n as int));
    }
}

} // verus!
