//! Reading unsigned integers in network byte order.

use vstd::prelude::*;
use vstd::slice::slice_subrange;

verus! {

/// The number that the bytes of `bytes` spell, the most significant first.
pub open spec fn be_value(bytes: Seq<u8>) -> int
    decreases bytes.len(),
{
    if bytes.len() == 0 {
        0
    } else {
        be_value(bytes.drop_last()) * 256 + bytes.last()
    }
}

/// `256^n`.
pub open spec fn pow256(n: int) -> int
    decreases n,
{
    if n <= 0 {
        1
    } else {
        256 * pow256(n - 1)
    }
}

pub proof fn lemma_be_value_bound(bytes: Seq<u8>)
    ensures
        0 <= be_value(bytes) < pow256(bytes.len() as int),
    decreases bytes.len(),
{
    if bytes.len() > 0 {
        lemma_be_value_bound(bytes.drop_last());
    }
}

/// Reads the first `n` bytes of `buf` as an unsigned integer, the most
/// significant byte first, and returns what follows them and the integer.
pub fn parse_uint(buf: &[u8], n: usize) -> (r: (&[u8], u64))
    requires
        n <= 8,
        n <= buf@.len(),
    ensures
        r.0@ == buf@.skip(n as int),
        r.1 == be_value(buf@.take(n as int)),
{
    let mut res: u64 = 0;
    let mut i: usize = 0;
    proof {
        reveal_with_fuel(pow256, 9);
    }
    while i < n
        invariant
            i <= n <= 8,
            n <= buf@.len(),
            res == be_value(buf@.take(i as int)),
            res < pow256(i as int),
        decreases n - i,
    {
        proof {
            reveal_with_fuel(pow256, 9);
            assert(buf@.take(i + 1).drop_last() =~= buf@.take(i as int));
            lemma_be_value_bound(buf@.take(i + 1));
        }
        res = res * 256 + buf[i] as u64;
        i += 1;
    }
    (slice_subrange(buf, n, buf.len()), res)
}

} // verus!
