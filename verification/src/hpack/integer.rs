//! Integers with an N-bit prefix (RFC 7541, section 5.1).

use vstd::prelude::*;
use vstd::slice::slice_subrange;
use super::DecodeError;

verus! {

/// The most octets that may follow the prefix: ten times seven bits take any
/// 64-bit value.
pub const MAX_CONTINUATION: usize = 10;

/// The prefix with all its bits set: `2^prefix_bits - 1`.
pub open spec fn prefix_mask(prefix_bits: int) -> u8 {
    if prefix_bits == 1 {
        0x01
    } else if prefix_bits == 2 {
        0x03
    } else if prefix_bits == 3 {
        0x07
    } else if prefix_bits == 4 {
        0x0f
    } else if prefix_bits == 5 {
        0x1f
    } else if prefix_bits == 6 {
        0x3f
    } else if prefix_bits == 7 {
        0x7f
    } else {
        0xff
    }
}

/// The octets that carry `v` after a full prefix: seven bits each, the lowest
/// first, the top bit set on all but the last.
pub open spec fn continuation(v: int) -> Seq<u8>
    decreases v,
{
    if v < 128 {
        seq![v as u8]
    } else {
        seq![(128 + v % 128) as u8] + continuation(v / 128)
    }
}

/// The encoding of `v` with a prefix of `prefix_bits` bits, the bits of the
/// first octet above the prefix taken from `flags`.
pub open spec fn uint_encoding(v: u64, prefix_bits: int, flags: u8) -> Seq<u8> {
    let mask = prefix_mask(prefix_bits);
    if v < mask {
        seq![(flags & !mask) | (v as u8)]
    } else {
        seq![(flags & !mask) | mask] + continuation(v - mask)
    }
}

/// How many octets at the start of `s` have their top bit set.
pub open spec fn continued(s: Seq<u8>) -> int
    decreases s.len(),
{
    if s.len() == 0 || s[0] < 128 {
        0
    } else {
        1 + continued(s.skip(1))
    }
}

/// The number that the low seven bits of the octets of `s` spell, the lowest
/// seven first.
pub open spec fn base128(s: Seq<u8>) -> int
    decreases s.len(),
{
    if s.len() == 0 {
        0
    } else {
        s[0] % 128 + 128 * base128(s.skip(1))
    }
}

/// What decoding `input` gives: the value and the number of octets it took.
///
/// The input is short where it is empty or ends before an octet without the
/// top bit. It is corrupted where ten octets in a row ask to go on, or where
/// the value does not fit 64 bits.
pub open spec fn uint_decoding(input: Seq<u8>, prefix_bits: int) -> Result<(u64, int), DecodeError> {
    let mask = prefix_mask(prefix_bits);
    if input.len() == 0 {
        Err(DecodeError::Shortage)
    } else if input[0] & mask < mask {
        Ok(((input[0] & mask) as u64, 1))
    } else {
        let run = continued(input.skip(1));
        if run >= 10 {
            Err(DecodeError::CorruptedInput)
        } else if 1 + run >= input.len() {
            Err(DecodeError::Shortage)
        } else {
            let v = mask + base128(input.subrange(1, 2 + run));
            if v > u64::MAX {
                Err(DecodeError::CorruptedInput)
            } else {
                Ok((v as u64, 2 + run))
            }
        }
    }
}

/// The mask of a prefix, computed.
pub fn mask_of(prefix_bits: usize) -> (mask: u8)
    requires
        1 <= prefix_bits <= 8,
    ensures
        mask == prefix_mask(prefix_bits as int),
{
    let shift = (8 - prefix_bits) as u8;
    let mask = 0xffu8 >> shift;
    assert(mask == if shift == 7 {
        0x01u8
    } else if shift == 6 {
        0x03u8
    } else if shift == 5 {
        0x07u8
    } else if shift == 4 {
        0x0fu8
    } else if shift == 3 {
        0x1fu8
    } else if shift == 2 {
        0x3fu8
    } else if shift == 1 {
        0x7fu8
    } else {
        0xffu8
    }) by (bit_vector)
        requires
            mask == 0xffu8 >> shift,
            shift < 8,
    ;
    mask
}

/// `128^len`: one more than the greatest number that `len` septets spell.
pub open spec fn pow128(len: int) -> int
    decreases len,
{
    if len <= 0 {
        1
    } else {
        128 * pow128(len - 1)
    }
}

pub proof fn lemma_base128_scale(s: Seq<u8>, len: int)
    requires
        s.len() == len,
    ensures
        0 <= base128(s) < pow128(len),
        len <= 10 ==> pow128(len) <= 0x40_0000_0000_0000_0000,
    decreases s.len(),
{
    reveal_with_fuel(pow128, 12);
    if s.len() > 0 {
        lemma_base128_scale(s.skip(1), len - 1);
    }
}

/// Decodes an integer with a prefix of `prefix_bits` bits from the start of
/// `input`, and returns it with the input that follows it.
pub fn parse_uint(input: &[u8], prefix_bits: usize) -> (r: Result<(&[u8], u64), DecodeError>)
    requires
        1 <= prefix_bits <= 8,
    ensures
        match uint_decoding(input@, prefix_bits as int) {
            Ok((v, used)) => r.is_ok() && r.unwrap().1 == v && r.unwrap().0@ == input@.skip(used),
            Err(e) => r == Err::<(&[u8], u64), DecodeError>(e),
        },
{
    if input.len() == 0 {
        return Err(DecodeError::Shortage);
    }
    let mask = mask_of(prefix_bits);
    let first_byte = input[0] & mask;
    if first_byte < mask {
        return Ok((slice_subrange(input, 1, input.len()), first_byte as u64));
    }
    // Find the octet that ends the integer.
    let mut end: usize = 1;
    loop
        invariant_except_break
            1 <= end <= input.len(),
            end - 1 < 10,
            continued(input@.skip(1)) == (end - 1) + continued(input@.skip(end as int)),
        invariant
            mask == prefix_mask(prefix_bits as int),
            !(input@[0] & mask < mask),
        ensures
            1 <= end < input.len(),
            end - 1 < 10,
            continued(input@.skip(1)) == end - 1,
        decreases input.len() - end,
    {
        if end == input.len() {
            assert(continued(input@.skip(end as int)) == 0);
            return Err(DecodeError::Shortage);
        }
        let byte = input[end];
        if byte < 128 {
            assert(input@.skip(end as int)[0] == byte);
            break ;
        }
        assert(input@.skip(end as int)[0] == byte);
        assert(input@.skip(end as int).skip(1) =~= input@.skip(end + 1));
        end += 1;
        if end > MAX_CONTINUATION {
            proof {
                lemma_continued_nonnegative(input@.skip(end as int));
            }
            return Err(DecodeError::CorruptedInput);
        }
    }
    // Add the septets up, the highest first.
    let ghost digits = input@.subrange(1, end + 1);
    let mut res: u128 = 0;
    let mut at: usize = end + 1;
    proof {
        assert(digits.skip(at - 1) =~= Seq::<u8>::empty());
    }
    while at > 1
        invariant
            1 <= at <= end + 1,
            end < input.len(),
            end - 1 < 10,
            digits == input@.subrange(1, end + 1),
            res == base128(digits.skip(at - 1)),
        decreases at,
    {
        at -= 1;
        let septet = input[at] % 128;
        proof {
            let tail = digits.skip(at - 1);
            assert(tail[0] == input@[at as int]);
            assert(tail.skip(1) =~= digits.skip(at as int));
            lemma_base128_scale(tail.skip(1), end + 1 - at - 1);
        }
        res = septet as u128 + 128 * res;
    }
    proof {
        assert(digits.skip(0) =~= digits);
        lemma_base128_scale(digits, end as int);
    }
    let total = res + mask as u128;
    if total > u64::MAX as u128 {
        return Err(DecodeError::CorruptedInput);
    }
    Ok((slice_subrange(input, end + 1, input.len()), total as u64))
}

pub proof fn lemma_continued_nonnegative(s: Seq<u8>)
    ensures
        0 <= continued(s) <= s.len(),
    decreases s.len(),
{
    if s.len() > 0 && s[0] >= 128 {
        lemma_continued_nonnegative(s.skip(1));
    }
}

/// Appends to `out` the encoding of `v` with a prefix of `prefix_bits` bits.
/// The bits of the first octet above the prefix are those of
/// `first_byte_flags`.
pub fn serialize_uint(out: &mut Vec<u8>, v: u64, prefix_bits: usize, first_byte_flags: u8)
    requires
        1 <= prefix_bits <= 8,
    ensures
        final(out)@ == old(out)@ + uint_encoding(v, prefix_bits as int, first_byte_flags),
{
    let prefix_mask = mask_of(prefix_bits);
    let flag_mask = !prefix_mask;
    let ghost start = out@;
    if v < prefix_mask as u64 {
        let res = (v as u8) | (first_byte_flags & flag_mask);
        assert(res == (first_byte_flags & !prefix_mask) | (v as u8)) by (bit_vector)
            requires
                res == (v as u8) | (first_byte_flags & flag_mask),
                flag_mask == !prefix_mask,
        ;
        out.push(res);
        assert(out@ =~= start + uint_encoding(v, prefix_bits as int, first_byte_flags));
    } else {
        out.push((first_byte_flags & flag_mask) | prefix_mask);
        let mut v: u64 = v - prefix_mask as u64;
        let ghost rest = v;
        let ghost head = out@;
        while v > 0x7f
            invariant
                out@ + continuation(v as int) == head + continuation(rest as int),
            decreases v,
        {
            let low = (v & 0x7f) as u8;
            let res = 0x80 | low;
            assert(res == 128 + v % 128 && v >> 7 == v / 128) by (bit_vector)
                requires
                    low == (v & 0x7f) as u8,
                    res == 0x80u8 | low,
            ;
            proof {
                assert(out@.push(res) + continuation(v as int / 128) =~= out@ + continuation(
                    v as int,
                ));
            }
            out.push(res);
            v >>= 7;
        }
        let res = (v & 0x7f) as u8;
        assert(res == v) by (bit_vector)
            requires
                v <= 0x7f,
                res == (v & 0x7f) as u8,
        ;
        proof {
            assert(out@.push(res) =~= out@ + continuation(v as int));
        }
        out.push(res);
        assert(out@ =~= start + uint_encoding(
            (rest + prefix_mask) as u64,
            prefix_bits as int,
            first_byte_flags,
        ));
    }
}

pub proof fn lemma_continuation_len(v: int, k: int)
    requires
        k >= 1,
        0 <= v < pow128(k),
    ensures
        1 <= continuation(v).len() <= k,
    decreases v,
{
    if v >= 128 {
        reveal_with_fuel(pow128, 2);
        lemma_continuation_len(v / 128, k - 1);
    }
}

/// A decoded integer took at least one octet, and no more than there are.
pub proof fn lemma_uint_decoding_used(input: Seq<u8>, prefix_bits: int)
    ensures
        match uint_decoding(input, prefix_bits) {
            Ok((v, used)) => 1 <= used <= input.len() && used <= 11,
            Err(_) => true,
        },
{
    if input.len() > 0 {
        lemma_continued_nonnegative(input.skip(1));
    }
}

/// All octets of a continuation but the last ask to go on.
pub proof fn lemma_continuation_run(v: int, rest: Seq<u8>)
    requires
        0 <= v,
    ensures
        continued(continuation(v) + rest) == continuation(v).len() - 1,
    decreases v,
{
    let c = continuation(v);
    if v < 128 {
        assert((c + rest)[0] == v);
    } else {
        let tail = continuation(v / 128);
        assert((c + rest)[0] >= 128);
        assert((c + rest).skip(1) =~= tail + rest);
        lemma_continuation_run(v / 128, rest);
    }
}

/// Every octet of a continuation cut short asks to go on.
pub proof fn lemma_continuation_cut(v: int, k: int)
    requires
        0 <= v,
        0 <= k < continuation(v).len(),
    ensures
        continued(continuation(v).take(k)) == k,
    decreases v,
{
    let c = continuation(v);
    if k > 0 {
        assert(v >= 128);
        let tail = continuation(v / 128);
        assert(c.take(k)[0] >= 128);
        assert(c.take(k).skip(1) =~= tail.take(k - 1));
        lemma_continuation_cut(v / 128, k - 1);
    }
}

pub proof fn lemma_continuation_value(v: int)
    requires
        0 <= v,
    ensures
        base128(continuation(v)) == v,
    decreases v,
{
    let c = continuation(v);
    if v < 128 {
        assert(c.skip(1) =~= Seq::<u8>::empty());
        assert(base128(c.skip(1)) == 0);
    } else {
        assert(c.skip(1) =~= continuation(v / 128));
        lemma_continuation_value(v / 128);
    }
}

/// The first octet of an encoding gives back in its prefix what was put
/// there.
pub proof fn lemma_first_octet(flags: u8, mask: u8, low: u8)
    requires
        mask == 0x01 || mask == 0x03 || mask == 0x07 || mask == 0x0f || mask == 0x1f || mask
            == 0x3f || mask == 0x7f || mask == 0xff,
        low <= mask,
    ensures
        ((flags & !mask) | low) & mask == low,
{
    assert(((flags & !mask) | low) & mask == low) by (bit_vector)
        requires
            mask == 0x01 || mask == 0x03 || mask == 0x07 || mask == 0x0f || mask == 0x1f || mask
                == 0x3f || mask == 0x7f || mask == 0xff,
            low <= mask,
    ;
}

/// Decoding undoes encoding: for every prefix width from 1 to 8, every value
/// and whatever follows the encoding, decoding gives the value back and
/// stops where the encoding ends.
pub proof fn lemma_uint_roundtrip(v: u64, prefix_bits: int, flags: u8, rest: Seq<u8>)
    requires
        1 <= prefix_bits <= 8,
    ensures
        uint_decoding(uint_encoding(v, prefix_bits, flags) + rest, prefix_bits) == Ok::<
            (u64, int),
            DecodeError,
        >((v, uint_encoding(v, prefix_bits, flags).len() as int)),
        uint_encoding(v, prefix_bits, flags).len() <= 11,
{
    let mask = prefix_mask(prefix_bits);
    let enc = uint_encoding(v, prefix_bits, flags);
    let input = enc + rest;
    if v < mask {
        lemma_first_octet(flags, mask, v as u8);
    } else {
        lemma_first_octet(flags, mask, mask);
        let c = continuation(v - mask);
        reveal_with_fuel(pow128, 11);
        lemma_continuation_len(v - mask, 10);
        lemma_continuation_run(v - mask, rest);
        lemma_continuation_value(v - mask);
        assert(input.skip(1) =~= c + rest);
        assert(input.subrange(1, 1 + c.len() as int) =~= c);
    }
}

/// An encoding cut short anywhere decodes to a shortage of input.
pub proof fn lemma_uint_truncated(v: u64, prefix_bits: int, flags: u8, k: int)
    requires
        1 <= prefix_bits <= 8,
        0 <= k < uint_encoding(v, prefix_bits, flags).len(),
    ensures
        uint_decoding(uint_encoding(v, prefix_bits, flags).take(k), prefix_bits) == Err::<
            (u64, int),
            DecodeError,
        >(DecodeError::Shortage),
{
    let mask = prefix_mask(prefix_bits);
    let enc = uint_encoding(v, prefix_bits, flags);
    let input = enc.take(k);
    if k > 0 {
        lemma_first_octet(flags, mask, mask);
        let c = continuation(v - mask);
        reveal_with_fuel(pow128, 11);
        lemma_continuation_len(v - mask, 10);
        lemma_continuation_cut(v - mask, k - 1);
        assert(input.skip(1) =~= c.take(k - 1));
    }
}

} // verus!
