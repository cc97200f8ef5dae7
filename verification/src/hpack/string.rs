//! Header strings: a length with a 7-bit prefix, then the octets, raw or
//! Huffman-coded as the top bit of the first octet says (RFC 7541, section 5.2).

use vstd::prelude::*;
use vstd::slice::slice_subrange;
use crate::sliceable::Sliceable;
use super::DecodeError;
use super::huffman::{
    decode, encode, huffman_decoding, huffman_encoding, lemma_decode_encode,
};
use super::integer::{
    lemma_uint_decoding_used, lemma_uint_roundtrip, parse_uint, prefix_mask, serialize_uint,
    uint_decoding, uint_encoding,
};

verus! {

/// Strings shorter than this are never Huffman-coded.
pub const HUFFMAN_THRESHOLD: usize = 16;

/// A decoded string: a part of the input where the string was raw, a buffer
/// of its own where it was Huffman-coded.
#[derive(Debug)]
pub enum MaybeOwnedSlice<'a> {
    Slice(&'a [u8]),
    Vec(Vec<u8>),
}

impl<'a> View for MaybeOwnedSlice<'a> {
    type V = Seq<u8>;

    open spec fn view(&self) -> Seq<u8> {
        match self {
            MaybeOwnedSlice::Slice(x) => x@,
            MaybeOwnedSlice::Vec(x) => x@,
        }
    }
}

impl<'a> MaybeOwnedSlice<'a> {
    pub fn new_with_slice(v: &'a [u8]) -> (r: MaybeOwnedSlice<'a>)
        ensures
            r == MaybeOwnedSlice::Slice(v),
    {
        MaybeOwnedSlice::Slice(v)
    }

    pub fn new_with_vec(v: Vec<u8>) -> (r: MaybeOwnedSlice<'static>)
        ensures
            r == MaybeOwnedSlice::Vec(v),
    {
        MaybeOwnedSlice::Vec(v)
    }
}

impl<'a> Sliceable for MaybeOwnedSlice<'a> {
    open spec fn bytes(&self) -> Seq<u8> {
        self@
    }

    fn as_slice(&self) -> (r: &[u8]) {
        match self {
            MaybeOwnedSlice::Slice(x) => x,
            MaybeOwnedSlice::Vec(x) => x.as_slice(),
        }
    }
}

/// The encoding of `input` as raw octets.
pub open spec fn raw_string_encoding(input: Seq<u8>) -> Seq<u8> {
    uint_encoding(input.len() as u64, 7, 0) + input
}

/// The encoding of `input`: Huffman-coded where it has 16 octets or more and
/// the Huffman code is shorter, raw otherwise.
pub open spec fn string_encoding(input: Seq<u8>) -> Seq<u8> {
    let coded = huffman_encoding(input);
    if input.len() < 16 || coded.len() >= input.len() {
        raw_string_encoding(input)
    } else {
        uint_encoding(coded.len() as u64, 7, 0x80) + coded
    }
}

/// What decoding a string from the start of `input` gives: the string and
/// the number of octets it took.
///
/// The input is short where the length is cut off or more octets are
/// announced than there are.
pub open spec fn string_decoding(input: Seq<u8>) -> Result<(Seq<u8>, int), DecodeError> {
    match uint_decoding(input, 7) {
        Err(e) => Err(e),
        Ok((len, used)) => {
            if input.len() - used < len {
                Err(DecodeError::Shortage)
            } else {
                let body = input.subrange(used, used + len);
                if input[0] & 0x80 == 0 {
                    Ok((body, used + len))
                } else {
                    match huffman_decoding(body) {
                        Some(text) => Ok((text, used + len)),
                        None => Err(DecodeError::HuffmanError),
                    }
                }
            }
        },
    }
}

/// Appends the encoding of `input` to `out`.
pub fn serialize_string(out: &mut Vec<u8>, input: &[u8])
    ensures
        final(out)@ == old(out)@ + string_encoding(input@),
{
    if input.len() < HUFFMAN_THRESHOLD {
        serialize_raw_string(out, input)
    } else {
        let mut tmp: Vec<u8> = Vec::new();
        encode(&mut tmp, input);
        assert(tmp@ =~= huffman_encoding(input@));
        if tmp.len() >= input.len() {
            serialize_raw_string(out, input)
        } else {
            let ghost start = out@;
            serialize_uint(out, tmp.len() as u64, 7, 0x80);
            let ghost coded = tmp@;
            out.append(&mut tmp);
            assert(out@ =~= start + (uint_encoding(coded.len() as u64, 7, 0x80) + coded));
        }
    }
}

/// Appends the encoding of `input` as raw octets to `out`.
pub fn serialize_raw_string(out: &mut Vec<u8>, input: &[u8])
    ensures
        final(out)@ == old(out)@ + raw_string_encoding(input@),
{
    let ghost start = out@;
    serialize_uint(out, input.len() as u64, 7, 0);
    let ghost mid = out@;
    out.extend_from_slice(input);
    assert(out@ =~= mid + input@);
    assert(out@ =~= start + raw_string_encoding(input@));
}

/// Decodes a string from the start of `input`, and returns it with the input
/// that follows it. A raw string comes as a part of the input, a
/// Huffman-coded one in a buffer of its own.
pub fn parse_string(input: &[u8]) -> (r: Result<(&[u8], MaybeOwnedSlice), DecodeError>)
    ensures
        match string_decoding(input@) {
            Ok((text, used)) => match r {
                Ok((rest, s)) => s@ == text && rest@ == input@.skip(used) && (s is Slice) == (
                input@[0] & 0x80 == 0),
                Err(_) => false,
            },
            Err(e) => match r {
                Ok(_) => false,
                Err(x) => x == e,
            },
        },
{
    if input.len() == 0 {
        return Err(DecodeError::Shortage);
    }
    let huffman_encoded = (input[0] & 0x80) != 0;
    proof {
        lemma_uint_decoding_used(input@, 7);
    }
    let (buf, len) = match parse_uint(input, 7) {
        Ok(x) => x,
        Err(e) => {
            return Err(e);
        },
    };
    if (buf.len() as u64) < len {
        return Err(DecodeError::Shortage);
    }
    let len = len as usize;
    let body = slice_subrange(buf, 0, len);
    let rem = slice_subrange(buf, len, buf.len());
    proof {
        let used = uint_decoding(input@, 7).unwrap().1;
        assert(body@ =~= input@.subrange(used, used + len));
        assert(rem@ =~= input@.skip(used + len));
    }
    if huffman_encoded {
        match decode(body) {
            Ok(text) => Ok((rem, MaybeOwnedSlice::new_with_vec(text))),
            Err(e) => Err(e),
        }
    } else {
        Ok((rem, MaybeOwnedSlice::new_with_slice(body)))
    }
}

/// A decoded string took at least one octet, and no more than there are.
pub proof fn lemma_string_decoding_used(input: Seq<u8>)
    ensures
        match string_decoding(input) {
            Ok((_, used)) => 1 <= used <= input.len(),
            Err(_) => true,
        },
{
    lemma_uint_decoding_used(input, 7);
}

/// Decoding undoes encoding: whatever follows the encoding of a string,
/// decoding gives the string back and stops where the encoding ends.
pub proof fn lemma_string_roundtrip(text: Seq<u8>, rest: Seq<u8>)
    requires
        text.len() <= u64::MAX,
    ensures
        string_decoding(string_encoding(text) + rest) == Ok::<(Seq<u8>, int), DecodeError>(
            (text, string_encoding(text).len() as int),
        ),
{
    let coded = huffman_encoding(text);
    let enc = string_encoding(text);
    let input = enc + rest;
    assert(prefix_mask(7) == 0x7f);
    if text.len() < 16 || coded.len() >= text.len() {
        let head = uint_encoding(text.len() as u64, 7, 0);
        lemma_uint_roundtrip(text.len() as u64, 7, 0, text + rest);
        assert(input =~= head + (text + rest));
        assert(input.subrange(head.len() as int, (head.len() + text.len()) as int) =~= text);
        lemma_flag_bit(text.len() as u64, 0);
        assert(input[0] == head[0]);
    } else {
        let head = uint_encoding(coded.len() as u64, 7, 0x80);
        lemma_uint_roundtrip(coded.len() as u64, 7, 0x80, coded + rest);
        assert(input =~= head + (coded + rest));
        assert(input.subrange(head.len() as int, (head.len() + coded.len()) as int) =~= coded);
        lemma_flag_bit(coded.len() as u64, 0x80);
        assert(input[0] == head[0]);
        lemma_decode_encode(text);
    }
}

/// The top bit of the first octet of a length is the bit that was handed in.
pub proof fn lemma_flag_bit(v: u64, flags: u8)
    requires
        flags == 0 || flags == 0x80,
    ensures
        uint_encoding(v, 7, flags).len() > 0,
        uint_encoding(v, 7, flags)[0] & 0x80 == flags,
{
    assert(prefix_mask(7) == 0x7f);
    let low: u8 = if v < 0x7f {
        v as u8
    } else {
        0x7f
    };
    assert(((flags & !0x7fu8) | low) & 0x80 == flags) by (bit_vector)
        requires
            flags == 0 || flags == 0x80,
            low <= 0x7f,
    ;
}

} // verus!
