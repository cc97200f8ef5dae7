pub mod bits;
pub mod decoder;
pub mod dynamic_table;
pub mod encoder;
pub mod field;
pub mod huffman;
pub mod huffman_codes;
pub mod integer;
pub mod maybe_owned_slice;
pub mod self_owned_slice;
pub mod static_entries;
pub mod static_table;
pub mod string;
pub mod symmetry;

pub use decoder::Decoder;
pub use encoder::Encoder;
pub use field::{CacheHint, DecoderField, EncoderField, HeaderField};

use vstd::prelude::*;
use crate::error::Code;
use static_table::StaticTableSeeker;

verus! {

/// Why a header block, or a part of one, could not be decoded.
#[derive(Debug, Clone, Copy, PartialEq, Eq, Structural)]
pub enum DecodeError {
    /// The input ends inside a representation.
    Shortage,
    /// An integer runs on for more octets than a 64-bit value can take.
    CorruptedInput,
    /// A string is not a valid Huffman encoding.
    HuffmanError,
    /// An indexed field names index 0.
    IndexZero,
    /// An index lies beyond the static and the dynamic table.
    IndexOutOfRange,
    /// An indexed field names an entry that has no value.
    NoValue,
    /// A dynamic table size update stands where a field is expected.
    MisplacedSizeUpdate,
    /// A dynamic table size update asks for more than the agreed limit.
    OversizedSizeUpdate,
}

/// What encoding and decoding share besides the dynamic tables: the search
/// in the static table.
#[derive(Debug)]
pub struct Context {
    static_table_seeker: StaticTableSeeker,
}

impl Context {
    pub fn new() -> Context {
        Context { static_table_seeker: StaticTableSeeker::new() }
    }
}

impl DecodeError {
    /// The error code that the error stands for on the connection: a
    /// protocol error for the index 0, a compression error for all others.
    pub open spec fn spec_code(self) -> Code {
        match self {
            DecodeError::IndexZero => Code::ProtocolError,
            _ => Code::CompressionError,
        }
    }

    pub fn code(&self) -> (r: Code)
        ensures
            r == self.spec_code(),
    {
        match self {
            DecodeError::IndexZero => Code::ProtocolError,
            _ => Code::CompressionError,
        }
    }

    /// The error in words.
    pub open spec fn spec_message(self) -> Seq<char> {
        match self {
            DecodeError::Shortage => "shortage of input on deserialization."@,
            DecodeError::CorruptedInput => "corrupted data."@,
            DecodeError::HuffmanError => "decode error on Huffman compressed headers."@,
            DecodeError::IndexZero => "request the index 0."@,
            DecodeError::IndexOutOfRange => "index out of space."@,
            DecodeError::NoValue => "request a indexed no-value header field."@,
            DecodeError::MisplacedSizeUpdate => "dynamic table size update after a header field."@,
            DecodeError::OversizedSizeUpdate => "dynamic table size update above the limit."@,
        }
    }

    pub fn message(&self) -> (r: &'static str)
        ensures
            r@ == self.spec_message(),
    {
        match self {
            DecodeError::Shortage => "shortage of input on deserialization.",
            DecodeError::CorruptedInput => "corrupted data.",
            DecodeError::HuffmanError => "decode error on Huffman compressed headers.",
            DecodeError::IndexZero => "request the index 0.",
            DecodeError::IndexOutOfRange => "index out of space.",
            DecodeError::NoValue => "request a indexed no-value header field.",
            DecodeError::MisplacedSizeUpdate => "dynamic table size update after a header field.",
            DecodeError::OversizedSizeUpdate => "dynamic table size update above the limit.",
        }
    }
}

} // verus!
