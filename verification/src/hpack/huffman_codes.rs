//! The static Huffman code of HPACK and the tables that decode it.
//!
//! The code is canonical: ordered by length and then by symbol, the code words
//! are consecutive numbers, doubled at each step to a longer length. A bit
//! string of length `n` that spells the number `v` is therefore
//! - the code word of a symbol if `first_code(n) <= v < code_limit(n)`,
//! - an inner node of the code tree if `code_limit(n) <= v`,
//! - below a shorter code word otherwise.

use vstd::prelude::*;

verus! {

/// The symbol that marks the end of a Huffman-coded string.
pub const EOS: u16 = 256;

/// The Huffman code of each symbol, right-aligned (RFC 7541, Appendix B).
/// Indices 0..=255 are the octets; index 256 is the end-of-string symbol.
pub const CODE_LSB: [u32; 257] = [
    0x1ff8, 0x7fffd8, 0xfffffe2, 0xfffffe3, 0xfffffe4, 0xfffffe5, 0xfffffe6, 0xfffffe7,
    0xfffffe8, 0xffffea, 0x3ffffffc, 0xfffffe9, 0xfffffea, 0x3ffffffd, 0xfffffeb, 0xfffffec,
    0xfffffed, 0xfffffee, 0xfffffef, 0xffffff0, 0xffffff1, 0xffffff2, 0x3ffffffe, 0xffffff3,
    0xffffff4, 0xffffff5, 0xffffff6, 0xffffff7, 0xffffff8, 0xffffff9, 0xffffffa, 0xffffffb,
    0x14, 0x3f8, 0x3f9, 0xffa, 0x1ff9, 0x15, 0xf8, 0x7fa,
    0x3fa, 0x3fb, 0xf9, 0x7fb, 0xfa, 0x16, 0x17, 0x18,
    0x0, 0x1, 0x2, 0x19, 0x1a, 0x1b, 0x1c, 0x1d,
    0x1e, 0x1f, 0x5c, 0xfb, 0x7ffc, 0x20, 0xffb, 0x3fc,
    0x1ffa, 0x21, 0x5d, 0x5e, 0x5f, 0x60, 0x61, 0x62,
    0x63, 0x64, 0x65, 0x66, 0x67, 0x68, 0x69, 0x6a,
    0x6b, 0x6c, 0x6d, 0x6e, 0x6f, 0x70, 0x71, 0x72,
    0xfc, 0x73, 0xfd, 0x1ffb, 0x7fff0, 0x1ffc, 0x3ffc, 0x22,
    0x7ffd, 0x3, 0x23, 0x4, 0x24, 0x5, 0x25, 0x26,
    0x27, 0x6, 0x74, 0x75, 0x28, 0x29, 0x2a, 0x7,
    0x2b, 0x76, 0x2c, 0x8, 0x9, 0x2d, 0x77, 0x78,
    0x79, 0x7a, 0x7b, 0x7ffe, 0x7fc, 0x3ffd, 0x1ffd, 0xffffffc,
    0xfffe6, 0x3fffd2, 0xfffe7, 0xfffe8, 0x3fffd3, 0x3fffd4, 0x3fffd5, 0x7fffd9,
    0x3fffd6, 0x7fffda, 0x7fffdb, 0x7fffdc, 0x7fffdd, 0x7fffde, 0xffffeb, 0x7fffdf,
    0xffffec, 0xffffed, 0x3fffd7, 0x7fffe0, 0xffffee, 0x7fffe1, 0x7fffe2, 0x7fffe3,
    0x7fffe4, 0x1fffdc, 0x3fffd8, 0x7fffe5, 0x3fffd9, 0x7fffe6, 0x7fffe7, 0xffffef,
    0x3fffda, 0x1fffdd, 0xfffe9, 0x3fffdb, 0x3fffdc, 0x7fffe8, 0x7fffe9, 0x1fffde,
    0x7fffea, 0x3fffdd, 0x3fffde, 0xfffff0, 0x1fffdf, 0x3fffdf, 0x7fffeb, 0x7fffec,
    0x1fffe0, 0x1fffe1, 0x3fffe0, 0x1fffe2, 0x7fffed, 0x3fffe1, 0x7fffee, 0x7fffef,
    0xfffea, 0x3fffe2, 0x3fffe3, 0x3fffe4, 0x7ffff0, 0x3fffe5, 0x3fffe6, 0x7ffff1,
    0x3ffffe0, 0x3ffffe1, 0xfffeb, 0x7fff1, 0x3fffe7, 0x7ffff2, 0x3fffe8, 0x1ffffec,
    0x3ffffe2, 0x3ffffe3, 0x3ffffe4, 0x7ffffde, 0x7ffffdf, 0x3ffffe5, 0xfffff1, 0x1ffffed,
    0x7fff2, 0x1fffe3, 0x3ffffe6, 0x7ffffe0, 0x7ffffe1, 0x3ffffe7, 0x7ffffe2, 0xfffff2,
    0x1fffe4, 0x1fffe5, 0x3ffffe8, 0x3ffffe9, 0xffffffd, 0x7ffffe3, 0x7ffffe4, 0x7ffffe5,
    0xfffec, 0xfffff3, 0xfffed, 0x1fffe6, 0x3fffe9, 0x1fffe7, 0x1fffe8, 0x7ffff3,
    0x3fffea, 0x3fffeb, 0x1ffffee, 0x1ffffef, 0xfffff4, 0xfffff5, 0x3ffffea, 0x7ffff4,
    0x3ffffeb, 0x7ffffe6, 0x3ffffec, 0x3ffffed, 0x7ffffe7, 0x7ffffe8, 0x7ffffe9, 0x7ffffea,
    0x7ffffeb, 0xffffffe, 0x7ffffec, 0x7ffffed, 0x7ffffee, 0x7ffffef, 0x7fffff0, 0x3ffffee,
    0x3fffffff,
];

/// The length in bits of the Huffman code of each symbol.
pub const CODE_BITS: [u8; 257] = [
    13, 23, 28, 28, 28, 28, 28, 28, 28, 24, 30, 28, 28, 30, 28, 28,
    28, 28, 28, 28, 28, 28, 30, 28, 28, 28, 28, 28, 28, 28, 28, 28,
    6, 10, 10, 12, 13, 6, 8, 11, 10, 10, 8, 11, 8, 6, 6, 6,
    5, 5, 5, 6, 6, 6, 6, 6, 6, 6, 7, 8, 15, 6, 12, 10,
    13, 6, 7, 7, 7, 7, 7, 7, 7, 7, 7, 7, 7, 7, 7, 7,
    7, 7, 7, 7, 7, 7, 7, 7, 8, 7, 8, 13, 19, 13, 14, 6,
    15, 5, 6, 5, 6, 5, 6, 6, 6, 5, 7, 7, 6, 6, 6, 5,
    6, 7, 6, 5, 5, 6, 7, 7, 7, 7, 7, 15, 11, 14, 13, 28,
    20, 22, 20, 20, 22, 22, 22, 23, 22, 23, 23, 23, 23, 23, 24, 23,
    24, 24, 22, 23, 24, 23, 23, 23, 23, 21, 22, 23, 22, 23, 23, 24,
    22, 21, 20, 22, 22, 23, 23, 21, 23, 22, 22, 24, 21, 22, 23, 23,
    21, 21, 22, 21, 23, 22, 23, 23, 20, 22, 22, 22, 23, 22, 22, 23,
    26, 26, 20, 19, 22, 23, 22, 25, 26, 26, 26, 27, 27, 26, 24, 25,
    19, 21, 26, 27, 27, 26, 27, 24, 21, 21, 26, 26, 28, 27, 27, 27,
    20, 24, 20, 21, 22, 21, 21, 23, 22, 22, 25, 25, 24, 24, 26, 23,
    26, 27, 26, 26, 27, 27, 27, 27, 27, 28, 27, 27, 27, 27, 27, 26,
    30,
];

/// All symbols ordered by code length, then by symbol: the order in which a
/// canonical Huffman code hands out consecutive code words.
pub const SYMBOLS: [u16; 257] = [
    48, 49, 50, 97, 99, 101, 105, 111, 115, 116, 32, 37, 45, 46, 47, 51,
    52, 53, 54, 55, 56, 57, 61, 65, 95, 98, 100, 102, 103, 104, 108, 109,
    110, 112, 114, 117, 58, 66, 67, 68, 69, 70, 71, 72, 73, 74, 75, 76,
    77, 78, 79, 80, 81, 82, 83, 84, 85, 86, 87, 89, 106, 107, 113, 118,
    119, 120, 121, 122, 38, 42, 44, 59, 88, 90, 33, 34, 40, 41, 63, 39,
    43, 124, 35, 62, 0, 36, 64, 91, 93, 126, 94, 125, 60, 96, 123, 92,
    195, 208, 128, 130, 131, 162, 184, 194, 224, 226, 153, 161, 167, 172, 176, 177,
    179, 209, 216, 217, 227, 229, 230, 129, 132, 133, 134, 136, 146, 154, 156, 160,
    163, 164, 169, 170, 173, 178, 181, 185, 186, 187, 189, 190, 196, 198, 228, 232,
    233, 1, 135, 137, 138, 139, 140, 141, 143, 147, 149, 150, 151, 152, 155, 157,
    158, 165, 166, 168, 174, 175, 180, 182, 183, 188, 191, 197, 231, 239, 9, 142,
    144, 145, 148, 159, 171, 206, 215, 225, 236, 237, 199, 207, 234, 235, 192, 193,
    200, 201, 202, 205, 210, 213, 218, 219, 238, 240, 242, 243, 255, 203, 204, 211,
    212, 214, 221, 222, 223, 241, 244, 245, 246, 247, 248, 250, 251, 252, 253, 254,
    2, 3, 4, 5, 6, 7, 8, 11, 12, 14, 15, 16, 17, 18, 19, 20,
    21, 23, 24, 25, 26, 27, 28, 29, 30, 31, 127, 220, 249, 10, 13, 22,
    256,
];

/// For each length `0..=30`, the smallest code word of that length.
/// Where no code has the length, the word the next code of that length would get.
pub const FIRST_CODE: [u32; 31] = [
    0x0, 0x0, 0x0, 0x0, 0x0, 0x0, 0x14, 0x5c,
    0xf8, 0x1fc, 0x3f8, 0x7fa, 0xffa, 0x1ff8, 0x3ffc, 0x7ffc,
    0xfffe, 0x1fffc, 0x3fff8, 0x7fff0, 0xfffe6, 0x1fffdc, 0x3fffd2, 0x7fffd8,
    0xffffea, 0x1ffffec, 0x3ffffe0, 0x7ffffde, 0xfffffe2, 0x1ffffffe, 0x3ffffffc,
];

/// For each length `0..=30`, how many symbols have a code of that length.
pub const CODE_COUNT: [u16; 31] = [
    0, 0, 0, 0, 0, 10, 26, 32, 6, 0, 5, 3, 2, 6, 2, 3,
    0, 0, 0, 3, 8, 13, 26, 29, 12, 4, 15, 19, 29, 0, 4,
];

/// For each length `0..=30`, the position in `SYMBOLS` of the first symbol
/// whose code has that length.
pub const FIRST_INDEX: [u16; 31] = [
    0, 0, 0, 0, 0, 0, 10, 36, 68, 74, 74, 79, 82, 84, 90, 92,
    95, 95, 95, 95, 98, 106, 119, 145, 174, 186, 190, 205, 224, 253, 253,
];

/// For each length `0..=30`, the word of that length whose bits are all one:
/// the initial segments of the code of `EOS`.
pub const ALL_ONES: [u32; 31] = [
    0x0, 0x1, 0x3, 0x7, 0xf, 0x1f, 0x3f, 0x7f,
    0xff, 0x1ff, 0x3ff, 0x7ff, 0xfff, 0x1fff, 0x3fff, 0x7fff,
    0xffff, 0x1ffff, 0x3ffff, 0x7ffff, 0xfffff, 0x1fffff, 0x3fffff, 0x7fffff,
    0xffffff, 0x1ffffff, 0x3ffffff, 0x7ffffff, 0xfffffff, 0x1fffffff, 0x3fffffff,
];

/// `sym` is an octet or `EOS`.
pub open spec fn is_symbol(sym: int) -> bool {
    0 <= sym <= 256
}

/// The code word of `sym`, read as a number.
pub closed spec fn code_lsb(sym: int) -> int {
    CODE_LSB[sym] as int
}

/// The number of bits in the code word of `sym`.
pub closed spec fn code_bits(sym: int) -> int {
    CODE_BITS[sym] as int
}

/// The smallest code word of length `len`.
pub closed spec fn first_code(len: int) -> int {
    FIRST_CODE[len] as int
}

/// The number of code words of length `len`.
pub closed spec fn code_count(len: int) -> int {
    CODE_COUNT[len] as int
}

/// The position in `SYMBOLS` of the first symbol with a code of length `len`.
pub closed spec fn first_index(len: int) -> int {
    FIRST_INDEX[len] as int
}

/// The symbol at position `idx` of the canonical order.
pub closed spec fn symbol_at(idx: int) -> int {
    SYMBOLS[idx] as int
}

/// The word of `len` one bits, read as a number.
pub closed spec fn all_ones(len: int) -> int {
    ALL_ONES[len] as int
}

/// One more than the largest code word of length `len`: words of that length
/// from here on are inner nodes of the code tree.
pub open spec fn code_limit(len: int) -> int {
    first_code(len) + code_count(len)
}

/// The symbol whose code word has length `len` and spells `code`.
pub open spec fn symbol_of(len: int, code: int) -> int {
    symbol_at(first_index(len) + code - first_code(len))
}

/// The code of a symbol is the one in the tables.
pub proof fn lemma_code_in_tables(sym: int)
    ensures
        code_lsb(sym) == CODE_LSB[sym],
        code_bits(sym) == CODE_BITS[sym],
{
}

/// Every symbol's code word lies among the code words of its length, at the
/// place that the canonical order gives the symbol.
#[verifier::rlimit(60)]
pub proof fn lemma_symbol_position(sym: int)
    requires
        is_symbol(sym),
    ensures
        5 <= code_bits(sym) <= 30,
        first_code(code_bits(sym)) <= code_lsb(sym) < code_limit(code_bits(sym)),
        symbol_of(code_bits(sym), code_lsb(sym)) == sym,
{
}

/// Every number among the code words of a length is the code word of the
/// symbol that `symbol_of` names.
#[verifier::rlimit(60)]
pub proof fn lemma_symbol_of(len: int, code: int)
    requires
        0 <= len <= 30,
        first_code(len) <= code < code_limit(len),
    ensures
        is_symbol(symbol_of(len, code)),
        code_bits(symbol_of(len, code)) == len,
        code_lsb(symbol_of(len, code)) == code,
{
}

/// How the tables of one length follow from those of the length before.
#[verifier::rlimit(60)]
pub proof fn lemma_length_step(len: int)
    requires
        0 <= len < 30,
    ensures
        first_code(len + 1) == 2 * code_limit(len),
        all_ones(len + 1) == 2 * all_ones(len) + 1,
        0 <= first_code(len) <= code_limit(len) <= all_ones(len),
        all_ones(len + 1) <= 0x3fff_ffff,
{
}

/// The code is complete: at the greatest length every word is a code word.
pub proof fn lemma_longest_codes()
    ensures
        all_ones(0) == 0,
        first_code(0) == 0,
        code_limit(0) == 0,
        code_limit(30) == all_ones(30) + 1,
        0 <= first_code(30),
        code_lsb(EOS as int) == all_ones(30),
        code_bits(EOS as int) == 30,
{
}

/// The code word of the octet `sym`, as a number and a count of bits.
pub fn code_of(sym: u8) -> (r: (u32, u8))
    ensures
        r.0 == code_lsb(sym as int),
        r.1 == code_bits(sym as int),
{
    (CODE_LSB[sym as usize], CODE_BITS[sym as usize])
}

/// The smallest code word of length `len`, and one more than the largest.
pub fn code_range(len: u8) -> (r: (u32, u32))
    requires
        len <= 30,
    ensures
        r.0 == first_code(len as int),
        r.1 == code_limit(len as int),
{
    let first = FIRST_CODE[len as usize];
    (first, first + CODE_COUNT[len as usize] as u32)
}

/// The symbol whose code word has `len` bits and spells `code`.
#[verifier::rlimit(60)]
pub fn symbol_for(len: u8, code: u32) -> (sym: u16)
    requires
        len <= 30,
        first_code(len as int) <= code < code_limit(len as int),
    ensures
        sym == symbol_of(len as int, code as int),
{
    let idx = FIRST_INDEX[len as usize] as u32 + (code - FIRST_CODE[len as usize]);
    SYMBOLS[idx as usize]
}

/// The word of `len` one bits.
pub fn ones_word(len: u8) -> (r: u32)
    requires
        len <= 30,
    ensures
        r == all_ones(len as int),
{
    ALL_ONES[len as usize]
}

} // verus!
