//! The contents of the static table (RFC 7541, Appendix A).
//!
//! | index | name | value |
//! |---|---|---|
//! | 1 | `:authority` |  |
//! | 2 | `:method` | `GET` |
//! | 3 | `:method` | `POST` |
//! | 4 | `:path` | `/` |
//! | 5 | `:path` | `/index.html` |
//! | 6 | `:scheme` | `http` |
//! | 7 | `:scheme` | `https` |
//! | 8 | `:status` | `200` |
//! | 9 | `:status` | `204` |
//! | 10 | `:status` | `206` |
//! | 11 | `:status` | `304` |
//! | 12 | `:status` | `400` |
//! | 13 | `:status` | `404` |
//! | 14 | `:status` | `500` |
//! | 15 | `accept-charset` |  |
//! | 16 | `accept-encoding` | `gzip, deflate` |
//! | 17 | `accept-language` |  |
//! | 18 | `accept-ranges` |  |
//! | 19 | `accept` |  |
//! | 20 | `access-control-allow-origin` |  |
//! | 21 | `age` |  |
//! | 22 | `allow` |  |
//! | 23 | `authorization` |  |
//! | 24 | `cache-control` |  |
//! | 25 | `content-disposition` |  |
//! | 26 | `content-encoding` |  |
//! | 27 | `content-language` |  |
//! | 28 | `content-length` |  |
//! | 29 | `content-location` |  |
//! | 30 | `content-range` |  |
//! | 31 | `content-type` |  |
//! | 32 | `cookie` |  |
//! | 33 | `date` |  |
//! | 34 | `etag` |  |
//! | 35 | `expect` |  |
//! | 36 | `expires` |  |
//! | 37 | `from` |  |
//! | 38 | `host` |  |
//! | 39 | `if-match` |  |
//! | 40 | `if-modified-since` |  |
//! | 41 | `if-none-match` |  |
//! | 42 | `if-range` |  |
//! | 43 | `if-unmodified-since` |  |
//! | 44 | `last-modified` |  |
//! | 45 | `link` |  |
//! | 46 | `location` |  |
//! | 47 | `max-forwards` |  |
//! | 48 | `proxy-authenticate` |  |
//! | 49 | `proxy-authorization` |  |
//! | 50 | `range` |  |
//! | 51 | `referer` |  |
//! | 52 | `refresh` |  |
//! | 53 | `retry-after` |  |
//! | 54 | `server` |  |
//! | 55 | `set-cookie` |  |
//! | 56 | `strict-transport-security` |  |
//! | 57 | `transfer-encoding` |  |
//! | 58 | `user-agent` |  |
//! | 59 | `vary` |  |
//! | 60 | `via` |  |
//! | 61 | `www-authenticate` |  |

use vstd::prelude::*;
use vstd::array::array_as_slice;
use vstd::slice::slice_subrange;

verus! {

/// The names and values of all entries, one after the other: of each entry
/// its name and then, where it has one, its value. The bytes are ASCII.
pub const POOL: [u8; 684] = [
    58, 97, 117, 116, 104, 111, 114, 105, 116, 121, 58, 109, 101, 116, 104, 111,
    100, 71, 69, 84, 58, 109, 101, 116, 104, 111, 100, 80, 79, 83, 84, 58,
    112, 97, 116, 104, 47, 58, 112, 97, 116, 104, 47, 105, 110, 100, 101, 120,
    46, 104, 116, 109, 108, 58, 115, 99, 104, 101, 109, 101, 104, 116, 116, 112,
    58, 115, 99, 104, 101, 109, 101, 104, 116, 116, 112, 115, 58, 115, 116, 97,
    116, 117, 115, 50, 48, 48, 58, 115, 116, 97, 116, 117, 115, 50, 48, 52,
    58, 115, 116, 97, 116, 117, 115, 50, 48, 54, 58, 115, 116, 97, 116, 117,
    115, 51, 48, 52, 58, 115, 116, 97, 116, 117, 115, 52, 48, 48, 58, 115,
    116, 97, 116, 117, 115, 52, 48, 52, 58, 115, 116, 97, 116, 117, 115, 53,
    48, 48, 97, 99, 99, 101, 112, 116, 45, 99, 104, 97, 114, 115, 101, 116,
    97, 99, 99, 101, 112, 116, 45, 101, 110, 99, 111, 100, 105, 110, 103, 103,
    122, 105, 112, 44, 32, 100, 101, 102, 108, 97, 116, 101, 97, 99, 99, 101,
    112, 116, 45, 108, 97, 110, 103, 117, 97, 103, 101, 97, 99, 99, 101, 112,
    116, 45, 114, 97, 110, 103, 101, 115, 97, 99, 99, 101, 112, 116, 97, 99,
    99, 101, 115, 115, 45, 99, 111, 110, 116, 114, 111, 108, 45, 97, 108, 108,
    111, 119, 45, 111, 114, 105, 103, 105, 110, 97, 103, 101, 97, 108, 108, 111,
    119, 97, 117, 116, 104, 111, 114, 105, 122, 97, 116, 105, 111, 110, 99, 97,
    99, 104, 101, 45, 99, 111, 110, 116, 114, 111, 108, 99, 111, 110, 116, 101,
    110, 116, 45, 100, 105, 115, 112, 111, 115, 105, 116, 105, 111, 110, 99, 111,
    110, 116, 101, 110, 116, 45, 101, 110, 99, 111, 100, 105, 110, 103, 99, 111,
    110, 116, 101, 110, 116, 45, 108, 97, 110, 103, 117, 97, 103, 101, 99, 111,
    110, 116, 101, 110, 116, 45, 108, 101, 110, 103, 116, 104, 99, 111, 110, 116,
    101, 110, 116, 45, 108, 111, 99, 97, 116, 105, 111, 110, 99, 111, 110, 116,
    101, 110, 116, 45, 114, 97, 110, 103, 101, 99, 111, 110, 116, 101, 110, 116,
    45, 116, 121, 112, 101, 99, 111, 111, 107, 105, 101, 100, 97, 116, 101, 101,
    116, 97, 103, 101, 120, 112, 101, 99, 116, 101, 120, 112, 105, 114, 101, 115,
    102, 114, 111, 109, 104, 111, 115, 116, 105, 102, 45, 109, 97, 116, 99, 104,
    105, 102, 45, 109, 111, 100, 105, 102, 105, 101, 100, 45, 115, 105, 110, 99,
    101, 105, 102, 45, 110, 111, 110, 101, 45, 109, 97, 116, 99, 104, 105, 102,
    45, 114, 97, 110, 103, 101, 105, 102, 45, 117, 110, 109, 111, 100, 105, 102,
    105, 101, 100, 45, 115, 105, 110, 99, 101, 108, 97, 115, 116, 45, 109, 111,
    100, 105, 102, 105, 101, 100, 108, 105, 110, 107, 108, 111, 99, 97, 116, 105,
    111, 110, 109, 97, 120, 45, 102, 111, 114, 119, 97, 114, 100, 115, 112, 114,
    111, 120, 121, 45, 97, 117, 116, 104, 101, 110, 116, 105, 99, 97, 116, 101,
    112, 114, 111, 120, 121, 45, 97, 117, 116, 104, 111, 114, 105, 122, 97, 116,
    105, 111, 110, 114, 97, 110, 103, 101, 114, 101, 102, 101, 114, 101, 114, 114,
    101, 102, 114, 101, 115, 104, 114, 101, 116, 114, 121, 45, 97, 102, 116, 101,
    114, 115, 101, 114, 118, 101, 114, 115, 101, 116, 45, 99, 111, 111, 107, 105,
    101, 115, 116, 114, 105, 99, 116, 45, 116, 114, 97, 110, 115, 112, 111, 114,
    116, 45, 115, 101, 99, 117, 114, 105, 116, 121, 116, 114, 97, 110, 115, 102,
    101, 114, 45, 101, 110, 99, 111, 100, 105, 110, 103, 117, 115, 101, 114, 45,
    97, 103, 101, 110, 116, 118, 97, 114, 121, 118, 105, 97, 119, 119, 119, 45,
    97, 117, 116, 104, 101, 110, 116, 105, 99, 97, 116, 101,
];

/// Where in `POOL` the name of each entry begins. The value follows the name.
pub const NAME_START: [u16; 62] = [
    0, 0, 10, 20, 31, 37, 53, 64, 76, 86, 96, 106, 116, 126, 136, 146,
    160, 188, 203, 216, 222, 249, 252, 257, 270, 283, 302, 318, 334, 348, 364, 377,
    389, 395, 399, 403, 409, 416, 420, 424, 432, 449, 462, 470, 489, 502, 506, 514,
    526, 544, 563, 568, 575, 582, 593, 599, 609, 634, 651, 661, 665, 668,
];

/// The length of the name of each entry.
pub const NAME_LEN: [u8; 62] = [
    0, 10, 7, 7, 5, 5, 7, 7, 7, 7, 7, 7, 7, 7, 7, 14,
    15, 15, 13, 6, 27, 3, 5, 13, 13, 19, 16, 16, 14, 16, 13, 12,
    6, 4, 4, 6, 7, 4, 4, 8, 17, 13, 8, 19, 13, 4, 8, 12,
    18, 19, 5, 7, 7, 11, 6, 10, 25, 17, 10, 4, 3, 16,
];

/// The length of the value of each entry; 0 where it has none.
pub const VALUE_LEN: [u8; 62] = [
    0, 0, 3, 4, 1, 11, 4, 5, 3, 3, 3, 3, 3, 3, 3, 0,
    13, 0, 0, 0, 0, 0, 0, 0, 0, 0, 0, 0, 0, 0, 0, 0,
    0, 0, 0, 0, 0, 0, 0, 0, 0, 0, 0, 0, 0, 0, 0, 0,
    0, 0, 0, 0, 0, 0, 0, 0, 0, 0, 0, 0, 0, 0,
];

/// Whether each entry has a value.
pub const HAS_VALUE: [bool; 62] = [
    false, false, true, true, true, true, true, true,
    true, true, true, true, true, true, true, false,
    true, false, false, false, false, false, false, false,
    false, false, false, false, false, false, false, false,
    false, false, false, false, false, false, false, false,
    false, false, false, false, false, false, false, false,
    false, false, false, false, false, false, false, false,
    false, false, false, false, false, false,
];

/// A short key of the name of each entry, made of its length, its first byte
/// and one more byte (see `key_of`). Names that differ have keys that differ.
const NAME_KEY: [u32; 62] = [
    0x0, 0xa3a79, 0x73a64, 0x73a64, 0x53a68, 0x53a68, 0x73a65, 0x73a65,
    0x73a73, 0x73a73, 0x73a73, 0x73a73, 0x73a73, 0x73a73, 0x73a73, 0xe6161,
    0xf6163, 0xf616e, 0xd616e, 0x66174, 0x1b616e, 0x36165, 0x56177, 0xd6174,
    0xd6374, 0x136369, 0x10636e, 0x106361, 0xe6365, 0x10636f, 0xd6361, 0xc6379,
    0x66365, 0x46465, 0x46567, 0x66574, 0x76573, 0x4666d, 0x46874, 0x86968,
    0x116965, 0xd6961, 0x86965, 0x136966, 0xd6c66, 0x46c6b, 0x86c6e, 0xc6d72,
    0x127068, 0x137068, 0x57265, 0x77272, 0x77268, 0xb7265, 0x67372, 0xa7365,
    0x197361, 0x117465, 0xa7574, 0x47679, 0x37661, 0x10776e,
];

/// A short key of the value of each entry (see `value_key_of`); 0 where it has
/// none. Values that differ under one name have keys that differ.
const VALUE_KEY: [u32; 62] = [
    0x0, 0x0, 0x34754, 0x45053, 0x12f2f, 0xb2f6e, 0x46874, 0x56874,
    0x33230, 0x33234, 0x33236, 0x33334, 0x33430, 0x33434, 0x33530, 0x0,
    0xd6769, 0x0, 0x0, 0x0, 0x0, 0x0, 0x0, 0x0,
    0x0, 0x0, 0x0, 0x0, 0x0, 0x0, 0x0, 0x0,
    0x0, 0x0, 0x0, 0x0, 0x0, 0x0, 0x0, 0x0,
    0x0, 0x0, 0x0, 0x0, 0x0, 0x0, 0x0, 0x0,
    0x0, 0x0, 0x0, 0x0, 0x0, 0x0, 0x0, 0x0,
    0x0, 0x0, 0x0, 0x0, 0x0, 0x0,
];

/// The name of the entry at `idx`.
pub closed spec fn static_name(idx: int) -> Seq<u8> {
    POOL@.subrange(NAME_START[idx] as int, NAME_START[idx] + NAME_LEN[idx])
}

/// The value of the entry at `idx`, where it has one.
pub closed spec fn static_value(idx: int) -> Option<Seq<u8>> {
    if HAS_VALUE[idx] {
        Some(
            POOL@.subrange(
                NAME_START[idx] + NAME_LEN[idx],
                NAME_START[idx] + NAME_LEN[idx] + VALUE_LEN[idx],
            ),
        )
    } else {
        None
    }
}

/// What the tables say the entry at `idx` holds: its name, and its value
/// where it has one.
pub open spec fn entry_in_tables(idx: int) -> (Seq<u8>, Option<Seq<u8>>) {
    let start = NAME_START[idx] as int;
    let mid = start + NAME_LEN[idx];
    (
        POOL@.subrange(start, mid),
        if HAS_VALUE[idx] {
            Some(POOL@.subrange(mid, mid + VALUE_LEN[idx]))
        } else {
            None
        },
    )
}

/// The entries are those of the tables.
pub proof fn lemma_static_contents(idx: int)
    ensures
        static_name(idx) == entry_in_tables(idx).0,
        static_value(idx) == entry_in_tables(idx).1,
{
}

/// A short key of a name: its length, its first byte and its byte at the
/// place 9, or its last byte where it is shorter.
pub open spec fn key_of(s: Seq<u8>) -> int {
    if s.len() == 0 {
        0
    } else {
        s.len() * 65536 + s[0] * 256 + s[if s.len() > 9 { 9 } else { s.len() - 1 }]
    }
}

/// A short key of a value: its length, its first byte and its byte at the
/// place 2, or its last byte where it is shorter.
pub open spec fn value_key_of(s: Seq<u8>) -> int {
    if s.len() == 0 {
        0
    } else {
        s.len() * 65536 + s[0] * 256 + s[if s.len() > 2 { 2 } else { s.len() - 1 }]
    }
}

pub closed spec fn name_key(idx: int) -> int {
    NAME_KEY[idx] as int
}

pub closed spec fn value_key(idx: int) -> int {
    VALUE_KEY[idx] as int
}

/// The name and the value of the entry at `idx`. At the index 0, which no
/// entry has, the name is empty and there is no value.
pub fn entry_bytes(idx: usize) -> (r: (&'static [u8], Option<&'static [u8]>))
    requires
        idx <= 61,
    ensures
        r.0@ == static_name(idx as int),
        match r.1 {
            Some(v) => static_value(idx as int) == Some(v@),
            None => static_value(idx as int).is_none(),
        },
{
    let pool: &'static [u8; 684] = &POOL;
    let bytes = array_as_slice(pool);
    let start = NAME_START[idx] as usize;
    let mid = start + NAME_LEN[idx] as usize;
    let name = slice_subrange(bytes, start, mid);
    let value = if HAS_VALUE[idx] {
        Some(slice_subrange(bytes, mid, mid + VALUE_LEN[idx] as usize))
    } else {
        None
    };
    (name, value)
}

/// The key of an entry's name is the key in the table.
#[verifier::rlimit(60)]
pub proof fn lemma_name_key(idx: int)
    requires
        1 <= idx <= 61,
    ensures
        key_of(static_name(idx)) == name_key(idx),
{
    let start = NAME_START[idx] as int;
    let len = NAME_LEN[idx] as int;
    let name = static_name(idx);
    assert(0 < len && start + len <= 684);
    assert(name.len() == len);
    assert(name[0] == POOL@[start]);
    let at = if len > 9 { 9 } else { len - 1 };
    assert(name[at] == POOL@[start + at]);
    assert(len * 65536 + POOL[start] * 256 + POOL[start + at] == NAME_KEY[idx]);
}

/// The key of an entry's value is the key in the table.
#[verifier::rlimit(60)]
pub proof fn lemma_value_key(idx: int)
    requires
        1 <= idx <= 61,
        static_value(idx).is_some(),
    ensures
        value_key_of(static_value(idx).unwrap()) == value_key(idx),
{
    let start = NAME_START[idx] + NAME_LEN[idx];
    let len = VALUE_LEN[idx] as int;
    let value = static_value(idx).unwrap();
    assert(0 < len && start + len <= 684);
    assert(value.len() == len);
    assert(value[0] == POOL@[start]);
    let at = if len > 2 { 2 } else { len - 1 };
    assert(value[at] == POOL@[start + at]);
    assert(len * 65536 + POOL[start] * 256 + POOL[start + at] == VALUE_KEY[idx]);
}

/// The key of the name of an entry without a value is the key of no other
/// entry's name.
#[verifier::rlimit(60)]
pub proof fn lemma_bare_key_unique(i: int, j: int)
    requires
        1 <= i <= 61,
        1 <= j <= 61,
        i != j,
        static_value(i).is_none(),
    ensures
        name_key(i) != name_key(j),
{
}

/// No two entries with a value have the same keys of name and value.
#[verifier::rlimit(60)]
pub proof fn lemma_field_key_unique(i: int, j: int)
    requires
        1 <= i <= 61,
        1 <= j <= 61,
        i != j,
        static_value(i).is_some(),
        static_value(j).is_some(),
    ensures
        name_key(i) != name_key(j) || value_key(i) != value_key(j),
{
}

} // verus!
