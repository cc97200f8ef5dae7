//! Byte strings that surface their bytes on demand.

use vstd::prelude::*;
use vstd::array::array_as_slice;
use vstd::slice::{slice_subrange, slice_to_vec};
use vstd::string::StringExecFns;

verus! {

/// A value that holds a byte string and can hand it out as a slice.
pub trait Sliceable {
    /// The bytes that the value holds.
    spec fn bytes(&self) -> Seq<u8>;

    fn as_slice(&self) -> (r: &[u8])
        ensures
            r@ == self.bytes(),
    ;
}

impl Sliceable for Vec<u8> {
    open spec fn bytes(&self) -> Seq<u8> {
        self@
    }

    fn as_slice(&self) -> (r: &[u8]) {
        self.as_slice()
    }
}

/// A byte string of any kind behind one type. It owns a copy of the bytes.
#[derive(Debug)]
pub struct AnySliceable(Vec<u8>);

impl View for AnySliceable {
    type V = Seq<u8>;

    closed spec fn view(&self) -> Seq<u8> {
        self.0@
    }
}

impl AnySliceable {
    pub fn new<T: Sliceable>(obj: T) -> (r: AnySliceable)
        ensures
            r@ == obj.bytes(),
    {
        AnySliceable(slice_to_vec(obj.as_slice()))
    }
}

impl Sliceable for AnySliceable {
    open spec fn bytes(&self) -> Seq<u8> {
        self@
    }

    fn as_slice(&self) -> (r: &[u8]) {
        self.0.as_slice()
    }
}

/// The longest byte string that is kept inline.
pub const INLINE_CAPACITY: usize = 15;

/// The bytes of an inline byte string: the first `len` of `arr`.
pub open spec fn inline_bytes(len: u8, arr: [u8; 15]) -> Seq<u8> {
    arr@.take(
        if len <= 15 {
            len as int
        } else {
            15
        },
    )
}

/// Copies a byte string of up to 15 bytes into an array, with its length.
pub fn try_inline(v: &[u8]) -> (r: Option<(u8, [u8; 15])>)
    ensures
        r.is_some() == (v@.len() <= 15),
        match r {
            Some((len, arr)) => inline_bytes(len, arr) == v@,
            None => true,
        },
{
    if v.len() > INLINE_CAPACITY {
        return None;
    }
    let mut dst = [0u8;15];
    let mut i: usize = 0;
    while i < v.len()
        invariant
            i <= v.len() <= 15,
            forall|j: int| 0 <= j < i ==> dst@[j] == v@[j],
        decreases v.len() - i,
    {
        dst[i] = v[i];
        i += 1;
    }
    assert(inline_bytes(v.len() as u8, dst) =~= v@);
    Some((v.len() as u8, dst))
}

/// The bytes of an inline byte string as a slice.
pub fn inline_slice<'a>(len: u8, arr: &'a [u8; 15]) -> (r: &'a [u8])
    ensures
        r@ == inline_bytes(len, *arr),
{
    let n: usize = if len <= 15 {
        len as usize
    } else {
        15
    };
    slice_subrange(array_as_slice(arr), 0, n)
}

/// Whether two byte strings hold the same bytes.
pub fn bytes_eq(a: &[u8], b: &[u8]) -> (r: bool)
    ensures
        r == (a@ == b@),
{
    if a.len() != b.len() {
        return false;
    }
    let mut i: usize = 0;
    while i < a.len()
        invariant
            a.len() == b.len(),
            i <= a.len(),
            forall|j: int| 0 <= j < i ==> a@[j] == b@[j],
        decreases a.len() - i,
    {
        if a[i] != b[i] {
            return false;
        }
        i += 1;
    }
    assert(a@ =~= b@);
    true
}

/// The decimal digit with the value `d`.
pub open spec fn digit_char(d: int) -> char {
    ((48 + d) as u8) as char
}

/// The byte `b` as a decimal number, without leading zeros.
pub open spec fn decimal_text(b: u8) -> Seq<char> {
    if b < 10 {
        seq![digit_char(b as int)]
    } else if b < 100 {
        seq![digit_char(b as int / 10), digit_char(b as int % 10)]
    } else {
        seq![digit_char(b as int / 100), digit_char((b as int / 10) % 10), digit_char(b as int % 10)]
    }
}

/// The bytes as decimal numbers with `, ` between them.
pub open spec fn listed_text(bytes: Seq<u8>) -> Seq<char>
    decreases bytes.len(),
{
    if bytes.len() == 0 {
        Seq::empty()
    } else if bytes.len() == 1 {
        decimal_text(bytes[0])
    } else {
        listed_text(bytes.drop_last()) + seq![',', ' '] + decimal_text(bytes.last())
    }
}

/// A byte string as a list of decimal numbers in square brackets: the text
/// that a slice of bytes is shown as for debugging.
pub open spec fn debug_text(bytes: Seq<u8>) -> Seq<char> {
    seq!['['] + listed_text(bytes) + seq![']']
}

/// The decimal digit with the value `d`, as a string.
fn digit_str(d: u8) -> (r: &'static str)
    requires
        d < 10,
    ensures
        r@ == seq![digit_char(d as int)],
{
    proof {
        reveal_strlit("0");
        reveal_strlit("1");
        reveal_strlit("2");
        reveal_strlit("3");
        reveal_strlit("4");
        reveal_strlit("5");
        reveal_strlit("6");
        reveal_strlit("7");
        reveal_strlit("8");
        reveal_strlit("9");
    }
    let r = if d == 0 {
        "0"
    } else if d == 1 {
        "1"
    } else if d == 2 {
        "2"
    } else if d == 3 {
        "3"
    } else if d == 4 {
        "4"
    } else if d == 5 {
        "5"
    } else if d == 6 {
        "6"
    } else if d == 7 {
        "7"
    } else if d == 8 {
        "8"
    } else {
        "9"
    };
    assert(r@ =~= seq![digit_char(d as int)]);
    r
}

/// Appends the decimal number of `b` to `out`.
fn push_decimal(out: &mut String, b: u8)
    ensures
        final(out)@ == old(out)@ + decimal_text(b),
{
    let ghost start = out@;
    if b >= 100 {
        out.append(digit_str(b / 100));
    }
    if b >= 10 {
        out.append(digit_str((b / 10) % 10));
    }
    out.append(digit_str(b % 10));
    assert(out@ =~= start + decimal_text(b));
}

/// The text that the byte string `bytes` is shown as for debugging.
pub fn debug_bytes(bytes: &[u8]) -> (r: String)
    ensures
        r@ == debug_text(bytes@),
{
    proof {
        reveal_strlit("[");
        reveal_strlit("]");
        reveal_strlit(", ");
    }
    let mut out = String::from_str("[");
    let mut i: usize = 0;
    assert(bytes@.take(0) =~= Seq::<u8>::empty());
    assert(out@ =~= seq!['['] + listed_text(bytes@.take(0)));
    while i < bytes.len()
        invariant
            i <= bytes.len(),
            out@ == seq!['['] + listed_text(bytes@.take(i as int)),
            ", "@ == seq![',', ' '],
        decreases bytes.len() - i,
    {
        let ghost before = out@;
        if i > 0 {
            out.append(", ");
        }
        push_decimal(&mut out, bytes[i]);
        proof {
            let upto = bytes@.take(i + 1);
            assert(upto.drop_last() =~= bytes@.take(i as int));
            assert(upto.last() == bytes@[i as int]);
            if i == 0 {
                assert(listed_text(bytes@.take(0)) =~= Seq::<char>::empty());
                assert(out@ =~= seq!['['] + listed_text(upto));
            } else {
                assert(out@ =~= seq!['['] + listed_text(upto));
            }
        }
        i += 1;
    }
    assert(bytes@.take(bytes.len() as int) =~= bytes@);
    out.append("]");
    assert(out@ =~= debug_text(bytes@));
    out
}

} // verus!
