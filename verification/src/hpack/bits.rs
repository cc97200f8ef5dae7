//! Bit strings and the numbers they spell, most significant bit first.

use vstd::prelude::*;
use vstd::arithmetic::div_mod::lemma_div_denominator;
use vstd::arithmetic::power2::{pow2, lemma_pow2_pos, lemma_pow2_unfold, lemma2_to64};

verus! {

/// The `n` low bits of `v`, most significant first.
pub open spec fn word(v: int, n: int) -> Seq<bool>
    decreases n,
{
    if n <= 0 {
        Seq::empty()
    } else {
        word(v / 2, n - 1).push(v % 2 == 1)
    }
}

/// The number that the bits of `w` spell.
pub open spec fn value(w: Seq<bool>) -> int
    decreases w.len(),
{
    if w.len() == 0 {
        0
    } else {
        2 * value(w.drop_last()) + if w.last() { 1int } else { 0int }
    }
}

/// `n` one bits.
pub open spec fn ones(n: int) -> Seq<bool> {
    Seq::new(n as nat, |i: int| true)
}

/// The bits of a byte string, eight for each byte.
pub open spec fn bits_of(bytes: Seq<u8>) -> Seq<bool>
    decreases bytes.len(),
{
    if bytes.len() == 0 {
        Seq::empty()
    } else {
        bits_of(bytes.drop_last()) + word(bytes.last() as int, 8)
    }
}

/// The bytes that a bit string fills; bits beyond the last full byte are left out.
pub open spec fn pack(bits: Seq<bool>) -> Seq<u8>
    decreases bits.len(),
{
    if bits.len() < 8 {
        Seq::empty()
    } else {
        pack(bits.take(bits.len() - 8)).push(value(bits.skip(bits.len() - 8)) as u8)
    }
}

/// `p` is an initial segment of `s`.
pub open spec fn starts_with(s: Seq<bool>, p: Seq<bool>) -> bool {
    p.len() <= s.len() && s.take(p.len() as int) == p
}

pub proof fn lemma_word_len(v: int, n: int)
    requires
        n >= 0,
    ensures
        word(v, n).len() == n,
    decreases n,
{
    if n > 0 {
        lemma_word_len(v / 2, n - 1);
    }
}

/// The first bit of a word is the highest of the bits it is made of.
pub proof fn lemma_word_front(v: int, n: int)
    requires
        n >= 1,
        v >= 0,
    ensures
        word(v, n) == seq![(v / (pow2((n - 1) as nat) as int)) % 2 == 1] + word(v, n - 1),
    decreases n,
{
    if n == 1 {
        lemma2_to64();
        assert(word(v / 2, 0) =~= Seq::<bool>::empty());
        assert(word(v, 0) =~= Seq::<bool>::empty());
        assert(pow2(0) == 1);
        assert(v / 1 == v);
        assert(word(v, 1) =~= seq![v % 2 == 1] + word(v, 0));
    } else {
        lemma_word_front(v / 2, n - 1);
        let p = pow2((n - 2) as nat) as int;
        lemma_pow2_pos((n - 2) as nat);
        lemma_pow2_unfold((n - 1) as nat);
        lemma_div_denominator(v, 2, p);
        assert(word(v, n - 1) == word(v / 2, n - 2).push(v % 2 == 1));
        lemma_word_len(v / 2, n - 2);
        assert(pow2((n - 1) as nat) as int == 2 * p);
        assert((v / 2) / p == v / (2 * p));
        assert(word(v, n) =~= seq![(v / (2 * p)) % 2 == 1] + word(v, n - 1));
    }
}

pub proof fn lemma_value_bounds(w: Seq<bool>)
    ensures
        0 <= value(w) < pow2(w.len()),
    decreases w.len(),
{
    if w.len() > 0 {
        lemma_value_bounds(w.drop_last());
        lemma_pow2_unfold(w.len());
    } else {
        lemma2_to64();
    }
}

/// A number below `2^n` is the number that its `n`-bit word spells.
pub proof fn lemma_value_word(v: int, n: int)
    requires
        n >= 0,
        0 <= v < pow2(n as nat),
    ensures
        value(word(v, n)) == v,
    decreases n,
{
    if n > 0 {
        lemma_pow2_unfold(n as nat);
        lemma_value_word(v / 2, n - 1);
        let w = word(v, n);
        lemma_word_len(v / 2, n - 1);
        assert(w.drop_last() =~= word(v / 2, n - 1));
        assert(w.last() == (v % 2 == 1));
    } else {
        lemma2_to64();
    }
}

/// A bit string is the word of the number it spells.
pub proof fn lemma_word_value(w: Seq<bool>)
    ensures
        word(value(w), w.len() as int) == w,
    decreases w.len(),
{
    if w.len() > 0 {
        lemma_word_value(w.drop_last());
        let v = value(w);
        assert(v / 2 == value(w.drop_last()));
        assert((v % 2 == 1) == w.last());
        assert(word(v, w.len() as int) =~= w);
    }
}

/// Two bit strings of one length that spell the same number are equal.
pub proof fn lemma_value_injective(a: Seq<bool>, b: Seq<bool>)
    requires
        a.len() == b.len(),
        value(a) == value(b),
    ensures
        a == b,
{
    lemma_word_value(a);
    lemma_word_value(b);
}

pub proof fn lemma_value_push(w: Seq<bool>, bit: bool)
    ensures
        value(w.push(bit)) == 2 * value(w) + if bit { 1int } else { 0int },
{
    assert(w.push(bit).drop_last() =~= w);
}

/// The number of a concatenation: the first part moves up by the length of the second.
pub proof fn lemma_value_concat(a: Seq<bool>, b: Seq<bool>)
    ensures
        value(a + b) == value(a) * pow2(b.len()) + value(b),
    decreases b.len(),
{
    if b.len() == 0 {
        assert(a + b =~= a);
        lemma2_to64();
        assert(pow2(b.len()) == 1);
        assert(value(a) * 1 == value(a));
    } else {
        assert((a + b).drop_last() =~= a + b.drop_last());
        lemma_value_concat(a, b.drop_last());
        assert(value(a + b.drop_last()) == value(a) * pow2((b.len() - 1) as nat) + value(b.drop_last()));
        lemma_pow2_unfold(b.len());
        let p = pow2((b.len() - 1) as nat) as int;
        let last = if b.last() { 1int } else { 0int };
        assert((a + b).last() == b.last());
        assert(value(a + b) == 2 * value(a + b.drop_last()) + last);
        assert(value(b) == 2 * value(b.drop_last()) + last);
        assert(pow2(b.len()) == 2 * p);
        assert(2 * (value(a) * p) == value(a) * (2 * p)) by (nonlinear_arith);
        assert(value(a + b) == value(a) * (2 * p) + value(b));
    }
}

pub proof fn lemma_value_ones(n: int)
    requires
        n >= 0,
    ensures
        value(ones(n)) == pow2(n as nat) - 1,
    decreases n,
{
    if n == 0 {
        lemma2_to64();
    } else {
        assert(ones(n).drop_last() =~= ones(n - 1));
        lemma_value_ones(n - 1);
        lemma_pow2_unfold(n as nat);
    }
}

pub proof fn lemma_bits_of_len(bytes: Seq<u8>)
    ensures
        bits_of(bytes).len() == 8 * bytes.len(),
    decreases bytes.len(),
{
    if bytes.len() > 0 {
        lemma_bits_of_len(bytes.drop_last());
        lemma_word_len(bytes.last() as int, 8);
    }
}

pub proof fn lemma_bits_of_push(bytes: Seq<u8>, b: u8)
    ensures
        bits_of(bytes.push(b)) == bits_of(bytes) + word(b as int, 8),
{
    assert(bytes.push(b).drop_last() =~= bytes);
}

pub proof fn lemma_bits_of_concat(a: Seq<u8>, b: Seq<u8>)
    ensures
        bits_of(a + b) == bits_of(a) + bits_of(b),
    decreases b.len(),
{
    if b.len() == 0 {
        assert(a + b =~= a);
        assert(bits_of(a) + bits_of(b) =~= bits_of(a));
    } else {
        assert((a + b).drop_last() =~= a + b.drop_last());
        lemma_bits_of_concat(a, b.drop_last());
        assert(bits_of(a + b) =~= bits_of(a) + bits_of(b));
    }
}

/// Packing a whole number of bytes loses nothing.
pub proof fn lemma_bits_of_pack(bits: Seq<bool>)
    requires
        bits.len() % 8 == 0,
    ensures
        bits_of(pack(bits)) == bits,
        pack(bits).len() * 8 == bits.len(),
    decreases bits.len(),
{
    if bits.len() >= 8 {
        let head = bits.take(bits.len() - 8);
        let tail = bits.skip(bits.len() - 8);
        lemma_bits_of_pack(head);
        lemma_value_bounds(tail);
        lemma2_to64();
        lemma_word_value(tail);
        lemma_bits_of_push(pack(head), value(tail) as u8);
        assert(head + tail =~= bits);
    } else {
        assert(bits =~= Seq::empty());
    }
}

} // verus!
