//! Huffman coding of header strings (RFC 7541, section 5.2 and Appendix B).

use vstd::prelude::*;
use vstd::arithmetic::div_mod::lemma_fundamental_div_mod_converse;
use vstd::arithmetic::power2::{pow2, lemma_pow2_unfold, lemma_pow2_strictly_increases, lemma2_to64};
use vstd::bits::{lemma_u64_shl_is_mul, lemma_u64_shr_is_div, lemma_u8_shr_is_div};
use vstd::slice::slice_subrange;
use super::DecodeError;
use super::bits::{
    bits_of, lemma_bits_of_concat, lemma_bits_of_len, lemma_bits_of_pack, lemma_value_bounds,
    lemma_value_concat, lemma_value_injective, lemma_value_ones, lemma_value_push,
    lemma_value_word, lemma_word_front, lemma_word_len, ones, pack, starts_with, value, word,
};
use super::huffman_codes::{
    all_ones, code_bits, code_limit, code_lsb, code_of, code_range, first_code, is_symbol,
    lemma_length_step, lemma_longest_codes, lemma_symbol_of, lemma_symbol_position, ones_word,
    symbol_for, symbol_of,
};

verus! {

/// The code word of `sym`, most significant bit first.
pub open spec fn code_word(sym: int) -> Seq<bool> {
    word(code_lsb(sym), code_bits(sym))
}

/// The code words of the octets of `text`, one after the other.
pub open spec fn encoded_bits(text: Seq<u8>) -> Seq<bool>
    decreases text.len(),
{
    if text.len() == 0 {
        Seq::empty()
    } else {
        encoded_bits(text.drop_last()) + code_word(text.last() as int)
    }
}

/// The number of one bits that fill the last octet of the encoding of `text`.
pub open spec fn padding_len(text: Seq<u8>) -> int {
    (8 - encoded_bits(text).len() % 8) % 8
}

/// The Huffman encoding of `text`: its code words, filled up to a whole octet
/// with the leading bits of the code of `EOS`, which are all one.
pub open spec fn huffman_encoding(text: Seq<u8>) -> Seq<u8> {
    pack(encoded_bits(text) + ones(padding_len(text)))
}

/// `bytes` decodes to `text`: it holds the code words of `text`, and what
/// follows the last of them is an initial segment of the code of `EOS`, short
/// of the whole code.
pub open spec fn is_encoding_of(bytes: Seq<u8>, text: Seq<u8>) -> bool {
    let pad = 8 * bytes.len() - encoded_bits(text).len();
    0 <= pad < 30 && bits_of(bytes) == encoded_bits(text) + ones(pad)
}

/// The text that `bytes` decodes to, if there is one.
pub open spec fn huffman_decoding(bytes: Seq<u8>) -> Option<Seq<u8>> {
    if exists|t: Seq<u8>| is_encoding_of(bytes, t) {
        Some(choose|t: Seq<u8>| is_encoding_of(bytes, t))
    } else {
        None
    }
}

/// The bit string `w` is the code word of some symbol.
pub open spec fn is_leaf(w: Seq<bool>) -> bool {
    w.len() <= 30 && first_code(w.len() as int) <= value(w) < code_limit(w.len() as int)
}

/// The bit string `w` is a proper initial segment of some code word: an inner
/// node of the code tree.
pub open spec fn is_inner(w: Seq<bool>) -> bool {
    w.len() <= 29 && code_limit(w.len() as int) <= value(w)
}

/// No code word of an octet is an initial segment of `r`.
pub open spec fn code_free(r: Seq<bool>) -> bool {
    forall|sym: int| 0 <= sym < 256 ==> !starts_with(r, #[trigger] code_word(sym))
}

pub proof fn lemma_all_ones(n: int)
    requires
        0 <= n <= 30,
    ensures
        all_ones(n) == pow2(n as nat) - 1,
    decreases n,
{
    if n == 0 {
        lemma_longest_codes();
        lemma2_to64();
    } else {
        lemma_all_ones(n - 1);
        lemma_length_step(n - 1);
        lemma_pow2_unfold(n as nat);
    }
}

/// The code word of a symbol has the symbol's length and spells its code.
pub proof fn lemma_code_word(sym: int)
    requires
        is_symbol(sym),
    ensures
        code_word(sym).len() == code_bits(sym),
        value(code_word(sym)) == code_lsb(sym),
        is_leaf(code_word(sym)),
{
    lemma_symbol_position(sym);
    let len = code_bits(sym);
    lemma_word_len(code_lsb(sym), len);
    lemma_all_ones(len);
    if len < 30 {
        lemma_length_step(len);
    } else {
        lemma_longest_codes();
    }
    lemma_value_word(code_lsb(sym), len);
}

/// A bit string that is a code word is the code word of `symbol_of`.
pub proof fn lemma_leaf_symbol(w: Seq<bool>)
    requires
        is_leaf(w),
    ensures
        is_symbol(symbol_of(w.len() as int, value(w))),
        code_word(symbol_of(w.len() as int, value(w))) == w,
{
    let sym = symbol_of(w.len() as int, value(w));
    lemma_symbol_of(w.len() as int, value(w));
    lemma_code_word(sym);
    lemma_value_injective(code_word(sym), w);
}

/// Below a code word, and below whatever lies below one, there is no code
/// word and no inner node.
pub proof fn lemma_below(w: Seq<bool>, e: Seq<bool>)
    requires
        w.len() + e.len() <= 30,
        e.len() >= 1,
        value(w) < code_limit(w.len() as int),
    ensures
        value(w + e) < first_code((w + e).len() as int),
        value(w + e) < code_limit((w + e).len() as int),
    decreases e.len(),
{
    let n = (w + e).len() as int;
    assert((w + e).drop_last() =~= w + e.drop_last());
    lemma_length_step(n - 1);
    if e.len() == 1 {
        assert(w + e.drop_last() =~= w);
    } else {
        lemma_below(w, e.drop_last());
    }
    if n < 30 {
        lemma_length_step(n);
    } else {
        lemma_longest_codes();
    }
}

/// No code word is an initial segment of a bit string of an inner node.
pub proof fn lemma_code_not_inner(sym: int, w: Seq<bool>)
    requires
        is_symbol(sym),
        w.len() <= 30,
        starts_with(w, code_word(sym)),
    ensures
        value(w) < code_limit(w.len() as int),
{
    let cw = code_word(sym);
    lemma_code_word(sym);
    let e = w.skip(cw.len() as int);
    assert(w =~= cw + e);
    if e.len() >= 1 {
        lemma_below(cw, e);
    }
}

/// The code is prefix-free: two code words that begin one bit string belong
/// to one symbol.
pub proof fn lemma_prefix_free(a: int, b: int, s: Seq<bool>)
    requires
        is_symbol(a),
        is_symbol(b),
        starts_with(s, code_word(a)),
        starts_with(s, code_word(b)),
    ensures
        a == b,
{
    let wa = code_word(a);
    let wb = code_word(b);
    lemma_code_word(a);
    lemma_code_word(b);
    lemma_symbol_position(a);
    lemma_symbol_position(b);
    if wa.len() <= wb.len() {
        assert(starts_with(wb, wa)) by {
            assert(wb.take(wa.len() as int) =~= s.take(wa.len() as int));
        }
        lemma_code_not_inner(a, wb);
        if wa.len() < wb.len() {
            let e = wb.skip(wa.len() as int);
            assert(wb =~= wa + e);
            lemma_below(wa, e);
        }
    } else {
        assert(starts_with(wa, wb)) by {
            assert(wa.take(wb.len() as int) =~= s.take(wb.len() as int));
        }
        let e = wa.skip(wb.len() as int);
        assert(wa =~= wb + e);
        lemma_below(wb, e);
    }
}

pub proof fn lemma_encoded_bits_push(text: Seq<u8>, c: u8)
    ensures
        encoded_bits(text.push(c)) == encoded_bits(text) + code_word(c as int),
{
    assert(text.push(c).drop_last() =~= text);
}

pub proof fn lemma_encoded_bits_concat(a: Seq<u8>, b: Seq<u8>)
    ensures
        encoded_bits(a + b) == encoded_bits(a) + encoded_bits(b),
    decreases b.len(),
{
    if b.len() == 0 {
        assert(a + b =~= a);
        assert(encoded_bits(a) + encoded_bits(b) =~= encoded_bits(a));
    } else {
        assert((a + b).drop_last() =~= a + b.drop_last());
        lemma_encoded_bits_concat(a, b.drop_last());
        assert(encoded_bits(a + b) =~= encoded_bits(a) + encoded_bits(b));
    }
}

/// The encoding of a text that is not empty begins with the code word of its
/// first octet.
pub proof fn lemma_encoded_bits_front(text: Seq<u8>)
    requires
        text.len() > 0,
    ensures
        encoded_bits(text) == code_word(text[0] as int) + encoded_bits(text.skip(1)),
{
    let head = seq![text[0]];
    assert(text =~= head + text.skip(1));
    lemma_encoded_bits_concat(head, text.skip(1));
    assert(head.drop_last() =~= Seq::<u8>::empty());
    assert(encoded_bits(Seq::<u8>::empty()) =~= Seq::<bool>::empty());
    assert(head.last() == text[0]);
    assert(encoded_bits(head) =~= code_word(text[0] as int));
}

/// A bit string splits in one way only into code words and a rest that no
/// code word begins.
pub proof fn lemma_unique_split(x: Seq<u8>, r: Seq<bool>, y: Seq<u8>, s: Seq<bool>)
    requires
        encoded_bits(x) + r == encoded_bits(y) + s,
        code_free(r),
        code_free(s),
    ensures
        x == y,
        r == s,
    decreases x.len() + y.len(),
{
    let all = encoded_bits(x) + r;
    if x.len() == 0 && y.len() == 0 {
        assert(encoded_bits(x) + r =~= r);
        assert(encoded_bits(y) + s =~= s);
        assert(x =~= y);
    } else if x.len() == 0 {
        lemma_encoded_bits_front(y);
        let cw = code_word(y[0] as int);
        assert(encoded_bits(x) + r =~= r);
        assert(r.take(cw.len() as int) =~= cw);
        assert(starts_with(r, cw));
    } else if y.len() == 0 {
        lemma_encoded_bits_front(x);
        let cw = code_word(x[0] as int);
        assert(encoded_bits(y) + s =~= s);
        assert(s.take(cw.len() as int) =~= cw);
        assert(starts_with(s, cw));
    } else {
        lemma_encoded_bits_front(x);
        lemma_encoded_bits_front(y);
        let cx = code_word(x[0] as int);
        let cy = code_word(y[0] as int);
        assert(all.take(cx.len() as int) =~= cx);
        assert(all.take(cy.len() as int) =~= cy);
        lemma_prefix_free(x[0] as int, y[0] as int, all);
        let restx = encoded_bits(x.skip(1)) + r;
        let resty = encoded_bits(y.skip(1)) + s;
        assert(all.skip(cx.len() as int) =~= restx);
        assert(all.skip(cx.len() as int) =~= resty);
        lemma_unique_split(x.skip(1), r, y.skip(1), s);
        assert(x =~= seq![x[0]] + x.skip(1));
        assert(y =~= seq![y[0]] + y.skip(1));
    }
}

/// No code word begins a run of fewer than 30 one bits.
pub proof fn lemma_ones_code_free(k: int)
    requires
        0 <= k < 30,
    ensures
        code_free(ones(k)),
{
    assert forall|sym: int| 0 <= sym < 256 implies !starts_with(ones(k), #[trigger] code_word(sym)) by {
        if starts_with(ones(k), code_word(sym)) {
            lemma_code_not_inner(sym, ones(k));
            lemma_value_ones(k);
            lemma_all_ones(k);
            lemma_length_step(k);
        }
    }
}

/// No code word begins the bit string of an inner node.
pub proof fn lemma_inner_code_free(p: Seq<bool>)
    requires
        is_inner(p),
    ensures
        code_free(p),
{
    assert forall|sym: int| 0 <= sym < 256 implies !starts_with(p, #[trigger] code_word(sym)) by {
        if starts_with(p, code_word(sym)) {
            lemma_code_not_inner(sym, p);
        }
    }
}

/// No code word of an octet begins a bit string that the code of `EOS` begins.
pub proof fn lemma_eos_code_free(r: Seq<bool>)
    requires
        starts_with(r, code_word(256)),
    ensures
        code_free(r),
{
    assert forall|sym: int| 0 <= sym < 256 implies !starts_with(r, #[trigger] code_word(sym)) by {
        if starts_with(r, code_word(sym)) {
            lemma_prefix_free(sym, 256, r);
        }
    }
}

/// A byte string decodes to one text at most.
pub proof fn lemma_decoding_unique(bytes: Seq<u8>, t1: Seq<u8>, t2: Seq<u8>)
    requires
        is_encoding_of(bytes, t1),
        is_encoding_of(bytes, t2),
    ensures
        t1 == t2,
{
    let k1 = 8 * bytes.len() - encoded_bits(t1).len();
    let k2 = 8 * bytes.len() - encoded_bits(t2).len();
    lemma_ones_code_free(k1);
    lemma_ones_code_free(k2);
    lemma_unique_split(t1, ones(k1), t2, ones(k2));
}

/// What `huffman_decoding` gives for a byte string that decodes to `text`.
pub proof fn lemma_decoding_is(bytes: Seq<u8>, text: Seq<u8>)
    requires
        is_encoding_of(bytes, text),
    ensures
        huffman_decoding(bytes) == Some(text),
{
    let t = choose|t: Seq<u8>| is_encoding_of(bytes, t);
    lemma_decoding_unique(bytes, t, text);
}

/// What stands at a leaf of the code tree.
#[derive(Debug, Clone, Copy, PartialEq, Eq, Structural)]
pub enum Char {
    /// An octet.
    Normal(u8),
    /// The end-of-string symbol.
    EoS,
}

impl Char {
    /// The symbol as a number: the octet, or 256 for `EoS`.
    pub open spec fn symbol(self) -> int {
        match self {
            Char::Normal(c) => c as int,
            Char::EoS => 256,
        }
    }
}

/// A position in the code tree, moved one bit at a time from the root.
///
/// The tree is implicit in the canonical code: a node is the bit string that
/// leads to it, held as the number it spells and its length.
#[derive(Debug)]
pub struct HuffmanTreeWalker {
    code: u32,
    len: u8,
}

impl View for HuffmanTreeWalker {
    type V = Seq<bool>;

    /// The bits that lead from the root to the current node.
    closed spec fn view(&self) -> Seq<bool> {
        word(self.code as int, self.len as int)
    }
}

impl HuffmanTreeWalker {
    #[verifier::type_invariant]
    spec fn inv(self) -> bool {
        &&& self.len <= 29
        &&& code_limit(self.len as int) <= self.code <= all_ones(self.len as int)
    }

    /// A walker at the root.
    pub fn new() -> (w: HuffmanTreeWalker)
        ensures
            w@ == Seq::<bool>::empty(),
            is_inner(w@),
    {
        proof {
            lemma_longest_codes();
        }
        HuffmanTreeWalker { code: 0, len: 0 }
    }

    /// Moves down by one bit: to the right child if `bit` is not 0, else to
    /// the left one. At a leaf the walker returns the leaf's symbol and goes
    /// back to the root.
    pub fn advance(&mut self, bit: u8) -> (r: Option<Char>)
        ensures
            is_inner(final(self)@),
            match r {
                None => final(self)@ == old(self)@.push(bit != 0),
                Some(c) => final(self)@ == Seq::<bool>::empty()
                    && code_word(c.symbol()) == old(self)@.push(bit != 0),
            },
    {
        proof {
            use_type_invariant(&*self);
        }
        let ghost path = self@.push(bit != 0);
        let len = self.len + 1;
        proof {
            lemma_length_step(self.len as int);
            lemma_word_len(self.code as int, self.len as int);
            lemma_all_ones(self.len as int);
            lemma_value_word(self.code as int, self.len as int);
            lemma_value_push(self@, bit != 0);
        }
        let code = 2 * self.code + if bit != 0 { 1u32 } else { 0u32 };
        assert(word(code as int, len as int) == path);
        assert(value(path) == code);
        let (first, limit) = code_range(len);
        if code < limit {
            proof {
                assert(is_leaf(path));
                lemma_leaf_symbol(path);
                lemma_longest_codes();
            }
            let sym = symbol_for(len, code);
            *self = HuffmanTreeWalker { code: 0, len: 0 };
            if sym < 256 {
                Some(Char::Normal(sym as u8))
            } else {
                Some(Char::EoS)
            }
        } else {
            proof {
                if len == 30 {
                    lemma_longest_codes();
                }
            }
            *self = HuffmanTreeWalker { code, len };
            None
        }
    }

    /// Whether the walker stands at the root.
    pub fn is_root(&self) -> (r: bool)
        ensures
            r == (self@.len() == 0),
    {
        proof {
            use_type_invariant(self);
            lemma_word_len(self.code as int, self.len as int);
        }
        self.len == 0
    }

    /// Whether the bits from the root to the current node are all one: whether
    /// the node lies on the way to `EOS`.
    pub fn is_eos_prefix(&self) -> (r: bool)
        ensures
            r == (self@ == ones(self@.len() as int)),
    {
        proof {
            use_type_invariant(self);
            let n = self.len as int;
            lemma_word_len(self.code as int, n);
            lemma_all_ones(n);
            lemma_value_word(self.code as int, n);
            lemma_value_ones(n);
            if self.code == all_ones(n) {
                lemma_value_injective(self@, ones(n));
            }
        }
        self.code == ones_word(self.len)
    }
}

/// The bits of a byte string begin with the bits of its first byte.
pub proof fn lemma_bits_of_front(bytes: Seq<u8>)
    requires
        bytes.len() > 0,
    ensures
        bits_of(bytes) == word(bytes[0] as int, 8) + bits_of(bytes.skip(1)),
{
    let head = seq![bytes[0]];
    assert(bytes =~= head + bytes.skip(1));
    lemma_bits_of_concat(head, bytes.skip(1));
    assert(head.drop_last() =~= Seq::<u8>::empty());
    assert(bits_of(Seq::<u8>::empty()) =~= Seq::<bool>::empty());
    assert(head.last() == bytes[0]);
    assert(bits_of(head) =~= word(bytes[0] as int, 8));
}

/// Hands out the bits of a byte string, the most significant bit of each
/// byte first.
#[derive(Debug)]
pub struct BitIterator<'a> {
    remaining_buf: &'a [u8],
    remaining_bits_in_cur_byte: u8,
    cur_byte: u8,
}

impl<'a> View for BitIterator<'a> {
    type V = Seq<bool>;

    /// The bits still to come.
    closed spec fn view(&self) -> Seq<bool> {
        word(self.cur_byte as int, self.remaining_bits_in_cur_byte as int) + bits_of(
            self.remaining_buf@,
        )
    }
}

impl<'a> BitIterator<'a> {
    #[verifier::type_invariant]
    spec fn inv(self) -> bool {
        self.remaining_bits_in_cur_byte <= 8
    }

    pub fn new(input: &'a [u8]) -> (it: BitIterator<'a>)
        ensures
            it@ == bits_of(input@),
    {
        let it = BitIterator { remaining_buf: input, remaining_bits_in_cur_byte: 0, cur_byte: 0 };
        assert(it@ =~= bits_of(input@));
        it
    }

    /// The next bit, as `0x80` for a one and `0` for a zero; `None` at the end.
    pub fn next(&mut self) -> (r: Option<u8>)
        ensures
            match r {
                None => old(self)@.len() == 0 && final(self)@.len() == 0,
                Some(x) => old(self)@.len() > 0 && final(self)@ == old(self)@.skip(1) && x == (
                if old(self)@[0] {
                    0x80u8
                } else {
                    0u8
                }),
            },
    {
        proof {
            use_type_invariant(&*self);
            lemma_bits_of_len(self.remaining_buf@);
        }
        if self.remaining_buf.len() == 0 && self.remaining_bits_in_cur_byte == 0 {
            return None;
        }
        let mut buf = self.remaining_buf;
        let mut cur = self.cur_byte;
        let mut left = self.remaining_bits_in_cur_byte;
        if left == 0 {
            proof {
                lemma_bits_of_front(buf@);
            }
            cur = buf[0];
            buf = slice_subrange(buf, 1, buf.len());
            left = 8;
            assert(word(cur as int, left as int) + bits_of(buf@) =~= old(self)@);
        }
        let ghost before = word(cur as int, left as int) + bits_of(buf@);
        let top = cur >> (left - 1);
        let bit = top & 1;
        proof {
            lemma_word_front(cur as int, left as int);
            lemma_u8_shr_is_div(cur, (left - 1) as u8);
            assert(bit == top % 2) by (bit_vector)
                requires
                    bit == top & 1,
            ;
        }
        *self = BitIterator {
            remaining_buf: buf,
            remaining_bits_in_cur_byte: left - 1,
            cur_byte: cur,
        };
        assert(self@ =~= before.skip(1));
        if bit != 0 {
            Some(0x80)
        } else {
            Some(0)
        }
    }
}

/// Decodes a Huffman-coded string.
///
/// The result is the text whose code words `input` holds, followed by nothing
/// but an initial segment of the code of `EOS`. Where `input` is no such
/// string, because the code of `EOS` stands in it or its last bits belong to
/// no code word and are not all one, the error is `HuffmanError`.
pub fn decode(input: &[u8]) -> (r: Result<Vec<u8>, DecodeError>)
    ensures
        match r {
            Ok(text) => huffman_decoding(input@) == Some(text@),
            Err(e) => e == DecodeError::HuffmanError && huffman_decoding(input@).is_none(),
        },
{
    let mut iter = BitIterator::new(input);
    let mut walker = HuffmanTreeWalker::new();
    let mut res: Vec<u8> = Vec::new();
    assert(encoded_bits(res@) + walker@ + iter@ =~= bits_of(input@));
    loop
        invariant
            bits_of(input@) == encoded_bits(res@) + walker@ + iter@,
            is_inner(walker@),
        ensures
            iter@.len() == 0,
        decreases iter@.len(),
    {
        let ghost rest = iter@;
        let ghost pending = walker@;
        let bit = match iter.next() {
            None => {
                break ;
            },
            Some(x) => x,
        };
        let ghost path = pending.push(bit != 0);
        assert(pending + rest =~= path + iter@);
        match walker.advance(bit) {
            None => {
                assert(encoded_bits(res@) + walker@ + iter@ =~= encoded_bits(res@) + pending
                    + rest);
            },
            Some(Char::Normal(c)) => {
                proof {
                    lemma_encoded_bits_push(res@, c);
                }
                let ghost before = res@;
                res.push(c);
                assert(encoded_bits(res@) + walker@ + iter@ =~= encoded_bits(before) + pending
                    + rest);
            },
            Some(Char::EoS) => {
                proof {
                    let tail = path + iter@;
                    assert(bits_of(input@) =~= encoded_bits(res@) + tail);
                    lemma_code_word(256);
                    lemma_longest_codes();
                    assert(tail.take(30) =~= code_word(256));
                    lemma_eos_code_free(tail);
                    assert forall|t: Seq<u8>| !is_encoding_of(input@, t) by {
                        if is_encoding_of(input@, t) {
                            let k = 8 * input@.len() - encoded_bits(t).len();
                            lemma_ones_code_free(k);
                            lemma_unique_split(res@, tail, t, ones(k));
                        }
                    }
                }
                return Err(DecodeError::HuffmanError);
            },
        }
    }
    proof {
        assert(bits_of(input@) =~= encoded_bits(res@) + walker@);
        lemma_bits_of_len(input@);
    }
    if walker.is_eos_prefix() {
        proof {
            lemma_decoding_is(input@, res@);
        }
        Ok(res)
    } else {
        proof {
            lemma_inner_code_free(walker@);
            assert forall|t: Seq<u8>| !is_encoding_of(input@, t) by {
                if is_encoding_of(input@, t) {
                    let k = 8 * input@.len() - encoded_bits(t).len();
                    lemma_ones_code_free(k);
                    lemma_unique_split(res@, walker@, t, ones(k));
                }
            }
        }
        Err(DecodeError::HuffmanError)
    }
}

/// Decoding undoes encoding: the encoding of any text decodes to that text.
pub proof fn lemma_decode_encode(text: Seq<u8>)
    ensures
        is_encoding_of(huffman_encoding(text), text),
        huffman_decoding(huffman_encoding(text)) == Some(text),
{
    let full = encoded_bits(text) + ones(padding_len(text));
    lemma_bits_of_pack(full);
    lemma_decoding_is(huffman_encoding(text), text);
}

/// Appends the Huffman encoding of `input` to `out`.
pub fn encode(out: &mut Vec<u8>, input: &[u8])
    ensures
        final(out)@ == old(out)@ + huffman_encoding(input@),
{
    let ghost start = out@;
    // The bits that do not yet fill a byte: `held` of them, spelling `acc`.
    let mut acc: u64 = 0;
    let mut held: u8 = 0;
    let ghost mut done: Seq<bool> = Seq::empty();
    let ghost mut pending: Seq<bool> = Seq::empty();
    let mut i: usize = 0;
    proof {
        assert(input@.take(0) =~= Seq::<u8>::empty());
        assert(done + pending =~= encoded_bits(input@.take(0)));
        assert(start + pack(done) =~= start);
    }
    while i < input.len()
        invariant
            i <= input.len(),
            done + pending == encoded_bits(input@.take(i as int)),
            done.len() % 8 == 0,
            out@ == start + pack(done),
            pending.len() == held,
            held < 8,
            acc == value(pending),
        decreases input.len() - i,
    {
        let octet = input[i];
        let (code, bits) = code_of(octet);
        let ghost cw = code_word(octet as int);
        proof {
            lemma_symbol_position(octet as int);
            lemma_code_word(octet as int);
            lemma_value_concat(pending, cw);
            lemma_value_bounds(pending);
            lemma_value_bounds(pending + cw);
            lemma2_to64();
            if held < 7 {
                lemma_pow2_strictly_increases(held as nat, 7);
            }
            if bits < 30 {
                lemma_pow2_strictly_increases(bits as nat, 30);
            }
            assert(acc * pow2(bits as nat) <= 128 * 0x4000_0000) by (nonlinear_arith)
                requires
                    0 <= acc <= 128,
                    0 <= pow2(bits as nat) <= 0x4000_0000,
            ;
            lemma_u64_shl_is_mul(acc, bits as u64);
            assert(input@.take(i + 1) =~= input@.take(i as int).push(octet));
            lemma_encoded_bits_push(input@.take(i as int), octet);
            assert(done + (pending + cw) =~= encoded_bits(input@.take(i + 1)));
        }
        acc = (acc << (bits as u64)) + code as u64;
        held = held + bits;
        proof {
            pending = pending + cw;
        }
        while held >= 8
            invariant
                i < input.len(),
                done + pending == encoded_bits(input@.take(i + 1)),
                done.len() % 8 == 0,
                out@ == start + pack(done),
                pending.len() == held,
                held < 38,
                acc == value(pending),
            decreases held,
        {
            let shift = held - 8;
            let ghost head = pending.take(8);
            let ghost tail = pending.skip(8);
            proof {
                assert(pending =~= head + tail);
                lemma_value_concat(head, tail);
                lemma_value_bounds(head);
                lemma_value_bounds(tail);
                lemma2_to64();
                lemma_fundamental_div_mod_converse(
                    acc as int,
                    pow2(shift as nat) as int,
                    value(head),
                    value(tail),
                );
                lemma_u64_shr_is_div(acc, shift as u64);
            }
            let byte = acc >> (shift as u64);
            proof {
                assert(byte * pow2(shift as nat) <= acc) by (nonlinear_arith)
                    requires
                        acc == byte * pow2(shift as nat) + value(tail),
                        0 <= value(tail),
                ;
                lemma_u64_shl_is_mul(byte, shift as u64);
                let grown = done + head;
                assert(grown.take(grown.len() - 8) =~= done);
                assert(grown.skip(grown.len() - 8) =~= head);
                assert(start + pack(grown) =~= (start + pack(done)).push(byte as u8));
                assert(grown + tail =~= done + pending);
            }
            out.push(byte as u8);
            acc = acc - (byte << (shift as u64));
            held = shift;
            proof {
                done = done + head;
                pending = tail;
            }
        }
        i += 1;
    }
    proof {
        assert(input@.take(i as int) =~= input@);
    }
    if held > 0 {
        let shift = 8 - held;
        let ghost fill = ones(shift as int);
        proof {
            lemma_value_concat(pending, fill);
            lemma_value_ones(shift as int);
            lemma_value_bounds(pending);
            lemma_value_bounds(pending + fill);
            lemma2_to64();
            lemma_pow2_strictly_increases(held as nat, 8);
            lemma_pow2_strictly_increases(shift as nat, 9);
            assert(acc * pow2(shift as nat) <= 256 * 512) by (nonlinear_arith)
                requires
                    0 <= acc <= 256,
                    0 <= pow2(shift as nat) <= 512,
            ;
            lemma_u64_shl_is_mul(acc, shift as u64);
            lemma_u64_shl_is_mul(1, shift as u64);
            let full = encoded_bits(input@) + ones(padding_len(input@));
            assert(padding_len(input@) == shift);
            assert(full =~= done + (pending + fill));
            assert(full.take(full.len() - 8) =~= done);
            assert(full.skip(full.len() - 8) =~= pending + fill);
        }
        let byte = (acc << (shift as u64)) + ((1u64 << (shift as u64)) - 1);
        out.push(byte as u8);
        assert(out@ =~= start + huffman_encoding(input@));
    } else {
        proof {
            assert(pending =~= Seq::<bool>::empty());
            assert(padding_len(input@) == 0);
            assert(encoded_bits(input@) + ones(0) =~= done);
        }
    }
}

} // verus!
