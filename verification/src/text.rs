//! Byte-level view of UTF-8 text.
//!
//! Every `String` is modelled by its sequence of `char`s (`s@`); byte offsets
//! refer to the UTF-8 encoding of that sequence, `enc(s@)`. The helpers here
//! cut, join and measure text by byte offset, and the lemmas relate the byte
//! view of a concatenation to the byte views of its parts.

use vstd::prelude::*;
use vstd::utf8::*;

verus! {

broadcast use vstd::string::group_string_axioms;

/// The UTF-8 bytes of a character sequence.
pub open spec fn enc(s: Seq<char>) -> Seq<u8> {
    encode_utf8(s)
}

/// Length in bytes of the UTF-8 encoding of `s`.
pub open spec fn blen(s: Seq<char>) -> int {
    encode_utf8(s).len() as int
}

/// `off` falls on a character boundary of `s` (0 and the end included).
pub open spec fn is_boundary(s: Seq<char>, off: int) -> bool {
    is_char_boundary(encode_utf8(s), off)
}

/// The characters encoded by the first `off` bytes of `s`.
pub open spec fn text_prefix(s: Seq<char>, off: int) -> Seq<char> {
    decode_utf8(encode_utf8(s).subrange(0, off))
}

/// The characters encoded by the bytes of `s` from `off` on.
pub open spec fn text_suffix(s: Seq<char>, off: int) -> Seq<char> {
    decode_utf8(encode_utf8(s).subrange(off, blen(s)))
}

/// `s` with the bytes in `[a, b)` taken out.
pub open spec fn text_remove(s: Seq<char>, a: int, b: int) -> Seq<char> {
    text_prefix(s, a) + text_suffix(s, b)
}

/// `s` with `t` put in at byte offset `a`.
pub open spec fn text_insert(s: Seq<char>, a: int, t: Seq<char>) -> Seq<char> {
    text_prefix(s, a) + t + text_suffix(s, a)
}

/// Byte length of a concatenation is the sum of the byte lengths.
pub proof fn lemma_enc_concat(a: Seq<char>, b: Seq<char>)
    ensures
        encode_utf8(a + b) == encode_utf8(a) + encode_utf8(b),
    decreases a.len(),
{
    if a.len() == 0 {
        assert(a + b =~= b);
        assert(encode_utf8(a) =~= Seq::<u8>::empty());
        assert(encode_utf8(a) + encode_utf8(b) =~= encode_utf8(b));
    } else {
        lemma_enc_concat(a.drop_first(), b);
        assert((a + b).drop_first() =~= a.drop_first() + b);
        assert((a + b)[0] == a[0]);
        assert(encode_utf8(a + b) =~= encode_scalar(a[0] as u32) + (encode_utf8(a.drop_first())
            + encode_utf8(b)));
    }
}

/// The encoding of a character sequence is empty exactly when the sequence is.
pub proof fn lemma_enc_empty(s: Seq<char>)
    ensures
        (encode_utf8(s).len() == 0) == (s.len() == 0),
        s.len() <= encode_utf8(s).len(),
    decreases s.len(),
{
    if s.len() > 0 {
        lemma_enc_empty(s.drop_first());
        let c = s[0] as u32;
        assert(encode_scalar(c).len() >= 1);
    }
}

/// Both ends of an encoded text are boundaries.
pub proof fn lemma_ends_are_boundaries(s: Seq<char>)
    ensures
        is_boundary(s, 0),
        is_boundary(s, blen(s)),
{
    encode_utf8_valid_utf8(s);
    is_char_boundary_start_end_of_seq(encode_utf8(s));
}

/// A boundary of an encoded text lies within the text.
pub proof fn lemma_boundary_in_range(s: Seq<char>, off: int)
    requires
        is_boundary(s, off),
    ensures
        0 <= off <= blen(s),
{
    encode_utf8_valid_utf8(s);
    reveal_with_fuel(is_char_boundary, 1);
}

/// Boundaries of a concatenation are the boundaries of its parts, shifted.
pub proof fn lemma_boundary_concat(a: Seq<char>, b: Seq<char>, off: int)
    ensures
        0 <= off <= blen(a) ==> (is_boundary(a + b, off) == is_boundary(a, off)),
        blen(a) <= off <= blen(a) + blen(b) ==> (is_boundary(a + b, off) == is_boundary(
            b,
            off - blen(a),
        )),
{
    lemma_enc_concat(a, b);
    let ea = encode_utf8(a);
    let eb = encode_utf8(b);
    let e = encode_utf8(a + b);
    encode_utf8_valid_utf8(a);
    encode_utf8_valid_utf8(b);
    encode_utf8_valid_utf8(a + b);
    is_char_boundary_start_end_of_seq(ea);
    is_char_boundary_start_end_of_seq(eb);
    is_char_boundary_start_end_of_seq(e);
    if 0 <= off < ea.len() {
        is_char_boundary_iff_not_is_continuation_byte(ea, off);
        is_char_boundary_iff_not_is_continuation_byte(e, off);
        assert(e[off] == ea[off]);
    }
    if ea.len() <= off < ea.len() + eb.len() {
        is_char_boundary_iff_not_is_continuation_byte(eb, off - ea.len());
        is_char_boundary_iff_not_is_continuation_byte(e, off);
        assert(e[off] == eb[off - ea.len()]);
    }
    if off == ea.len() + eb.len() {
        assert(e.len() == off);
    }
}

/// The prefix and suffix cut at a boundary have the expected encodings.
pub proof fn lemma_prefix_suffix(s: Seq<char>, off: int)
    requires
        is_boundary(s, off),
    ensures
        encode_utf8(text_prefix(s, off)) == encode_utf8(s).subrange(0, off),
        encode_utf8(text_suffix(s, off)) == encode_utf8(s).subrange(off, blen(s)),
        0 <= off <= blen(s),
        s == text_prefix(s, off) + text_suffix(s, off),
        blen(text_prefix(s, off)) == off,
        blen(text_suffix(s, off)) == blen(s) - off,
{
    let e = encode_utf8(s);
    encode_utf8_valid_utf8(s);
    lemma_boundary_in_range(s, off);
    valid_utf8_split(e, off);
    decode_utf8_encode_utf8(e.subrange(0, off));
    decode_utf8_encode_utf8(e.subrange(off, e.len() as int));
    decode_utf8_split(e, off);
    encode_utf8_decode_utf8(s);
}

/// A character sequence is determined by its encoding.
pub proof fn lemma_enc_injective(a: Seq<char>, b: Seq<char>)
    requires
        encode_utf8(a) == encode_utf8(b),
    ensures
        a == b,
{
    encode_utf8_decode_utf8(a);
    encode_utf8_decode_utf8(b);
}

/// Facts about `text_insert` at a boundary.
pub proof fn lemma_text_insert(s: Seq<char>, a: int, t: Seq<char>)
    requires
        is_boundary(s, a),
    ensures
        encode_utf8(text_insert(s, a, t)) == encode_utf8(s).subrange(0, a) + encode_utf8(t)
            + encode_utf8(s).subrange(a, blen(s)),
        blen(text_insert(s, a, t)) == blen(s) + blen(t),
{
    lemma_prefix_suffix(s, a);
    lemma_enc_concat(text_prefix(s, a), t);
    lemma_enc_concat(text_prefix(s, a) + t, text_suffix(s, a));
}

/// Facts about `text_remove` between two boundaries.
pub proof fn lemma_text_remove(s: Seq<char>, a: int, b: int)
    requires
        is_boundary(s, a),
        is_boundary(s, b),
        a <= b,
    ensures
        encode_utf8(text_remove(s, a, b)) == encode_utf8(s).subrange(0, a) + encode_utf8(
            s,
        ).subrange(b, blen(s)),
        blen(text_remove(s, a, b)) == blen(s) - (b - a),
{
    lemma_prefix_suffix(s, a);
    lemma_prefix_suffix(s, b);
    lemma_enc_concat(text_prefix(s, a), text_suffix(s, b));
}

/// Cut `s` at byte offset `off` into the text before and the text after it.
pub fn split_at_byte(s: &String, off: usize) -> (r: (String, String))
    requires
        is_boundary(s@, off as int),
    ensures
        r.0@ == text_prefix(s@, off as int),
        r.1@ == text_suffix(s@, off as int),
{
    let (a, b) = s.as_str().split_at(off);
    proof {
        lemma_prefix_suffix(s@, off as int);
        encode_utf8_decode_utf8(a@);
        encode_utf8_decode_utf8(b@);
    }
    (a.to_owned(), b.to_owned())
}

/// `s` with the bytes in `[a, b)` taken out.
pub fn remove_bytes(s: &String, a: usize, b: usize) -> (r: String)
    requires
        is_boundary(s@, a as int),
        is_boundary(s@, b as int),
        a <= b,
    ensures
        r@ == text_remove(s@, a as int, b as int),
{
    let (head, _) = split_at_byte(s, a);
    let (_, tail) = split_at_byte(s, b);
    let mut out = head;
    out.append(tail.as_str());
    out
}

/// `s` with `t` put in at byte offset `a`.
pub fn insert_bytes(s: &String, a: usize, t: &str) -> (r: String)
    requires
        is_boundary(s@, a as int),
    ensures
        r@ == text_insert(s@, a as int, t@),
{
    let (head, tail) = split_at_byte(s, a);
    let mut out = head;
    out.append(t);
    out.append(tail.as_str());
    out
}

/// Byte length of a string.
pub fn byte_len(s: &String) -> (n: usize)
    ensures
        n as int == blen(s@),
{
    s.as_str().as_bytes().len()
}

/// Append one character to a string.
#[verifier::external_body]
pub(crate) fn push_char(s: &mut String, c: char)
    ensures
        final(s)@ == old(s)@.push(c),
{
    s.push(c);
}

/// The characters of a string, in order.
pub fn chars_of(s: &str) -> (v: Vec<char>)
    ensures
        v@ == s@,
{
    let mut v: Vec<char> = Vec::new();
    for c in it: s.chars()
        invariant
            v@ == it.seq().take(it.index() as int),
            it.seq() == s@,
    {
        v.push(c);
    }
    v
}

// ─── Numbers ──────────────────────────────────────────────────────────────────

/// The digits, as characters, of bases up to sixteen (upper case).
pub open spec fn digit_char(d: int) -> char {
    seq!['0', '1', '2', '3', '4', '5', '6', '7', '8', '9', 'A', 'B', 'C', 'D', 'E', 'F'][d]
}

/// `n` written in base `base`, without leading zeros ("0" for zero).
pub open spec fn digits(n: nat, base: nat) -> Seq<char>
    decreases n,
{
    if base < 2 || n < base {
        seq![digit_char(n as int)]
    } else {
        proof {
            assert(n / base < n) by (nonlinear_arith)
                requires
                    base >= 2,
                    n >= base,
            ;
        }
        digits(n / base, base).push(digit_char((n % base) as int))
    }
}

/// `n` in decimal, as `{}` formats it.
pub open spec fn decimal(n: nat) -> Seq<char> {
    digits(n, 10)
}

fn digit(d: u64) -> (c: char)
    requires
        d < 16,
    ensures
        c == digit_char(d as int),
{
    match d {
        0 => '0',
        1 => '1',
        2 => '2',
        3 => '3',
        4 => '4',
        5 => '5',
        6 => '6',
        7 => '7',
        8 => '8',
        9 => '9',
        10 => 'A',
        11 => 'B',
        12 => 'C',
        13 => 'D',
        14 => 'E',
        _ => 'F',
    }
}

/// Append `n` in base `base` to `out`.
pub(crate) fn push_digits(out: &mut String, n: u64, base: u64)
    requires
        2 <= base <= 16,
    ensures
        final(out)@ == old(out)@ + digits(n as nat, base as nat),
    decreases n,
{
    if n >= base {
        proof {
            assert(n / base < n) by (nonlinear_arith)
                requires
                    base >= 2,
                    n >= base,
            ;
        }
        push_digits(out, n / base, base);
    }
    push_char(out, digit(n % base));
    proof {
        if n < base {
            vstd::arithmetic::div_mod::lemma_small_mod(n as nat, base as nat);
        }
    }
}

/// Append `n` in decimal to `out`.
pub fn push_decimal(out: &mut String, n: u64)
    ensures
        final(out)@ == old(out)@ + decimal(n as nat),
{
    push_digits(out, n, 10);
}

} // verus!
