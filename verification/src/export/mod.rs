//! Export of a document as plain text, Markdown and HTML.
//!
//! Each exporter is described by a spec function from the document's title,
//! subtitle and blocks to the exact text it produces. The helpers here
//! format numbers and trim trailing whitespace.

pub mod txt;
pub mod md;
pub mod html;

pub use txt::export_txt;
pub use md::export_md;
pub use html::export_html;

use vstd::prelude::*;
use crate::text::{chars_of, push_char, digits, push_digits};
use crate::document::block::{AttrV, InlineAttr, attrs_view};
use crate::stats::{is_ws, is_white_space, trailing_ws, lemma_trailing_ws};

verus! {

// ── Trimming ─────────────────────────────────────────────────────────────────

/// `s` without its trailing whitespace, as `str::trim_end` gives it.
pub open spec fn trim_end_ws(s: Seq<char>) -> Seq<char> {
    s.take(s.len() - trailing_ws(s))
}

/// Text trimmed at its end does not end in whitespace.
pub proof fn law_trimmed_end_is_not_whitespace(s: Seq<char>)
    ensures
        trim_end_ws(s).len() > 0 ==> !is_ws(trim_end_ws(s).last()),
        trailing_ws(s) <= s.len(),
    decreases s.len(),
{
    if s.len() > 0 && is_ws(s.last()) {
        law_trimmed_end_is_not_whitespace(s.drop_last());
        assert(trim_end_ws(s) =~= trim_end_ws(s.drop_last()));
    }
}

/// `s` without its trailing whitespace.
pub fn trim_end(s: &String) -> (r: String)
    ensures
        r@ == trim_end_ws(s@),
{
    let v = chars_of(s.as_str());
    let mut k: usize = v.len();
    while k > 0 && is_white_space(v[k - 1])
        invariant
            k <= v@.len(),
            forall|j: int| k <= j < v@.len() ==> is_ws(#[trigger] v@[j]),
        decreases k,
    {
        k = k - 1;
    }
    proof {
        lemma_trailing_ws(v@, v@.len() - k);
    }
    let mut out = String::new();
    let mut i: usize = 0;
    while i < k
        invariant
            k <= v@.len(),
            i <= k,
            out@ == v@.take(i as int),
        decreases k - i,
    {
        push_char(&mut out, v[i]);
        proof {
            assert(v@.take(i as int + 1) =~= v@.take(i as int).push(v@[i as int]));
        }
        i = i + 1;
    }
    out
}

// ── Numbers ───────────────────────────────────────────────────────────────────

/// `n` in upper-case hexadecimal padded with zeros to six digits, as
/// `{:06X}` formats it.
pub open spec fn hex6(n: nat) -> Seq<char> {
    let h = digits(n, 16);
    if h.len() < 6 {
        Seq::new((6 - h.len()) as nat, |i: int| '0') + h
    } else {
        h
    }
}

/// Sixteen to the power `k`.
spec fn pow16(k: nat) -> nat
    decreases k,
{
    if k == 0 {
        1
    } else {
        16 * pow16((k - 1) as nat)
    }
}

proof fn lemma_digits_len(n: nat, k: nat)
    requires
        k >= 1,
        n < pow16(k),
    ensures
        digits(n, 16).len() <= k,
    decreases k,
{
    if n >= 16 {
        let p = pow16((k - 1) as nat);
        assert(n / 16 < p) by (nonlinear_arith)
            requires
                n < 16 * p,
        ;
        if k == 1 {
            assert(false);
        }
        lemma_digits_len(n / 16, (k - 1) as nat);
    }
}

/// Number of base-16 digits of `n`.
fn hex_len(n: u32) -> (k: usize)
    ensures
        k == digits(n as nat, 16).len(),
    decreases n,
{
    if n < 16 {
        1
    } else {
        let k = hex_len(n / 16);
        proof {
            assert(pow16(8) == 0x1_0000_0000) by {
                reveal_with_fuel(pow16, 9);
            }
            lemma_digits_len(n as nat, 8);
        }
        k + 1
    }
}

/// Append `n` in upper-case hexadecimal, padded to six digits, to `out`.
pub fn push_hex6(out: &mut String, n: u32)
    ensures
        final(out)@ == old(out)@ + hex6(n as nat),
{
    let k = hex_len(n);
    let ghost start = out@;
    let mut pad: usize = 0;
    if k < 6 {
        while pad < 6 - k
            invariant
                k < 6,
                pad <= 6 - k,
                out@ == start + Seq::new(pad as nat, |i: int| '0'),
            decreases 6 - k - pad,
        {
            push_char(out, '0');
            proof {
                assert(start + Seq::new((pad + 1) as nat, |i: int| '0') =~= (start + Seq::new(
                    pad as nat,
                    |i: int| '0',
                )).push('0'));
            }
            pad = pad + 1;
        }
    }
    let ghost padded = out@;
    push_digits(out, n as u64, 16);
    proof {
        if k < 6 {
            assert(out@ =~= start + hex6(n as nat));
        } else {
            assert(padded =~= start);
        }
    }
}

/// `p`, then `s`.
pub fn prefixed(p: &str, s: &String) -> (r: String)
    ensures
        r@ == p@ + s@,
{
    let mut r = String::new();
    r.append(p);
    r.append(s.as_str());
    proof {
        assert(r@ =~= p@ + s@);
    }
    r
}

/// `open`, then `s`, then `close`.
pub fn wrap(open: &str, s: &String, close: &str) -> (r: String)
    ensures
        r@ == open@ + s@ + close@,
{
    let mut r = String::new();
    r.append(open);
    r.append(s.as_str());
    r.append(close);
    proof {
        assert(r@ =~= open@ + s@ + close@);
    }
    r
}

// ── Attributes ────────────────────────────────────────────────────────────────

/// The URL of the first link among `attrs`.
pub open spec fn first_link(attrs: Seq<AttrV>) -> Option<Seq<char>>
    decreases attrs.len(),
{
    if attrs.len() == 0 {
        None
    } else {
        match attrs[0] {
            AttrV::Link(u) => Some(u),
            _ => first_link(attrs.drop_first()),
        }
    }
}

/// The colour of the first text colour among `attrs`.
pub open spec fn first_color(attrs: Seq<AttrV>) -> Option<u32>
    decreases attrs.len(),
{
    if attrs.len() == 0 {
        None
    } else {
        match attrs[0] {
            AttrV::TextColor(c) => Some(c),
            _ => first_color(attrs.drop_first()),
        }
    }
}

/// The colour of the first highlight among `attrs`.
pub open spec fn first_highlight(attrs: Seq<AttrV>) -> Option<u32>
    decreases attrs.len(),
{
    if attrs.len() == 0 {
        None
    } else {
        match attrs[0] {
            AttrV::Highlight(c) => Some(c),
            _ => first_highlight(attrs.drop_first()),
        }
    }
}

/// The URL of the first link among `attrs`.
pub fn find_link(attrs: &Vec<InlineAttr>) -> (r: Option<String>)
    ensures
        match first_link(attrs_view(attrs@)) {
            Some(u) => r matches Some(x) && x@ == u,
            None => r is None,
        },
{
    let ghost av = attrs_view(attrs@);
    proof {
        assert(av.skip(0) =~= av);
    }
    let mut i: usize = 0;
    while i < attrs.len()
        invariant
            av == attrs_view(attrs@),
            i <= attrs@.len(),
            first_link(av) == first_link(av.skip(i as int)),
        decreases attrs@.len() - i,
    {
        proof {
            assert(av.skip(i as int)[0] == attrs@[i as int]@);
            assert(av.skip(i as int).drop_first() =~= av.skip(i as int + 1));
        }
        match &attrs[i] {
            InlineAttr::Link(u) => {
                return Some(u.clone());
            },
            _ => {},
        }
        i = i + 1;
    }
    proof {
        assert(av.skip(i as int) =~= Seq::<AttrV>::empty());
    }
    None
}

/// The colour of the first text colour among `attrs`.
pub fn find_color(attrs: &Vec<InlineAttr>) -> (r: Option<u32>)
    ensures
        r == first_color(attrs_view(attrs@)),
{
    let ghost av = attrs_view(attrs@);
    proof {
        assert(av.skip(0) =~= av);
    }
    let mut i: usize = 0;
    while i < attrs.len()
        invariant
            av == attrs_view(attrs@),
            i <= attrs@.len(),
            first_color(av) == first_color(av.skip(i as int)),
        decreases attrs@.len() - i,
    {
        proof {
            assert(av.skip(i as int)[0] == attrs@[i as int]@);
            assert(av.skip(i as int).drop_first() =~= av.skip(i as int + 1));
        }
        match &attrs[i] {
            InlineAttr::TextColor(c) => {
                return Some(*c);
            },
            _ => {},
        }
        i = i + 1;
    }
    proof {
        assert(av.skip(i as int) =~= Seq::<AttrV>::empty());
    }
    None
}

/// The colour of the first highlight among `attrs`.
pub fn find_highlight(attrs: &Vec<InlineAttr>) -> (r: Option<u32>)
    ensures
        r == first_highlight(attrs_view(attrs@)),
{
    let ghost av = attrs_view(attrs@);
    proof {
        assert(av.skip(0) =~= av);
    }
    let mut i: usize = 0;
    while i < attrs.len()
        invariant
            av == attrs_view(attrs@),
            i <= attrs@.len(),
            first_highlight(av) == first_highlight(av.skip(i as int)),
        decreases attrs@.len() - i,
    {
        proof {
            assert(av.skip(i as int)[0] == attrs@[i as int]@);
            assert(av.skip(i as int).drop_first() =~= av.skip(i as int + 1));
        }
        match &attrs[i] {
            InlineAttr::Highlight(c) => {
                return Some(*c);
            },
            _ => {},
        }
        i = i + 1;
    }
    proof {
        assert(av.skip(i as int) =~= Seq::<AttrV>::empty());
    }
    None
}

} // verus!
