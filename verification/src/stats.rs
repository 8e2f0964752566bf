//! Document statistics — word, character, sentence and paragraph counts,
//! reading time, and the readability band of a Flesch reading-ease score.
//!
//! The counts are taken over the document's text: the blocks' texts joined
//! by single spaces. Whitespace is the Unicode `White_Space` set, as in
//! `char::is_whitespace`.

use vstd::prelude::*;
use vstd::utf8::*;
use crate::text::{blen, byte_len, chars_of, lemma_enc_concat};
use crate::document::Document;
use crate::document::block::{BlockV, KindV, block_text};

verus! {

// ── Characters ────────────────────────────────────────────────────────────────

/// `c` has the Unicode `White_Space` property.
pub open spec fn is_ws(c: char) -> bool {
    ('\u{9}' <= c && c <= '\u{d}') || c == ' ' || c == '\u{85}' || c == '\u{a0}' || c == '\u{1680}'
        || ('\u{2000}' <= c && c <= '\u{200a}') || c == '\u{2028}' || c == '\u{2029}' || c
        == '\u{202f}' || c == '\u{205f}' || c == '\u{3000}'
}

/// Whether `c` is whitespace.
pub fn is_white_space(c: char) -> (r: bool)
    ensures
        r == is_ws(c),
{
    ('\u{9}' <= c && c <= '\u{d}') || c == ' ' || c == '\u{85}' || c == '\u{a0}' || c == '\u{1680}'
        || ('\u{2000}' <= c && c <= '\u{200a}') || c == '\u{2028}' || c == '\u{2029}' || c
        == '\u{202f}' || c == '\u{205f}' || c == '\u{3000}'
}

/// Byte length of the UTF-8 encoding of one character.
fn char_len(c: char) -> (n: usize)
    ensures
        n == blen(seq![c]),
        1 <= n <= 4,
{
    proof {
        let s = seq![c];
        assert(s.drop_first() =~= Seq::<char>::empty());
        assert(encode_utf8(s) == encode_scalar(c as u32) + encode_utf8(s.drop_first()));
        assert(encode_utf8(s.drop_first()) =~= Seq::<u8>::empty());
        char_is_scalar(c);
    }
    let u = c as u32;
    if u <= 0x7f {
        1
    } else if u <= 0x7ff {
        2
    } else if u <= 0xffff {
        3
    } else {
        4
    }
}

/// Byte length of a sequence grows by the length of an appended character.
proof fn lemma_blen_push(s: Seq<char>, c: char)
    ensures
        blen(s.push(c)) == blen(s) + blen(seq![c]),
{
    assert(s.push(c) =~= s + seq![c]);
    lemma_enc_concat(s, seq![c]);
}

// ── Words ─────────────────────────────────────────────────────────────────────

/// A word starts at index `i`: a non-whitespace character that is first or
/// follows whitespace.
pub open spec fn starts_word(s: Seq<char>, i: int) -> bool {
    !is_ws(s[i]) && (i == 0 || is_ws(s[i - 1]))
}

/// Number of words of `s`: maximal runs of non-whitespace characters, as
/// `split_whitespace` yields them.
pub open spec fn word_count(s: Seq<char>) -> nat
    decreases s.len(),
{
    if s.len() == 0 {
        0
    } else {
        word_count(s.drop_last()) + if starts_word(s, s.len() - 1) {
            1nat
        } else {
            0nat
        }
    }
}

/// Count the whitespace-separated words of `text`.
pub fn count_words(text: &str) -> (n: usize)
    ensures
        n == word_count(text@),
{
    let v = chars_of(text);
    let mut n: usize = 0;
    let mut i: usize = 0;
    while i < v.len()
        invariant
            i <= v@.len(),
            n <= i,
            n == word_count(v@.take(i as int)),
        decreases v@.len() - i,
    {
        proof {
            assert(v@.take(i as int + 1).drop_last() =~= v@.take(i as int));
        }
        let ws = is_white_space(v[i]);
        if !ws && (i == 0 || is_white_space(v[i - 1])) {
            n = n + 1;
        }
        i = i + 1;
    }
    proof {
        assert(v@.take(v@.len() as int) =~= v@);
    }
    n
}

// ── Sentences ─────────────────────────────────────────────────────────────────

/// `c` ends a sentence.
pub open spec fn is_terminator(c: char) -> bool {
    c == '.' || c == '!' || c == '?'
}

/// The pieces of `s` between terminators, as `str::split` yields them:
/// one more than there are terminators.
pub open spec fn segments(s: Seq<char>) -> Seq<Seq<char>>
    decreases s.len(),
{
    if s.len() == 0 {
        seq![Seq::<char>::empty()]
    } else {
        let p = segments(s.drop_last());
        let c = s.last();
        if is_terminator(c) {
            p.push(Seq::<char>::empty())
        } else {
            p.update(p.len() - 1, p.last().push(c))
        }
    }
}

/// Number of whitespace characters at the start of `s`.
pub open spec fn leading_ws(s: Seq<char>) -> nat
    decreases s.len(),
{
    if s.len() > 0 && is_ws(s[0]) {
        1 + leading_ws(s.drop_first())
    } else {
        0
    }
}

/// Number of whitespace characters at the end of `s`.
pub open spec fn trailing_ws(s: Seq<char>) -> nat
    decreases s.len(),
{
    if s.len() > 0 && is_ws(s.last()) {
        1 + trailing_ws(s.drop_last())
    } else {
        0
    }
}

/// `s` without leading and trailing whitespace, as `str::trim` gives it.
pub open spec fn trim_ws(s: Seq<char>) -> Seq<char> {
    let t = s.skip(leading_ws(s) as int);
    t.take(t.len() - trailing_ws(t))
}

/// A piece counts as a sentence when its trimmed text is over two bytes.
pub open spec fn is_sentence(seg: Seq<char>) -> bool {
    blen(trim_ws(seg)) > 2
}

/// Number of pieces that count as sentences.
pub open spec fn sentence_pieces(segs: Seq<Seq<char>>) -> nat
    decreases segs.len(),
{
    if segs.len() == 0 {
        0
    } else {
        sentence_pieces(segs.drop_last()) + if is_sentence(segs.last()) {
            1nat
        } else {
            0nat
        }
    }
}

/// Number of sentences of `s`: the pieces between terminators that count
/// as sentences, and at least one.
pub open spec fn sentence_count(s: Seq<char>) -> nat {
    let n = sentence_pieces(segments(s));
    if n == 0 {
        1
    } else {
        n
    }
}

proof fn lemma_segments_nonempty(s: Seq<char>)
    ensures
        segments(s).len() >= 1,
    decreases s.len(),
{
    if s.len() > 0 {
        lemma_segments_nonempty(s.drop_last());
    }
}

pub proof fn lemma_leading_ws(s: Seq<char>, k: int)
    requires
        0 <= k <= s.len(),
        forall|j: int| 0 <= j < k ==> is_ws(#[trigger] s[j]),
        k == s.len() || !is_ws(s[k]),
    ensures
        leading_ws(s) == k,
    decreases k,
{
    if k > 0 {
        lemma_leading_ws(s.drop_first(), k - 1);
    }
}

pub proof fn lemma_trailing_ws(s: Seq<char>, k: int)
    requires
        0 <= k <= s.len(),
        forall|j: int| s.len() - k <= j < s.len() ==> is_ws(#[trigger] s[j]),
        k == s.len() || !is_ws(s[s.len() - k - 1]),
    ensures
        trailing_ws(s) == k,
    decreases k,
{
    if k > 0 {
        lemma_trailing_ws(s.drop_last(), k - 1);
    }
}

/// `s` without leading and trailing whitespace.
pub fn trimmed(s: &str) -> (r: String)
    ensures
        r@ == trim_ws(s@),
{
    let v = chars_of(s);
    let mut a: usize = 0;
    while a < v.len() && is_white_space(v[a])
        invariant
            a <= v@.len(),
            forall|j: int| 0 <= j < a ==> is_ws(#[trigger] v@[j]),
        decreases v@.len() - a,
    {
        a = a + 1;
    }
    proof {
        lemma_leading_ws(v@, a as int);
    }
    let ghost t = v@.skip(a as int);
    let mut b: usize = v.len();
    while b > a && is_white_space(v[b - 1])
        invariant
            a <= b <= v@.len(),
            forall|j: int| b <= j < v@.len() ==> is_ws(#[trigger] v@[j]),
        decreases b - a,
    {
        b = b - 1;
    }
    proof {
        assert(t =~= v@.subrange(a as int, v@.len() as int));
        assert forall|j: int| t.len() - (v@.len() - b) <= j < t.len() implies is_ws(
            #[trigger] t[j],
        ) by {
            assert(t[j] == v@[a + j]);
        }
        if b > a {
            assert(t[t.len() - (v@.len() - b) - 1] == v@[b - 1]);
        }
        lemma_trailing_ws(t, v@.len() - b);
    }
    let mut out = String::new();
    let mut k: usize = a;
    while k < b
        invariant
            a <= k <= b <= v@.len(),
            out@ == v@.subrange(a as int, k as int),
        decreases b - k,
    {
        crate::text::push_char(&mut out, v[k]);
        proof {
            assert(v@.subrange(a as int, k as int + 1) =~= v@.subrange(a as int, k as int).push(
                v@[k as int],
            ));
        }
        k = k + 1;
    }
    proof {
        assert(trim_ws(s@) =~= v@.subrange(a as int, b as int));
    }
    out
}

/// Byte length of a sequence is at least that of each of its prefixes.
proof fn lemma_blen_prefix(s: Seq<char>, k: int)
    requires
        0 <= k <= s.len(),
    ensures
        blen(s.take(k)) <= blen(s),
{
    assert(s =~= s.take(k) + s.skip(k));
    lemma_enc_concat(s.take(k), s.skip(k));
}

/// Whether the piece `v[from..to]` counts as a sentence.
fn piece_is_sentence(v: &Vec<char>, from: usize, to: usize) -> (r: bool)
    requires
        from <= to <= v@.len(),
    ensures
        r == is_sentence(v@.subrange(from as int, to as int)),
        r ==> from < to,
{
    let ghost seg = v@.subrange(from as int, to as int);
    let mut a: usize = from;
    while a < to && is_white_space(v[a])
        invariant
            from <= a <= to <= v@.len(),
            forall|j: int| from <= j < a ==> is_ws(#[trigger] v@[j]),
        decreases to - a,
    {
        a = a + 1;
    }
    proof {
        assert forall|j: int| 0 <= j < a - from implies is_ws(#[trigger] seg[j]) by {
            assert(seg[j] == v@[from + j]);
        }
        lemma_leading_ws(seg, a - from);
    }
    let ghost t = seg.skip(a - from);
    let mut b: usize = to;
    while b > a && is_white_space(v[b - 1])
        invariant
            from <= a <= b <= to <= v@.len(),
            forall|j: int| b <= j < to ==> is_ws(#[trigger] v@[j]),
        decreases b - a,
    {
        b = b - 1;
    }
    proof {
        assert(t =~= v@.subrange(a as int, to as int));
        assert forall|j: int| t.len() - (to - b) <= j < t.len() implies is_ws(#[trigger] t[j]) by {
            assert(t[j] == v@[a + j]);
        }
        lemma_trailing_ws(t, to - b);
        assert(trim_ws(seg) =~= v@.subrange(a as int, b as int));
    }
    let ghost trimmed = v@.subrange(a as int, b as int);
    let mut bytes: usize = 0;
    let mut k: usize = a;
    while k < b
        invariant
            from <= a <= k <= b <= to <= v@.len(),
            trimmed == v@.subrange(a as int, b as int),
            trim_ws(seg) == trimmed,
            seg == v@.subrange(from as int, to as int),
            bytes == blen(trimmed.take(k - a)),
            bytes <= 2,
        decreases b - k,
    {
        let n = char_len(v[k]);
        proof {
            assert(trimmed.take(k - a + 1) =~= trimmed.take(k - a).push(v@[k as int]));
            lemma_blen_push(trimmed.take(k - a), v@[k as int]);
        }
        bytes = bytes + n;
        k = k + 1;
        if bytes > 2 {
            proof {
                lemma_blen_prefix(trimmed, k - a);
            }
            return true;
        }
    }
    proof {
        assert(trimmed.take(b - a) =~= trimmed);
    }
    false
}

/// Count the sentences of `text`: the pieces between `.`, `!` and `?` whose
/// trimmed text is over two bytes, and at least one.
pub fn count_sentences(text: &str) -> (n: usize)
    ensures
        n == sentence_count(text@),
{
    let v = chars_of(text);
    let mut count: usize = 0;
    let mut start: usize = 0;
    let mut i: usize = 0;
    while i < v.len()
        invariant
            start <= i <= v@.len(),
            count <= start,
            segments(v@.take(i as int)).len() >= 1,
            count == sentence_pieces(segments(v@.take(i as int)).drop_last()),
            segments(v@.take(i as int)).last() == v@.subrange(start as int, i as int),
        decreases v@.len() - i,
    {
        let ghost p = segments(v@.take(i as int));
        proof {
            assert(v@.take(i as int + 1).drop_last() =~= v@.take(i as int));
            assert(v@.take(i as int + 1).last() == v@[i as int]);
        }
        let c = v[i];
        if c == '.' || c == '!' || c == '?' {
            let long = piece_is_sentence(&v, start, i);
            proof {
                let q = p.push(Seq::<char>::empty());
                assert(q.drop_last() =~= p);
                assert(p =~= p.drop_last().push(p.last()));
            }
            if long {
                count = count + 1;
            }
            start = i + 1;
            proof {
                assert(v@.subrange(start as int, i as int + 1) =~= Seq::<char>::empty());
            }
        } else {
            proof {
                let q = p.update(p.len() - 1, p.last().push(c));
                assert(q.drop_last() =~= p.drop_last());
                assert(q.last() =~= v@.subrange(start as int, i as int + 1));
            }
        }
        i = i + 1;
    }
    let long = piece_is_sentence(&v, start, v.len());
    proof {
        let p = segments(v@.take(i as int));
        assert(v@.take(i as int) =~= v@);
        assert(p =~= p.drop_last().push(p.last()));
    }
    if long {
        count = count + 1;
    }
    if count == 0 {
        1
    } else {
        count
    }
}

/// Every text counts at least one sentence, and any text takes at least a
/// minute to read.
pub proof fn law_counts_at_least_one(s: Seq<char>, words: nat)
    ensures
        sentence_count(s) >= 1,
        read_minutes_for(words as int) >= 1,
{
}

/// A text has no more words than characters.
pub proof fn law_words_at_most_chars(s: Seq<char>)
    ensures
        word_count(s) <= s.len(),
    decreases s.len(),
{
    if s.len() > 0 {
        law_words_at_most_chars(s.drop_last());
    }
}

// ── Document statistics ───────────────────────────────────────────────────────

/// The document's text: the blocks' texts joined by single spaces.
pub open spec fn joined_text(blocks: Seq<BlockV>) -> Seq<char>
    decreases blocks.len(),
{
    if blocks.len() == 0 {
        Seq::empty()
    } else if blocks.len() == 1 {
        block_text(blocks[0])
    } else {
        joined_text(blocks.drop_last()) + seq![' '] + block_text(blocks.last())
    }
}

/// Number of paragraph blocks.
pub open spec fn paragraph_count(blocks: Seq<BlockV>) -> nat
    decreases blocks.len(),
{
    if blocks.len() == 0 {
        0
    } else {
        paragraph_count(blocks.drop_last()) + if blocks.last().kind == KindV::Paragraph {
            1nat
        } else {
            0nat
        }
    }
}

/// Reading time in minutes at 238 words a minute, at least one.
pub open spec fn read_minutes_for(words: int) -> int {
    if words / 238 < 1 {
        1
    } else {
        words / 238
    }
}

/// The counts that make up the statistics of a document.
#[derive(Debug, Clone, Copy, PartialEq, Eq, Structural)]
pub struct DocCounts {
    pub words: usize,
    pub characters: usize,
    pub sentences: usize,
    pub paragraphs: usize,
    pub read_minutes: usize,
}

/// How hard a text is to read, by its Flesch reading-ease score.
#[derive(Debug, Clone, Copy, PartialEq, Eq, Structural)]
pub enum ReadabilityLevel {
    Easy,
    Fair,
    Hard,
    Dense,
}

impl Default for ReadabilityLevel {
    fn default() -> (r: Self)
        ensures
            r == ReadabilityLevel::Hard,
    {
        ReadabilityLevel::Hard
    }
}

/// The band of a reading-ease score: 71 to 100 is easy, 51 to 70 fair,
/// 31 to 50 hard, anything else dense.
pub open spec fn level_of(fk: u32) -> ReadabilityLevel {
    if 71 <= fk && fk <= 100 {
        ReadabilityLevel::Easy
    } else if 51 <= fk && fk <= 70 {
        ReadabilityLevel::Fair
    } else if 31 <= fk && fk <= 50 {
        ReadabilityLevel::Hard
    } else {
        ReadabilityLevel::Dense
    }
}

/// The readability band of a reading-ease score.
pub fn readability_level(fk: u32) -> (r: ReadabilityLevel)
    ensures
        r == level_of(fk),
{
    if 71 <= fk && fk <= 100 {
        ReadabilityLevel::Easy
    } else if 51 <= fk && fk <= 70 {
        ReadabilityLevel::Fair
    } else if 31 <= fk && fk <= 50 {
        ReadabilityLevel::Hard
    } else {
        ReadabilityLevel::Dense
    }
}

impl ReadabilityLevel {
    /// The level's name, as it is shown.
    pub fn label(&self) -> (s: &'static str)
        ensures
            *self == ReadabilityLevel::Easy ==> s@ == "Easy"@,
            *self == ReadabilityLevel::Fair ==> s@ == "Fair"@,
            *self == ReadabilityLevel::Hard ==> s@ == "Hard"@,
            *self == ReadabilityLevel::Dense ==> s@ == "Dense"@,
    {
        match self {
            ReadabilityLevel::Easy => "Easy",
            ReadabilityLevel::Fair => "Fair",
            ReadabilityLevel::Hard => "Hard",
            ReadabilityLevel::Dense => "Dense",
        }
    }
}

/// Document statistics.
#[derive(Debug, Clone, Copy, PartialEq, Eq, Structural)]
pub struct DocStats {
    pub words: usize,
    pub characters: usize,
    pub sentences: usize,
    pub paragraphs: usize,
    pub read_minutes: usize,
    pub readability: ReadabilityLevel,
}

impl Default for DocStats {
    fn default() -> (r: Self)
        ensures
            r.words == 0 && r.characters == 0 && r.sentences == 0 && r.paragraphs == 0
                && r.read_minutes == 0 && r.readability == ReadabilityLevel::Hard,
    {
        DocStats {
            words: 0,
            characters: 0,
            sentences: 0,
            paragraphs: 0,
            read_minutes: 0,
            readability: ReadabilityLevel::Hard,
        }
    }
}

/// The document's text, the blocks' texts joined by single spaces.
pub fn full_text(doc: &Document) -> (s: String)
    ensures
        s@ == joined_text(doc.blocks_view()),
{
    let ghost bv = doc.blocks_view();
    let mut s = String::new();
    let mut i: usize = 0;
    while i < doc.blocks.len()
        invariant
            bv == doc.blocks_view(),
            i <= bv.len(),
            s@ == joined_text(bv.take(i as int)),
        decreases bv.len() - i,
    {
        proof {
            assert(bv[i as int] == doc.blocks@[i as int]@);
            assert(bv.take(i as int + 1).drop_last() =~= bv.take(i as int));
            if i == 0 {
                assert(s@ =~= Seq::<char>::empty());
            }
        }
        if i > 0 {
            s.append(" ");
            proof {
                reveal_strlit(" ");
            }
        }
        let t = doc.blocks[i].plain_text();
        s.append(t.as_str());
        proof {
            if i > 0 {
                assert(s@ =~= joined_text(bv.take(i as int + 1)));
            } else {
                assert(s@ =~= joined_text(bv.take(i as int + 1)));
            }
        }
        i = i + 1;
    }
    proof {
        assert(bv.take(bv.len() as int) =~= bv);
    }
    s
}

/// Count the paragraph blocks.
pub fn count_paragraphs(doc: &Document) -> (n: usize)
    ensures
        n == paragraph_count(doc.blocks_view()),
{
    let ghost bv = doc.blocks_view();
    let mut n: usize = 0;
    let mut i: usize = 0;
    while i < doc.blocks.len()
        invariant
            bv == doc.blocks_view(),
            i <= bv.len(),
            n <= i,
            n == paragraph_count(bv.take(i as int)),
        decreases bv.len() - i,
    {
        proof {
            assert(bv[i as int] == doc.blocks@[i as int]@);
            assert(bv.take(i as int + 1).drop_last() =~= bv.take(i as int));
        }
        match doc.blocks[i].kind {
            crate::document::block::BlockKind::Paragraph => {
                n = n + 1;
            },
            _ => {},
        }
        i = i + 1;
    }
    proof {
        assert(bv.take(bv.len() as int) =~= bv);
    }
    n
}

/// The counts of a document: words, bytes and sentences of its text,
/// paragraph blocks, and reading time.
pub fn compute_counts(doc: &Document) -> (c: DocCounts)
    requires
        blen(joined_text(doc.blocks_view())) <= isize::MAX,
    ensures
        c.words == word_count(joined_text(doc.blocks_view())),
        c.characters == blen(joined_text(doc.blocks_view())),
        c.sentences == sentence_count(joined_text(doc.blocks_view())),
        c.paragraphs == paragraph_count(doc.blocks_view()),
        c.read_minutes == read_minutes_for(c.words as int),
{
    let text = full_text(doc);
    let words = count_words(text.as_str());
    let characters = byte_len(&text);
    let sentences = count_sentences(text.as_str());
    let paragraphs = count_paragraphs(doc);
    let per = words / 238;
    let read_minutes = if per < 1 {
        1
    } else {
        per
    };
    DocCounts { words, characters, sentences, paragraphs, read_minutes }
}

/// The statistics of a document from its counts and the reading-ease score
/// of its text.
pub fn with_readability(c: DocCounts, fk: u32) -> (s: DocStats)
    ensures
        s.words == c.words,
        s.characters == c.characters,
        s.sentences == c.sentences,
        s.paragraphs == c.paragraphs,
        s.read_minutes == c.read_minutes,
        s.readability == level_of(fk),
{
    DocStats {
        words: c.words,
        characters: c.characters,
        sentences: c.sentences,
        paragraphs: c.paragraphs,
        read_minutes: c.read_minutes,
        readability: readability_level(fk),
    }
}


/// The paragraph count is the number of blocks whose kind is Paragraph:
/// the length of the blocks filtered by that kind.
pub proof fn law_paragraph_count_counts_paragraph_blocks(blocks: Seq<BlockV>)
    ensures
        paragraph_count(blocks) == blocks.filter(|b: BlockV| b.kind == KindV::Paragraph).len(),
    decreases blocks.len(),
{
    reveal(Seq::filter);
    if blocks.len() > 0 {
        law_paragraph_count_counts_paragraph_blocks(blocks.drop_last());
    }
}

} // verus!
