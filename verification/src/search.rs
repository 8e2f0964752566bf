//! Document search — Find & Replace engine.
//!
//! Supports literal text and regex search, with optional case sensitivity.
//! Matching itself is done by the `regex` crate; this module decides what
//! is searched for, collects the matches block by block, picks the next or
//! previous match, and replaces matches back to front.

use vstd::prelude::*;
use crate::text::{blen, is_boundary, text_prefix, text_suffix, lemma_prefix_suffix};
use crate::document::Document;
use crate::document::block::{BlockV, block_text};
use crate::document::position::{DocPosition, DocRange, pos_le};
use crate::text::byte_len;
use crate::document::laws::{law_delete_in_block, law_insert_places_text, lemma_cut_concat};
use crate::document::ops::{
    EditError, blocks_fit, check_pos_spec, delete_range_spec, insert_text_spec,
};
use crate::document::runs::{runs_len, runs_text, lemma_delete_text, lemma_insert_text};

verus! {

// ── Public types ──────────────────────────────────────────────────────────────

/// What to look for.
#[derive(Debug, Clone)]
pub struct SearchQuery {
    pub pattern: String,
    pub case_sensitive: bool,
    pub use_regex: bool,
}

/// One match: a byte range within one block.
#[derive(Debug, Clone, Copy, PartialEq, Eq, Structural)]
pub struct SearchMatch {
    pub block_idx: usize,
    pub byte_start: usize,
    pub byte_end: usize,
}

/// The start of a match as a position.
pub open spec fn match_start(m: SearchMatch) -> DocPosition {
    DocPosition { block_idx: m.block_idx, byte_offset: m.byte_start }
}

/// The end of a match as a position.
pub open spec fn match_end(m: SearchMatch) -> DocPosition {
    DocPosition { block_idx: m.block_idx, byte_offset: m.byte_end }
}

/// The range a match covers.
pub open spec fn match_range(m: SearchMatch) -> DocRange {
    DocRange { start: match_start(m), end: match_end(m) }
}

impl SearchMatch {
    pub fn start_pos(&self) -> (p: DocPosition)
        ensures
            p == match_start(*self),
    {
        DocPosition::new(self.block_idx, self.byte_start)
    }

    pub fn end_pos(&self) -> (p: DocPosition)
        ensures
            p == match_end(*self),
    {
        DocPosition::new(self.block_idx, self.byte_end)
    }

    pub fn to_range(&self) -> (r: DocRange)
        requires
            self.byte_start <= self.byte_end,
        ensures
            r == match_range(*self),
    {
        DocRange::new(self.start_pos(), self.end_pos())
    }
}

/// Why a search or replacement failed.
#[derive(Debug, Clone)]
pub enum SearchError {
    /// The pattern is not a valid regular expression; the message says why.
    InvalidRegex(String),
    /// An edit was refused.
    Edit(EditError),
    /// The document's text, after all replacements, would not fit in
    /// `isize::MAX` bytes.
    TooLarge,
}

// ── The regex engine ──────────────────────────────────────────────────────────

/// `c` has a meaning of its own in a regex and is escaped by `regex::escape`.
pub open spec fn is_meta_char(c: char) -> bool {
    c == '\\' || c == '.' || c == '+' || c == '*' || c == '?' || c == '(' || c == ')' || c == '|'
        || c == '[' || c == ']' || c == '{' || c == '}' || c == '^' || c == '$' || c == '#' || c
        == '&' || c == '-' || c == '~'
}

/// `s` with a backslash put before every meta character.
pub open spec fn escape_spec(s: Seq<char>) -> Seq<char>
    decreases s.len(),
{
    if s.len() == 0 {
        Seq::empty()
    } else {
        let rest = escape_spec(s.drop_last());
        let c = s.last();
        if is_meta_char(c) {
            rest.push('\\').push(c)
        } else {
            rest.push(c)
        }
    }
}

/// Whether `RegexBuilder` accepts `pattern` with the given case setting.
pub uninterp spec fn regex_compiles(pattern: Seq<char>, case_insensitive: bool) -> bool;

/// The `(start, end)` byte offsets of the matches that `Regex::find_iter`
/// yields for the regex built from `pattern` on `haystack`.
pub uninterp spec fn regex_find_iter(
    pattern: Seq<char>,
    case_insensitive: bool,
    haystack: Seq<char>,
) -> Seq<(usize, usize)>;

/// The compiled regex of the `regex` crate, carried through opaque.
#[verifier::external_type_specification]
#[verifier::external_body]
pub struct ExRegex(regex::Regex);

/// A compiled regex, together with the pattern and case setting it was
/// built from. Only `compile_regex` makes one.
pub struct CompiledRegex {
    re: regex::Regex,
    pattern: String,
    case_insensitive: bool,
}

impl CompiledRegex {
    pub closed spec fn source(&self) -> Seq<char> {
        self.pattern@
    }

    pub closed spec fn ignores_case(&self) -> bool {
        self.case_insensitive
    }
}

/// Whether `c` is a meta character (regex-syntax's `is_meta_character`).
fn is_meta(c: char) -> (b: bool)
    ensures
        b == is_meta_char(c),
{
    match c {
        '\\' | '.' | '+' | '*' | '?' | '(' | ')' | '|' | '[' | ']' | '{' | '}' | '^' | '$' | '#'
        | '&' | '-' | '~' => true,
        _ => false,
    }
}

/// `s` as a regex that matches it literally, as `regex::escape` makes it:
/// every meta character gets a backslash before it.
fn escape(s: &str) -> (r: String)
    ensures
        r@ == escape_spec(s@),
{
    let cs = crate::text::chars_of(s);
    let mut out = String::new();
    let mut i: usize = 0;
    while i < cs.len()
        invariant
            i <= cs.len(),
            cs@ == s@,
            out@ == escape_spec(cs@.take(i as int)),
        decreases cs.len() - i,
    {
        let c = cs[i];
        proof {
            assert(cs@.take(i + 1).drop_last() =~= cs@.take(i as int));
            assert(cs@.take(i + 1).last() == c);
        }
        if is_meta(c) {
            crate::text::push_char(&mut out, '\\');
        }
        crate::text::push_char(&mut out, c);
        i = i + 1;
    }
    proof {
        assert(cs@.take(cs.len() as int) =~= cs@);
    }
    out
}

/// `RegexBuilder::new(pattern).case_insensitive(ci).build()`. It succeeds
/// exactly when the pattern is accepted (`regex_compiles`); the error's
/// message comes back as text. What a compiled regex matches is named by
/// `regex_find_iter` over the pattern and case setting kept with it.
#[verifier::external_body]
fn compile_regex(pattern: &str, case_insensitive: bool) -> (r: Result<CompiledRegex, String>)
    ensures
        r is Ok == regex_compiles(pattern@, case_insensitive),
        r matches Ok(c) ==> c.source() == pattern@ && c.ignores_case() == case_insensitive,
{
    match regex::RegexBuilder::new(pattern).case_insensitive(case_insensitive).build() {
        Ok(re) => Ok(CompiledRegex { re, pattern: pattern.to_string(), case_insensitive }),
        Err(e) => Err(e.to_string()),
    }
}

/// `Regex::find_iter` on `text`, each match as its `(start, end)` byte
/// offsets. The regex documentation promises that matches are successive
/// and non-overlapping, that `start <= end`, and that both offsets fall on
/// UTF-8 boundaries of the haystack; those facts are stated too.
#[verifier::external_body]
fn find_matches(re: &CompiledRegex, text: &str) -> (r: Vec<(usize, usize)>)
    ensures
        r@ == regex_find_iter(re.source(), re.ignores_case(), text@),
        forall|k: int|
            0 <= k < r@.len() ==> r@[k].0 <= r@[k].1 && is_boundary(text@, r@[k].0 as int)
                && is_boundary(text@, r@[k].1 as int),
        forall|k: int| 0 <= k < r@.len() - 1 ==> r@[k].1 <= r@[k + 1].0,
{
    re.re.find_iter(text).map(|m| (m.start(), m.end())).collect()
}

// ── Search ────────────────────────────────────────────────────────────────────

/// The regex source a query searches with: the pattern itself in regex
/// mode, the escaped pattern otherwise.
pub open spec fn query_source(q: &SearchQuery) -> Seq<char> {
    if q.use_regex {
        q.pattern@
    } else {
        escape_spec(q.pattern@)
    }
}

/// The matches found in block `block_idx`, given the engine's `(start, end)`
/// pairs for its text.
pub open spec fn block_matches(block_idx: usize, found: Seq<(usize, usize)>) -> Seq<SearchMatch> {
    found.map_values(
        |p: (usize, usize)| SearchMatch { block_idx, byte_start: p.0, byte_end: p.1 },
    )
}

/// The matches in the first `n` blocks, block by block, in order.
pub open spec fn matches_upto(
    blocks: Seq<BlockV>,
    source: Seq<char>,
    case_insensitive: bool,
    n: int,
) -> Seq<SearchMatch>
    decreases n,
{
    if n <= 0 {
        Seq::empty()
    } else {
        matches_upto(blocks, source, case_insensitive, n - 1) + block_matches(
            (n - 1) as usize,
            regex_find_iter(source, case_insensitive, block_text(blocks[n - 1])),
        )
    }
}

/// All matches of the query in the document, in document order.
pub open spec fn all_matches(blocks: Seq<BlockV>, q: &SearchQuery) -> Seq<SearchMatch> {
    matches_upto(blocks, query_source(q), !q.case_sensitive, blocks.len() as int)
}

/// The matches lie in the document: each names a block, starts no later
/// than it ends, and both its ends are character boundaries of its block's
/// text; and they come in document order without overlapping.
pub open spec fn matches_ok(blocks: Seq<BlockV>, ms: Seq<SearchMatch>) -> bool {
    &&& forall|k: int|
        0 <= k < ms.len() ==> {
            let m = #[trigger] ms[k];
            &&& m.block_idx < blocks.len()
            &&& m.byte_start <= m.byte_end
            &&& is_boundary(block_text(blocks[m.block_idx as int]), m.byte_start as int)
            &&& is_boundary(block_text(blocks[m.block_idx as int]), m.byte_end as int)
        }
    &&& forall|i: int, j: int|
        #![trigger ms[i], ms[j]]
        0 <= i < j < ms.len() ==> ms[i].block_idx < ms[j].block_idx || (ms[i].block_idx
            == ms[j].block_idx && ms[i].byte_end <= ms[j].byte_start)
}

/// Successive non-overlapping pairs do not overlap pairwise either.
proof fn lemma_found_pairwise(found: Seq<(usize, usize)>, i: int, j: int)
    requires
        0 <= i < j < found.len(),
        forall|k: int| 0 <= k < found.len() ==> found[k].0 <= found[k].1,
        forall|k: int| 0 <= k < found.len() - 1 ==> found[k].1 <= found[k + 1].0,
    ensures
        found[i].1 <= found[j].0,
    decreases j - i,
{
    if j > i + 1 {
        lemma_found_pairwise(found, i + 1, j);
        assert(found[i + 1].0 <= found[i + 1].1);
    }
}

/// Replacing the matches the last first never fails when they lie in the
/// document in order.
pub proof fn lemma_replace_back_ok(blocks: Seq<BlockV>, ms: Seq<SearchMatch>, repl: Seq<char>)
    requires
        matches_ok(blocks, ms),
    ensures
        replace_from_back(blocks, ms, repl).1 is Ok,
    decreases ms.len(),
{
    if ms.len() > 0 {
        let m = ms.last();
        let b = m.block_idx as int;
        let s = m.byte_start as int;
        let e = m.byte_end as int;
        let t = block_text(blocks[b]);
        assert(ms[ms.len() - 1] == m);
        law_delete_in_block(blocks, match_range(m));
        let b1 = delete_range_spec(blocks, match_range(m)).0;
        let t1 = block_text(b1[b]);
        lemma_prefix_suffix(t, s);
        lemma_prefix_suffix(t, e);
        lemma_cut_concat(text_prefix(t, s), text_suffix(t, e));
        assert(t1 == text_prefix(t, s) + text_suffix(t, e));
        assert(is_boundary(t1, s));
        law_insert_places_text(b1, match_start(m), repl);
        let b2 = replace_match_spec(blocks, m, repl).0;
        let t2 = block_text(b2[b]);
        // The new text starts with the text before the match.
        lemma_prefix_suffix(t1, s);
        assert(text_prefix(t1, s) == text_prefix(t, s));
        let p = text_prefix(t, s);
        assert(t2 == p + (repl + text_suffix(t1, s)));
        let rest = ms.drop_last();
        assert forall|k: int| 0 <= k < rest.len() implies {
            let x = #[trigger] rest[k];
            &&& x.block_idx < b2.len()
            &&& x.byte_start <= x.byte_end
            &&& is_boundary(block_text(b2[x.block_idx as int]), x.byte_start as int)
            &&& is_boundary(block_text(b2[x.block_idx as int]), x.byte_end as int)
        } by {
            let x = rest[k];
            assert(x == ms[k]);
            if x.block_idx as int == b {
                assert(x.byte_end <= s);
                crate::text::lemma_boundary_in_range(t, x.byte_start as int);
                crate::text::lemma_boundary_concat(p, text_suffix(t, s), x.byte_start as int);
                crate::text::lemma_boundary_concat(p, text_suffix(t, s), x.byte_end as int);
                crate::text::lemma_boundary_concat(p, repl + text_suffix(t1, s), x.byte_start as int);
                crate::text::lemma_boundary_concat(p, repl + text_suffix(t1, s), x.byte_end as int);
            } else {
                assert(b2[x.block_idx as int] == blocks[x.block_idx as int]);
            }
        }
        assert forall|i: int, j: int|
            #![trigger rest[i], rest[j]]
            0 <= i < j < rest.len() implies rest[i].block_idx < rest[j].block_idx || (
            rest[i].block_idx == rest[j].block_idx && rest[i].byte_end <= rest[j].byte_start) by {
            assert(rest[i] == ms[i]);
            assert(rest[j] == ms[j]);
        }
        lemma_replace_back_ok(b2, rest, repl);
    }
}

/// Turn the engine's `(start, end)` pairs for block `block_idx` into matches.
pub fn matches_in_block(block_idx: usize, found: &Vec<(usize, usize)>) -> (r: Vec<SearchMatch>)
    ensures
        r@ == block_matches(block_idx, found@),
{
    let mut out: Vec<SearchMatch> = Vec::new();
    let mut k: usize = 0;
    while k < found.len()
        invariant
            k <= found@.len(),
            out@ == block_matches(block_idx, found@.take(k as int)),
        decreases found@.len() - k,
    {
        let (s, e) = found[k];
        out.push(SearchMatch { block_idx, byte_start: s, byte_end: e });
        proof {
            assert(block_matches(block_idx, found@.take(k as int + 1)) =~= block_matches(
                block_idx,
                found@.take(k as int),
            ).push(SearchMatch { block_idx, byte_start: s, byte_end: e }));
        }
        k = k + 1;
    }
    proof {
        assert(found@.take(found@.len() as int) =~= found@);
    }
    out
}

/// Every match of the query in the document, block by block. An empty
/// pattern finds nothing; a pattern the engine refuses is an error.
pub fn find_all(doc: &Document, query: &SearchQuery) -> (r: Result<Vec<SearchMatch>, SearchError>)
    ensures
        query.pattern@.len() == 0 ==> (r matches Ok(v) && v@.len() == 0),
        query.pattern@.len() > 0 ==> (r is Ok <==> regex_compiles(
            query_source(query),
            !query.case_sensitive,
        )),
        query.pattern@.len() > 0 ==> (r matches Ok(v) ==> v@ == all_matches(
            doc.blocks_view(),
            query,
        )),
        r matches Err(e) ==> e is InvalidRegex,
        r matches Ok(v) ==> forall|k: int| 0 <= k < v@.len() ==> v@[k].byte_start <= v@[k].byte_end,
        r matches Ok(v) ==> matches_ok(doc.blocks_view(), v@),
{
    if query.pattern.as_str().is_empty() {
        return Ok(Vec::new());
    }
    let pat = if query.use_regex {
        query.pattern.clone()
    } else {
        escape(query.pattern.as_str())
    };
    let re = match compile_regex(pat.as_str(), !query.case_sensitive) {
        Ok(re) => re,
        Err(msg) => return Err(SearchError::InvalidRegex(msg)),
    };
    let ghost bv = doc.blocks_view();
    let mut results: Vec<SearchMatch> = Vec::new();
    let mut block_idx: usize = 0;
    while block_idx < doc.blocks.len()
        invariant
            bv == doc.blocks_view(),
            re.source() == query_source(query),
            re.ignores_case() == !query.case_sensitive,
            block_idx <= bv.len(),
            results@ == matches_upto(bv, query_source(query), !query.case_sensitive, block_idx as int),
            forall|k: int|
                0 <= k < results@.len() ==> results@[k].byte_start <= results@[k].byte_end,
            forall|k: int| 0 <= k < results@.len() ==> #[trigger] results@[k].block_idx < block_idx,
            matches_ok(bv, results@),
        decreases bv.len() - block_idx,
    {
        proof {
            assert(bv[block_idx as int] == doc.blocks@[block_idx as int]@);
        }
        let text = doc.blocks[block_idx].plain_text();
        let found = find_matches(&re, text.as_str());
        let mut here = matches_in_block(block_idx, &found);
        let ghost before = results@;
        results.append(&mut here);
        proof {
            let n0 = before.len();
            let bm = block_matches(block_idx, found@);
            assert(results@ == before + bm);
            assert forall|k: int| 0 <= k < results@.len() implies results@[k].byte_start
                <= results@[k].byte_end by {
                if k >= before.len() {
                    assert(results@[k] == block_matches(block_idx, found@)[k - before.len()]);
                }
            }
            assert forall|k: int| 0 <= k < results@.len() implies #[trigger] results@[k].block_idx
                < block_idx + 1 by {
                if k >= n0 {
                    assert(results@[k] == bm[k - n0]);
                } else {
                    assert(results@[k] == before[k]);
                }
            }
            assert forall|k: int| 0 <= k < results@.len() implies {
                let m = #[trigger] results@[k];
                &&& m.block_idx < bv.len()
                &&& m.byte_start <= m.byte_end
                &&& is_boundary(block_text(bv[m.block_idx as int]), m.byte_start as int)
                &&& is_boundary(block_text(bv[m.block_idx as int]), m.byte_end as int)
            } by {
                if k >= n0 {
                    assert(results@[k] == bm[k - n0]);
                } else {
                    assert(results@[k] == before[k]);
                }
            }
            assert forall|i: int, j: int|
                #![trigger results@[i], results@[j]]
                0 <= i < j < results@.len() implies results@[i].block_idx < results@[j].block_idx
                || (results@[i].block_idx == results@[j].block_idx && results@[i].byte_end
                <= results@[j].byte_start) by {
                if j < n0 {
                    assert(results@[i] == before[i]);
                    assert(results@[j] == before[j]);
                } else if i < n0 {
                    assert(results@[i] == before[i]);
                    assert(results@[j] == bm[j - n0]);
                } else {
                    assert(results@[i] == bm[i - n0]);
                    assert(results@[j] == bm[j - n0]);
                    lemma_found_pairwise(found@, i - n0, j - n0);
                }
            }
        }
        block_idx = block_idx + 1;
    }
    Ok(results)
}

/// Index of the first match, from `i` on, that starts after `after`; the
/// number of matches when there is none.
pub open spec fn first_after(all: Seq<SearchMatch>, after: DocPosition, i: int) -> int
    decreases all.len() - i,
{
    if i < 0 || i >= all.len() {
        all.len() as int
    } else if all[i].block_idx > after.block_idx || (all[i].block_idx == after.block_idx
        && all[i].byte_start > after.byte_offset) {
        i
    } else {
        first_after(all, after, i + 1)
    }
}

/// Index of the last match among the first `n` that ends before `before`;
/// -1 when there is none.
pub open spec fn last_before(all: Seq<SearchMatch>, before: DocPosition, n: int) -> int
    decreases n,
{
    if n <= 0 || n > all.len() {
        -1
    } else if all[n - 1].block_idx < before.block_idx || (all[n - 1].block_idx == before.block_idx
        && all[n - 1].byte_end < before.byte_offset) {
        n - 1
    } else {
        last_before(all, before, n - 1)
    }
}

/// The match that `find_next` picks from `all`: the first starting after
/// `after`, or, wrapping around, the first of all.
pub open spec fn next_match(all: Seq<SearchMatch>, after: DocPosition) -> Option<(SearchMatch, bool)> {
    if all.len() == 0 {
        None
    } else {
        let i = first_after(all, after, 0);
        if i < all.len() {
            Some((all[i], false))
        } else {
            Some((all[0], true))
        }
    }
}

/// The match that `find_prev` picks from `all`: the last ending before
/// `before`, or, wrapping around, the last of all.
pub open spec fn prev_match(all: Seq<SearchMatch>, before: DocPosition) -> Option<(SearchMatch, bool)> {
    if all.len() == 0 {
        None
    } else {
        let i = last_before(all, before, all.len() as int);
        if i >= 0 {
            Some((all[i], false))
        } else {
            Some((all[all.len() - 1], true))
        }
    }
}

/// Pick the match after `after` from a list of matches, wrapping around.
pub fn select_next(all: &Vec<SearchMatch>, after: DocPosition) -> (r: Option<(SearchMatch, bool)>)
    ensures
        r == next_match(all@, after),
{
    if all.len() == 0 {
        return None;
    }
    let mut i: usize = 0;
    while i < all.len()
        invariant
            i <= all@.len(),
            first_after(all@, after, 0) == first_after(all@, after, i as int),
        decreases all@.len() - i,
    {
        let m = all[i];
        if m.block_idx > after.block_idx || (m.block_idx == after.block_idx && m.byte_start
            > after.byte_offset) {
            return Some((m, false));
        }
        i = i + 1;
    }
    Some((all[0], true))
}

/// Pick the match before `before` from a list of matches, wrapping around.
pub fn select_prev(all: &Vec<SearchMatch>, before: DocPosition) -> (r: Option<(SearchMatch, bool)>)
    ensures
        r == prev_match(all@, before),
{
    if all.len() == 0 {
        return None;
    }
    let mut n: usize = all.len();
    while n > 0
        invariant
            n <= all@.len(),
            last_before(all@, before, all@.len() as int) == last_before(all@, before, n as int),
        decreases n,
    {
        let m = all[n - 1];
        if m.block_idx < before.block_idx || (m.block_idx == before.block_idx && m.byte_end
            < before.byte_offset) {
            return Some((m, false));
        }
        n = n - 1;
    }
    Some((all[all.len() - 1], true))
}

/// Find next match after `after` — wraps around. Returns (match, did_wrap).
pub fn find_next(doc: &Document, q: &SearchQuery, after: DocPosition) -> (r: Result<
    Option<(SearchMatch, bool)>,
    SearchError,
>)
    ensures
        q.pattern@.len() == 0 ==> r == Ok::<Option<(SearchMatch, bool)>, SearchError>(None),
        q.pattern@.len() > 0 ==> (r is Ok <==> regex_compiles(query_source(q), !q.case_sensitive)),
        q.pattern@.len() > 0 ==> (r matches Ok(o) ==> o == next_match(
            all_matches(doc.blocks_view(), q),
            after,
        )),
        r matches Ok(Some((m, _))) ==> m.byte_start <= m.byte_end,
{
    let all = find_all(doc, q)?;
    let picked = select_next(&all, after);
    proof {
        law_find_next_picks_first_after(all@, after);
    }
    Ok(picked)
}

/// Find previous match before `before` — wraps around.
pub fn find_prev(doc: &Document, q: &SearchQuery, before: DocPosition) -> (r: Result<
    Option<(SearchMatch, bool)>,
    SearchError,
>)
    ensures
        q.pattern@.len() == 0 ==> r == Ok::<Option<(SearchMatch, bool)>, SearchError>(None),
        q.pattern@.len() > 0 ==> (r is Ok <==> regex_compiles(query_source(q), !q.case_sensitive)),
        q.pattern@.len() > 0 ==> (r matches Ok(o) ==> o == prev_match(
            all_matches(doc.blocks_view(), q),
            before,
        )),
        r matches Ok(Some((m, _))) ==> m.byte_start <= m.byte_end,
{
    let all = find_all(doc, q)?;
    let picked = select_prev(&all, before);
    proof {
        law_find_prev_picks_last_before(all@, before);
    }
    Ok(picked)
}

// ── Replace ───────────────────────────────────────────────────────────────────

/// The blocks after the text covered by `m` is replaced by `repl`, and the
/// result: the match's range is deleted, then `repl` is inserted at its
/// start.
pub open spec fn replace_match_spec(blocks: Seq<BlockV>, m: SearchMatch, repl: Seq<char>) -> (
    Seq<BlockV>,
    Result<(), EditError>,
) {
    let del = delete_range_spec(blocks, match_range(m));
    match del.1 {
        Err(e) => (del.0, Err(e)),
        Ok(_) => insert_text_spec(del.0, match_start(m), repl),
    }
}

/// The blocks after the matches in `ms` are replaced one by one, the last
/// first, stopping at the first refused edit, and the result.
pub open spec fn replace_from_back(blocks: Seq<BlockV>, ms: Seq<SearchMatch>, repl: Seq<char>) -> (
    Seq<BlockV>,
    Result<(), EditError>,
)
    decreases ms.len(),
{
    if ms.len() == 0 {
        (blocks, Ok(()))
    } else {
        let step = replace_match_spec(blocks, ms.last(), repl);
        match step.1 {
            Err(e) => (step.0, Err(e)),
            Ok(_) => replace_from_back(step.0, ms.drop_last(), repl),
        }
    }
}

/// Every block's text, with `extra` bytes more, still fits in `isize::MAX`
/// bytes.
pub open spec fn blocks_fit_with(blocks: Seq<BlockV>, extra: int) -> bool {
    forall|i: int|
        0 <= i < blocks.len() ==> #[trigger] runs_len(blocks[i].content) + extra <= isize::MAX
}

/// A replacement makes no block longer than it was plus the length of the
/// replacement text.
proof fn lemma_replace_step_fits(blocks: Seq<BlockV>, m: SearchMatch, repl: Seq<char>, extra: int)
    requires
        blocks_fit_with(blocks, extra + blen(repl)),
        m.byte_start <= m.byte_end,
        extra >= 0,
    ensures
        blocks_fit_with(replace_match_spec(blocks, m, repl).0, extra),
{
    let del = delete_range_spec(blocks, match_range(m));
    let b1 = del.0;
    let s = m.byte_start as int;
    let e = m.byte_end as int;
    let i = m.block_idx as int;
    if del.1 is Ok && s < e {
        lemma_delete_text(blocks[i].content, s, e);
    }
    assert(blocks_fit_with(b1, extra + blen(repl))) by {
        assert forall|j: int| 0 <= j < b1.len() implies #[trigger] runs_len(b1[j].content) + extra
            + blen(repl) <= isize::MAX by {
            assert(runs_len(blocks[j].content) + extra + blen(repl) <= isize::MAX);
        }
    }
    if del.1 is Ok {
        let ins = insert_text_spec(b1, match_start(m), repl);
        if repl.len() > 0 && check_pos_spec(b1, match_start(m)) is Ok {
            lemma_insert_text(b1[i].content, s, repl);
        }
        assert forall|j: int| 0 <= j < ins.0.len() implies #[trigger] runs_len(ins.0[j].content)
            + extra <= isize::MAX by {
            assert(runs_len(b1[j].content) + extra + blen(repl) <= isize::MAX);
        }
    }
}

/// A replacement changes only the match's block, which grows by at most
/// the length of the replacement.
pub proof fn lemma_replace_one_fits(blocks: Seq<BlockV>, m: SearchMatch, repl: Seq<char>)
    requires
        blocks_fit(blocks),
        m.byte_start <= m.byte_end,
        m.block_idx < blocks.len() ==> runs_len(blocks[m.block_idx as int].content) + blen(repl)
            <= isize::MAX,
    ensures
        blocks_fit(replace_match_spec(blocks, m, repl).0),
{
    let del = delete_range_spec(blocks, match_range(m));
    let b1 = del.0;
    let s = m.byte_start as int;
    let e = m.byte_end as int;
    let i = m.block_idx as int;
    if del.1 is Ok && s < e {
        lemma_delete_text(blocks[i].content, s, e);
    }
    if del.1 is Ok {
        let ins = insert_text_spec(b1, match_start(m), repl);
        if repl.len() > 0 && check_pos_spec(b1, match_start(m)) is Ok {
            lemma_insert_text(b1[i].content, s, repl);
        }
        assert forall|j: int| 0 <= j < ins.0.len() implies #[trigger] runs_len(ins.0[j].content)
            <= isize::MAX by {
            assert(runs_len(blocks[j].content) <= isize::MAX);
        }
    }
}

/// A document that fits with extra room fits.
proof fn lemma_fit_with_fits(blocks: Seq<BlockV>, extra: int)
    requires
        blocks_fit_with(blocks, extra),
        extra >= 0,
    ensures
        blocks_fit(blocks),
{
    assert forall|j: int| 0 <= j < blocks.len() implies #[trigger] runs_len(blocks[j].content)
        <= isize::MAX by {
        assert(runs_len(blocks[j].content) + extra <= isize::MAX);
    }
}

/// Replace the text covered by `m` with `replacement` in the document.
pub fn replace_match(doc: &mut Document, m: &SearchMatch, replacement: &str) -> (r: Result<
    (),
    SearchError,
>)
    requires
        old(doc).fits(),
        m.byte_start <= m.byte_end,
        blocks_fit(replace_match_spec(old(doc).blocks_view(), *m, replacement@).0),
    ensures
        final(doc).blocks_view() == replace_match_spec(old(doc).blocks_view(), *m, replacement@).0,
        final(doc).same_metadata(old(doc)),
        match replace_match_spec(old(doc).blocks_view(), *m, replacement@).1 {
            Ok(_) => r is Ok,
            Err(e) => r == Err::<(), SearchError>(SearchError::Edit(e)),
        },
{
    let ghost bv = doc.blocks_view();
    let range = m.to_range();
    proof {
        let s = m.byte_start as int;
        let e = m.byte_end as int;
        let i = m.block_idx as int;
        let del = delete_range_spec(bv, match_range(*m));
        if del.1 is Ok && s < e {
            lemma_delete_text(bv[i].content, s, e);
        }
        assert forall|j: int| 0 <= j < del.0.len() implies #[trigger] runs_len(del.0[j].content)
            <= isize::MAX by {
            assert(runs_len(bv[j].content) <= isize::MAX);
        }
    }
    match doc.delete_range(range) {
        Ok(_) => {},
        Err(e) => return Err(SearchError::Edit(e)),
    }
    if !replacement.is_empty() {
        match doc.insert_text(m.start_pos(), replacement) {
            Ok(_) => {},
            Err(e) => return Err(SearchError::Edit(e)),
        }
    }
    Ok(())
}

/// One step of replacing from the back: the `n`-th match goes, and the
/// room left shrinks by one replacement.
proof fn lemma_replace_loop_step(cur: Seq<BlockV>, ms: Seq<SearchMatch>, n: int, repl: Seq<char>)
    requires
        1 <= n <= ms.len(),
        ms[n - 1].byte_start <= ms[n - 1].byte_end,
        blocks_fit_with(cur, n * blen(repl)),
    ensures
        blocks_fit(cur),
        blocks_fit(replace_match_spec(cur, ms[n - 1], repl).0),
        blocks_fit_with(replace_match_spec(cur, ms[n - 1], repl).0, (n - 1) * blen(repl)),
        replace_from_back(cur, ms.take(n), repl) == (match replace_match_spec(
            cur,
            ms[n - 1],
            repl,
        ).1 {
            Err(e) => (replace_match_spec(cur, ms[n - 1], repl).0, Err(e)),
            Ok(_) => replace_from_back(
                replace_match_spec(cur, ms[n - 1], repl).0,
                ms.take(n - 1),
                repl,
            ),
        }),
{
    let b = blen(repl);
    assert(n * b == (n - 1) * b + b) by (nonlinear_arith);
    assert((n - 1) * b >= 0) by (nonlinear_arith)
        requires
            n >= 1,
            b >= 0,
    ;
    lemma_replace_step_fits(cur, ms[n - 1], repl, (n - 1) * b);
    lemma_fit_with_fits(replace_match_spec(cur, ms[n - 1], repl).0, (n - 1) * b);
    lemma_fit_with_fits(cur, n * b);
    assert(ms.take(n).last() == ms[n - 1]);
    assert(ms.take(n).drop_last() =~= ms.take(n - 1));
}

/// Without blocks there are no matches.
proof fn lemma_no_blocks_no_matches(blocks: Seq<BlockV>, q: &SearchQuery)
    requires
        blocks.len() == 0,
    ensures
        all_matches(blocks, q).len() == 0,
{
}

/// Replace all matches, the last first so that the offsets of the ones
/// before stay valid. Returns the number of replacements made.
pub fn replace_all(doc: &mut Document, q: &SearchQuery, replacement: &str) -> (r: Result<
    usize,
    SearchError,
>)
    requires
        old(doc).fits(),
        blen(replacement@) <= isize::MAX,
    ensures
        final(doc).same_metadata(old(doc)),
        q.pattern@.len() == 0 ==> r == Ok::<usize, SearchError>(0) && final(doc).blocks_view()
            == old(doc).blocks_view(),
        q.pattern@.len() > 0 && !regex_compiles(query_source(q), !q.case_sensitive) ==> (r matches Err(
            e,
        ) && e is InvalidRegex) && final(doc).blocks_view() == old(doc).blocks_view(),
        q.pattern@.len() > 0 && regex_compiles(query_source(q), !q.case_sensitive) ==> ({
            let all = all_matches(old(doc).blocks_view(), q);
            if !blocks_fit_with(old(doc).blocks_view(), all.len() * blen(replacement@)) {
                r == Err::<usize, SearchError>(SearchError::TooLarge) && final(doc).blocks_view()
                    == old(doc).blocks_view()
            } else {
                let done = replace_from_back(old(doc).blocks_view(), all, replacement@);
                &&& final(doc).blocks_view() == done.0
                &&& done.1 is Ok
                &&& r == Ok::<usize, SearchError>(all.len() as usize)
            }
        }),
{
    let ghost bv0 = doc.blocks_view();
    let ghost doc0 = *doc;
    let all = find_all(doc, q)?;
    let count = all.len();
    let rlen = replacement.len();
    let limit: usize = isize::MAX as usize;
    proof {
        if bv0.len() == 0 {
            lemma_no_blocks_no_matches(bv0, q);
        }
    }
    // Room that the replacements may need in one block, at most.
    let extra: usize = match count.checked_mul(rlen) {
        Some(x) => x,
        None => {
            proof {
                assert(runs_len(bv0[0].content) + count * blen(replacement@) > isize::MAX);
            }
            return Err(SearchError::TooLarge);
        },
    };
    if extra > limit {
        proof {
            assert(runs_len(bv0[0].content) + count * blen(replacement@) > isize::MAX);
        }
        return Err(SearchError::TooLarge);
    }
    let mut i: usize = 0;
    while i < doc.blocks.len()
        invariant
            *doc == doc0,
            bv0 == doc.blocks_view(),
            doc.fits(),
            count == all@.len(),
            q.pattern@.len() == 0 ==> count == 0,
            q.pattern@.len() > 0 ==> all@ == all_matches(bv0, q) && regex_compiles(
                query_source(q),
                !q.case_sensitive,
            ),
            extra == count * blen(replacement@),
            extra <= isize::MAX,
            limit == isize::MAX,
            i <= bv0.len(),
            forall|j: int| 0 <= j < i ==> #[trigger] runs_len(bv0[j].content) + extra <= isize::MAX,
        decreases bv0.len() - i,
    {
        proof {
            assert(bv0[i as int] == doc.blocks@[i as int]@);
            assert(runs_len(bv0[i as int].content) <= isize::MAX);
        }
        let text = doc.blocks[i].plain_text();
        let len = byte_len(&text);
        if len > limit - extra {
            proof {
                assert(runs_len(bv0[i as int].content) + count * blen(replacement@) > isize::MAX);
            }
            return Err(SearchError::TooLarge);
        }
        i = i + 1;
    }
    assert(blocks_fit_with(bv0, count * blen(replacement@)));
    assert(all@.take(count as int) =~= all@);
    assert(replace_from_back(bv0, all@, replacement@).1 is Ok) by {
        lemma_replace_back_ok(bv0, all@, replacement@);
    }
    let mut n: usize = count;
    while n > 0
        invariant
            n <= count,
            count == all@.len(),
            doc0 == *old(doc),
            bv0 == old(doc).blocks_view(),
            q.pattern@.len() == 0 ==> count == 0,
            q.pattern@.len() > 0 ==> all@ == all_matches(bv0, q) && regex_compiles(
                query_source(q),
                !q.case_sensitive,
            ),
            blocks_fit_with(bv0, count * blen(replacement@)),
            forall|k: int| 0 <= k < all@.len() ==> all@[k].byte_start <= all@[k].byte_end,
            blocks_fit_with(doc.blocks_view(), n * blen(replacement@)),
            replace_from_back(bv0, all@, replacement@) == replace_from_back(
                doc.blocks_view(),
                all@.take(n as int),
                replacement@,
            ),
            doc.same_metadata(&doc0),
            replace_from_back(bv0, all@, replacement@).1 is Ok,
        decreases n,
    {
        let m = all[n - 1];
        proof {
            lemma_replace_loop_step(doc.blocks_view(), all@, n as int, replacement@);
        }
        match replace_match(doc, &m, replacement) {
            Ok(_) => {},
            Err(e) => return Err(e),
        }
        n = n - 1;
    }
    proof {
        assert(all@.take(0) =~= Seq::<SearchMatch>::empty());
        assert(all@.take(count as int) =~= all@);
    }
    Ok(count)
}

// ── Laws ──────────────────────────────────────────────────────────────────────

/// The match starts after position `p`.
pub open spec fn starts_after(m: SearchMatch, p: DocPosition) -> bool {
    m.block_idx > p.block_idx || (m.block_idx == p.block_idx && m.byte_start > p.byte_offset)
}

/// The match ends before position `p`.
pub open spec fn ends_before(m: SearchMatch, p: DocPosition) -> bool {
    m.block_idx < p.block_idx || (m.block_idx == p.block_idx && m.byte_end < p.byte_offset)
}

proof fn lemma_first_after(all: Seq<SearchMatch>, after: DocPosition, i: int)
    requires
        0 <= i <= all.len(),
    ensures
        i <= first_after(all, after, i) <= all.len(),
        first_after(all, after, i) < all.len() ==> starts_after(
            all[first_after(all, after, i)],
            after,
        ),
        forall|j: int| i <= j < first_after(all, after, i) ==> !starts_after(all[j], after),
    decreases all.len() - i,
{
    if i < all.len() && !starts_after(all[i], after) {
        lemma_first_after(all, after, i + 1);
    }
}

proof fn lemma_last_before(all: Seq<SearchMatch>, before: DocPosition, n: int)
    requires
        0 <= n <= all.len(),
    ensures
        -1 <= last_before(all, before, n) < n,
        last_before(all, before, n) >= 0 ==> ends_before(all[last_before(all, before, n)], before),
        forall|j: int| last_before(all, before, n) < j < n ==> !ends_before(all[j], before),
    decreases n,
{
    if n > 0 && !ends_before(all[n - 1], before) {
        lemma_last_before(all, before, n - 1);
    }
}

/// Find-next picks the first match that starts after the position; when
/// there is none it wraps around to the first match and says so. It finds
/// nothing only when there are no matches.
pub proof fn law_find_next_picks_first_after(all: Seq<SearchMatch>, after: DocPosition)
    ensures
        next_match(all, after) is None <==> all.len() == 0,
        next_match(all, after) matches Some((m, false)) ==> exists|k: int|
            0 <= k < all.len() && all[k] == m && starts_after(m, after) && forall|j: int|
                0 <= j < k ==> !starts_after(#[trigger] all[j], after),
        next_match(all, after) matches Some((m, true)) ==> m == all[0] && forall|j: int|
            0 <= j < all.len() ==> !starts_after(#[trigger] all[j], after),
{
    if all.len() > 0 {
        lemma_first_after(all, after, 0);
    }
}

/// Find-previous picks the last match that ends before the position; when
/// there is none it wraps around to the last match and says so. It finds
/// nothing only when there are no matches.
pub proof fn law_find_prev_picks_last_before(all: Seq<SearchMatch>, before: DocPosition)
    ensures
        prev_match(all, before) is None <==> all.len() == 0,
        prev_match(all, before) matches Some((m, false)) ==> exists|k: int|
            0 <= k < all.len() && all[k] == m && ends_before(m, before) && forall|j: int|
                k < j < all.len() ==> !ends_before(#[trigger] all[j], before),
        prev_match(all, before) matches Some((m, true)) ==> m == all[all.len() - 1] && forall|
            j: int,
        | 0 <= j < all.len() ==> !ends_before(#[trigger] all[j], before),
{
    if all.len() > 0 {
        lemma_last_before(all, before, all.len() as int);
    }
}

/// Replacing a match whose ends are boundaries of its block's text puts
/// the replacement in place of the matched bytes and leaves the other
/// blocks as they were.
pub proof fn law_replace_match_text(blocks: Seq<BlockV>, m: SearchMatch, repl: Seq<char>)
    requires
        m.byte_start <= m.byte_end,
        check_pos_spec(blocks, match_start(m)) is Ok,
        check_pos_spec(blocks, match_end(m)) is Ok,
    ensures
        ({
            let (nb, r) = replace_match_spec(blocks, m, repl);
            let i = m.block_idx as int;
            let t = block_text(blocks[i]);
            &&& r is Ok
            &&& nb.len() == blocks.len()
            &&& block_text(nb[i]) == text_prefix(t, m.byte_start as int) + repl + text_suffix(
                t,
                m.byte_end as int,
            )
            &&& forall|j: int| 0 <= j < blocks.len() && j != i ==> nb[j] == blocks[j]
        }),
{
    let i = m.block_idx as int;
    let t = block_text(blocks[i]);
    let a = m.byte_start as int;
    let b = m.byte_end as int;
    law_delete_in_block(blocks, match_range(m));
    let b1 = delete_range_spec(blocks, match_range(m)).0;
    let p = text_prefix(t, a);
    let q = text_suffix(t, b);
    lemma_prefix_suffix(t, a);
    lemma_cut_concat(p, q);
    law_insert_places_text(b1, match_start(m), repl);
}


/// Escaping works character by character: the escape of two texts one
/// after the other is their escapes one after the other (and the escape
/// of nothing is nothing).
pub proof fn law_escape_concat(s: Seq<char>, t: Seq<char>)
    ensures
        escape_spec(s + t) == escape_spec(s) + escape_spec(t),
        escape_spec(Seq::<char>::empty()) == Seq::<char>::empty(),
    decreases t.len(),
{
    if t.len() == 0 {
        assert(s + t =~= s);
        assert(escape_spec(t) =~= Seq::<char>::empty());
        assert(escape_spec(s) + escape_spec(t) =~= escape_spec(s));
    } else {
        law_escape_concat(s, t.drop_last());
        assert((s + t).drop_last() =~= s + t.drop_last());
        assert((s + t).last() == t.last());
        if is_meta_char(t.last()) {
            assert(escape_spec(s + t) =~= escape_spec(s) + escape_spec(t));
        } else {
            assert(escape_spec(s + t) =~= escape_spec(s) + escape_spec(t));
        }
    }
}

/// A character escapes to itself with a backslash before it exactly when
/// it has a meaning of its own in the regex syntax (backslash, `.`, `+`,
/// `*`, `?`, parentheses, `|`, brackets, braces, `^`, `$`, `#`, `&`, `-`
/// and `~`); any other character escapes to itself. With
/// `law_escape_concat`, this fixes the escape of every text: a literal
/// query's regex source matches the query's text and nothing else.
pub proof fn law_escape_char(c: char)
    ensures
        escape_spec(seq![c]) == if c == '\\' || c == '.' || c == '+' || c == '*' || c == '?' || c
            == '(' || c == ')' || c == '|' || c == '[' || c == ']' || c == '{' || c == '}' || c
            == '^' || c == '$' || c == '#' || c == '&' || c == '-' || c == '~' {
            seq!['\\', c]
        } else {
            seq![c]
        },
{
    let s = seq![c];
    assert(s.drop_last() =~= Seq::<char>::empty());
    assert(s.last() == c);
    assert(escape_spec(s.drop_last()) =~= Seq::<char>::empty());
    if is_meta_char(c) {
        assert(escape_spec(s) =~= seq!['\\', c]);
    } else {
        assert(escape_spec(s) =~= seq![c]);
    }
}


/// A literal query searches with each of its characters escaped as
/// `law_escape_char` says, one after the other; a regex query searches
/// with its pattern as written.
pub proof fn law_query_source(q: &SearchQuery, c: char, rest: Seq<char>)
    ensures
        q.use_regex ==> query_source(q) == q.pattern@,
        !q.use_regex && q.pattern@ == seq![c] + rest ==> query_source(q) == escape_spec(seq![c])
            + escape_spec(rest),
{
    law_escape_concat(seq![c], rest);
}

} // verus!
