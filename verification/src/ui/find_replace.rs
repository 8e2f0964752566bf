//! What the Find & Replace dialog does with the editing state: the status
//! line, moving to a match, and replacing the current match.

use vstd::prelude::*;
use crate::text::{blen, decimal, push_decimal, byte_len};
use crate::document::position::DocPosition;
use crate::document::runs::runs_len;
use crate::editor::Editor;
use crate::editor::selection::SelectionState;
use crate::search::{
    SearchMatch, SearchQuery, all_matches, find_all, find_next, find_prev, match_end, match_start,
    next_match, prev_match, query_source, regex_compiles, replace_match, replace_match_spec,
    lemma_replace_one_fits, match_range, select_next,
};
use crate::document::position::DocRange;
use crate::editor::selection::selection_range;

verus! {

/// The dialog's status line: nothing for an empty pattern, `bad regex` for
/// a pattern the engine refuses, otherwise the number of matches.
pub open spec fn status_spec(blocks: Seq<crate::document::block::BlockV>, q: &SearchQuery) -> Seq<
    char,
> {
    if q.pattern@.len() == 0 {
        Seq::empty()
    } else if !regex_compiles(query_source(q), !q.case_sensitive) {
        "bad regex"@
    } else {
        decimal(all_matches(blocks, q).len()) + " found"@
    }
}

/// The dialog's status line for `q` on `doc`.
pub fn find_status(doc: &crate::document::Document, q: &SearchQuery) -> (s: String)
    ensures
        s@ == status_spec(doc.blocks_view(), q),
{
    let mut s = String::new();
    if q.pattern.as_str().is_empty() {
        return s;
    }
    match find_all(doc, q) {
        Ok(all) => {
            push_decimal(&mut s, all.len() as u64);
            s.append(" found");
        },
        Err(_) => {
            s.append("bad regex");
        },
    }
    s
}

/// The state with match `m` selected and the cursor at its end.
pub open spec fn selects(s: &Editor, old: &Editor, m: SearchMatch) -> bool {
    &&& s.doc == old.doc
    &&& s.dirty == old.dirty
    &&& s.cursor == match_end(m)
    &&& s.selection == Some(SelectionState { anchor: match_start(m), active: match_end(m) })
}

/// Select match `m` and put the cursor at its end.
pub fn select_match(s: &mut Editor, m: SearchMatch)
    ensures
        selects(final(s), old(s), m),
{
    s.cursor = m.end_pos();
    s.selection = Some(SelectionState { anchor: m.start_pos(), active: m.end_pos() });
}

/// Next (`forward`) or Previous: select the next or previous match from
/// the cursor, wrapping around. Returns whether a match was selected;
/// nothing changes when none was (an empty or refused pattern, or no
/// match).
pub fn find_and_select(s: &mut Editor, q: &SearchQuery, forward: bool) -> (found: bool)
    ensures
        ({
            let all = all_matches(old(s).doc.blocks_view(), q);
            let pick = if forward {
                next_match(all, old(s).cursor)
            } else {
                prev_match(all, old(s).cursor)
            };
            let ok = q.pattern@.len() > 0 && regex_compiles(query_source(q), !q.case_sensitive);
            &&& found == (ok && pick is Some)
            &&& found ==> selects(final(s), old(s), (pick->0).0)
            &&& !found ==> *final(s) == *old(s)
        }),
{
    if q.pattern.as_str().is_empty() {
        return false;
    }
    let r = if forward {
        find_next(&s.doc, q, s.cursor)
    } else {
        find_prev(&s.doc, q, s.cursor)
    };
    match r {
        Ok(Some((m, _))) => {
            select_match(s, m);
            true
        },
        _ => false,
    }
}

/// Index of the first match, from `k` on, that covers exactly `r`; the
/// number of matches when there is none.
pub open spec fn covering_from(all: Seq<SearchMatch>, r: DocRange, k: int) -> int
    decreases all.len() - k,
{
    if k < 0 || k >= all.len() {
        all.len() as int
    } else if match_range(all[k]) == r {
        k
    } else {
        covering_from(all, r, k + 1)
    }
}

/// The match Replace acts on: the match the selection covers, if there is
/// one; otherwise the next match from the cursor, wrapping around.
pub open spec fn current_match(
    all: Seq<SearchMatch>,
    sel: Option<SelectionState>,
    cursor: DocPosition,
) -> Option<SearchMatch> {
    let k = match sel {
        Some(s) => covering_from(all, selection_range(s), 0),
        None => all.len() as int,
    };
    if k < all.len() {
        Some(all[k])
    } else {
        match next_match(all, cursor) {
            Some(p) => Some(p.0),
            None => None,
        }
    }
}

/// The match Replace acts on, among `all`.
pub fn pick_current(all: &Vec<SearchMatch>, sel: Option<SelectionState>, cursor: DocPosition) -> (r:
    Option<SearchMatch>)
    ensures
        r == current_match(all@, sel, cursor),
{
    match sel {
        Some(s) => {
            let range = s.to_range();
            let mut k: usize = 0;
            while k < all.len()
                invariant
                    k <= all@.len(),
                    sel == Some(s),
                    range == selection_range(s),
                    covering_from(all@, range, 0) == covering_from(all@, range, k as int),
                decreases all@.len() - k,
            {
                let m = all[k];
                let a = m.start_pos();
                let b = m.end_pos();
                if a == range.start && b == range.end {
                    proof {
                        assert(m == all@[k as int]);
                        assert(match_range(m) == range);
                        assert(covering_from(all@, range, k as int) == k);
                    }
                    return Some(m);
                }
                k = k + 1;
            }
        },
        None => {},
    }
    match select_next(all, cursor) {
        Some((m, _)) => Some(m),
        None => None,
    }
}

/// The match's block, if it has one, has room for the replacement.
pub open spec fn has_room(s: &Editor, m: SearchMatch, repl: Seq<char>) -> bool {
    m.block_idx < s.doc.blocks_view().len() ==> runs_len(
        s.doc.blocks_view()[m.block_idx as int].content,
    ) + blen(repl) <= isize::MAX
}

/// Replace: replace the match the selection covers, or, when it covers
/// none, the next match from the cursor, and put the cursor at its start.
/// Returns whether a replacement was made; nothing changes when there was
/// no match, and nothing either when the replacement would make the
/// block's text longer than a string can hold.
pub fn replace_current(s: &mut Editor, q: &SearchQuery, repl: &str) -> (replaced: bool)
    requires
        old(s).doc.fits(),
        blen(repl@) <= isize::MAX,
    ensures
        ({
            let all = all_matches(old(s).doc.blocks_view(), q);
            let pick = current_match(all, old(s).selection, old(s).cursor);
            let ok = q.pattern@.len() > 0 && regex_compiles(query_source(q), !q.case_sensitive);
            let m = pick->0;
            &&& replaced == (ok && pick is Some && has_room(old(s), m, repl@))
            &&& replaced ==> {
                &&& final(s).doc.blocks_view() == replace_match_spec(
                    old(s).doc.blocks_view(),
                    m,
                    repl@,
                ).0
                &&& final(s).doc.same_metadata(&old(s).doc)
                &&& final(s).cursor == match_start(m)
                &&& final(s).selection is None
                &&& final(s).dirty
            }
            &&& !replaced ==> *final(s) == *old(s)
        }),
{
    if q.pattern.as_str().is_empty() {
        return false;
    }
    let all = match find_all(&s.doc, q) {
        Ok(v) => v,
        Err(_) => {
            return false;
        },
    };
    let m = match pick_current(&all, s.selection, s.cursor) {
        Some(m) => m,
        None => {
            return false;
        },
    };
    proof {
        if let Some(sel) = old(s).selection {
            lemma_covering_from(all@, selection_range(sel), 0);
        }
        crate::search::law_find_next_picks_first_after(all@, old(s).cursor);
    }
    let ghost bv = s.doc.blocks_view();
    if m.block_idx < s.doc.blocks.len() {
        proof {
            assert(bv[m.block_idx as int] == s.doc.blocks@[m.block_idx as int]@);
            assert(runs_len(bv[m.block_idx as int].content) <= isize::MAX);
        }
        let text = s.doc.blocks[m.block_idx].plain_text();
        let len = byte_len(&text);
        let room = repl.len();
        if len > (isize::MAX as usize) - room {
            return false;
        }
    }
    proof {
        lemma_replace_one_fits(bv, m, repl@);
    }
    let _ = replace_match(&mut s.doc, &m, repl);
    s.cursor = m.start_pos();
    s.selection = None;
    s.dirty = true;
    true
}

/// What `covering_from` finds lies among the matches.
proof fn lemma_covering_from(all: Seq<SearchMatch>, r: DocRange, k: int)
    requires
        0 <= k,
    ensures
        covering_from(all, r, k) <= all.len(),
        covering_from(all, r, k) < all.len() ==> k <= covering_from(all, r, k),
    decreases all.len() - k,
{
    if k < all.len() {
        lemma_covering_from(all, r, k + 1);
    }
}

} // verus!
