//! Run lists: the inline content of a block as a sequence of runs.
//!
//! A run list denotes the concatenation of its run texts. Byte offsets
//! refer to the UTF-8 encoding of that concatenation; run `i` covers the
//! bytes `[run_start(runs, i), run_end(runs, i))`.

use vstd::prelude::*;
use vstd::utf8::*;
use crate::text::{
    blen, insert_bytes, is_boundary, lemma_boundary_concat, lemma_boundary_in_range,
    lemma_enc_concat, text_insert, byte_len, text_remove, remove_bytes, lemma_ends_are_boundaries,
    lemma_text_remove, lemma_enc_empty, text_prefix, text_suffix, split_at_byte,
    lemma_prefix_suffix, lemma_text_insert, enc, lemma_enc_injective,
};
use crate::document::block::{
    attrs_copied, attrs_equal, attrs_contain, attrs_view, AttrV, InlineAttr, InlineRun, RunV,
};

verus! {

// ─── Model ────────────────────────────────────────────────────────────────────

/// The views of a list of runs.
pub open spec fn runs_view(runs: Seq<InlineRun>) -> Seq<RunV> {
    runs.map_values(|r: InlineRun| r@)
}

/// The text of a run list: its run texts, one after the other.
pub open spec fn runs_text(runs: Seq<RunV>) -> Seq<char>
    decreases runs.len(),
{
    if runs.len() == 0 {
        Seq::empty()
    } else {
        runs_text(runs.drop_last()) + runs.last().text
    }
}

/// Byte offset at which run `i` starts.
pub open spec fn run_start(runs: Seq<RunV>, i: int) -> int {
    blen(runs_text(runs.take(i)))
}

/// Byte offset at which run `i` ends.
pub open spec fn run_end(runs: Seq<RunV>, i: int) -> int {
    run_start(runs, i) + blen(runs[i].text)
}

/// Byte length of the text of a run list.
pub open spec fn runs_len(runs: Seq<RunV>) -> int {
    blen(runs_text(runs))
}

// ─── Lemmas on the model ──────────────────────────────────────────────────────

/// The text of a concatenation of run lists is the concatenation of texts.
pub proof fn lemma_runs_text_concat(a: Seq<RunV>, b: Seq<RunV>)
    ensures
        runs_text(a + b) == runs_text(a) + runs_text(b),
    decreases b.len(),
{
    if b.len() == 0 {
        assert(a + b =~= a);
        assert(runs_text(a) + runs_text(b) =~= runs_text(a));
    } else {
        lemma_runs_text_concat(a, b.drop_last());
        assert((a + b).drop_last() =~= a + b.drop_last());
        assert((a + b).last() == b.last());
        assert(runs_text(a + b) =~= runs_text(a) + runs_text(b));
    }
}

/// The text of a single run.
pub proof fn lemma_runs_text_single(r: RunV)
    ensures
        runs_text(seq![r]) == r.text,
{
    reveal_with_fuel(runs_text, 2);
    assert(seq![r].drop_last() =~= Seq::<RunV>::empty());
    assert(runs_text(seq![r]) =~= r.text);
}

/// Run `i + 1` starts where run `i` ends.
pub proof fn lemma_run_start_step(runs: Seq<RunV>, i: int)
    requires
        0 <= i < runs.len(),
    ensures
        run_start(runs, i + 1) == run_end(runs, i),
        runs_text(runs.take(i + 1)) == runs_text(runs.take(i)) + runs[i].text,
{
    assert(runs.take(i + 1).drop_last() =~= runs.take(i));
    assert(runs.take(i + 1).last() == runs[i]);
    lemma_enc_concat(runs_text(runs.take(i)), runs[i].text);
}

/// The first run starts at 0 and the end of the list is at the text length.
pub proof fn lemma_run_start_ends(runs: Seq<RunV>)
    ensures
        run_start(runs, 0) == 0,
        run_start(runs, runs.len() as int) == runs_len(runs),
{
    assert(runs.take(0) =~= Seq::<RunV>::empty());
    assert(runs.take(runs.len() as int) =~= runs);
}

/// The text of a run list split around run `i`.
pub proof fn lemma_runs_text_around(runs: Seq<RunV>, i: int)
    requires
        0 <= i < runs.len(),
    ensures
        runs_text(runs) == runs_text(runs.take(i)) + runs[i].text + runs_text(runs.skip(i + 1)),
{
    lemma_run_start_step(runs, i);
    assert(runs =~= runs.take(i + 1) + runs.skip(i + 1));
    lemma_runs_text_concat(runs.take(i + 1), runs.skip(i + 1));
}

/// Run `i` lies within the text.
pub proof fn lemma_run_bounds(runs: Seq<RunV>, i: int)
    requires
        0 <= i < runs.len(),
    ensures
        0 <= run_start(runs, i) <= run_end(runs, i) <= runs_len(runs),
{
    lemma_runs_text_around(runs, i);
    lemma_enc_concat(runs_text(runs.take(i)), runs[i].text);
    lemma_enc_concat(runs_text(runs.take(i)) + runs[i].text, runs_text(runs.skip(i + 1)));
}

/// Later runs start no earlier than earlier runs end.
pub proof fn lemma_run_order(runs: Seq<RunV>, i: int, j: int)
    requires
        0 <= i < j <= runs.len(),
    ensures
        run_end(runs, i) <= run_start(runs, j),
    decreases j - i,
{
    lemma_run_start_step(runs, i);
    if j > i + 1 {
        lemma_run_order(runs, i + 1, j);
        lemma_run_bounds(runs, i + 1);
    }
}

/// A boundary of the text that falls within run `i` is a boundary of that
/// run's text.
pub proof fn lemma_boundary_in_run(runs: Seq<RunV>, i: int, off: int)
    requires
        0 <= i < runs.len(),
        is_boundary(runs_text(runs), off),
        run_start(runs, i) <= off <= run_end(runs, i),
    ensures
        is_boundary(runs[i].text, off - run_start(runs, i)),
{
    let a = runs_text(runs.take(i));
    let r = runs[i].text;
    let s = runs_text(runs.skip(i + 1));
    lemma_runs_text_around(runs, i);
    lemma_enc_concat(a, r);
    lemma_boundary_concat(a + r, s, off);
    lemma_boundary_concat(a, r, off);
}

// ─── Plain text ───────────────────────────────────────────────────────────────

/// The text of a run list as one string.
pub fn runs_plain_text(runs: &Vec<InlineRun>) -> (s: String)
    ensures
        s@ == runs_text(runs_view(runs@)),
{
    let ghost rv = runs_view(runs@);
    let mut s = String::new();
    let mut i: usize = 0;
    proof {
        assert(rv.take(0) =~= Seq::<RunV>::empty());
    }
    while i < runs.len()
        invariant
            rv == runs_view(runs@),
            i <= runs@.len(),
            s@ == runs_text(rv.take(i as int)),
        decreases runs@.len() - i,
    {
        s.append(runs[i].text.as_str());
        proof {
            lemma_run_start_step(rv, i as int);
        }
        i = i + 1;
    }
    proof {
        assert(rv.take(runs@.len() as int) =~= rv);
    }
    s
}

/// The byte span `[start, end)` of each run within the text.
pub fn run_byte_spans(runs: &[InlineRun]) -> (spans: Vec<(usize, usize)>)
    requires
        runs_len(runs_view(runs@)) <= usize::MAX,
    ensures
        spans@.len() == runs@.len(),
        forall|i: int|
            0 <= i < runs@.len() ==> #[trigger] spans@[i] == (
                run_start(runs_view(runs@), i) as usize,
                run_end(runs_view(runs@), i) as usize,
            ),
{
    let ghost rv = runs_view(runs@);
    let mut spans: Vec<(usize, usize)> = Vec::new();
    let mut pos: usize = 0;
    let mut i: usize = 0;
    proof {
        lemma_run_start_ends(rv);
    }
    while i < runs.len()
        invariant
            rv == runs_view(runs@),
            runs_len(rv) <= usize::MAX,
            i <= runs@.len(),
            pos == run_start(rv, i as int),
            spans@.len() == i,
            forall|k: int|
                0 <= k < i ==> #[trigger] spans@[k] == (
                    run_start(rv, k) as usize,
                    run_end(rv, k) as usize,
                ),
        decreases runs@.len() - i,
    {
        proof {
            lemma_run_bounds(rv, i as int);
            lemma_run_start_step(rv, i as int);
            assert(rv[i as int] == runs@[i as int]@);
        }
        let n = crate::text::byte_len(&runs[i].text);
        spans.push((pos, pos + n));
        pos = pos + n;
        i = i + 1;
    }
    spans
}

// ─── Insert ───────────────────────────────────────────────────────────────────

/// Index of the first run, from `i` on, that ends at or after `off`; the
/// number of runs when there is none.
pub open spec fn owner_from(runs: Seq<RunV>, off: int, i: int) -> int
    decreases runs.len() - i,
{
    if i < 0 || i >= runs.len() {
        runs.len() as int
    } else if off <= run_end(runs, i) {
        i
    } else {
        owner_from(runs, off, i + 1)
    }
}

/// The run list after `t` is put in at byte offset `off`: into the first
/// run that ends at or after `off` (keeping its attributes), onto the last
/// run when there is none, or as a single plain run into an empty list.
pub open spec fn runs_insert(runs: Seq<RunV>, off: int, t: Seq<char>) -> Seq<RunV> {
    if runs.len() == 0 {
        seq![RunV { text: t, attrs: Seq::empty() }]
    } else {
        let i = owner_from(runs, off, 0);
        if i < runs.len() {
            runs.update(
                i,
                RunV { text: text_insert(runs[i].text, off - run_start(runs, i), t), ..runs[i] },
            )
        } else {
            let k = runs.len() - 1;
            runs.update(k, RunV { text: runs[k].text + t, ..runs[k] })
        }
    }
}

/// Insert `text` at `byte_offset` into a run list. The text goes into the
/// run that owns that offset and takes that run's attributes.
pub fn insert_into_runs(runs: &mut Vec<InlineRun>, byte_offset: usize, text: &str)
    requires
        is_boundary(runs_text(runs_view(old(runs)@)), byte_offset as int),
        runs_len(runs_view(old(runs)@)) <= usize::MAX,
    ensures
        runs_view(final(runs)@) == runs_insert(runs_view(old(runs)@), byte_offset as int, text@),
{
    let ghost rv = runs_view(runs@);
    if runs.len() == 0 {
        runs.push(InlineRun::plain(text));
        proof {
            assert(runs_view(runs@) =~= runs_insert(rv, byte_offset as int, text@));
        }
        return;
    }
    let mut cursor: usize = 0;
    let mut i: usize = 0;
    proof {
        lemma_run_start_ends(rv);
    }
    while i < runs.len()
        invariant
            rv == runs_view(runs@),
            runs@ == old(runs)@,
            i <= runs@.len(),
            cursor as int == run_start(rv, i as int),
            cursor <= byte_offset,
            owner_from(rv, byte_offset as int, 0) == owner_from(rv, byte_offset as int, i as int),
            is_boundary(runs_text(rv), byte_offset as int),
            runs_len(rv) <= usize::MAX,
        decreases runs@.len() - i,
    {
        proof {
            lemma_run_bounds(rv, i as int);
            lemma_run_start_step(rv, i as int);
        }
        let run_len = byte_len(&runs[i].text);
        if byte_offset <= cursor + run_len {
            let local = byte_offset - cursor;
            proof {
                lemma_boundary_in_run(rv, i as int, byte_offset as int);
            }
            let new_text = insert_bytes(&runs[i].text, local, text);
            runs[i].text = new_text;
            proof {
                assert(owner_from(rv, byte_offset as int, i as int) == i);
                assert(runs_view(runs@) =~= runs_insert(rv, byte_offset as int, text@));
            }
            return;
        }
        cursor = cursor + run_len;
        i = i + 1;
    }
    let last = runs.len() - 1;
    let mut t = runs[last].text.clone();
    t.append(text);
    runs[last].text = t;
    proof {
        assert(runs_view(runs@) =~= runs_insert(rv, byte_offset as int, text@));
    }
}

// ─── Delete ───────────────────────────────────────────────────────────────────

/// Run `r`, which starts at byte `s`, with the bytes in `[from, to)` of the
/// whole text taken out of it.
pub open spec fn run_trim(r: RunV, s: int, from: int, to: int) -> RunV {
    let len = blen(r.text);
    if s + len <= from || s >= to {
        r
    } else {
        let a = if from > s { from - s } else { 0 };
        let b = if to - s < len { to - s } else { len };
        RunV { text: text_remove(r.text, a, b), ..r }
    }
}

/// The run holds some text.
pub open spec fn run_nonempty(r: RunV) -> bool {
    r.text.len() > 0
}

/// Each run with the deleted bytes taken out of it, before empty runs go.
pub open spec fn runs_trimmed(runs: Seq<RunV>, from: int, to: int) -> Seq<RunV> {
    Seq::new(runs.len(), |i: int| run_trim(runs[i], run_start(runs, i), from, to))
}

/// The run list after the bytes `[from, to)` are deleted: nothing happens
/// when `from >= to`; otherwise each run loses the bytes it shares with the
/// range, and every run left without text is dropped.
pub open spec fn runs_delete(runs: Seq<RunV>, from: int, to: int) -> Seq<RunV> {
    if from >= to {
        runs
    } else {
        runs_trimmed(runs, from, to).filter(|r: RunV| run_nonempty(r))
    }
}

/// One step of a filter over a growing prefix.
pub proof fn lemma_filter_step(s: Seq<RunV>, j: int)
    requires
        0 <= j < s.len(),
    ensures
        s.take(j + 1).filter(|r: RunV| run_nonempty(r)) == (if run_nonempty(s[j]) {
            s.take(j).filter(|r: RunV| run_nonempty(r)).push(s[j])
        } else {
            s.take(j).filter(|r: RunV| run_nonempty(r))
        }),
{
    reveal(Seq::filter);
    assert(s.take(j + 1).drop_last() =~= s.take(j));
    assert(s.take(j + 1).last() == s[j]);
}

/// Keep only the runs that hold some text.
fn retain_nonempty(runs: &mut Vec<InlineRun>)
    ensures
        runs_view(final(runs)@) == runs_view(old(runs)@).filter(|r: RunV| run_nonempty(r)),
{
    let ghost rv = runs_view(runs@);
    let mut src: Vec<InlineRun> = Vec::new();
    std::mem::swap(&mut src, runs);
    let mut out: Vec<InlineRun> = Vec::new();
    proof {
        assert(rv.take(0) =~= Seq::<RunV>::empty());
        reveal(Seq::filter);
        assert(runs_view(out@) =~= rv.take(0).filter(|r: RunV| run_nonempty(r)));
    }
    for r in it: src.into_iter()
        invariant
            rv == runs_view(src@),
            it.seq() == src@,
            runs_view(out@) == rv.take(it.index() as int).filter(|r: RunV| run_nonempty(r)),
    {
        let ghost j = it.index();
        proof {
            lemma_filter_step(rv, j as int);
            assert(r@ == rv[j as int]);
        }
        if !r.text.as_str().is_empty() {
            out.push(r);
            proof {
                assert(runs_view(out@) =~= rv.take(j + 1).filter(|r: RunV| run_nonempty(r)));
            }
        } else {
            proof {
                assert(runs_view(out@) =~= rv.take(j + 1).filter(|r: RunV| run_nonempty(r)));
            }
        }
    }
    proof {
        assert(rv.take(rv.len() as int) =~= rv);
    }
    *runs = out;
}

/// Delete bytes `[from, to)` from a run list.
pub fn delete_from_runs(runs: &mut Vec<InlineRun>, from: usize, to: usize)
    requires
        from < to ==> is_boundary(runs_text(runs_view(old(runs)@)), from as int),
        from < to ==> is_boundary(runs_text(runs_view(old(runs)@)), to as int),
        runs_len(runs_view(old(runs)@)) <= usize::MAX,
    ensures
        runs_view(final(runs)@) == runs_delete(runs_view(old(runs)@), from as int, to as int),
{
    if from >= to {
        return;
    }
    let ghost rv = runs_view(runs@);
    let ghost trimmed = runs_trimmed(rv, from as int, to as int);
    let mut cursor: usize = 0;
    let mut i: usize = 0;
    proof {
        lemma_run_start_ends(rv);
    }
    while i < runs.len()
        invariant
            rv == runs_view(old(runs)@),
            trimmed == runs_trimmed(rv, from as int, to as int),
            runs@.len() == rv.len(),
            i <= runs@.len(),
            cursor as int == run_start(rv, i as int),
            from < to,
            is_boundary(runs_text(rv), from as int),
            is_boundary(runs_text(rv), to as int),
            runs_len(rv) <= usize::MAX,
            forall|j: int| 0 <= j < i ==> #[trigger] runs@[j]@ == trimmed[j],
            forall|j: int| i <= j < runs@.len() ==> #[trigger] runs@[j]@ == rv[j],
        decreases runs@.len() - i,
    {
        proof {
            lemma_run_bounds(rv, i as int);
            lemma_run_start_step(rv, i as int);
            assert(runs@[i as int]@ == rv[i as int]);
        }
        let run_len = byte_len(&runs[i].text);
        let run_start = cursor;
        let run_end = cursor + run_len;
        if run_end <= from || run_start >= to {
        } else {
            let del_start = if from > run_start { from - run_start } else { 0 };
            let del_end = if to - run_start < run_len { to - run_start } else { run_len };
            proof {
                lemma_ends_are_boundaries(rv[i as int].text);
                if from > run_start {
                    lemma_boundary_in_run(rv, i as int, from as int);
                }
                if to - run_start < run_len {
                    lemma_boundary_in_run(rv, i as int, to as int);
                }
            }
            let new_text = remove_bytes(&runs[i].text, del_start, del_end);
            runs[i].text = new_text;
        }
        proof {
            assert(runs@[i as int]@ == trimmed[i as int]);
        }
        cursor = run_end;
        i = i + 1;
    }
    proof {
        assert(runs_view(runs@) =~= trimmed);
    }
    retain_nonempty(runs);
}

// ─── Normalise ────────────────────────────────────────────────────────────────

/// Two runs joined into one, keeping the attributes of the first.
pub open spec fn merge_runs(a: RunV, b: RunV) -> RunV {
    RunV { text: a.text + b.text, attrs: a.attrs }
}

/// The run list with every maximal stretch of neighbouring runs that have
/// identical attribute lists joined into a single run.
pub open spec fn runs_normalise(runs: Seq<RunV>) -> Seq<RunV>
    decreases runs.len(),
{
    if runs.len() == 0 {
        runs
    } else {
        let rest = runs_normalise(runs.drop_first());
        if rest.len() > 0 && rest[0].attrs == runs[0].attrs {
            seq![merge_runs(runs[0], rest[0])] + rest.drop_first()
        } else {
            seq![runs[0]] + rest
        }
    }
}

/// A normalised non-empty list starts with a run carrying the first run's
/// attributes.
pub proof fn lemma_normalise_head(runs: Seq<RunV>)
    requires
        runs.len() > 0,
    ensures
        runs_normalise(runs).len() > 0,
        runs_normalise(runs)[0].attrs == runs[0].attrs,
{
}

/// Joining two neighbouring runs with equal attributes does not change the
/// normal form.
pub proof fn lemma_normalise_merge(a: RunV, b: RunV, rest: Seq<RunV>)
    requires
        a.attrs == b.attrs,
    ensures
        runs_normalise(seq![a, b] + rest) == runs_normalise(seq![merge_runs(a, b)] + rest),
{
    let s = seq![a, b] + rest;
    let t = seq![merge_runs(a, b)] + rest;
    assert(s.drop_first() =~= seq![b] + rest);
    assert(t.drop_first() =~= rest);
    lemma_normalise_head(seq![b] + rest);
    let n = runs_normalise(rest);
    let r = runs_normalise(seq![b] + rest);
    assert((seq![b] + rest).drop_first() =~= rest);
    if n.len() > 0 && n[0].attrs == b.attrs {
        assert(a.text + (b.text + n[0].text) =~= (a.text + b.text) + n[0].text);
        assert(merge_runs(a, merge_runs(b, n[0])) == merge_runs(merge_runs(a, b), n[0]));
        assert(runs_normalise(s) =~= runs_normalise(t));
    } else {
        assert(r =~= seq![b] + n);
        assert(runs_normalise(s) =~= runs_normalise(t));
    }
}

/// A run whose attributes differ from its successor's starts the normal form.
pub proof fn lemma_normalise_keep(s: Seq<RunV>)
    requires
        s.len() >= 2,
        s[0].attrs != s[1].attrs,
    ensures
        runs_normalise(s) == seq![s[0]] + runs_normalise(s.drop_first()),
{
    lemma_normalise_head(s.drop_first());
}

/// Merge adjacent runs that share identical attrs.
pub fn normalise_runs(runs: &mut Vec<InlineRun>)
    ensures
        runs_view(final(runs)@) == runs_normalise(runs_view(old(runs)@)),
{
    let ghost orig = runs_view(runs@);
    if runs.len() < 2 {
        proof {
            reveal_with_fuel(runs_normalise, 2);
            if orig.len() == 1 {
                assert(orig.drop_first() =~= Seq::<RunV>::empty());
                assert(runs_normalise(orig) =~= orig);
            }
        }
        return;
    }
    let mut i: usize = 0;
    proof {
        assert(runs_view(runs@).take(0) =~= Seq::<RunV>::empty());
        assert(runs_view(runs@).skip(0) =~= runs_view(runs@));
        assert(runs_normalise(orig) =~= runs_view(runs@).take(0) + runs_normalise(
            runs_view(runs@).skip(0),
        ));
    }
    while i < runs.len() - 1
        invariant
            i < runs@.len(),
            runs_normalise(orig) == runs_view(runs@).take(i as int) + runs_normalise(
                runs_view(runs@).skip(i as int),
            ),
        decreases runs@.len() - i,
    {
        let ghost cur = runs_view(runs@);
        if attrs_equal(&runs[i].attrs, &runs[i + 1].attrs) {
            let text = runs[i + 1].text.clone();
            runs[i].text.append(text.as_str());
            runs.remove(i + 1);
            proof {
                let nxt = runs_view(runs@);
                let m = merge_runs(cur[i as int], cur[i as int + 1]);
                assert(nxt[i as int] == m);
                assert(cur.skip(i as int) =~= seq![cur[i as int], cur[i as int + 1]] + cur.skip(
                    i as int + 2,
                ));
                assert(nxt.skip(i as int) =~= seq![m] + cur.skip(i as int + 2));
                assert(nxt.take(i as int) =~= cur.take(i as int));
                lemma_normalise_merge(cur[i as int], cur[i as int + 1], cur.skip(i as int + 2));
            }
        } else {
            proof {
                let tail = cur.skip(i as int);
                assert(tail[0] == cur[i as int]);
                assert(tail[1] == cur[i as int + 1]);
                lemma_normalise_keep(tail);
                assert(tail.drop_first() =~= cur.skip(i as int + 1));
                assert(cur.take(i as int + 1) =~= cur.take(i as int) + seq![cur[i as int]]);
                assert(runs_normalise(orig) =~= cur.take(i as int + 1) + runs_normalise(
                    cur.skip(i as int + 1),
                ));
            }
            i = i + 1;
        }
    }
    proof {
        let cur = runs_view(runs@);
        let last = cur.skip(i as int);
        reveal_with_fuel(runs_normalise, 2);
        assert(last =~= seq![cur[i as int]]);
        assert(last.drop_first() =~= Seq::<RunV>::empty());
        assert(runs_normalise(last) =~= last);
        assert(cur =~= cur.take(i as int) + last);
    }
}

// ─── Split ────────────────────────────────────────────────────────────────────

/// Index of the first run, from `i` on, that has `off` strictly inside it;
/// the number of runs when there is none.
pub open spec fn split_from(runs: Seq<RunV>, off: int, i: int) -> int
    decreases runs.len() - i,
{
    if i < 0 || i >= runs.len() {
        runs.len() as int
    } else if run_start(runs, i) < off && off < run_end(runs, i) {
        i
    } else {
        split_from(runs, off, i + 1)
    }
}

/// The run list cut at byte offset `off`: the run that has `off` strictly
/// inside it, if any, becomes two runs with the same attributes.
pub open spec fn runs_split_at(runs: Seq<RunV>, off: int) -> Seq<RunV> {
    let i = split_from(runs, off, 0);
    if i < runs.len() {
        let local = off - run_start(runs, i);
        runs.take(i) + seq![
            RunV { text: text_prefix(runs[i].text, local), ..runs[i] },
            RunV { text: text_suffix(runs[i].text, local), ..runs[i] },
        ] + runs.skip(i + 1)
    } else {
        runs
    }
}

/// `off` can be cut at: it is a boundary of the text or lies past its end.
pub open spec fn cuttable(runs: Seq<RunV>, off: int) -> bool {
    is_boundary(runs_text(runs), off) || off > runs_len(runs)
}

/// No run from `j` on has `off` strictly inside it when they all start at
/// or after `off`.
pub proof fn lemma_split_from_none(runs: Seq<RunV>, off: int, j: int)
    requires
        0 <= j,
        j < runs.len() ==> off <= run_start(runs, j),
    ensures
        split_from(runs, off, j) == runs.len(),
    decreases runs.len() - j,
{
    if j < runs.len() {
        lemma_run_bounds(runs, j);
        if j + 1 < runs.len() {
            lemma_run_order(runs, j, j + 1);
        }
        lemma_split_from_none(runs, off, j + 1);
    }
}

/// Splitting keeps the text.
pub proof fn lemma_split_keeps_text(runs: Seq<RunV>, off: int)
    requires
        cuttable(runs, off),
    ensures
        runs_text(runs_split_at(runs, off)) == runs_text(runs),
{
    let i = split_from(runs, off, 0);
    lemma_split_from_facts(runs, off, 0);
    if i < runs.len() {
        let local = off - run_start(runs, i);
        lemma_run_bounds(runs, i);
        assert(is_boundary(runs_text(runs), off));
        lemma_boundary_in_run(runs, i, off);
        lemma_prefix_suffix(runs[i].text, local);
        let l = RunV { text: text_prefix(runs[i].text, local), ..runs[i] };
        let r = RunV { text: text_suffix(runs[i].text, local), ..runs[i] };
        let a = runs.take(i);
        let z = runs.skip(i + 1);
        lemma_runs_text_around(runs, i);
        lemma_runs_text_concat(a + seq![l, r], z);
        lemma_runs_text_concat(a, seq![l, r]);
        lemma_runs_text_concat(seq![l], seq![r]);
        lemma_runs_text_single(l);
        lemma_runs_text_single(r);
        assert(seq![l] + seq![r] =~= seq![l, r]);
        assert(runs_text(seq![l, r]) == l.text + r.text);
        assert(runs_split_at(runs, off) == a + seq![l, r] + z);
        assert(runs_text(runs_split_at(runs, off)) =~= runs_text(a) + (l.text + r.text)
            + runs_text(z));
    }
}

/// What `split_from` finds.
pub proof fn lemma_split_from_facts(runs: Seq<RunV>, off: int, j: int)
    requires
        0 <= j,
    ensures
        j <= split_from(runs, off, j) <= runs.len() || (j > runs.len() && split_from(runs, off, j)
            == runs.len()),
        split_from(runs, off, j) < runs.len() ==> run_start(runs, split_from(runs, off, j)) < off
            && off < run_end(runs, split_from(runs, off, j)),
    decreases runs.len() - j,
{
    if j < runs.len() {
        lemma_split_from_facts(runs, off, j + 1);
    }
}

/// Split the run list at `byte_offset` so that `byte_offset` falls exactly
/// at a run boundary. No-op if it already does.
pub fn split_runs_at(runs: &mut Vec<InlineRun>, byte_offset: usize)
    requires
        cuttable(runs_view(old(runs)@), byte_offset as int),
        runs_len(runs_view(old(runs)@)) <= usize::MAX,
    ensures
        runs_view(final(runs)@) == runs_split_at(runs_view(old(runs)@), byte_offset as int),
{
    let ghost rv = runs_view(runs@);
    let mut cursor: usize = 0;
    let mut i: usize = 0;
    proof {
        lemma_run_start_ends(rv);
    }
    while i < runs.len()
        invariant
            rv == runs_view(runs@),
            runs@ == old(runs)@,
            i <= runs@.len(),
            cursor as int == run_start(rv, i as int),
            split_from(rv, byte_offset as int, 0) == split_from(rv, byte_offset as int, i as int),
            cuttable(rv, byte_offset as int),
            runs_len(rv) <= usize::MAX,
        decreases runs@.len() - i,
    {
        proof {
            lemma_run_bounds(rv, i as int);
            lemma_run_start_step(rv, i as int);
        }
        let run_len = byte_len(&runs[i].text);
        if cursor < byte_offset && byte_offset < cursor + run_len {
            let local = byte_offset - cursor;
            proof {
                if !is_boundary(runs_text(rv), byte_offset as int) {
                    assert(byte_offset > runs_len(rv));
                }
                lemma_boundary_in_run(rv, i as int, byte_offset as int);
            }
            let (left, right) = split_at_byte(&runs[i].text, local);
            let right_attrs = attrs_copied(&runs[i].attrs);
            runs[i].text = left;
            runs.insert(i + 1, InlineRun { text: right, attrs: right_attrs });
            proof {
                assert(split_from(rv, byte_offset as int, i as int) == i);
                assert(runs_view(runs@) =~= runs_split_at(rv, byte_offset as int));
            }
            return;
        }
        cursor = cursor + run_len;
        if cursor == byte_offset {
            proof {
                lemma_split_from_none(rv, byte_offset as int, i as int + 1);
                assert(runs_view(runs@) =~= runs_split_at(rv, byte_offset as int));
            }
            return;
        }
        i = i + 1;
    }
}

// ─── Restyle ──────────────────────────────────────────────────────────────────

/// The attribute list with `x` added at the end unless already present.
pub open spec fn attrs_with(attrs: Seq<AttrV>, x: AttrV) -> Seq<AttrV> {
    if attrs.contains(x) {
        attrs
    } else {
        attrs.push(x)
    }
}

/// The attribute list with every occurrence of `x` taken out.
pub open spec fn attrs_without(attrs: Seq<AttrV>, x: AttrV) -> Seq<AttrV> {
    attrs.filter(|y: AttrV| y != x)
}

/// Run `i` lies wholly within the byte span `[a, b]`.
pub open spec fn in_span(runs: Seq<RunV>, i: int, a: int, b: int) -> bool {
    run_start(runs, i) >= a && run_end(runs, i) <= b
}

/// Every run lying wholly within `[a, b]` gains `x` (when `add`) or loses
/// it (otherwise); the other runs stay as they are.
pub open spec fn runs_restyle(runs: Seq<RunV>, a: int, b: int, x: AttrV, add: bool) -> Seq<RunV> {
    Seq::new(
        runs.len(),
        |i: int|
            if in_span(runs, i, a, b) {
                RunV {
                    attrs: if add {
                        attrs_with(runs[i].attrs, x)
                    } else {
                        attrs_without(runs[i].attrs, x)
                    },
                    ..runs[i]
                }
            } else {
                runs[i]
            },
    )
}

/// Restyling keeps the text and the run boundaries.
pub proof fn lemma_restyle_keeps_text(runs: Seq<RunV>, a: int, b: int, x: AttrV, add: bool)
    ensures
        runs_text(runs_restyle(runs, a, b, x, add)) == runs_text(runs),
        forall|i: int|
            0 <= i <= runs.len() ==> run_start(runs_restyle(runs, a, b, x, add), i) == run_start(
                runs,
                i,
            ),
    decreases runs.len(),
{
    let r = runs_restyle(runs, a, b, x, add);
    assert forall|i: int| 0 <= i <= runs.len() implies #[trigger] runs_text(r.take(i)) == runs_text(
        runs.take(i),
    ) by {
        lemma_restyle_prefix_text(runs, a, b, x, add, i);
    }
    lemma_restyle_prefix_text(runs, a, b, x, add, runs.len() as int);
    assert(r.take(runs.len() as int) =~= r);
    assert(runs.take(runs.len() as int) =~= runs);
}

/// Restyling keeps the text of every prefix.
pub proof fn lemma_restyle_prefix_text(
    runs: Seq<RunV>,
    a: int,
    b: int,
    x: AttrV,
    add: bool,
    i: int,
)
    requires
        0 <= i <= runs.len(),
    ensures
        runs_text(runs_restyle(runs, a, b, x, add).take(i)) == runs_text(runs.take(i)),
    decreases i,
{
    let r = runs_restyle(runs, a, b, x, add);
    if i > 0 {
        lemma_restyle_prefix_text(runs, a, b, x, add, i - 1);
        assert(r.take(i).drop_last() =~= r.take(i - 1));
        assert(runs.take(i).drop_last() =~= runs.take(i - 1));
    } else {
        assert(r.take(0) =~= runs.take(0));
    }
}

/// One step of a filter over a growing prefix.
pub proof fn lemma_filter_take_step<A>(s: Seq<A>, pred: spec_fn(A) -> bool, j: int)
    requires
        0 <= j < s.len(),
    ensures
        s.take(j + 1).filter(pred) == (if pred(s[j]) {
            s.take(j).filter(pred).push(s[j])
        } else {
            s.take(j).filter(pred)
        }),
{
    reveal(Seq::filter);
    assert(s.take(j + 1).drop_last() =~= s.take(j));
    assert(s.take(j + 1).last() == s[j]);
}

/// A copy of the attribute list without `x`.
pub fn attrs_removed(attrs: &Vec<InlineAttr>, x: &InlineAttr) -> (r: Vec<InlineAttr>)
    ensures
        attrs_view(r@) == attrs_without(attrs_view(attrs@), x@),
{
    let ghost av = attrs_view(attrs@);
    let ghost pred = |y: AttrV| y != x@;
    let mut out: Vec<InlineAttr> = Vec::new();
    let mut j: usize = 0;
    proof {
        reveal(Seq::filter);
        assert(av.take(0) =~= Seq::<AttrV>::empty());
        assert(attrs_view(out@) =~= av.take(0).filter(pred));
    }
    while j < attrs.len()
        invariant
            av == attrs_view(attrs@),
            pred == (|y: AttrV| y != x@),
            j <= attrs@.len(),
            attrs_view(out@) == av.take(j as int).filter(pred),
        decreases attrs@.len() - j,
    {
        proof {
            lemma_filter_take_step(av, pred, j as int);
        }
        if !attrs[j].eq(x) {
            out.push(attrs[j].copied());
            proof {
                assert(attrs_view(out@) =~= av.take(j as int).filter(pred).push(av[j as int]));
            }
        }
        j = j + 1;
    }
    proof {
        assert(av.take(attrs@.len() as int) =~= av);
    }
    out
}

/// Add `attr` to (when `add`) or remove it from every run lying wholly
/// within `[a, b]`.
pub fn restyle_runs(runs: &mut Vec<InlineRun>, a: usize, b: usize, attr: &InlineAttr, add: bool)
    requires
        runs_len(runs_view(old(runs)@)) <= usize::MAX,
    ensures
        runs_view(final(runs)@) == runs_restyle(runs_view(old(runs)@), a as int, b as int, attr@, add),
{
    let ghost rv = runs_view(runs@);
    let ghost target = runs_restyle(rv, a as int, b as int, attr@, add);
    let mut cursor: usize = 0;
    let mut i: usize = 0;
    proof {
        lemma_run_start_ends(rv);
    }
    while i < runs.len()
        invariant
            rv == runs_view(old(runs)@),
            target == runs_restyle(rv, a as int, b as int, attr@, add),
            runs@.len() == rv.len(),
            i <= runs@.len(),
            cursor as int == run_start(rv, i as int),
            runs_len(rv) <= usize::MAX,
            forall|j: int| 0 <= j < i ==> #[trigger] runs@[j]@ == target[j],
            forall|j: int| i <= j < runs@.len() ==> #[trigger] runs@[j]@ == rv[j],
        decreases runs@.len() - i,
    {
        proof {
            lemma_run_bounds(rv, i as int);
            lemma_run_start_step(rv, i as int);
            assert(runs@[i as int]@ == rv[i as int]);
        }
        let run_end = cursor + byte_len(&runs[i].text);
        if cursor >= a && run_end <= b {
            if add {
                if !attrs_contain(&runs[i].attrs, attr) {
                    runs[i].attrs.push(attr.copied());
                    proof {
                        assert(attrs_view(runs@[i as int].attrs@) =~= attrs_with(
                            rv[i as int].attrs,
                            attr@,
                        ));
                    }
                }
            } else {
                let kept = attrs_removed(&runs[i].attrs, attr);
                runs[i].attrs = kept;
            }
        }
        proof {
            assert(runs@[i as int]@ == target[i as int]);
        }
        cursor = run_end;
        i = i + 1;
    }
    proof {
        assert(runs_view(runs@) =~= target);
    }
}

// ─── What the operations do to the text ───────────────────────────────────────

/// The bytes of run `j` are the bytes of the text between its start and end.
pub proof fn lemma_run_bytes(runs: Seq<RunV>, j: int)
    requires
        0 <= j < runs.len(),
    ensures
        enc(runs[j].text) == enc(runs_text(runs)).subrange(run_start(runs, j), run_end(runs, j)),
{
    let a = runs_text(runs.take(j));
    let r = runs[j].text;
    let z = runs_text(runs.skip(j + 1));
    lemma_runs_text_around(runs, j);
    lemma_enc_concat(a, r);
    lemma_enc_concat(a + r, z);
    assert(enc(runs_text(runs)).subrange(run_start(runs, j), run_end(runs, j)) =~= enc(r));
}

/// Dropping empty runs keeps the text.
pub proof fn lemma_filter_nonempty_text(s: Seq<RunV>)
    ensures
        runs_text(s.filter(|r: RunV| run_nonempty(r))) == runs_text(s),
    decreases s.len(),
{
    reveal(Seq::filter);
    if s.len() > 0 {
        lemma_filter_nonempty_text(s.drop_last());
        let f = s.drop_last().filter(|r: RunV| run_nonempty(r));
        if run_nonempty(s.last()) {
            assert(f.push(s.last()).drop_last() =~= f);
        } else {
            assert(s.last().text =~= Seq::<char>::empty());
            assert(runs_text(s) =~= runs_text(s.drop_last()));
        }
    }
}

/// The bytes of a prefix of the trimmed runs, before empty runs go.
pub open spec fn trimmed_prefix_bytes(e: Seq<u8>, from: int, to: int, p: int) -> Seq<u8> {
    e.subrange(0, if from < p { from } else { p }) + (if p > to {
        e.subrange(to, p)
    } else {
        Seq::empty()
    })
}

/// The trimmed runs, taken up to run `j`, hold the text before run `j` with
/// the deleted bytes taken out.
#[verifier::spinoff_prover]
#[verifier::rlimit(40)]
pub proof fn lemma_trimmed_prefix(runs: Seq<RunV>, from: int, to: int, j: int)
    requires
        0 <= from < to,
        is_boundary(runs_text(runs), from),
        is_boundary(runs_text(runs), to),
        0 <= j <= runs.len(),
    ensures
        enc(runs_text(runs_trimmed(runs, from, to).take(j))) == trimmed_prefix_bytes(
            enc(runs_text(runs)),
            from,
            to,
            run_start(runs, j),
        ),
    decreases j,
{
    let e = enc(runs_text(runs));
    let t = runs_trimmed(runs, from, to);
    if j == 0 {
        lemma_run_start_ends(runs);
        assert(t.take(0) =~= Seq::<RunV>::empty());
        assert(enc(runs_text(t.take(0))) =~= trimmed_prefix_bytes(e, from, to, 0));
    } else {
        let k = j - 1;
        lemma_trimmed_prefix(runs, from, to, k);
        lemma_run_start_step(runs, k);
        lemma_run_bounds(runs, k);
        lemma_run_bytes(runs, k);
        assert(t.take(j).drop_last() =~= t.take(k));
        assert(t.take(j).last() == t[k]);
        lemma_enc_concat(runs_text(t.take(k)), t[k].text);
        let sk = run_start(runs, k);
        let ek = run_end(runs, k);
        let r = runs[k].text;
        let len = blen(r);
        lemma_boundary_in_range(runs_text(runs), to);
        if ek <= from || sk >= to {
            assert(t[k] == runs[k]);
            assert(enc(runs_text(t.take(j))) =~= trimmed_prefix_bytes(e, from, to, ek));
        } else {
            let a = if from > sk { from - sk } else { 0 };
            let b = if to - sk < len { to - sk } else { len };
            lemma_ends_are_boundaries(r);
            if from > sk {
                lemma_boundary_in_run(runs, k, from);
            }
            if to - sk < len {
                lemma_boundary_in_run(runs, k, to);
            }
            lemma_text_remove(r, a, b);
            assert(enc(t[k].text) =~= e.subrange(sk, sk + a) + e.subrange(sk + b, ek));
            assert(enc(runs_text(t.take(j))) =~= trimmed_prefix_bytes(e, from, to, ek));
        }
    }
}

/// Deleting `[from, to)` from a run list deletes those bytes from its text.
pub proof fn lemma_delete_text(runs: Seq<RunV>, from: int, to: int)
    requires
        from < to ==> is_boundary(runs_text(runs), from),
        from < to ==> is_boundary(runs_text(runs), to),
    ensures
        from < to ==> runs_text(runs_delete(runs, from, to)) == text_remove(runs_text(runs), from, to),
        from < to ==> runs_len(runs_delete(runs, from, to)) == runs_len(runs) - (to - from),
        runs_len(runs_delete(runs, from, to)) <= runs_len(runs),
{
    if from < to {
        lemma_boundary_in_range(runs_text(runs), from);
        lemma_boundary_in_range(runs_text(runs), to);
        let t = runs_trimmed(runs, from, to);
        lemma_trimmed_prefix(runs, from, to, runs.len() as int);
        lemma_run_start_ends(runs);
        assert(t.take(runs.len() as int) =~= t);
        lemma_filter_nonempty_text(t);
        lemma_text_remove(runs_text(runs), from, to);
        let e = enc(runs_text(runs));
        assert(trimmed_prefix_bytes(e, from, to, e.len() as int) =~= e.subrange(0, from)
            + e.subrange(to, e.len() as int));
        lemma_enc_injective(runs_text(runs_delete(runs, from, to)), text_remove(runs_text(runs), from, to));
    }
}

/// What `owner_from` finds.
pub proof fn lemma_owner_from_facts(runs: Seq<RunV>, off: int, j: int)
    requires
        0 <= j <= runs.len(),
        j < runs.len() ==> run_start(runs, j) <= off,
    ensures
        j <= owner_from(runs, off, j) <= runs.len(),
        owner_from(runs, off, j) < runs.len() ==> run_start(runs, owner_from(runs, off, j)) <= off
            <= run_end(runs, owner_from(runs, off, j)),
        owner_from(runs, off, j) == runs.len() ==> runs.len() == 0 || off > run_end(
            runs,
            runs.len() - 1,
        ) || j == runs.len(),
    decreases runs.len() - j,
{
    if j < runs.len() {
        if off > run_end(runs, j) {
            lemma_run_start_step(runs, j);
            lemma_owner_from_facts(runs, off, j + 1);
        }
    }
}

/// Inserting `t` at a boundary of a run list's text inserts it into the text.
pub proof fn lemma_insert_text(runs: Seq<RunV>, off: int, t: Seq<char>)
    requires
        is_boundary(runs_text(runs), off),
    ensures
        runs_text(runs_insert(runs, off, t)) == text_insert(runs_text(runs), off, t),
        runs_len(runs_insert(runs, off, t)) == runs_len(runs) + blen(t),
{
    let txt = runs_text(runs);
    lemma_text_insert(txt, off, t);
    lemma_boundary_in_range(txt, off);
    if runs.len() == 0 {
        lemma_runs_text_single(RunV { text: t, attrs: Seq::empty() });
        assert(txt =~= Seq::<char>::empty());
        lemma_prefix_suffix(txt, off);
        assert(enc(txt) =~= Seq::<u8>::empty());
        assert(enc(text_insert(txt, off, t)) =~= enc(t));
        lemma_enc_injective(text_insert(txt, off, t), t);
    } else {
        lemma_run_start_ends(runs);
        lemma_owner_from_facts(runs, off, 0);
        let i = owner_from(runs, off, 0);
        let last = runs.len() - 1;
        lemma_run_start_step(runs, last);
        assert(run_start(runs, last + 1) == runs_len(runs));
        assert(i < runs.len());
        let r = runs[i].text;
        let local = off - run_start(runs, i);
        lemma_boundary_in_run(runs, i, off);
        lemma_text_insert(r, local, t);
        let nr = RunV { text: text_insert(r, local, t), ..runs[i] };
        let n = runs.update(i, nr);
        lemma_runs_text_around(runs, i);
        lemma_runs_text_around(n, i);
        assert(n.take(i) =~= runs.take(i));
        assert(n.skip(i + 1) =~= runs.skip(i + 1));
        let a = runs_text(runs.take(i));
        let z = runs_text(runs.skip(i + 1));
        lemma_enc_concat(a, nr.text);
        lemma_enc_concat(a + nr.text, z);
        lemma_enc_concat(a, r);
        lemma_enc_concat(a + r, z);
        let e = enc(txt);
        assert(enc(runs_text(n)) =~= e.subrange(0, off) + enc(t) + e.subrange(off, e.len() as int));
        lemma_enc_injective(runs_text(n), text_insert(txt, off, t));
    }
}

/// Normalising keeps the text.
pub proof fn lemma_normalise_text(runs: Seq<RunV>)
    ensures
        runs_text(runs_normalise(runs)) == runs_text(runs),
    decreases runs.len(),
{
    if runs.len() > 0 {
        let rest = runs_normalise(runs.drop_first());
        lemma_normalise_text(runs.drop_first());
        assert(runs =~= seq![runs[0]] + runs.drop_first());
        lemma_runs_text_concat(seq![runs[0]], runs.drop_first());
        lemma_runs_text_single(runs[0]);
        if rest.len() > 0 && rest[0].attrs == runs[0].attrs {
            let m = merge_runs(runs[0], rest[0]);
            assert(rest =~= seq![rest[0]] + rest.drop_first());
            lemma_runs_text_concat(seq![rest[0]], rest.drop_first());
            lemma_runs_text_single(rest[0]);
            lemma_runs_text_concat(seq![m], rest.drop_first());
            lemma_runs_text_single(m);
            assert(runs_text(runs_normalise(runs)) =~= runs_text(runs));
        } else {
            lemma_runs_text_concat(seq![runs[0]], rest);
        }
    }
}


// ─── Attributes of each byte ──────────────────────────────────────────────────

/// The attributes of every byte of a run's text: the run's own.
pub open spec fn run_byte_attrs(r: RunV) -> Seq<Seq<AttrV>> {
    Seq::new(blen(r.text) as nat, |k: int| r.attrs)
}

/// The attributes of every byte of a run list's text: those of the run it
/// lies in.
pub open spec fn byte_attrs(runs: Seq<RunV>) -> Seq<Seq<AttrV>>
    decreases runs.len(),
{
    if runs.len() == 0 {
        Seq::empty()
    } else {
        byte_attrs(runs.drop_last()) + run_byte_attrs(runs.last())
    }
}

/// There is an attribute list for every byte.
pub proof fn lemma_byte_attrs_len(runs: Seq<RunV>)
    ensures
        byte_attrs(runs).len() == runs_len(runs),
    decreases runs.len(),
{
    if runs.len() > 0 {
        lemma_byte_attrs_len(runs.drop_last());
        lemma_enc_concat(runs_text(runs.drop_last()), runs.last().text);
    }
}

/// The byte attributes of two run lists one after the other.
pub proof fn lemma_byte_attrs_concat(a: Seq<RunV>, b: Seq<RunV>)
    ensures
        byte_attrs(a + b) == byte_attrs(a) + byte_attrs(b),
    decreases b.len(),
{
    if b.len() == 0 {
        assert(a + b =~= a);
        assert(byte_attrs(a) + byte_attrs(b) =~= byte_attrs(a));
    } else {
        lemma_byte_attrs_concat(a, b.drop_last());
        assert((a + b).drop_last() =~= a + b.drop_last());
        assert((a + b).last() == b.last());
        assert(byte_attrs(a + b) =~= byte_attrs(a) + byte_attrs(b));
    }
}

/// The byte attributes of a single run.
pub proof fn lemma_byte_attrs_single(r: RunV)
    ensures
        byte_attrs(seq![r]) == run_byte_attrs(r),
{
    let one = seq![r];
    assert(one.drop_last() =~= Seq::<RunV>::empty());
    assert(one.last() == r);
    assert(byte_attrs(one.drop_last()) =~= Seq::<Seq<AttrV>>::empty());
    assert(byte_attrs(one) == byte_attrs(one.drop_last()) + run_byte_attrs(r));
    assert(byte_attrs(one) =~= run_byte_attrs(r));
}

/// A byte of run `j` has run `j`'s attributes.
pub proof fn lemma_byte_attrs_in_run(runs: Seq<RunV>, j: int, p: int)
    requires
        0 <= j < runs.len(),
        run_start(runs, j) <= p < run_end(runs, j),
    ensures
        byte_attrs(runs)[p] == runs[j].attrs,
{
    let a = runs.take(j);
    let z = runs.skip(j + 1);
    assert(runs =~= a + seq![runs[j]] + z);
    lemma_byte_attrs_concat(a + seq![runs[j]], z);
    lemma_byte_attrs_concat(a, seq![runs[j]]);
    lemma_byte_attrs_single(runs[j]);
    lemma_byte_attrs_len(a);
}

/// Every byte of the text lies in some run.
pub proof fn lemma_byte_in_some_run(runs: Seq<RunV>, p: int)
    requires
        0 <= p < runs_len(runs),
    ensures
        exists|j: int| 0 <= j < runs.len() && #[trigger] run_start(runs, j) <= p < run_end(runs, j),
    decreases runs.len(),
{
    let n = runs.len() - 1;
    let d = runs.drop_last();
    assert(runs.take(n) =~= d);
    lemma_enc_concat(runs_text(d), runs.last().text);
    if p < runs_len(d) {
        lemma_byte_in_some_run(d, p);
        let j = choose|j: int| 0 <= j < d.len() && #[trigger] run_start(d, j) <= p < run_end(d, j);
        assert(runs.take(j) =~= d.take(j));
        assert(run_start(runs, j) <= p < run_end(runs, j));
    } else {
        assert(run_start(runs, n) <= p < run_end(runs, n));
    }
}

/// Joining neighbouring runs with equal attributes keeps every byte's
/// attributes.
pub proof fn lemma_normalise_byte_attrs(runs: Seq<RunV>)
    ensures
        byte_attrs(runs_normalise(runs)) == byte_attrs(runs),
    decreases runs.len(),
{
    if runs.len() > 0 {
        let r0 = runs[0];
        let tail = runs.drop_first();
        let rest = runs_normalise(tail);
        lemma_normalise_byte_attrs(tail);
        assert(runs =~= seq![r0] + tail);
        lemma_byte_attrs_concat(seq![r0], tail);
        lemma_byte_attrs_single(r0);
        if rest.len() > 0 && rest[0].attrs == r0.attrs {
            let m = merge_runs(r0, rest[0]);
            assert(rest =~= seq![rest[0]] + rest.drop_first());
            lemma_byte_attrs_concat(seq![rest[0]], rest.drop_first());
            lemma_byte_attrs_single(rest[0]);
            lemma_byte_attrs_concat(seq![m], rest.drop_first());
            lemma_byte_attrs_single(m);
            lemma_enc_concat(r0.text, rest[0].text);
            assert(run_byte_attrs(m) =~= run_byte_attrs(r0) + run_byte_attrs(rest[0]));
        } else {
            lemma_byte_attrs_concat(seq![r0], rest);
        }
    }
}

/// Where run `i` of a list is cut at `off`, strictly inside it, into two
/// runs: where each run of the cut list lies.
pub proof fn lemma_split_spans(runs: Seq<RunV>, off: int, k: int)
    requires
        cuttable(runs, off),
        split_from(runs, off, 0) < runs.len(),
        0 <= k < runs_split_at(runs, off).len(),
    ensures
        ({
            let i = split_from(runs, off, 0);
            let s = runs_split_at(runs, off);
            &&& k < i ==> run_start(s, k) == run_start(runs, k) && run_end(s, k) == run_end(
                runs,
                k,
            )
            &&& k == i ==> run_start(s, k) == run_start(runs, i) && run_end(s, k) == off
            &&& k == i + 1 ==> run_start(s, k) == off && run_end(s, k) == run_end(runs, i)
            &&& k > i + 1 ==> run_start(s, k) == run_start(runs, k - 1) && run_end(s, k)
                == run_end(runs, k - 1)
        }),
{
    let i = split_from(runs, off, 0);
    let s = runs_split_at(runs, off);
    lemma_split_from_facts(runs, off, 0);
    lemma_run_bounds(runs, i);
    lemma_boundary_in_run(runs, i, off);
    let r = runs[i];
    let local = off - run_start(runs, i);
    lemma_prefix_suffix(r.text, local);
    let l = RunV { text: text_prefix(r.text, local), ..r };
    let q = RunV { text: text_suffix(r.text, local), ..r };
    let a = runs.take(i);
    assert(s == a + seq![l, q] + runs.skip(i + 1));
    if k <= i {
        assert(s.take(k) =~= runs.take(k));
        if k < i {
            assert(s[k] == runs[k]);
        } else {
            assert(s[k] == l);
        }
    } else if k == i + 1 {
        assert(s.take(k) =~= a + seq![l]);
        lemma_runs_text_concat(a, seq![l]);
        lemma_runs_text_single(l);
        lemma_enc_concat(runs_text(a), l.text);
        assert(s[k] == q);
        lemma_run_start_step(runs, i);
    } else {
        let mid = runs.skip(i + 1).take(k - i - 2);
        assert(s.take(k) =~= a + seq![l, q] + mid);
        assert(runs.take(k - 1) =~= a + seq![r] + mid);
        lemma_runs_text_concat(a + seq![l, q], mid);
        lemma_runs_text_concat(a, seq![l, q]);
        lemma_runs_text_concat(seq![l], seq![q]);
        assert(seq![l] + seq![q] =~= seq![l, q]);
        lemma_runs_text_single(l);
        lemma_runs_text_single(q);
        lemma_runs_text_concat(a + seq![r], mid);
        lemma_runs_text_concat(a, seq![r]);
        lemma_runs_text_single(r);
        assert(runs_text(s.take(k)) =~= runs_text(runs.take(k - 1)));
        assert(s[k] == runs[k - 1]);
    }
}

/// Cutting a run list keeps every byte's attributes.
pub proof fn lemma_split_byte_attrs(runs: Seq<RunV>, off: int)
    requires
        cuttable(runs, off),
    ensures
        byte_attrs(runs_split_at(runs, off)) == byte_attrs(runs),
{
    let i = split_from(runs, off, 0);
    lemma_split_from_facts(runs, off, 0);
    if i < runs.len() {
        lemma_run_bounds(runs, i);
        lemma_boundary_in_run(runs, i, off);
        let r = runs[i];
        let local = off - run_start(runs, i);
        lemma_prefix_suffix(r.text, local);
        let l = RunV { text: text_prefix(r.text, local), ..r };
        let q = RunV { text: text_suffix(r.text, local), ..r };
        let a = runs.take(i);
        let z = runs.skip(i + 1);
        assert(runs =~= a + seq![r] + z);
        assert(runs_split_at(runs, off) == a + seq![l, q] + z);
        lemma_byte_attrs_concat(a + seq![l, q], z);
        lemma_byte_attrs_concat(a, seq![l, q]);
        lemma_byte_attrs_concat(seq![l], seq![q]);
        assert(seq![l] + seq![q] =~= seq![l, q]);
        lemma_byte_attrs_single(l);
        lemma_byte_attrs_single(q);
        lemma_byte_attrs_concat(a + seq![r], z);
        lemma_byte_attrs_concat(a, seq![r]);
        lemma_byte_attrs_single(r);
        assert(run_byte_attrs(l) + run_byte_attrs(q) =~= run_byte_attrs(r));
    }
}

/// After a cut at `off`, no run has `off` strictly inside it.
pub proof fn lemma_split_leaves_no_run_across(runs: Seq<RunV>, off: int)
    requires
        cuttable(runs, off),
    ensures
        forall|k: int|
            0 <= k < runs_split_at(runs, off).len() ==> !(run_start(runs_split_at(runs, off), k)
                < off && off < #[trigger] run_end(runs_split_at(runs, off), k)),
{
    let i = split_from(runs, off, 0);
    let s = runs_split_at(runs, off);
    lemma_split_from_facts(runs, off, 0);
    if i < runs.len() {
        assert forall|k: int| 0 <= k < s.len() implies !(run_start(s, k) < off && off < run_end(
            s,
            k,
        )) by {
            lemma_split_spans(runs, off, k);
            if k < i {
                lemma_run_order(runs, k, i);
            } else if k > i + 1 {
                lemma_run_order(runs, i, k - 1);
            }
        }
    } else {
        assert forall|k: int| 0 <= k < s.len() implies !(run_start(s, k) < off && off < run_end(
            s,
            k,
        )) by {
            if run_start(s, k) < off && off < run_end(s, k) {
                lemma_split_from_first(runs, off, 0, k);
            }
        }
    }
}

/// `split_from` finds no run past one that has `off` strictly inside it.
proof fn lemma_split_from_first(runs: Seq<RunV>, off: int, j: int, k: int)
    requires
        0 <= j <= k < runs.len(),
        run_start(runs, k) < off < run_end(runs, k),
    ensures
        split_from(runs, off, j) <= k,
    decreases k - j,
{
    if j < k && !(run_start(runs, j) < off && off < run_end(runs, j)) {
        lemma_split_from_first(runs, off, j + 1, k);
    }
}

/// A cut keeps another offset out of the inside of every run.
pub proof fn lemma_split_keeps_no_run_across(runs: Seq<RunV>, off: int, other: int)
    requires
        cuttable(runs, off),
        forall|k: int|
            0 <= k < runs.len() ==> !(run_start(runs, k) < other && other < #[trigger] run_end(
                runs,
                k,
            )),
    ensures
        forall|k: int|
            0 <= k < runs_split_at(runs, off).len() ==> !(run_start(runs_split_at(runs, off), k)
                < other && other < #[trigger] run_end(runs_split_at(runs, off), k)),
{
    let i = split_from(runs, off, 0);
    let s = runs_split_at(runs, off);
    lemma_split_from_facts(runs, off, 0);
    if i < runs.len() {
        assert forall|k: int| 0 <= k < s.len() implies !(run_start(s, k) < other && other
            < run_end(s, k)) by {
            lemma_split_spans(runs, off, k);
            if k < i {
                assert(!(run_start(runs, k) < other && other < run_end(runs, k)));
            } else if k <= i + 1 {
                assert(!(run_start(runs, i) < other && other < run_end(runs, i)));
            } else {
                assert(!(run_start(runs, k - 1) < other && other < run_end(runs, k - 1)));
            }
        }
    }
}

/// Restyling the runs that lie within `[a, b]`, when no run has `a` or `b`
/// strictly inside it: the bytes in `[a, b)` gain (or lose) `x`, and the
/// others keep their attributes.
pub proof fn lemma_restyle_byte_attrs(runs: Seq<RunV>, a: int, b: int, x: AttrV, add: bool)
    requires
        forall|k: int|
            0 <= k < runs.len() ==> !(run_start(runs, k) < a && a < #[trigger] run_end(runs, k)),
        forall|k: int|
            0 <= k < runs.len() ==> !(run_start(runs, k) < b && b < #[trigger] run_end(runs, k)),
    ensures
        byte_attrs(runs_restyle(runs, a, b, x, add)).len() == byte_attrs(runs).len(),
        forall|p: int|
            0 <= p < byte_attrs(runs).len() ==> #[trigger] byte_attrs(
                runs_restyle(runs, a, b, x, add),
            )[p] == if a <= p < b {
                if add {
                    attrs_with(byte_attrs(runs)[p], x)
                } else {
                    attrs_without(byte_attrs(runs)[p], x)
                }
            } else {
                byte_attrs(runs)[p]
            },
{
    let r = runs_restyle(runs, a, b, x, add);
    lemma_restyle_keeps_text(runs, a, b, x, add);
    lemma_byte_attrs_len(runs);
    lemma_byte_attrs_len(r);
    assert forall|p: int| 0 <= p < byte_attrs(runs).len() implies #[trigger] byte_attrs(r)[p]
        == if a <= p < b {
        if add {
            attrs_with(byte_attrs(runs)[p], x)
        } else {
            attrs_without(byte_attrs(runs)[p], x)
        }
    } else {
        byte_attrs(runs)[p]
    } by {
        lemma_byte_in_some_run(runs, p);
        let j = choose|j: int| 0 <= j < runs.len() && #[trigger] run_start(runs, j) <= p < run_end(runs, j);
        lemma_byte_attrs_in_run(runs, j, p);
        assert(run_start(r, j) == run_start(runs, j));
        assert(r[j].text == runs[j].text);
        lemma_byte_attrs_in_run(r, j, p);
        assert(!(run_start(runs, j) < a && a < run_end(runs, j)));
        assert(!(run_start(runs, j) < b && b < run_end(runs, j)));
    }
}

} // verus!
