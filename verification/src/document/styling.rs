//! What adding or removing an inline attribute does to the attributes of
//! each byte of a block's text.

use vstd::prelude::*;
use crate::text::{blen, is_boundary, lemma_boundary_in_range, lemma_enc_concat, lemma_prefix_suffix};
use crate::document::block::{AttrV, BlockV, RunV};
use crate::document::position::DocRange;
use crate::document::runs::{
    attrs_with, attrs_without, cuttable, in_span, lemma_boundary_in_run, lemma_normalise_text,
    lemma_restyle_keeps_text, lemma_run_bounds, lemma_run_order, lemma_run_start_ends,
    lemma_run_start_step, lemma_runs_text_concat, lemma_runs_text_single, lemma_split_from_facts,
    lemma_split_keeps_text, merge_runs, run_end, run_start, runs_len, runs_normalise,
    runs_restyle, runs_split_at, runs_text, split_from,
};
use crate::document::ops::{check_pos_spec, restyle_spec};

verus! {

// ── The attributes of a byte ──────────────────────────────────────────────────

/// The attributes of byte `p` of a run list's text: those of the run that
/// holds it; `None` outside the text.
pub open spec fn attrs_at(runs: Seq<RunV>, p: int) -> Option<Seq<AttrV>>
    decreases runs.len(),
{
    if runs.len() == 0 || p < 0 {
        None
    } else if p < blen(runs[0].text) {
        Some(runs[0].attrs)
    } else {
        attrs_at(runs.drop_first(), p - blen(runs[0].text))
    }
}

/// Run `i` holds byte `p`.
pub open spec fn holds(runs: Seq<RunV>, i: int, p: int) -> bool {
    0 <= i < runs.len() && run_start(runs, i) <= p < run_end(runs, i)
}

/// No run has byte offset `q` strictly inside it.
pub open spec fn no_cut(runs: Seq<RunV>, q: int) -> bool {
    forall|i: int|
        0 <= i < runs.len() ==> !(#[trigger] run_start(runs, i) < q && q < run_end(runs, i))
}

// ── Lemmas ────────────────────────────────────────────────────────────────────

/// The text of a non-empty run list is its first run's text and then the
/// rest.
proof fn lemma_runs_first(runs: Seq<RunV>)
    requires
        runs.len() > 0,
    ensures
        runs_text(runs) == runs[0].text + runs_text(runs.drop_first()),
        runs_len(runs) == blen(runs[0].text) + runs_len(runs.drop_first()),
{
    assert(runs =~= seq![runs[0]] + runs.drop_first());
    lemma_runs_text_concat(seq![runs[0]], runs.drop_first());
    lemma_runs_text_single(runs[0]);
    lemma_enc_concat(runs[0].text, runs_text(runs.drop_first()));
}

/// The attributes of a byte of a concatenation are those of the part that
/// holds it.
proof fn lemma_attrs_at_concat(a: Seq<RunV>, m: Seq<RunV>, p: int)
    requires
        p >= 0,
    ensures
        attrs_at(a + m, p) == if p < runs_len(a) {
            attrs_at(a, p)
        } else {
            attrs_at(m, p - runs_len(a))
        },
    decreases a.len(),
{
    if a.len() == 0 {
        assert(a + m =~= m);
        assert(runs_text(a) =~= Seq::<char>::empty());
        assert(crate::text::enc(runs_text(a)) =~= Seq::<u8>::empty());
    } else {
        lemma_runs_first(a);
        assert((a + m)[0] == a[0]);
        assert((a + m).drop_first() =~= a.drop_first() + m);
        if p >= blen(a[0].text) {
            lemma_attrs_at_concat(a.drop_first(), m, p - blen(a[0].text));
        }
    }
}

/// A byte's attributes are those of the run that holds it.
proof fn lemma_attrs_at_holds(runs: Seq<RunV>, i: int, p: int)
    requires
        holds(runs, i, p),
    ensures
        attrs_at(runs, p) == Some(runs[i].attrs),
{
    let a = runs.take(i);
    let m = runs.skip(i);
    assert(runs =~= a + m);
    lemma_attrs_at_concat(a, m, p);
    assert(m[0] == runs[i]);
}

/// There are no attributes past the end of the text.
proof fn lemma_attrs_at_past_end(runs: Seq<RunV>, p: int)
    requires
        p >= runs_len(runs),
    ensures
        attrs_at(runs, p) is None,
    decreases runs.len(),
{
    if runs.len() > 0 && p >= 0 {
        lemma_runs_first(runs);
        lemma_attrs_at_past_end(runs.drop_first(), p - blen(runs[0].text));
    }
}

/// Every byte of the text is held by a run, from run `k` on when that run
/// starts at or before it.
proof fn lemma_held_from(runs: Seq<RunV>, p: int, k: int)
    requires
        0 <= k <= runs.len(),
        run_start(runs, k) <= p < runs_len(runs),
    ensures
        exists|i: int| k <= i && #[trigger] holds(runs, i, p),
    decreases runs.len() - k,
{
    lemma_run_start_ends(runs);
    if k < runs.len() {
        if p < run_end(runs, k) {
            assert(holds(runs, k, p));
        } else {
            lemma_run_start_step(runs, k);
            lemma_held_from(runs, p, k + 1);
        }
    }
}

/// Every byte of the text is held by a run.
proof fn lemma_held(runs: Seq<RunV>, p: int)
    requires
        0 <= p < runs_len(runs),
    ensures
        exists|i: int| #[trigger] holds(runs, i, p),
{
    lemma_run_start_ends(runs);
    lemma_held_from(runs, p, 0);
}

/// Normalising keeps the attributes of every byte.
proof fn lemma_normalise_attrs_at(runs: Seq<RunV>, p: int)
    ensures
        attrs_at(runs_normalise(runs), p) == attrs_at(runs, p),
    decreases runs.len(),
{
    if runs.len() > 0 && p >= 0 {
        let r0 = runs[0];
        let tail = runs.drop_first();
        let rest = runs_normalise(tail);
        let q = p - blen(r0.text);
        lemma_normalise_attrs_at(tail, q);
        if rest.len() > 0 && rest[0].attrs == r0.attrs {
            let m = merge_runs(r0, rest[0]);
            let n = seq![m] + rest.drop_first();
            assert(runs_normalise(runs) == n);
            assert(n[0] == m);
            assert(n.drop_first() =~= rest.drop_first());
            lemma_enc_concat(r0.text, rest[0].text);
            if q >= blen(rest[0].text) {
                lemma_normalise_attrs_at(tail, q);
                assert(attrs_at(rest, q) == attrs_at(rest.drop_first(), q - blen(rest[0].text)));
            }
        } else {
            let n = seq![r0] + rest;
            assert(runs_normalise(runs) == n);
            assert(n[0] == r0);
            assert(n.drop_first() =~= rest);
        }
    }
}

/// Cutting a run in two keeps the attributes of every byte.
proof fn lemma_split_attrs_at(runs: Seq<RunV>, off: int, p: int)
    requires
        cuttable(runs, off),
    ensures
        attrs_at(runs_split_at(runs, off), p) == attrs_at(runs, p),
{
    let i = split_from(runs, off, 0);
    lemma_split_from_facts(runs, off, 0);
    if i < runs.len() && p >= 0 {
        let t = runs[i];
        let local = off - run_start(runs, i);
        lemma_run_bounds(runs, i);
        lemma_boundary_in_run(runs, i, off);
        lemma_prefix_suffix(t.text, local);
        let l = RunV { text: crate::text::text_prefix(t.text, local), ..t };
        let r = RunV { text: crate::text::text_suffix(t.text, local), ..t };
        let a = runs.take(i);
        let z = runs.skip(i + 1);
        let m0 = seq![t] + z;
        let m1 = seq![l, r] + z;
        assert(runs =~= a + m0);
        assert(runs_split_at(runs, off) =~= a + m1);
        lemma_attrs_at_concat(a, m0, p);
        lemma_attrs_at_concat(a, m1, p);
        let q = p - runs_len(a);
        if q >= 0 {
            assert(m0[0] == t);
            assert(m0.drop_first() =~= z);
            assert(m1[0] == l);
            assert(m1.drop_first() =~= seq![r] + z);
            assert((seq![r] + z)[0] == r);
            assert((seq![r] + z).drop_first() =~= z);
            let bl = blen(l.text);
            let bt = blen(t.text);
            assert(bl + blen(r.text) == bt);
            if q < bl {
                assert(attrs_at(m1, q) == Some(t.attrs));
                assert(attrs_at(m0, q) == Some(t.attrs));
            } else if q < bt {
                assert(attrs_at(m1, q) == attrs_at(seq![r] + z, q - bl));
                assert(attrs_at(seq![r] + z, q - bl) == Some(t.attrs));
                assert(attrs_at(m0, q) == Some(t.attrs));
            } else {
                assert(attrs_at(m1, q) == attrs_at(seq![r] + z, q - bl));
                assert(attrs_at(seq![r] + z, q - bl) == attrs_at(z, q - bt));
                assert(attrs_at(m0, q) == attrs_at(z, q - bt));
            }
        }
    }
}

/// Where the runs of a concatenation start.
proof fn lemma_run_start_concat(a: Seq<RunV>, m: Seq<RunV>, j: int)
    requires
        0 <= j <= m.len(),
    ensures
        run_start(a + m, a.len() + j) == runs_len(a) + run_start(m, j),
{
    assert((a + m).take(a.len() + j) =~= a + m.take(j));
    lemma_runs_text_concat(a, m.take(j));
    lemma_enc_concat(runs_text(a), runs_text(m.take(j)));
}

/// The runs of the first part of a concatenation start where they did.
proof fn lemma_run_start_prefix(a: Seq<RunV>, m: Seq<RunV>, k: int)
    requires
        0 <= k <= a.len(),
    ensures
        run_start(a + m, k) == run_start(a, k),
{
    assert((a + m).take(k) =~= a.take(k));
}

/// No run before the one `split_from` finds has `off` strictly inside it.
proof fn lemma_split_from_before(runs: Seq<RunV>, off: int, j: int, k: int)
    requires
        0 <= j <= k < split_from(runs, off, j),
        k < runs.len(),
    ensures
        !(run_start(runs, k) < off && off < run_end(runs, k)),
    decreases k - j,
{
    if j < k {
        lemma_split_from_before(runs, off, j + 1, k);
    }
}

/// After cutting at `off`, no run has `off` strictly inside it, and an
/// offset that no run had strictly inside is still not inside any run.
proof fn lemma_split_cuts(runs: Seq<RunV>, off: int, q: int)
    requires
        cuttable(runs, off),
        q == off || no_cut(runs, q),
    ensures
        no_cut(runs_split_at(runs, off), q),
{
    let i0 = split_from(runs, off, 0);
    lemma_split_from_facts(runs, off, 0);
    let sp = runs_split_at(runs, off);
    if i0 >= runs.len() {
        assert forall|k: int| 0 <= k < sp.len() implies !(#[trigger] run_start(sp, k) < q && q
            < run_end(sp, k)) by {
            if q == off {
                lemma_split_from_before(runs, off, 0, k);
            }
        }
    } else {
        let t = runs[i0];
        let local = off - run_start(runs, i0);
        lemma_run_bounds(runs, i0);
        lemma_boundary_in_run(runs, i0, off);
        lemma_prefix_suffix(t.text, local);
        let l = RunV { text: crate::text::text_prefix(t.text, local), ..t };
        let r = RunV { text: crate::text::text_suffix(t.text, local), ..t };
        let a = runs.take(i0);
        let z = runs.skip(i0 + 1);
        let m0 = seq![t] + z;
        let m1 = seq![l, r] + z;
        assert(runs =~= a + m0);
        assert(sp =~= a + m1);
        let lr = seq![l, r];
        assert(lr =~= seq![l] + seq![r]);
        lemma_runs_text_concat(seq![l], seq![r]);
        lemma_runs_text_single(l);
        lemma_runs_text_single(r);
        lemma_runs_text_single(t);
        lemma_enc_concat(l.text, r.text);
        assert(runs_len(lr) == blen(t.text));
        assert forall|k: int| 0 <= k < sp.len() implies !(#[trigger] run_start(sp, k) < q && q
            < run_end(sp, k)) by {
            if k < i0 {
                lemma_run_start_prefix(a, m1, k);
                lemma_run_start_prefix(a, m0, k);
                assert(sp[k] == runs[k]);
                if q == off {
                    lemma_split_from_before(runs, off, 0, k);
                } else {
                    assert(!(run_start(runs, k) < q && q < run_end(runs, k)));
                }
            } else if k == i0 {
                lemma_run_start_concat(a, m1, 0);
                assert(sp[k] == l);
                if q != off {
                    assert(!(run_start(runs, i0) < q && q < run_end(runs, i0)));
                }
            } else if k == i0 + 1 {
                lemma_run_start_concat(a, m1, 1);
                assert(m1.take(1) =~= seq![l]);
                assert(sp[k] == r);
                if q != off {
                    assert(!(run_start(runs, i0) < q && q < run_end(runs, i0)));
                }
            } else {
                let j = k - i0 - 2;
                lemma_run_start_concat(a, m1, k - i0);
                lemma_run_start_concat(a, m0, k - i0 - 1);
                lemma_run_start_concat(lr, z, j);
                lemma_run_start_concat(seq![t], z, j);
                assert(seq![t] + z == m0);
                assert(lr + z == m1);
                assert(sp[k] == runs[k - 1]);
                assert(run_start(sp, k) == run_start(runs, k - 1));
                if q == off {
                    lemma_run_order(runs, i0, k - 1);
                } else {
                    assert(!(run_start(runs, k - 1) < q && q < run_end(runs, k - 1)));
                }
            }
        }
    }
}

/// An attribute list with `x` taken out lacks `x`.
proof fn lemma_without_lacks(attrs: Seq<AttrV>, x: AttrV)
    ensures
        !attrs_without(attrs, x).contains(x),
{
    broadcast use vstd::seq_lib::group_filter_ensures;

    let f = attrs_without(attrs, x);
    if f.contains(x) {
        let i = choose|i: int| 0 <= i < f.len() && f[i] == x;
        assert(f[i] != x);
    }
}

/// An attribute list with `x` added has `x`.
proof fn lemma_with_has(attrs: Seq<AttrV>, x: AttrV)
    ensures
        attrs_with(attrs, x).contains(x),
{
    if !attrs.contains(x) {
        assert(attrs.push(x)[attrs.len() as int] == x);
    }
}

/// Restyling a run list that is cut at `a` and at `b`: every byte of the
/// text in `[a, b)` gains `x` (when `add`) or loses it, and every other
/// byte keeps its attributes.
proof fn lemma_restyle_step(c2: Seq<RunV>, a: int, b: int, x: AttrV, add: bool, p: int)
    requires
        no_cut(c2, a),
        no_cut(c2, b),
    ensures
        ({
            let c3 = runs_restyle(c2, a, b, x, add);
            &&& (a <= p < b && 0 <= p < runs_len(c2)) ==> (attrs_at(c3, p) matches Some(at) && (add
                ==> at.contains(x)) && (!add ==> !at.contains(x)))
            &&& !(a <= p < b) ==> attrs_at(c3, p) == attrs_at(c2, p)
        }),
{
    let c3 = runs_restyle(c2, a, b, x, add);
    lemma_restyle_keeps_text(c2, a, b, x, add);
    if 0 <= p < runs_len(c2) {
        lemma_held(c2, p);
        let k = choose|k: int| holds(c2, k, p);
        assert(run_start(c3, k) == run_start(c2, k));
        assert(c3[k].text == c2[k].text);
        assert(holds(c3, k, p));
        lemma_attrs_at_holds(c3, k, p);
        lemma_attrs_at_holds(c2, k, p);
        assert(!(run_start(c2, k) < a && a < run_end(c2, k)));
        assert(!(run_start(c2, k) < b && b < run_end(c2, k)));
        if a <= p < b {
            assert(in_span(c2, k, a, b));
            lemma_with_has(c2[k].attrs, x);
            lemma_without_lacks(c2[k].attrs, x);
        } else {
            assert(!in_span(c2, k, a, b));
            assert(c3[k] == c2[k]);
        }
    } else if p >= 0 {
        assert(runs_len(c3) == runs_len(c2));
        lemma_attrs_at_past_end(c2, p);
        lemma_attrs_at_past_end(c3, p);
    }
}

/// Restyling the run list `c0` between boundaries `a` and `b`: every byte
/// in `[a, b)` gains `x` (when `add`) or loses it, and every other byte
/// keeps its attributes.
proof fn lemma_restyle_runs(c0: Seq<RunV>, a: int, b: int, x: AttrV, add: bool, p: int)
    requires
        is_boundary(runs_text(c0), a),
        is_boundary(runs_text(c0), b),
    ensures
        ({
            let c4 = runs_normalise(
                runs_restyle(runs_split_at(runs_split_at(c0, a), b), a, b, x, add),
            );
            &&& a <= p < b ==> (attrs_at(c4, p) matches Some(at) && (add ==> at.contains(x)) && (
            !add ==> !at.contains(x)))
            &&& !(a <= p < b) ==> attrs_at(c4, p) == attrs_at(c0, p)
        }),
{
    lemma_boundary_in_range(runs_text(c0), a);
    lemma_boundary_in_range(runs_text(c0), b);
    let c1 = runs_split_at(c0, a);
    lemma_split_keeps_text(c0, a);
    lemma_split_cuts(c0, a, a);
    let c2 = runs_split_at(c1, b);
    lemma_split_keeps_text(c1, b);
    lemma_split_cuts(c1, b, a);
    lemma_split_cuts(c1, b, b);
    let c3 = runs_restyle(c2, a, b, x, add);
    lemma_restyle_step(c2, a, b, x, add, p);
    lemma_normalise_attrs_at(c3, p);
    lemma_split_attrs_at(c0, a, p);
    lemma_split_attrs_at(c1, b, p);
}

// ── Laws ──────────────────────────────────────────────────────────────────────

/// Adding an attribute to a range within one block gives every byte of the
/// range that attribute; removing it takes it from every byte of the range.
pub proof fn law_restyle_marks_range(
    blocks: Seq<BlockV>,
    range: DocRange,
    x: AttrV,
    add: bool,
    p: int,
)
    requires
        restyle_spec(blocks, range, x, add).1 is Ok,
        range.start.block_idx == range.end.block_idx,
        range.start.byte_offset <= p < range.end.byte_offset,
    ensures
        ({
            let nb = restyle_spec(blocks, range, x, add).0;
            let i = range.start.block_idx as int;
            &&& attrs_at(nb[i].content, p) matches Some(at)
            &&& add ==> attrs_at(nb[i].content, p)->0.contains(x)
            &&& !add ==> !attrs_at(nb[i].content, p)->0.contains(x)
        }),
{
    let i = range.start.block_idx as int;
    lemma_restyle_runs(
        blocks[i].content,
        range.start.byte_offset as int,
        range.end.byte_offset as int,
        x,
        add,
        p,
    );
}

/// Adding or removing an attribute over a range within one block leaves
/// the attributes of every byte outside the range, and every other block,
/// as they were.
pub proof fn law_restyle_keeps_the_rest(
    blocks: Seq<BlockV>,
    range: DocRange,
    x: AttrV,
    add: bool,
    p: int,
)
    requires
        restyle_spec(blocks, range, x, add).1 is Ok,
        range.start.block_idx == range.end.block_idx,
        p < range.start.byte_offset || range.end.byte_offset <= p,
    ensures
        ({
            let nb = restyle_spec(blocks, range, x, add).0;
            let i = range.start.block_idx as int;
            &&& nb.len() == blocks.len()
            &&& attrs_at(nb[i].content, p) == attrs_at(blocks[i].content, p)
            &&& forall|j: int| 0 <= j < blocks.len() && j != i ==> nb[j] == blocks[j]
        }),
{
    let i = range.start.block_idx as int;
    if range.start != range.end {
        lemma_restyle_runs(
            blocks[i].content,
            range.start.byte_offset as int,
            range.end.byte_offset as int,
            x,
            add,
            p,
        );
    }
}

} // verus!
