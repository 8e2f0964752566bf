//! Editing operations on a `Document`.
//!
//! All mutations go through these methods. They validate positions, keep
//! `InlineRun` spans consistent, and update the `modified` timestamp.
//!
//! Each operation is described by a spec function from the blocks before
//! it to the blocks after it and what it returns.

use vstd::prelude::*;
use crate::text::{blen, is_boundary, text_suffix, split_at_byte, byte_len, lemma_prefix_suffix,
    lemma_ends_are_boundaries, lemma_boundary_in_range};
use crate::ids::now;
use crate::text::{decimal, push_decimal};
use crate::document::Document;
use crate::document::block::{
    Block, BlockV, BlockKind, KindV, InlineAttr, InlineRun, RunV, AttrV, block_text,
    default_layout,
};
use crate::document::position::{DocPosition, DocRange};
use crate::document::runs::{
    runs_view, runs_text, runs_len, runs_insert, runs_delete, runs_normalise, runs_split_at,
    runs_restyle, cuttable, insert_into_runs, delete_from_runs, normalise_runs, split_runs_at,
    restyle_runs, lemma_insert_text, lemma_delete_text, lemma_normalise_text,
    lemma_split_keeps_text, lemma_restyle_keeps_text, lemma_runs_text_concat,
};

verus! {

/// Why an edit was refused.
#[derive(Debug, Clone, Copy, PartialEq, Eq, Structural)]
pub enum EditError {
    /// Block index (first) out of range; the document has (second) blocks.
    BlockOutOfRange(usize, usize),
    /// Byte offset (first) is not on a char boundary in block (second).
    BadByteOffset(usize, usize),
    /// Cannot merge: the block index is the last block.
    MergeAtEnd(usize),
}

/// The message of an edit error.
pub open spec fn edit_error_text(e: EditError) -> Seq<char> {
    match e {
        EditError::BlockOutOfRange(i, n) => "block index "@ + decimal(i as nat)
            + " out of range (document has "@ + decimal(n as nat) + " blocks)"@,
        EditError::BadByteOffset(off, i) => "byte offset "@ + decimal(off as nat)
            + " is not on a char boundary in block "@ + decimal(i as nat),
        EditError::MergeAtEnd(i) => "cannot merge: block index "@ + decimal(i as nat)
            + " is the last block"@,
    }
}

impl EditError {
    /// What went wrong, in words.
    pub fn message(&self) -> (s: String)
        ensures
            s@ == edit_error_text(*self),
    {
        let mut s = String::new();
        match *self {
            EditError::BlockOutOfRange(i, n) => {
                s.append("block index ");
                push_decimal(&mut s, i as u64);
                s.append(" out of range (document has ");
                push_decimal(&mut s, n as u64);
                s.append(" blocks)");
            },
            EditError::BadByteOffset(off, i) => {
                s.append("byte offset ");
                push_decimal(&mut s, off as u64);
                s.append(" is not on a char boundary in block ");
                push_decimal(&mut s, i as u64);
            },
            EditError::MergeAtEnd(i) => {
                s.append("cannot merge: block index ");
                push_decimal(&mut s, i as u64);
                s.append(" is the last block");
            },
        }
        proof {
            assert(s@ =~= edit_error_text(*self));
        }
        s
    }
}

// ─── Model of the edits ───────────────────────────────────────────────────────

/// Every block's text fits in `isize::MAX` bytes, the most a string holds.
pub open spec fn blocks_fit(blocks: Seq<BlockV>) -> bool {
    forall|i: int| 0 <= i < blocks.len() ==> #[trigger] runs_len(blocks[i].content) <= isize::MAX
}

/// The block with its content replaced.
pub open spec fn with_content(b: BlockV, c: Seq<RunV>) -> BlockV {
    BlockV { content: c, ..b }
}

/// The block index must name a block.
pub open spec fn check_block_spec(blocks: Seq<BlockV>, idx: usize) -> Result<(), EditError> {
    if idx >= blocks.len() {
        Err(EditError::BlockOutOfRange(idx, blocks.len() as usize))
    } else {
        Ok(())
    }
}

/// The position must name a block and fall on a character boundary of its
/// text.
pub open spec fn check_pos_spec(blocks: Seq<BlockV>, pos: DocPosition) -> Result<(), EditError> {
    if pos.block_idx >= blocks.len() {
        Err(EditError::BlockOutOfRange(pos.block_idx, blocks.len() as usize))
    } else if !is_boundary(block_text(blocks[pos.block_idx as int]), pos.byte_offset as int) {
        Err(EditError::BadByteOffset(pos.byte_offset, pos.block_idx))
    } else {
        Ok(())
    }
}

/// The blocks after `t` is inserted at `pos`, and the result.
pub open spec fn insert_text_spec(blocks: Seq<BlockV>, pos: DocPosition, t: Seq<char>) -> (
    Seq<BlockV>,
    Result<(), EditError>,
) {
    if t.len() == 0 {
        (blocks, Ok(()))
    } else {
        match check_pos_spec(blocks, pos) {
            Err(e) => (blocks, Err(e)),
            Ok(_) => {
                let i = pos.block_idx as int;
                (
                    blocks.update(
                        i,
                        with_content(
                            blocks[i],
                            runs_insert(blocks[i].content, pos.byte_offset as int, t),
                        ),
                    ),
                    Ok(()),
                )
            },
        }
    }
}

/// The blocks after block `idx + 1` is merged into block `idx`, and the
/// result.
pub open spec fn merge_blocks_spec(blocks: Seq<BlockV>, idx: usize) -> (
    Seq<BlockV>,
    Result<(), EditError>,
) {
    if idx >= blocks.len() {
        (blocks, Err(EditError::BlockOutOfRange(idx, blocks.len() as usize)))
    } else if idx + 1 >= blocks.len() {
        (blocks, Err(EditError::MergeAtEnd(idx)))
    } else {
        let i = idx as int;
        (
            blocks.take(i) + seq![
                with_content(
                    blocks[i],
                    runs_normalise(blocks[i].content + blocks[i + 1].content),
                ),
            ] + blocks.skip(i + 2),
            Ok(()),
        )
    }
}

/// The blocks after the text in `range` is deleted, and the result. Within
/// one block the bytes go; across blocks the start block loses its tail,
/// the end block its head, the blocks in between go, and the end block is
/// merged into the start block.
pub open spec fn delete_range_spec(blocks: Seq<BlockV>, range: DocRange) -> (
    Seq<BlockV>,
    Result<(), EditError>,
) {
    let s = range.start;
    let e = range.end;
    if s == e {
        (blocks, Ok(()))
    } else {
        match check_pos_spec(blocks, s) {
            Err(x) => (blocks, Err(x)),
            Ok(_) => match check_pos_spec(blocks, e) {
                Err(x) => (blocks, Err(x)),
                Ok(_) => {
                    let si = s.block_idx as int;
                    let ei = e.block_idx as int;
                    if si == ei {
                        (
                            blocks.update(
                                si,
                                with_content(
                                    blocks[si],
                                    runs_delete(
                                        blocks[si].content,
                                        s.byte_offset as int,
                                        e.byte_offset as int,
                                    ),
                                ),
                            ),
                            Ok(()),
                        )
                    } else {
                        let b1 = blocks.update(
                            si,
                            with_content(
                                blocks[si],
                                runs_delete(
                                    blocks[si].content,
                                    s.byte_offset as int,
                                    runs_len(blocks[si].content),
                                ),
                            ),
                        );
                        let b2 = b1.update(
                            ei,
                            with_content(b1[ei], runs_delete(b1[ei].content, 0, e.byte_offset as int)),
                        );
                        let b3 = if si + 1 < ei {
                            b2.take(si + 1) + b2.skip(ei)
                        } else {
                            b2
                        };
                        merge_blocks_spec(b3, s.block_idx)
                    }
                },
            },
        }
    }
}

/// The kind of the block made by splitting a block of kind `k`: titles and
/// headings continue as paragraphs, other kinds carry on.
pub open spec fn split_kind(k: KindV) -> KindV {
    match k {
        KindV::Title | KindV::Heading1 | KindV::Heading2 => KindV::Paragraph,
        other => other,
    }
}

/// The blocks after the block at `pos` is split there, the new block
/// getting id `new_id`, and the result.
pub open spec fn split_block_spec(blocks: Seq<BlockV>, pos: DocPosition, new_id: u128) -> (
    Seq<BlockV>,
    Result<(), EditError>,
) {
    match check_pos_spec(blocks, pos) {
        Err(x) => (blocks, Err(x)),
        Ok(_) => {
            let i = pos.block_idx as int;
            let off = pos.byte_offset as int;
            let b = blocks[i];
            let tail = text_suffix(block_text(b), off);
            let kept = with_content(b, runs_delete(b.content, off, runs_len(b.content)));
            let fresh = BlockV {
                id: new_id,
                kind: split_kind(b.kind),
                content: if tail.len() == 0 {
                    Seq::empty()
                } else {
                    seq![RunV { text: tail, attrs: Seq::empty() }]
                },
                layout: default_layout(),
            };
            (blocks.update(i, kept).insert(i + 1, fresh), Ok(()))
        },
    }
}

/// The attribute edit on `range` cannot fail partway: when both ends are
/// valid and distinct, the end offset can also be cut in the start block.
pub open spec fn attr_range_ok(blocks: Seq<BlockV>, range: DocRange) -> bool {
    (range.start != range.end && check_pos_spec(blocks, range.start) is Ok && check_pos_spec(
        blocks,
        range.end,
    ) is Ok) ==> cuttable(blocks[range.start.block_idx as int].content, range.end.byte_offset as int)
}

/// The blocks after `x` is added to (when `add`) or removed from the runs
/// of the start block that lie within `range`, and the result.
pub open spec fn restyle_spec(blocks: Seq<BlockV>, range: DocRange, x: AttrV, add: bool) -> (
    Seq<BlockV>,
    Result<(), EditError>,
) {
    let s = range.start;
    let e = range.end;
    if s == e {
        (blocks, Ok(()))
    } else {
        match check_pos_spec(blocks, s) {
            Err(err) => (blocks, Err(err)),
            Ok(_) => match check_pos_spec(blocks, e) {
                Err(err) => (blocks, Err(err)),
                Ok(_) => {
                    let i = s.block_idx as int;
                    let a = s.byte_offset as int;
                    let b = e.byte_offset as int;
                    let split = runs_split_at(runs_split_at(blocks[i].content, a), b);
                    (
                        blocks.update(
                            i,
                            with_content(blocks[i], runs_normalise(runs_restyle(split, a, b, x, add))),
                        ),
                        Ok(()),
                    )
                },
            },
        }
    }
}

/// The blocks after block `idx` takes kind `k`, and the result.
pub open spec fn set_block_kind_spec(blocks: Seq<BlockV>, idx: usize, k: KindV) -> (
    Seq<BlockV>,
    Result<(), EditError>,
) {
    if idx >= blocks.len() {
        (blocks, Err(EditError::BlockOutOfRange(idx, blocks.len() as usize)))
    } else {
        (blocks.update(idx as int, BlockV { kind: k, ..blocks[idx as int] }), Ok(()))
    }
}

impl Document {
    /// Every block's text fits in `isize::MAX` bytes.
    pub open spec fn fits(&self) -> bool {
        blocks_fit(self.blocks_view())
    }

    /// Whether every block's text fits in `isize::MAX` bytes (`fits`).
    pub fn check_fits(&self) -> (r: bool)
        ensures
            r == self.fits(),
    {
        let n = self.blocks.len();
        let limit = isize::MAX as usize;
        let mut i: usize = 0;
        while i < n
            invariant
                i <= n,
                n == self.blocks@.len(),
                limit == isize::MAX,
                forall|j: int| 0 <= j < i ==> #[trigger] runs_len(self.blocks_view()[j].content)
                    <= isize::MAX,
            decreases n - i,
        {
            proof {
                assert(self.blocks_view()[i as int] == self.blocks@[i as int]@);
            }
            let t = self.blocks[i].plain_text();
            if crate::text::byte_len(&t) > limit {
                assert(runs_len(self.blocks_view()[i as int].content) > isize::MAX);
                return false;
            }
            i = i + 1;
        }
        true
    }

    /// The two documents agree on everything but their blocks and their
    /// modification time.
    pub open spec fn same_metadata(&self, other: &Document) -> bool {
        &&& self.id == other.id
        &&& self.title == other.title
        &&& self.subtitle == other.subtitle
        &&& self.created == other.created
        &&& self.page == other.page
        &&& self.typography == other.typography
    }
}

proof fn lemma_blocks_view_update(blocks: Seq<Block>, i: int, b: Block)
    requires
        0 <= i < blocks.len(),
    ensures
        blocks.update(i, b).map_values(|x: Block| x@) == blocks.map_values(|x: Block| x@).update(
            i,
            b@,
        ),
{
    assert(blocks.update(i, b).map_values(|x: Block| x@) =~= blocks.map_values(|x: Block| x@).update(
        i,
        b@,
    ));
}

// ─── Validation helpers ───────────────────────────────────────────────────────

impl Document {
    fn check_block(&self, idx: usize) -> (r: Result<(), EditError>)
        ensures
            r == check_block_spec(self.blocks_view(), idx),
    {
        if idx >= self.blocks.len() {
            Err(EditError::BlockOutOfRange(idx, self.blocks.len()))
        } else {
            Ok(())
        }
    }

    fn check_pos(&self, pos: DocPosition) -> (r: Result<(), EditError>)
        ensures
            r == check_pos_spec(self.blocks_view(), pos),
    {
        self.check_block(pos.block_idx)?;
        let text = self.blocks[pos.block_idx].plain_text();
        if !text.as_str().is_char_boundary(pos.byte_offset) {
            Err(EditError::BadByteOffset(pos.byte_offset, pos.block_idx))
        } else {
            Ok(())
        }
    }

    fn touch(&mut self)
        ensures
            final(self).blocks == old(self).blocks,
            final(self).same_metadata(old(self)),
            crate::ids::clock_reading(final(self).modified),
    {
        self.modified = now();
    }
}

// ─── insert_text ─────────────────────────────────────────────────────────────

impl Document {
    /// Insert `text` at `pos`. The text is inserted into the run that owns
    /// that byte offset, inheriting its inline attributes.
    pub fn insert_text(&mut self, pos: DocPosition, text: &str) -> (r: Result<(), EditError>)
        requires
            old(self).fits(),
            blocks_fit(insert_text_spec(old(self).blocks_view(), pos, text@).0),
        ensures
            (final(self).blocks_view(), r) == insert_text_spec(old(self).blocks_view(), pos, text@),
            final(self).same_metadata(old(self)),
            (text@.len() == 0 || r is Err) ==> final(self).modified == old(self).modified,
            text@.len() > 0 && r is Ok ==> crate::ids::clock_reading(final(self).modified),
    {
        if text.is_empty() {
            return Ok(());
        }
        self.check_pos(pos)?;
        let ghost old_blocks = self.blocks@;
        let i = pos.block_idx;
        proof {
            assert(self.blocks_view()[i as int] == self.blocks@[i as int]@);
            assert(runs_len(self.blocks_view()[i as int].content) <= isize::MAX);
        }
        insert_into_runs(&mut self.blocks[i].content, pos.byte_offset, text);
        proof {
            lemma_blocks_view_update(old_blocks, i as int, self.blocks@[i as int]);
        }
        self.touch();
        Ok(())
    }
}

// ─── delete_range ─────────────────────────────────────────────────────────────

impl Document {
    /// Delete text in `range`. If the range spans multiple blocks the
    /// intermediate blocks are removed and the edge blocks are merged.
    pub fn delete_range(&mut self, range: DocRange) -> (r: Result<(), EditError>)
        requires
            old(self).fits(),
            blocks_fit(delete_range_spec(old(self).blocks_view(), range).0),
        ensures
            (final(self).blocks_view(), r) == delete_range_spec(old(self).blocks_view(), range),
            final(self).same_metadata(old(self)),
            (range.start == range.end || r is Err) ==> final(self).modified == old(self).modified,
            range.start != range.end && r is Ok ==> crate::ids::clock_reading(final(self).modified),
    {
        if range.is_collapsed() {
            return Ok(());
        }
        self.check_pos(range.start)?;
        self.check_pos(range.end)?;
        let ghost bv = self.blocks_view();
        let s = range.start.block_idx;
        let e = range.end.block_idx;
        if range.is_single_block() {
            let ghost old_blocks = self.blocks@;
            proof {
                assert(bv[s as int] == self.blocks@[s as int]@);
                assert(runs_len(bv[s as int].content) <= isize::MAX);
            }
            delete_from_runs(
                &mut self.blocks[s].content,
                range.start.byte_offset,
                range.end.byte_offset,
            );
            proof {
                lemma_blocks_view_update(old_blocks, s as int, self.blocks@[s as int]);
            }
        } else {
            // Delete tail of start block.
            let ghost blocks0 = self.blocks@;
            proof {
                assert(bv[s as int] == self.blocks@[s as int]@);
                assert(bv[e as int] == self.blocks@[e as int]@);
                assert(runs_len(bv[s as int].content) <= isize::MAX);
                assert(runs_len(bv[e as int].content) <= isize::MAX);
                lemma_ends_are_boundaries(block_text(bv[s as int]));
                lemma_ends_are_boundaries(block_text(bv[e as int]));
            }
            let start_len = byte_len(&self.blocks[s].plain_text());
            delete_from_runs(&mut self.blocks[s].content, range.start.byte_offset, start_len);
            proof {
                lemma_blocks_view_update(blocks0, s as int, self.blocks@[s as int]);
                lemma_delete_text(
                    bv[s as int].content,
                    range.start.byte_offset as int,
                    start_len as int,
                );
            }
            // Delete head of end block.
            let ghost blocks1 = self.blocks@;
            delete_from_runs(&mut self.blocks[e].content, 0, range.end.byte_offset);
            proof {
                lemma_blocks_view_update(blocks1, e as int, self.blocks@[e as int]);
                lemma_delete_text(bv[e as int].content, 0, range.end.byte_offset as int);
            }
            // Remove fully-covered intermediate blocks.
            let n = self.blocks.len();
            assert(s < n);
            let remove_start = s + 1;
            let remove_end = e;
            let ghost blocks2 = self.blocks@;
            if remove_start < remove_end {
                let mut tail = self.blocks.split_off(remove_end);
                self.blocks.truncate(remove_start);
                self.blocks.append(&mut tail);
                proof {
                    assert(self.blocks@ =~= blocks2.take(remove_start as int) + blocks2.skip(
                        remove_end as int,
                    ));
                    assert(self.blocks_view() =~= blocks2.map_values(|x: Block| x@).take(
                        remove_start as int,
                    ) + blocks2.map_values(|x: Block| x@).skip(remove_end as int));
                }
            }
            proof {
                let b3 = self.blocks_view();
                assert forall|k: int| 0 <= k < b3.len() implies #[trigger] runs_len(b3[k].content)
                    <= isize::MAX by {
                    let b2 = blocks2.map_values(|x: Block| x@);
                    if remove_start < remove_end && k >= remove_start {
                        assert(b3[k] == b2[k + (remove_end - remove_start)]);
                    } else {
                        assert(b3[k] == b2[k]);
                    }
                }
            }
            self.merge_blocks(s)?;
        }
        self.touch();
        Ok(())
    }
}

// ─── split_block (Enter key) ──────────────────────────────────────────────────

impl Document {
    /// Split the block at `pos` into two blocks. The second block inherits
    /// the kind of the first (except Title/Heading → Paragraph) and gets a
    /// fresh random id.
    pub fn split_block(&mut self, pos: DocPosition) -> (r: Result<(), EditError>)
        requires
            old(self).fits(),
        ensures
            (final(self).blocks_view(), r) == split_block_spec(
                old(self).blocks_view(),
                pos,
                final(self).blocks_view()[pos.block_idx + 1].id,
            ),
            final(self).same_metadata(old(self)),
            r is Err ==> final(self).modified == old(self).modified,
            r is Ok ==> crate::ids::clock_reading(final(self).modified),
            final(self).fits(),
    {
        self.check_pos(pos)?;
        let ghost bv = self.blocks_view();
        let i = pos.block_idx;
        let n = self.blocks.len();
        proof {
            assert(bv[i as int] == self.blocks@[i as int]@);
            assert(runs_len(bv[i as int].content) <= isize::MAX);
        }
        let full_text = self.blocks[i].plain_text();
        let (_, tail_text) = split_at_byte(&full_text, pos.byte_offset);
        let new_kind = match &self.blocks[i].kind {
            BlockKind::Title | BlockKind::Heading1 | BlockKind::Heading2 => BlockKind::Paragraph,
            other => other.copied(),
        };
        let full_len = byte_len(&full_text);
        let ghost blocks0 = self.blocks@;
        proof {
            lemma_ends_are_boundaries(full_text@);
        }
        delete_from_runs(&mut self.blocks[i].content, pos.byte_offset, full_len);
        proof {
            lemma_blocks_view_update(blocks0, i as int, self.blocks@[i as int]);
            lemma_delete_text(bv[i as int].content, pos.byte_offset as int, full_len as int);
            lemma_prefix_suffix(full_text@, pos.byte_offset as int);
        }
        let mut new_block = Block::new(new_kind);
        if !tail_text.as_str().is_empty() {
            let mut content: Vec<InlineRun> = Vec::new();
            content.push(InlineRun::plain(tail_text.as_str()));
            new_block.content = content;
            proof {
                assert(runs_view(new_block.content@) =~= seq![
                    RunV { text: tail_text@, attrs: Seq::<AttrV>::empty() },
                ]);
            }
        }
        let ghost blocks1 = self.blocks@;
        self.blocks.insert(i + 1, new_block);
        proof {
            assert(self.blocks_view() =~= blocks1.map_values(|x: Block| x@).insert(
                i + 1,
                new_block@,
            ));
            assert(self.blocks_view()[i + 1] == new_block@);
            let fresh = new_block@;
            assert(fresh.kind == split_kind(bv[i as int].kind));
            assert(self.blocks_view() == split_block_spec(bv, pos, fresh.id).0);
            if tail_text@.len() > 0 {
                crate::document::runs::lemma_runs_text_single(fresh.content[0]);
            } else {
                assert(fresh.content =~= Seq::<RunV>::empty());
            }
            let nb = self.blocks_view();
            assert forall|k: int| 0 <= k < nb.len() implies #[trigger] runs_len(nb[k].content)
                <= isize::MAX by {
                if k < i + 1 {
                    assert(nb[k] == split_block_spec(bv, pos, fresh.id).0[k]);
                } else if k > i + 1 {
                    assert(nb[k] == bv[k - 1]);
                }
            }
        }
        self.touch();
        Ok(())
    }
}

// ─── merge_blocks (Backspace at block start) ──────────────────────────────────

impl Document {
    /// Merge block `idx+1` into block `idx`. Keeps block `idx`'s kind.
    pub fn merge_blocks(&mut self, idx: usize) -> (r: Result<(), EditError>)
        requires
            old(self).fits(),
            blocks_fit(merge_blocks_spec(old(self).blocks_view(), idx).0),
        ensures
            (final(self).blocks_view(), r) == merge_blocks_spec(old(self).blocks_view(), idx),
            final(self).same_metadata(old(self)),
            r is Err ==> final(self).modified == old(self).modified,
            r is Ok ==> crate::ids::clock_reading(final(self).modified),
    {
        self.check_block(idx)?;
        let n = self.blocks.len();
        if idx + 1 >= n {
            return Err(EditError::MergeAtEnd(idx));
        }
        let ghost bv = self.blocks_view();
        let next = self.blocks.remove(idx + 1);
        let mut next_content = next.content;
        let ghost blocks1 = self.blocks@;
        self.blocks[idx].content.append(&mut next_content);
        proof {
            assert(bv[idx as int + 1] == next@);
            assert(bv[idx as int] == blocks1[idx as int]@);
            assert(runs_view(self.blocks@[idx as int].content@) =~= bv[idx as int].content
                + bv[idx as int + 1].content);
        }
        let ghost blocks2 = self.blocks@;
        normalise_runs(&mut self.blocks[idx].content);
        proof {
            lemma_blocks_view_update(blocks2, idx as int, self.blocks@[idx as int]);
            assert(self.blocks_view() =~= merge_blocks_spec(bv, idx).0);
        }
        self.touch();
        Ok(())
    }
}

// ─── apply_inline_attr / remove_inline_attr ───────────────────────────────────

impl Document {
    /// Split at both ends of `range`, add (or remove) `attr` on the runs of
    /// the start block within it, and normalise.
    fn restyle(&mut self, range: DocRange, attr: &InlineAttr, add: bool) -> (r: Result<
        (),
        EditError,
    >)
        requires
            old(self).fits(),
            attr_range_ok(old(self).blocks_view(), range),
        ensures
            (final(self).blocks_view(), r) == restyle_spec(old(self).blocks_view(), range, attr@, add),
            final(self).same_metadata(old(self)),
            (range.start == range.end || r is Err) ==> final(self).modified == old(self).modified,
            range.start != range.end && r is Ok ==> crate::ids::clock_reading(final(self).modified),
            final(self).fits(),
    {
        if range.is_collapsed() {
            return Ok(());
        }
        self.check_pos(range.start)?;
        self.check_pos(range.end)?;
        let ghost bv = self.blocks_view();
        let i = range.start.block_idx;
        let a = range.start.byte_offset;
        let b = range.end.byte_offset;
        proof {
            assert(bv[i as int] == self.blocks@[i as int]@);
            assert(runs_len(bv[i as int].content) <= isize::MAX);
        }
        let ghost c0 = bv[i as int].content;
        let ghost blocks0 = self.blocks@;
        split_runs_at(&mut self.blocks[i].content, a);
        proof {
            lemma_split_keeps_text(c0, a as int);
        }
        split_runs_at(&mut self.blocks[i].content, b);
        let ghost c2 = runs_split_at(runs_split_at(c0, a as int), b as int);
        proof {
            lemma_split_keeps_text(runs_split_at(c0, a as int), b as int);
        }
        restyle_runs(&mut self.blocks[i].content, a, b, attr, add);
        proof {
            lemma_restyle_keeps_text(c2, a as int, b as int, attr@, add);
        }
        normalise_runs(&mut self.blocks[i].content);
        proof {
            lemma_normalise_text(runs_restyle(c2, a as int, b as int, attr@, add));
            lemma_blocks_view_update(blocks0, i as int, self.blocks@[i as int]);
            let nb = self.blocks_view();
            assert(nb == restyle_spec(bv, range, attr@, add).0);
            assert forall|k: int| 0 <= k < nb.len() implies #[trigger] runs_len(nb[k].content)
                <= isize::MAX by {
                if k != i {
                    assert(nb[k] == bv[k]);
                }
            }
        }
        self.touch();
        Ok(())
    }

    /// Add `attr` to every run (or run fragment) covered by `range`.
    /// Range must be within a single block.
    pub fn apply_inline_attr(&mut self, range: DocRange, attr: InlineAttr) -> (r: Result<
        (),
        EditError,
    >)
        requires
            old(self).fits(),
            attr_range_ok(old(self).blocks_view(), range),
        ensures
            (final(self).blocks_view(), r) == restyle_spec(
                old(self).blocks_view(),
                range,
                attr@,
                true,
            ),
            final(self).same_metadata(old(self)),
            (range.start == range.end || r is Err) ==> final(self).modified == old(self).modified,
            range.start != range.end && r is Ok ==> crate::ids::clock_reading(final(self).modified),
            final(self).fits(),
    {
        self.restyle(range, &attr, true)
    }

    /// Remove `attr` from every run covered by `range`.
    pub fn remove_inline_attr(&mut self, range: DocRange, attr: &InlineAttr) -> (r: Result<
        (),
        EditError,
    >)
        requires
            old(self).fits(),
            attr_range_ok(old(self).blocks_view(), range),
        ensures
            (final(self).blocks_view(), r) == restyle_spec(
                old(self).blocks_view(),
                range,
                attr@,
                false,
            ),
            final(self).same_metadata(old(self)),
            (range.start == range.end || r is Err) ==> final(self).modified == old(self).modified,
            range.start != range.end && r is Ok ==> crate::ids::clock_reading(final(self).modified),
            final(self).fits(),
    {
        self.restyle(range, attr, false)
    }
}

// ─── set_block_kind ───────────────────────────────────────────────────────────

impl Document {
    /// Change the kind of block `idx`.
    pub fn set_block_kind(&mut self, idx: usize, kind: BlockKind) -> (r: Result<(), EditError>)
        ensures
            (final(self).blocks_view(), r) == set_block_kind_spec(
                old(self).blocks_view(),
                idx,
                kind@,
            ),
            final(self).same_metadata(old(self)),
            r is Err ==> final(self).modified == old(self).modified,
            r is Ok ==> crate::ids::clock_reading(final(self).modified),
    {
        self.check_block(idx)?;
        let ghost old_blocks = self.blocks@;
        self.blocks[idx].kind = kind;
        proof {
            lemma_blocks_view_update(old_blocks, idx as int, self.blocks@[idx as int]);
        }
        self.touch();
        Ok(())
    }

    /// Return the number of blocks.
    pub fn block_count(&self) -> (n: usize)
        ensures
            n == self.blocks_view().len(),
    {
        self.blocks.len()
    }

    /// Return byte length of block `idx`'s plain text.
    pub fn block_text_len(&mut self, idx: usize) -> (n: usize)
        requires
            idx < old(self).blocks_view().len(),
            old(self).fits(),
        ensures
            n == runs_len(old(self).blocks_view()[idx as int].content),
            *final(self) == *old(self),
    {
        proof {
            assert(self.blocks_view()[idx as int] == self.blocks@[idx as int]@);
            assert(runs_len(self.blocks_view()[idx as int].content) <= isize::MAX);
        }
        byte_len(&self.blocks[idx].plain_text())
    }
}

} // verus!
