//! CRDT layer — keeps the document's history in a `loro::LoroDoc` with a
//! `loro::UndoManager`.
//!
//! Storage layout inside the LoroDoc:
//!   "doc_json" : LoroText — the full document serialised as JSON
//!
//! On every checkpoint the latest JSON replaces the text of "doc_json", the
//! change is committed, and an undo checkpoint is recorded. Undo and redo
//! revert the text, which is then handed back as JSON. Turning a document
//! into JSON and back is the caller's.
//!
//! The loro document and its undo manager sit together in `LoroHistory`,
//! so that every change to them goes through `&mut`. Named over it are the
//! text of "doc_json", the text as of the last commit, whether uncommitted
//! changes are pending, and the two stacks of the undo manager, each step
//! given by the text that taking it gives back. The document has one text
//! container and one peer, so undoing a step reverts exactly that step's
//! changes (rebased over the later ones), which gives back the text of the
//! checkpoint before it.
//!
//! A commit makes a new undo step, except that loro merges it into the top
//! step when the system clock stands before the time of that step (its
//! merge interval is 0); the undo stack keeps at most `UNDO_LIMIT` steps.
//! Which of the two happens rests on the clock, so the contracts state both.

use vstd::prelude::*;

verus! {

/// The loro document, carried through opaque.
#[verifier::external_type_specification]
#[verifier::external_body]
pub struct ExLoroDoc(loro::LoroDoc);

/// A handle to a loro text container, carried through opaque.
#[verifier::external_type_specification]
#[verifier::external_body]
pub struct ExLoroText(loro::LoroText);

/// The error of most loro operations.
#[verifier::external_type_specification]
#[verifier::external_body]
pub struct ExLoroError(loro::LoroError);

/// The error of exporting a loro document.
#[verifier::external_type_specification]
#[verifier::external_body]
pub struct ExLoroEncodeError(loro::LoroEncodeError);

/// Name of the text container that holds the document's JSON.
pub const DOC_CONTAINER: &'static str = "doc_json";

/// Why a history operation failed: the step that failed and loro's error.
#[derive(Debug)]
pub enum CrdtError {
    /// Deleting the old snapshot text failed.
    DeleteOldSnapshot(loro::LoroError),
    /// Inserting the new snapshot text failed.
    InsertNewSnapshot(loro::LoroError),
    /// Recording an undo checkpoint failed.
    RecordCheckpoint(loro::LoroError),
    /// Undoing failed.
    Undo(loro::LoroError),
    /// Redoing failed.
    Redo(loro::LoroError),
    /// Exporting the snapshot failed.
    ExportSnapshot(loro::LoroEncodeError),
    /// Restoring from a snapshot failed.
    FromSnapshot(loro::LoroError),
}

// ── The loro document and its history ──────────────────────────────────────

/// How many steps loro's undo manager keeps (`UndoManager::new` sets it
/// with `set_max_undo_steps`); on a new step the oldest go first.
pub const UNDO_LIMIT: usize = 100;

/// A loro document with the undo manager attached to it. Its fields are
/// loro's handles, which change through shared references; holding them
/// here makes every change go through `&mut LoroHistory`.
#[verifier::external_body]
pub struct LoroHistory {
    doc: loro::LoroDoc,
    undo: loro::UndoManager,
}

/// The text of the "doc_json" container of a loro document.
pub uninterp spec fn doc_text(d: loro::LoroDoc) -> Seq<char>;

/// The loro document has changes that are not committed yet.
pub uninterp spec fn doc_pending(d: loro::LoroDoc) -> bool;

/// The text of the "doc_json" container of the history's document.
pub uninterp spec fn history_text(h: LoroHistory) -> Seq<char>;

/// The text of "doc_json" as of the last commit of the history's document.
pub uninterp spec fn base_text(h: LoroHistory) -> Seq<char>;

/// The history's document has changes that are not committed yet.
pub uninterp spec fn history_pending(h: LoroHistory) -> bool;

/// The undo stack, oldest step first: for each step, the text that undoing
/// it gives back.
pub uninterp spec fn undo_texts(h: LoroHistory) -> Seq<Seq<char>>;

/// The redo stack, oldest step first: for each step, the text that redoing
/// it gives back.
pub uninterp spec fn redo_texts(h: LoroHistory) -> Seq<Seq<char>>;

/// `UndoManager::undo` succeeds on this history.
pub uninterp spec fn undo_applies(h: LoroHistory) -> bool;

/// `UndoManager::redo` succeeds on this history.
pub uninterp spec fn redo_applies(h: LoroHistory) -> bool;

/// `LoroDoc::export` of a snapshot succeeds on the history's document.
pub uninterp spec fn snapshot_exportable(h: LoroHistory) -> bool;

/// `LoroDoc::from_snapshot` accepts these bytes.
pub uninterp spec fn snapshot_valid(bytes: Seq<u8>) -> bool;

/// The text of the "doc_json" container of the document that snapshot
/// bytes hold (empty when it has no such text).
pub uninterp spec fn snapshot_text(bytes: Seq<u8>) -> Seq<char>;

/// The last `UNDO_LIMIT` steps of a stack.
pub open spec fn keep_latest(steps: Seq<Seq<char>>) -> Seq<Seq<char>> {
    if steps.len() > UNDO_LIMIT {
        steps.skip(steps.len() - UNDO_LIMIT)
    } else {
        steps
    }
}

/// What a commit of pending changes does to the undo stack: it adds a
/// step that gives back `base`, the text before the changes, or it merges
/// the changes into the top step (then there is one); either way only the
/// latest `UNDO_LIMIT` steps stay.
pub open spec fn recorded(before: Seq<Seq<char>>, base: Seq<char>, after: Seq<Seq<char>>) -> bool {
    ||| after == keep_latest(before.push(base))
    ||| (before.len() > 0 && after == keep_latest(before))
}

/// The two histories hold the same text, base, pending flag and stacks.
pub open spec fn same_history(a: LoroHistory, b: LoroHistory) -> bool {
    &&& history_text(a) == history_text(b)
    &&& base_text(a) == base_text(b)
    &&& history_pending(a) == history_pending(b)
    &&& undo_texts(a) == undo_texts(b)
    &&& redo_texts(a) == redo_texts(b)
}

// ── Trusted items: the loro calls ─────────────────────────────────────────────

/// `LoroDoc::new`: a new, empty document, whose "doc_json" text is empty
/// and which has no changes.
#[verifier::external_body]
fn new_loro_doc() -> (d: loro::LoroDoc)
    ensures
        doc_text(d) == Seq::<char>::empty(),
        !doc_pending(d),
{
    loro::LoroDoc::new()
}

/// `LoroDoc::get_text`: the handle of the root text container `name`,
/// created if it is not there yet (creating a root container makes no
/// change to its text). The handle is not used to change the text.
#[verifier::external_body]
fn get_text(doc: &loro::LoroDoc, name: &str) -> (t: loro::LoroText) {
    doc.get_text(name)
}

/// `LoroDoc::commit` on a document before its undo manager attaches. It
/// is stated nothing: the document here has no pending changes, and
/// getting a container's handle made none.
#[verifier::external_body]
fn commit(doc: &loro::LoroDoc) {
    doc.commit()
}

/// `UndoManager::new`: an undo manager for `doc` with empty undo and redo
/// stacks; the document is kept as it is.
#[verifier::external_body]
fn attach_history(doc: loro::LoroDoc) -> (h: LoroHistory)
    ensures
        history_text(h) == doc_text(doc),
        history_pending(h) == doc_pending(doc),
        !doc_pending(doc) ==> base_text(h) == history_text(h),
        undo_texts(h) == Seq::<Seq<char>>::empty(),
        redo_texts(h) == Seq::<Seq<char>>::empty(),
{
    let undo = loro::UndoManager::new(&doc);
    LoroHistory { doc, undo }
}

/// `UndoManager::new` in place of the history's manager: the document
/// stays, and both stacks are empty.
#[verifier::external_body]
fn reset_history(h: &mut LoroHistory)
    ensures
        history_text(*final(h)) == history_text(*old(h)),
        base_text(*final(h)) == base_text(*old(h)),
        history_pending(*final(h)) == history_pending(*old(h)),
        undo_texts(*final(h)) == Seq::<Seq<char>>::empty(),
        redo_texts(*final(h)) == Seq::<Seq<char>>::empty(),
{
    h.undo = loro::UndoManager::new(&h.doc);
}

/// `LoroText::len_unicode` of "doc_json" (addressed by `get_text`): the
/// text's length in characters.
#[verifier::external_body]
fn text_len_unicode(h: &LoroHistory) -> (n: usize)
    ensures
        n == history_text(*h).len(),
{
    h.doc.get_text(DOC_CONTAINER).len_unicode()
}

/// `LoroText::delete` on "doc_json": delete `len` characters from character
/// `pos` on. With `len == 0` it returns `Ok` at once and changes nothing.
/// Otherwise it fails exactly when the span runs past the text (character
/// positions are always on a boundary); on success those characters are
/// gone and the change is pending; nothing is committed. Its other failures
/// (a detached document, a deleted container) cannot arise for the root
/// text of a history's document, which is never checked out. What a failed
/// call leaves is not stated.
#[verifier::external_body]
fn text_delete(h: &mut LoroHistory, pos: usize, len: usize) -> (r: Result<(), loro::LoroError>)
    ensures
        len == 0 ==> r is Ok && *final(h) == *old(h),
        len > 0 ==> (r is Ok <==> pos + len <= history_text(*old(h)).len()),
        r is Ok && len > 0 ==> {
            let t = history_text(*old(h));
            &&& history_text(*final(h)) == t.take(pos as int) + t.skip(pos + len)
            &&& history_pending(*final(h))
            &&& base_text(*final(h)) == base_text(*old(h))
            &&& undo_texts(*final(h)) == undo_texts(*old(h))
            &&& redo_texts(*final(h)) == redo_texts(*old(h))
        },
{
    h.doc.get_text(DOC_CONTAINER).delete(pos, len)
}

/// `LoroText::insert` on "doc_json": insert `s` at character position
/// `pos`. It fails exactly when `pos` is past the end of the text; on
/// success the text holds `s` there and, when `s` is not empty, the change
/// is pending; nothing is committed. Its other failures are those of
/// `text_delete`, and cannot arise here either. What a failed call leaves
/// is not stated.
#[verifier::external_body]
fn text_insert(h: &mut LoroHistory, pos: usize, s: &str) -> (r: Result<(), loro::LoroError>)
    ensures
        r is Ok <==> pos <= history_text(*old(h)).len(),
        r is Ok ==> {
            let t = history_text(*old(h));
            &&& history_text(*final(h)) == t.take(pos as int) + s@ + t.skip(pos as int)
            &&& history_pending(*final(h)) == (history_pending(*old(h)) || s@.len() > 0)
            &&& base_text(*final(h)) == base_text(*old(h))
            &&& undo_texts(*final(h)) == undo_texts(*old(h))
            &&& redo_texts(*final(h)) == redo_texts(*old(h))
        },
{
    h.doc.get_text(DOC_CONTAINER).insert(pos, s)
}

/// `LoroText::to_string` of "doc_json": the text's content.
#[verifier::external_body]
fn text_content(h: &LoroHistory) -> (s: String)
    ensures
        s@ == history_text(*h),
{
    h.doc.get_text(DOC_CONTAINER).to_string()
}

/// `LoroDoc::commit` of the history's document. The text stays, nothing is
/// pending afterwards, and the text is now the committed one. Pending
/// changes are recorded by the undo manager as a step that gives back the
/// text before them (added, or merged into the top step when the clock
/// stands before that step's time), and the redo stack is cleared; without
/// pending changes the stacks stay as they were.
#[verifier::external_body]
fn history_commit(h: &mut LoroHistory)
    ensures
        history_text(*final(h)) == history_text(*old(h)),
        base_text(*final(h)) == history_text(*old(h)),
        !history_pending(*final(h)),
        history_pending(*old(h)) ==> {
            &&& recorded(undo_texts(*old(h)), base_text(*old(h)), undo_texts(*final(h)))
            &&& redo_texts(*final(h)) == Seq::<Seq<char>>::empty()
        },
        !history_pending(*old(h)) ==> {
            &&& undo_texts(*final(h)) == undo_texts(*old(h))
            &&& redo_texts(*final(h)) == redo_texts(*old(h))
        },
{
    h.doc.commit()
}

/// `UndoManager::record_new_checkpoint`: always `Ok`. With nothing pending
/// it changes nothing: its barrier commits nothing and the checkpoint is
/// already recorded.
#[verifier::external_body]
fn record_new_checkpoint(h: &mut LoroHistory) -> (r: Result<(), loro::LoroError>)
    ensures
        r is Ok,
        !history_pending(*old(h)) ==> same_history(*final(h), *old(h)),
{
    h.undo.record_new_checkpoint()
}

/// `UndoManager::undo` with nothing pending: take the top undo step;
/// whether local operations were made. It succeeds or not by the history
/// alone (`undo_applies`). On success the text is the one the step gives
/// back, the step leaves the undo stack and, when operations were made, a
/// step giving back the text before the undo goes onto the redo stack;
/// when none were made the text did not change. With an empty undo stack
/// it changes nothing. On failure the text and the redo stack stay and
/// nothing is pending; what becomes of the undo stack is not stated (the
/// step stays, or, when it would recreate a container of an unknown type,
/// it is dropped and the steps before it are rebased over its changes).
#[verifier::external_body]
fn undo_step(h: &mut LoroHistory) -> (r: Result<bool, loro::LoroError>)
    requires
        !history_pending(*old(h)),
    ensures
        r is Ok <==> undo_applies(*old(h)),
        !history_pending(*final(h)),
        base_text(*final(h)) == history_text(*final(h)),
        r is Err ==> history_text(*final(h)) == history_text(*old(h)) && redo_texts(*final(h))
            == redo_texts(*old(h)),
        r matches Ok(made) ==> {
            let u = undo_texts(*old(h));
            let t = history_text(*old(h));
            if u.len() == 0 {
                !made && same_history(*final(h), *old(h))
            } else {
                &&& history_text(*final(h)) == u.last()
                &&& undo_texts(*final(h)) == u.drop_last()
                &&& made ==> redo_texts(*final(h)) == redo_texts(*old(h)).push(t)
                &&& !made ==> redo_texts(*final(h)) == redo_texts(*old(h)) && u.last() == t
            }
        },
{
    h.undo.undo()
}

/// `UndoManager::redo` with nothing pending: take the top redo step, as
/// `undo_step` takes an undo step, with the stacks' parts swapped
/// (`redo_applies` decides success; on failure the undo stack stays and
/// what becomes of the redo stack is not stated).
#[verifier::external_body]
fn redo_step(h: &mut LoroHistory) -> (r: Result<bool, loro::LoroError>)
    requires
        !history_pending(*old(h)),
    ensures
        r is Ok <==> redo_applies(*old(h)),
        !history_pending(*final(h)),
        base_text(*final(h)) == history_text(*final(h)),
        r is Err ==> history_text(*final(h)) == history_text(*old(h)) && undo_texts(*final(h))
            == undo_texts(*old(h)),
        r matches Ok(made) ==> {
            let u = redo_texts(*old(h));
            let t = history_text(*old(h));
            if u.len() == 0 {
                !made && same_history(*final(h), *old(h))
            } else {
                &&& history_text(*final(h)) == u.last()
                &&& redo_texts(*final(h)) == u.drop_last()
                &&& made ==> undo_texts(*final(h)) == undo_texts(*old(h)).push(t)
                &&& !made ==> undo_texts(*final(h)) == undo_texts(*old(h)) && u.last() == t
            }
        },
{
    h.undo.redo()
}

/// `UndoManager::can_undo`: the undo stack is not empty.
#[verifier::external_body]
fn history_can_undo(h: &LoroHistory) -> (b: bool)
    ensures
        b == (undo_texts(*h).len() > 0),
{
    h.undo.can_undo()
}

/// `UndoManager::can_redo`: the redo stack is not empty.
#[verifier::external_body]
fn history_can_redo(h: &LoroHistory) -> (b: bool)
    ensures
        b == (redo_texts(*h).len() > 0),
{
    h.undo.can_redo()
}

/// `LoroDoc::export` in `ExportMode::Snapshot`: the full history and state
/// as bytes, which `LoroDoc::from_snapshot` accepts and whose "doc_json"
/// text is the document's. It succeeds or not by the document alone (it
/// fails on history it cannot parse). Export commits pending changes, so
/// it is called with none pending.
#[verifier::external_body]
fn export_snapshot_bytes(h: &LoroHistory) -> (r: Result<Vec<u8>, loro::LoroEncodeError>)
    requires
        !history_pending(*h),
    ensures
        r is Ok <==> snapshot_exportable(*h),
        r matches Ok(b) ==> snapshot_valid(b@) && snapshot_text(b@) == history_text(*h),
{
    h.doc.export(loro::ExportMode::Snapshot)
}

/// `LoroDoc::from_snapshot`: the document that snapshot bytes hold, when
/// it accepts them; the import is committed, so nothing is pending.
#[verifier::external_body]
fn loro_doc_from_snapshot(bytes: &[u8]) -> (r: Result<loro::LoroDoc, loro::LoroError>)
    ensures
        r is Ok <==> snapshot_valid(bytes@),
        r matches Ok(d) ==> doc_text(d) == snapshot_text(bytes@) && !doc_pending(d),
{
    loro::LoroDoc::from_snapshot(bytes)
}

// ── The engine ────────────────────────────────────────────────────────────────

/// The document's edit history.
pub struct CrdtEngine {
    history: LoroHistory,
}

impl CrdtEngine {
    /// The JSON stored as the latest snapshot.
    pub closed spec fn stored_text(&self) -> Seq<char> {
        history_text(self.history)
    }

    /// The undo stack, oldest step first: the JSON each step gives back.
    pub closed spec fn undo_stack(&self) -> Seq<Seq<char>> {
        undo_texts(self.history)
    }

    /// The redo stack, oldest step first: the JSON each step gives back.
    pub closed spec fn redo_stack(&self) -> Seq<Seq<char>> {
        redo_texts(self.history)
    }

    /// There is a step to undo.
    pub open spec fn undo_available(&self) -> bool {
        self.undo_stack().len() > 0
    }

    /// There is a step to redo.
    pub open spec fn redo_available(&self) -> bool {
        self.redo_stack().len() > 0
    }

    /// Loro can take the top undo step of this history.
    pub closed spec fn undo_succeeds(&self) -> bool {
        undo_applies(self.history)
    }

    /// Loro can take the top redo step of this history.
    pub closed spec fn redo_succeeds(&self) -> bool {
        redo_applies(self.history)
    }

    /// Loro can export this history as a snapshot.
    pub closed spec fn exportable(&self) -> bool {
        snapshot_exportable(self.history)
    }

    /// Every change is committed, as every operation here leaves it.
    pub closed spec fn wf(&self) -> bool {
        &&& !history_pending(self.history)
        &&& base_text(self.history) == history_text(self.history)
    }

    /// What a checkpoint of `json` does, from `self` to `next`: `json` is
    /// stored; when the text changes (the old or the new text is not empty)
    /// a step giving back the old text is recorded and the redo stack is
    /// cleared, and otherwise the stacks stay.
    pub open spec fn checkpoint_to(&self, json: Seq<char>, next: CrdtEngine) -> bool {
        &&& next.stored_text() == json
        &&& if self.stored_text().len() > 0 || json.len() > 0 {
            &&& recorded(self.undo_stack(), self.stored_text(), next.undo_stack())
            &&& next.redo_stack() == Seq::<Seq<char>>::empty()
        } else {
            &&& next.undo_stack() == self.undo_stack()
            &&& next.redo_stack() == self.redo_stack()
        }
    }

    /// What a successful undo does, from `self` (with a step to undo) to
    /// `next`: the JSON of the top undo step is stored and handed back, the
    /// step leaves the undo stack, and a step giving back the JSON stored
    /// before goes onto the redo stack, unless the JSON did not change.
    pub open spec fn undo_to(&self, next: CrdtEngine, json: Seq<char>) -> bool {
        &&& json == self.undo_stack().last()
        &&& next.stored_text() == json
        &&& next.undo_stack() == self.undo_stack().drop_last()
        &&& {
            ||| next.redo_stack() == self.redo_stack().push(self.stored_text())
            ||| (next.redo_stack() == self.redo_stack() && json == self.stored_text())
        }
    }

    /// What a successful redo does, from `self` (with a step to redo) to
    /// `next`, as `undo_to` with the stacks' parts swapped.
    pub open spec fn redo_to(&self, next: CrdtEngine, json: Seq<char>) -> bool {
        &&& json == self.redo_stack().last()
        &&& next.stored_text() == json
        &&& next.redo_stack() == self.redo_stack().drop_last()
        &&& {
            ||| next.undo_stack() == self.undo_stack().push(self.stored_text())
            ||| (next.undo_stack() == self.undo_stack() && json == self.stored_text())
        }
    }

    /// Create a fresh engine (empty document, empty history).
    pub fn new() -> (e: Self)
        ensures
            e.wf(),
            e.stored_text() == Seq::<char>::empty(),
            e.undo_stack() == Seq::<Seq<char>>::empty(),
            e.redo_stack() == Seq::<Seq<char>>::empty(),
    {
        let doc = new_loro_doc();
        // Prime the container so it exists before the undo manager attaches.
        let _ = get_text(&doc, DOC_CONTAINER);
        commit(&doc);
        CrdtEngine { history: attach_history(doc) }
    }

    /// Store `json`, the current document as JSON, as the latest snapshot
    /// and record an undo checkpoint. Call this *before* every user-visible
    /// edit. It always succeeds on a well-formed engine.
    pub fn checkpoint(&mut self, json: &str) -> (r: Result<(), CrdtError>)
        requires
            old(self).wf(),
        ensures
            r is Ok,
            final(self).wf(),
            old(self).checkpoint_to(json@, *final(self)),
    {
        let old_len = text_len_unicode(&self.history);
        if old_len > 0 {
            match text_delete(&mut self.history, 0, old_len) {
                Ok(_) => {},
                Err(e) => return Err(CrdtError::DeleteOldSnapshot(e)),
            }
        }
        match text_insert(&mut self.history, 0, json) {
            Ok(_) => {},
            Err(e) => return Err(CrdtError::InsertNewSnapshot(e)),
        }
        proof {
            let t = history_text(self.history);
            assert(t =~= json@);
        }
        history_commit(&mut self.history);
        match record_new_checkpoint(&mut self.history) {
            Ok(_) => Ok(()),
            Err(e) => Err(CrdtError::RecordCheckpoint(e)),
        }
    }

    /// Undo the last checkpoint. Returns the restored document's JSON (the
    /// text then stored), or `None`, changing nothing, if there is nothing
    /// to undo. It fails only where loro cannot take the step, and then the
    /// stored JSON stays.
    pub fn undo(&mut self) -> (r: Result<Option<String>, CrdtError>)
        requires
            old(self).wf(),
        ensures
            final(self).wf(),
            !old(self).undo_available() ==> r == Ok::<Option<String>, CrdtError>(None)
                && *final(self) == *old(self),
            old(self).undo_available() ==> (r is Ok <==> old(self).undo_succeeds()),
            old(self).undo_available() && r is Ok ==> (r matches Ok(Some(j))
                && old(self).undo_to(*final(self), j@)),
            r matches Err(e) ==> e is Undo && final(self).stored_text() == old(self).stored_text(),
    {
        if !history_can_undo(&self.history) {
            return Ok(None);
        }
        match undo_step(&mut self.history) {
            Ok(_) => Ok(Some(self.read_json())),
            Err(e) => Err(CrdtError::Undo(e)),
        }
    }

    /// Redo the last undone checkpoint. Returns the restored document's
    /// JSON (the text then stored), or `None`, changing nothing, if the redo
    /// stack is empty. It fails only where loro cannot take the step, and
    /// then the stored JSON stays.
    pub fn redo(&mut self) -> (r: Result<Option<String>, CrdtError>)
        requires
            old(self).wf(),
        ensures
            final(self).wf(),
            !old(self).redo_available() ==> r == Ok::<Option<String>, CrdtError>(None)
                && *final(self) == *old(self),
            old(self).redo_available() ==> (r is Ok <==> old(self).redo_succeeds()),
            old(self).redo_available() && r is Ok ==> (r matches Ok(Some(j))
                && old(self).redo_to(*final(self), j@)),
            r matches Err(e) ==> e is Redo && final(self).stored_text() == old(self).stored_text(),
    {
        if !history_can_redo(&self.history) {
            return Ok(None);
        }
        match redo_step(&mut self.history) {
            Ok(_) => Ok(Some(self.read_json())),
            Err(e) => Err(CrdtError::Redo(e)),
        }
    }

    /// Whether there is a step to undo.
    pub fn can_undo(&self) -> (b: bool)
        ensures
            b == self.undo_available(),
    {
        history_can_undo(&self.history)
    }

    /// Whether there is a step to redo.
    pub fn can_redo(&self) -> (b: bool)
        ensures
            b == self.redo_available(),
    {
        history_can_redo(&self.history)
    }

    /// Export the full loro snapshot as raw bytes (stored as content.loro
    /// inside the .folio bundle). It fails only where loro cannot export the
    /// history; the bytes are accepted by `import_snapshot` and hold the
    /// stored JSON.
    pub fn export_snapshot(&self) -> (r: Result<Vec<u8>, CrdtError>)
        requires
            self.wf(),
        ensures
            r is Ok <==> self.exportable(),
            r matches Ok(b) ==> snapshot_valid(b@) && snapshot_text(b@) == self.stored_text(),
            r matches Err(e) ==> e is ExportSnapshot,
    {
        match export_snapshot_bytes(&self.history) {
            Ok(bytes) => Ok(bytes),
            Err(e) => Err(CrdtError::ExportSnapshot(e)),
        }
    }

    /// Restore an engine from raw snapshot bytes (content.loro), with the
    /// JSON of the document it holds. It fails exactly when loro rejects the
    /// bytes. The engine's history is empty.
    pub fn import_snapshot(bytes: &[u8]) -> (r: Result<(CrdtEngine, String), CrdtError>)
        ensures
            r is Ok <==> snapshot_valid(bytes@),
            r matches Ok((e, j)) ==> {
                &&& e.wf()
                &&& e.stored_text() == snapshot_text(bytes@)
                &&& j@ == e.stored_text()
                &&& e.undo_stack() == Seq::<Seq<char>>::empty()
                &&& e.redo_stack() == Seq::<Seq<char>>::empty()
            },
            r matches Err(e) ==> e is FromSnapshot,
    {
        let doc = match loro_doc_from_snapshot(bytes) {
            Ok(d) => d,
            Err(e) => return Err(CrdtError::FromSnapshot(e)),
        };
        let engine = CrdtEngine { history: attach_history(doc) };
        let json = engine.read_json();
        Ok((engine, json))
    }

    /// Drop all undo/redo history. Call after loading a file so the user
    /// cannot undo back to before the load. The stored JSON stays.
    pub fn clear_history(&mut self)
        ensures
            final(self).stored_text() == old(self).stored_text(),
            final(self).wf() == old(self).wf(),
            final(self).undo_stack() == Seq::<Seq<char>>::empty(),
            final(self).redo_stack() == Seq::<Seq<char>>::empty(),
    {
        reset_history(&mut self.history);
    }

    /// The JSON of the latest snapshot.
    pub fn read_json(&self) -> (s: String)
        ensures
            s@ == self.stored_text(),
    {
        text_content(&self.history)
    }
}

impl Default for CrdtEngine {
    fn default() -> (e: Self)
        ensures
            e.wf(),
            e.stored_text() == Seq::<char>::empty(),
            e.undo_stack() == Seq::<Seq<char>>::empty(),
            e.redo_stack() == Seq::<Seq<char>>::empty(),
    {
        Self::new()
    }
}

// ── Laws of the history ──────────────────────────────────────────────────────

/// Undo right after a checkpoint that added a step (the clock did not make
/// loro merge it) gives back the JSON stored before that checkpoint; when
/// the checkpoint changed the JSON, there is then a step to redo, and
/// redoing it brings the checkpoint's JSON back, with the undo stack as the
/// checkpoint left it and nothing left to redo.
pub proof fn law_undo_after_checkpoint(
    before: CrdtEngine,
    json: Seq<char>,
    after: CrdtEngine,
    undone: CrdtEngine,
    restored: Seq<char>,
    redone: CrdtEngine,
    again: Seq<char>,
)
    requires
        before.checkpoint_to(json, after),
        before.undo_stack().len() < UNDO_LIMIT,
        after.undo_stack() == before.undo_stack().push(before.stored_text()),
        after.undo_to(undone, restored),
        before.stored_text() != json ==> undone.redo_to(redone, again),
    ensures
        restored == before.stored_text(),
        undone.stored_text() == before.stored_text(),
        undone.undo_stack() == before.undo_stack(),
        before.stored_text() != json ==> {
            &&& undone.redo_available()
            &&& again == json
            &&& redone.stored_text() == json
            &&& redone.undo_stack() == after.undo_stack()
            &&& redone.undo_available()
            &&& !redone.redo_available()
        },
{
}

} // verus!
