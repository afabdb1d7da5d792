//! The pending change queue: staged mutations, kept apart from their
//! execution.
//!
//! A change is staged with [`ChangeQueue::enqueue`], which supersedes any
//! pending change of the same kind for the same file. Execution is driven
//! from outside, one change at a time: [`ChangeQueue::begin_batch`] selects
//! the changes, [`ChangeQueue::plan`] says what has to happen on disk for the
//! current one, and [`ChangeQueue::conclude`] records how that went, in the
//! queue and in the record store. One change's failure touches nothing but
//! that change and the file it is about.

use vstd::prelude::*;
use crate::records::{copy_opt, opt_view};

verus! {

/// What a staged change does.
#[derive(Clone, Copy, Debug, PartialEq, Eq, Structural)]
pub enum ChangeKind {
    Rename,
    Delete,
    MetadataEdit,
    /// A kind that was stored with the change and that the applier does not
    /// know. Such a change fails on its own when its turn comes; the rest
    /// of the queue is not affected.
    Unsupported,
}

/// Where a staged change stands.
#[derive(Clone, Copy, Debug, PartialEq, Eq, Structural)]
pub enum ChangeStatus {
    Pending,
    Applied,
    Error,
}

/// One staged mutation.
#[derive(Debug)]
pub struct PendingChange {
    pub id: String,
    pub file_id: String,
    pub kind: ChangeKind,
    pub from_path: Option<String>,
    pub to_path: Option<String>,
    pub payload: Option<String>,
    pub status: ChangeStatus,
    pub created_at: i64,
    pub applied_at: Option<i64>,
    pub error: Option<String>,
}

/// Mathematical value of a [`PendingChange`].
pub struct PendingChangeView {
    pub id: Seq<char>,
    pub file_id: Seq<char>,
    pub kind: ChangeKind,
    pub from_path: Option<Seq<char>>,
    pub to_path: Option<Seq<char>>,
    pub payload: Option<Seq<char>>,
    pub status: ChangeStatus,
    pub created_at: i64,
    pub applied_at: Option<i64>,
    pub error: Option<Seq<char>>,
}

impl View for PendingChange {
    type V = PendingChangeView;

    open spec fn view(&self) -> PendingChangeView {
        PendingChangeView {
            id: self.id@,
            file_id: self.file_id@,
            kind: self.kind,
            from_path: opt_view(self.from_path),
            to_path: opt_view(self.to_path),
            payload: opt_view(self.payload),
            status: self.status,
            created_at: self.created_at,
            applied_at: self.applied_at,
            error: opt_view(self.error),
        }
    }
}

impl PendingChange {
    /// An independent copy with the same value.
    pub fn duplicate(&self) -> (c: PendingChange)
        ensures
            c@ == self@,
    {
        PendingChange {
            id: self.id.clone(),
            file_id: self.file_id.clone(),
            kind: self.kind,
            from_path: copy_opt(&self.from_path),
            to_path: copy_opt(&self.to_path),
            payload: copy_opt(&self.payload),
            status: self.status,
            created_at: self.created_at,
            applied_at: self.applied_at,
            error: copy_opt(&self.error),
        }
    }

    /// Whether the change still waits to be applied.
    pub fn is_pending(&self) -> (b: bool)
        ensures
            b == (self@.status == ChangeStatus::Pending),
    {
        match self.status {
            ChangeStatus::Pending => true,
            _ => false,
        }
    }

    /// Whether the change is of the given kind.
    pub fn has_kind(&self, kind: ChangeKind) -> (b: bool)
        ensures
            b == (self@.kind == kind),
    {
        match (self.kind, kind) {
            (ChangeKind::Rename, ChangeKind::Rename) => true,
            (ChangeKind::Delete, ChangeKind::Delete) => true,
            (ChangeKind::MetadataEdit, ChangeKind::MetadataEdit) => true,
            (ChangeKind::Unsupported, ChangeKind::Unsupported) => true,
            _ => false,
        }
    }
}

/// Views of the rows of a change table.
pub open spec fn change_views(v: Seq<PendingChange>) -> Seq<PendingChangeView> {
    Seq::new(v.len(), |i: int| v[i]@)
}

/// Whether a new change for `file_id` of kind `kind` supersedes `c`.
pub open spec fn superseded(c: PendingChangeView, file_id: Seq<char>, kind: ChangeKind) -> bool {
    c.status == ChangeStatus::Pending && c.kind == kind && c.file_id == file_id
}

/// The queue without the changes that a new change for `file_id` of kind
/// `kind` supersedes. The others keep their order.
pub open spec fn without_superseded(
    q: Seq<PendingChangeView>,
    file_id: Seq<char>,
    kind: ChangeKind,
) -> Seq<PendingChangeView>
    decreases q.len(),
{
    if q.len() == 0 {
        Seq::empty()
    } else {
        let front = without_superseded(q.drop_last(), file_id, kind);
        if superseded(q.last(), file_id, kind) {
            front
        } else {
            front.push(q.last())
        }
    }
}

/// A change as it enters the queue: pending, never applied, without error.
pub open spec fn staged(c: PendingChangeView) -> PendingChangeView {
    PendingChangeView { status: ChangeStatus::Pending, applied_at: None, error: None, ..c }
}

/// The queue after `c` has been enqueued.
pub open spec fn enqueued(q: Seq<PendingChangeView>, c: PendingChangeView) -> Seq<
    PendingChangeView,
> {
    without_superseded(q, c.file_id, c.kind).push(staged(c))
}

/// Whether an explicit clear removes `c`: it is pending and, unless the list
/// of identifiers is empty, its identifier is listed.
pub open spec fn cleared(c: PendingChangeView, ids: Seq<Seq<char>>) -> bool {
    c.status == ChangeStatus::Pending && (ids.len() == 0 || ids.contains(c.id))
}

/// The queue after an explicit clear.
pub open spec fn without_cleared(q: Seq<PendingChangeView>, ids: Seq<Seq<char>>) -> Seq<
    PendingChangeView,
>
    decreases q.len(),
{
    if q.len() == 0 {
        Seq::empty()
    } else {
        let front = without_cleared(q.drop_last(), ids);
        if cleared(q.last(), ids) {
            front
        } else {
            front.push(q.last())
        }
    }
}

/// No two pending changes are of the same kind for the same file.
pub open spec fn one_pending_each(q: Seq<PendingChangeView>) -> bool {
    forall|i: int, j: int|
        0 <= i < j < q.len() && q[i].status == ChangeStatus::Pending ==> !superseded(
            q[j],
            q[i].file_id,
            q[i].kind,
        )
}

/// The staged changes, in the order in which they entered.
#[derive(Debug)]
pub struct ChangeQueue {
    pub changes: Vec<PendingChange>,
}

impl View for ChangeQueue {
    type V = Seq<PendingChangeView>;

    open spec fn view(&self) -> Seq<PendingChangeView> {
        change_views(self.changes@)
    }
}

impl ChangeQueue {
    /// An empty queue.
    pub fn new() -> (q: ChangeQueue)
        ensures
            q@.len() == 0,
    {
        ChangeQueue { changes: Vec::new() }
    }

    /// Stages `change`. Every pending change of the same kind for the same
    /// file is removed first; the new change enters at the end, pending,
    /// whatever status it was handed in with.
    pub fn enqueue(&mut self, change: PendingChange)
        ensures
            final(self)@ == enqueued(old(self)@, change@),
    {
        let mut kept: Vec<PendingChange> = Vec::new();
        let mut i: usize = 0;
        assert(self@.subrange(0, 0) =~= Seq::empty());
        assert(change_views(kept@) =~= Seq::empty());
        while i < self.changes.len()
            invariant
                i <= self.changes.len(),
                change_views(kept@) == without_superseded(
                    self@.subrange(0, i as int),
                    change@.file_id,
                    change@.kind,
                ),
            decreases self.changes.len() - i,
        {
            let c = &self.changes[i];
            let ghost prefix = self@.subrange(0, i + 1);
            assert(prefix.drop_last() == self@.subrange(0, i as int));
            assert(prefix.last() == c@);
            let gone = c.is_pending() && c.has_kind(change.kind) && crate::text::same_text(
                c.file_id.as_str(),
                change.file_id.as_str(),
            );
            if !gone {
                let ghost before = change_views(kept@);
                kept.push(c.duplicate());
                assert(change_views(kept@) =~= before.push(c@));
            }
            i += 1;
        }
        assert(self@.subrange(0, i as int) == self@);
        let mut fresh = change;
        fresh.status = ChangeStatus::Pending;
        fresh.applied_at = None;
        fresh.error = None;
        let ghost before = change_views(kept@);
        kept.push(fresh);
        assert(change_views(kept@) =~= before.push(staged(change@)));
        self.changes = kept;
    }

    /// Removes pending changes on request: all of them where `ids` is empty,
    /// otherwise those whose identifier is listed. Changes that were applied
    /// or that failed are never removed. Returns how many were removed.
    pub fn clear_pending(&mut self, ids: &Vec<String>) -> (removed: usize)
        ensures
            final(self)@ == without_cleared(old(self)@, crate::records::texts(ids@)),
            removed == old(self)@.len() - final(self)@.len(),
    {
        let mut kept: Vec<PendingChange> = Vec::new();
        let mut removed: usize = 0;
        let mut i: usize = 0;
        assert(self@.subrange(0, 0) =~= Seq::empty());
        assert(change_views(kept@) =~= Seq::empty());
        while i < self.changes.len()
            invariant
                i <= self.changes.len(),
                removed + kept.len() == i,
                change_views(kept@) == without_cleared(
                    self@.subrange(0, i as int),
                    crate::records::texts(ids@),
                ),
            decreases self.changes.len() - i,
        {
            let c = &self.changes[i];
            let ghost prefix = self@.subrange(0, i + 1);
            assert(prefix.drop_last() == self@.subrange(0, i as int));
            assert(prefix.last() == c@);
            let listed = ids.len() == 0 || crate::scanner::holds_text(ids, c.id.as_str());
            if c.is_pending() && listed {
                removed += 1;
            } else {
                let ghost before = change_views(kept@);
                kept.push(c.duplicate());
                assert(change_views(kept@) =~= before.push(c@));
            }
            i += 1;
        }
        assert(self@.subrange(0, i as int) == self@);
        self.changes = kept;
        removed
    }
}

} // verus!
