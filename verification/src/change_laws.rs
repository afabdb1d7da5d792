//! What holds of the change queue and of the applier, whatever the queue,
//! the record store and the outcomes look like.

use vstd::prelude::*;
use crate::applier::{failure_of, files_after, settled_change, step_of, OutcomeView};
use crate::changes::{
    enqueued, one_pending_each, staged, superseded, without_cleared, without_superseded,
    ChangeStatus, PendingChangeView,
};
use crate::records::{lemma_with_id, live, FileRecordView, FileStatus};

verus! {

/// What is left after superseded changes were removed holds no change that
/// the newcomer supersedes, and every change that it holds was in the queue
/// before, in the same order.
pub proof fn lemma_without_superseded(
    q: Seq<PendingChangeView>,
    file_id: Seq<char>,
    kind: crate::changes::ChangeKind,
)
    ensures
        without_superseded(q, file_id, kind).len() <= q.len(),
        forall|k: int|
            0 <= k < without_superseded(q, file_id, kind).len() ==> !superseded(
                #[trigger] without_superseded(q, file_id, kind)[k],
                file_id,
                kind,
            ),
        forall|a: int, b: int|
            0 <= a < b < without_superseded(q, file_id, kind).len() ==> exists|i: int, j: int|
                0 <= i < j < q.len() && q[i] == #[trigger] without_superseded(q, file_id, kind)[a]
                    && q[j] == #[trigger] without_superseded(q, file_id, kind)[b],
        forall|a: int|
            0 <= a < without_superseded(q, file_id, kind).len() ==> exists|i: int|
                0 <= i < q.len() && q[i] == #[trigger] without_superseded(q, file_id, kind)[a],
        forall|i: int|
            0 <= i < q.len() && !superseded(#[trigger] q[i], file_id, kind) ==> without_superseded(
                q,
                file_id,
                kind,
            ).contains(q[i]),
    decreases q.len(),
{
    let out = without_superseded(q, file_id, kind);
    if q.len() > 0 {
        let front = q.drop_last();
        let fout = without_superseded(front, file_id, kind);
        lemma_without_superseded(front, file_id, kind);
        assert(forall|i: int| 0 <= i < front.len() ==> front[i] == q[i]);
        assert forall|a: int| 0 <= a < out.len() implies exists|i: int|
            0 <= i < q.len() && q[i] == #[trigger] out[a] by {
            if a < fout.len() {
                assert(out[a] == fout[a]);
                let i = choose|i: int| 0 <= i < front.len() && front[i] == fout[a];
                assert(q[i] == out[a]);
            } else {
                assert(q[q.len() - 1] == out[a]);
            }
        }
        assert forall|a: int, b: int| 0 <= a < b < out.len() implies exists|i: int, j: int|
            0 <= i < j < q.len() && q[i] == #[trigger] out[a] && q[j] == #[trigger] out[b] by {
            if b < fout.len() {
                assert(out[a] == fout[a] && out[b] == fout[b]);
                let (i, j) = choose|i: int, j: int|
                    0 <= i < j < front.len() && front[i] == fout[a] && front[j] == fout[b];
                assert(q[i] == out[a] && q[j] == out[b]);
            } else {
                assert(out[a] == fout[a]);
                let i = choose|i: int| 0 <= i < front.len() && front[i] == fout[a];
                assert(q[i] == out[a] && q[q.len() - 1] == out[b]);
            }
        }
        assert forall|i: int|
            0 <= i < q.len() && !superseded(#[trigger] q[i], file_id, kind) implies out.contains(
            q[i],
        ) by {
            if i < front.len() {
                assert(fout.contains(front[i]));
                let k = choose|k: int| 0 <= k < fout.len() && fout[k] == front[i];
                assert(out[k] == q[i]);
            } else {
                assert(out[out.len() - 1] == q[i]);
            }
        }
    }
}

/// Supersession. After a change has been enqueued it is the only pending
/// change of its kind for its file: it sits at the end of the queue, and no
/// other entry is pending with the same kind and file.
pub proof fn law_enqueue_supersedes(q: Seq<PendingChangeView>, c: PendingChangeView)
    ensures
        ({
            let after = enqueued(q, c);
            &&& after.len() >= 1
            &&& after.last() == staged(c)
            &&& forall|k: int|
                0 <= k < after.len() - 1 ==> !superseded(#[trigger] after[k], c.file_id, c.kind)
        }),
{
    lemma_without_superseded(q, c.file_id, c.kind);
    let kept = without_superseded(q, c.file_id, c.kind);
    let after = enqueued(q, c);
    assert forall|k: int| 0 <= k < after.len() - 1 implies !superseded(
        #[trigger] after[k],
        c.file_id,
        c.kind,
    ) by {
        assert(after[k] == kept[k]);
    }
}

/// Supersession, twice over. Enqueueing two changes of one kind for one file
/// leaves exactly one pending change of that kind for that file: the second.
pub proof fn law_second_enqueue_wins(
    q: Seq<PendingChangeView>,
    first: PendingChangeView,
    second: PendingChangeView,
)
    requires
        first.file_id == second.file_id,
        first.kind == second.kind,
    ensures
        ({
            let after = enqueued(enqueued(q, first), second);
            &&& after.last() == staged(second)
            &&& forall|k: int|
                0 <= k < after.len() && superseded(#[trigger] after[k], second.file_id, second.kind)
                    ==> k == after.len() - 1
        }),
{
    law_enqueue_supersedes(enqueued(q, first), second);
}

/// Enqueueing keeps the queue free of rival pending changes: where no two
/// pending changes were of the same kind for the same file before, none are
/// afterwards.
pub proof fn law_enqueue_keeps_one_pending_each(q: Seq<PendingChangeView>, c: PendingChangeView)
    requires
        one_pending_each(q),
    ensures
        one_pending_each(enqueued(q, c)),
{
    lemma_without_superseded(q, c.file_id, c.kind);
    let kept = without_superseded(q, c.file_id, c.kind);
    let after = enqueued(q, c);
    assert forall|i: int, j: int|
        0 <= i < j < after.len() && after[i].status == ChangeStatus::Pending implies !superseded(
        after[j],
        after[i].file_id,
        after[i].kind,
    ) by {
        assert(after[i] == kept[i]);
        if j < kept.len() {
            assert(after[j] == kept[j]);
            let (x, y) = choose|x: int, y: int|
                0 <= x < y < q.len() && q[x] == kept[i] && q[y] == kept[j];
            assert(!superseded(q[y], q[x].file_id, q[x].kind));
        } else {
            assert(!superseded(kept[i], c.file_id, c.kind));
        }
    }
}

/// Enqueueing removes nothing but pending changes: a change that was applied
/// or that failed stays in the queue.
pub proof fn law_enqueue_keeps_history(q: Seq<PendingChangeView>, c: PendingChangeView, i: int)
    requires
        0 <= i < q.len(),
        q[i].status != ChangeStatus::Pending,
    ensures
        enqueued(q, c).contains(q[i]),
{
    lemma_without_superseded(q, c.file_id, c.kind);
    let kept = without_superseded(q, c.file_id, c.kind);
    assert(kept.contains(q[i]));
    let k = choose|k: int| 0 <= k < kept.len() && kept[k] == q[i];
    assert(enqueued(q, c)[k] == q[i]);
}

/// An explicit clear removes nothing but pending changes: a change that was
/// applied or that failed stays in the queue, whatever identifiers are
/// listed.
pub proof fn law_clear_keeps_history(q: Seq<PendingChangeView>, ids: Seq<Seq<char>>, i: int)
    requires
        0 <= i < q.len(),
        q[i].status != ChangeStatus::Pending,
    ensures
        without_cleared(q, ids).contains(q[i]),
    decreases q.len(),
{
    let front = q.drop_last();
    let kept = without_cleared(q, ids);
    if i < q.len() - 1 {
        law_clear_keeps_history(front, ids, i);
        let fkept = without_cleared(front, ids);
        let k = choose|k: int| 0 <= k < fkept.len() && fkept[k] == front[i];
        assert(kept[k] == q[i]);
    } else {
        assert(kept[kept.len() - 1] == q[i]);
    }
}

/// Settling keeps the queue free of rival pending changes: a change only
/// ever leaves the pending state.
pub proof fn law_settling_keeps_one_pending_each(
    q: Seq<PendingChangeView>,
    idx: int,
    failure: Option<Seq<char>>,
    now: i64,
)
    requires
        0 <= idx < q.len(),
        one_pending_each(q),
    ensures
        one_pending_each(q.update(idx, settled_change(q[idx], failure, now))),
{
    let after = q.update(idx, settled_change(q[idx], failure, now));
    assert forall|i: int, j: int|
        0 <= i < j < after.len() && after[i].status == ChangeStatus::Pending implies !superseded(
        after[j],
        after[i].file_id,
        after[i].kind,
    ) by {
        assert(after[i] == q[i]);
        if j != idx {
            assert(after[j] == q[j]);
        }
    }
}

/// Partial-failure isolation, in the queue. Settling one change rewrites
/// that change alone; it ends `applied` exactly when it did not fail, and
/// `error` with the failure's message otherwise.
pub proof fn law_settling_is_local(
    q: Seq<PendingChangeView>,
    idx: int,
    failure: Option<Seq<char>>,
    now: i64,
)
    requires
        0 <= idx < q.len(),
    ensures
        ({
            let after = q.update(idx, settled_change(q[idx], failure, now));
            &&& after.len() == q.len()
            &&& forall|k: int| 0 <= k < q.len() && k != idx ==> #[trigger] after[k] == q[k]
            &&& after[idx].id == q[idx].id
            &&& after[idx].status == if failure is None {
                ChangeStatus::Applied
            } else {
                ChangeStatus::Error
            }
            &&& failure is None ==> after[idx].applied_at == Some(now) && after[idx].error is None
            &&& failure is Some ==> after[idx].error == failure
        }),
{
}

/// Partial-failure isolation, in the record store. Settling a change touches
/// at most the record of the file that the change names: every other record
/// is left as it was, no record is added or removed, and no identifier
/// changes. A retired record stays retired.
pub proof fn law_change_touches_one_record(
    c: PendingChangeView,
    files: Seq<FileRecordView>,
    outcome: OutcomeView,
    now: i64,
)
    ensures
        ({
            let after = files_after(c, files, outcome, now);
            &&& after.len() == files.len()
            &&& forall|k: int|
                0 <= k < files.len() ==> {
                    &&& (#[trigger] after[k]).id == files[k].id
                    &&& files[k].id != c.file_id ==> after[k] == files[k]
                    &&& files[k].status == FileStatus::Inactive ==> after[k].status
                        == FileStatus::Inactive
                }
        }),
{
    lemma_with_id(files, c.file_id);
}

/// A failed change leaves the catalog usable: a rename or a metadata edit
/// that failed changes no record at all, and a removal that failed leaves
/// the record live if it was live.
pub proof fn law_failure_is_recoverable(
    c: PendingChangeView,
    files: Seq<FileRecordView>,
    outcome: OutcomeView,
    now: i64,
)
    requires
        failure_of(c, files, outcome) is Some,
    ensures
        ({
            let after = files_after(c, files, outcome, now);
            &&& !(step_of(c, files) is RemoveFile) ==> after == files
            &&& forall|k: int|
                0 <= k < files.len() && live(files[k]) ==> live(#[trigger] after[k])
                    && after[k].path == files[k].path
        }),
{
    lemma_with_id(files, c.file_id);
    let after = files_after(c, files, outcome, now);
    if !(step_of(c, files) is RemoveFile) {
        assert(after =~= files);
    }
}

} // verus!
