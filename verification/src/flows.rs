//! Flows that stage changes for several files at once: metadata edits for
//! the EPUB files of an item, removals for the surplus copies of a
//! duplicate group, renames for the entries of an organize plan.

use vstd::prelude::*;
use crate::changes::{enqueued, ChangeKind, ChangeQueue, PendingChangeView};
use crate::organizer::rename_of;
use crate::planner::{plan_views, OrganizeEntryView, OrganizePlan, PlanAction};
use crate::records::{copy_opt, opt_view, texts, FileRecordView, FileStatus, Library};
use crate::stamps::{drafted, Stamp};
use crate::text::{lowercase, to_lowercase};

verus! {

/// The field-level rewrites of a metadata edit.
#[derive(Debug)]
pub struct MetadataEdit {
    pub title: Option<String>,
    pub author: Option<String>,
    pub isbn: Option<String>,
    pub description: Option<String>,
}

/// Mathematical value of a [`MetadataEdit`].
pub struct EditView {
    pub title: Option<Seq<char>>,
    pub author: Option<Seq<char>>,
    pub isbn: Option<Seq<char>>,
    pub description: Option<Seq<char>>,
}

impl View for MetadataEdit {
    type V = EditView;

    open spec fn view(&self) -> EditView {
        EditView {
            title: opt_view(self.title),
            author: opt_view(self.author),
            isbn: opt_view(self.isbn),
            description: opt_view(self.description),
        }
    }
}

impl MetadataEdit {
    /// Whether the edit rewrites anything at all.
    pub fn has_changes(&self) -> (b: bool)
        ensures
            b == (self.title is Some || self.author is Some || self.isbn is Some
                || self.description is Some),
    {
        self.title.is_some() || self.author.is_some() || self.isbn.is_some()
            || self.description.is_some()
    }
}

/// Whether a record is an active EPUB file of the item `item_id`.
pub open spec fn is_editable(r: FileRecordView, item_id: Seq<char>) -> bool {
    &&& r.item_id == item_id
    &&& r.status == FileStatus::Active
    &&& (lowercase(r.extension) == "epub"@ || lowercase(r.extension) == ".epub"@)
}

/// Whether a record is a surplus copy in a duplicate group: active, with
/// the group's fingerprint, and not the one to keep.
pub open spec fn is_surplus(r: FileRecordView, fingerprint: Seq<char>, keep: Seq<char>) -> bool {
    r.status == FileStatus::Active && r.fingerprint == Some(fingerprint) && r.id != keep
}

/// The positions among the first `n` records that satisfy `wanted`, in
/// order.
pub open spec fn positions_where(
    files: Seq<FileRecordView>,
    wanted: spec_fn(FileRecordView) -> bool,
    n: int,
) -> Seq<int>
    decreases n,
{
    if n <= 0 {
        Seq::empty()
    } else {
        let front = positions_where(files, wanted, n - 1);
        if wanted(files[n - 1]) {
            front.push(n - 1)
        } else {
            front
        }
    }
}

/// Positions, as mathematical integers.
pub open spec fn as_ints(v: Seq<usize>) -> Seq<int> {
    Seq::new(v.len(), |i: int| v[i] as int)
}

impl Library {
    /// Positions of the active EPUB files of the item `item_id`.
    pub fn editable_files(&self, item_id: &str) -> (found: Vec<usize>)
        ensures
            as_ints(found@) == positions_where(
                self@.files,
                |r: FileRecordView| is_editable(r, item_id@),
                self@.files.len() as int,
            ),
            forall|k: int| 0 <= k < found@.len() ==> (#[trigger] found@[k]) < self@.files.len(),
    {
        let ghost wanted = |r: FileRecordView| is_editable(r, item_id@);
        let mut found: Vec<usize> = Vec::new();
        let mut i: usize = 0;
        assert(as_ints(found@) =~= Seq::<int>::empty());
        while i < self.files.len()
            invariant
                i <= self.files.len(),
                wanted == (|r: FileRecordView| is_editable(r, item_id@)),
                as_ints(found@) == positions_where(self@.files, wanted, i as int),
                forall|k: int| 0 <= k < found@.len() ==> (#[trigger] found@[k]) < i,
            decreases self.files.len() - i,
        {
            let rec = &self.files[i];
            assert(self@.files[i as int] == rec@);
            let low = to_lowercase(rec.extension.as_str());
            let epub = crate::text::same_text(low.as_str(), "epub") || crate::text::same_text(
                low.as_str(),
                ".epub",
            );
            if rec.is_active() && epub && crate::text::same_text(rec.item_id.as_str(), item_id) {
                let ghost before = as_ints(found@);
                found.push(i);
                assert(as_ints(found@) =~= before.push(i as int));
            }
            i += 1;
        }
        found
    }

    /// Positions of the surplus copies of a duplicate group.
    pub fn surplus_copies(&self, fingerprint: &str, keep: &str) -> (found: Vec<usize>)
        ensures
            as_ints(found@) == positions_where(
                self@.files,
                |r: FileRecordView| is_surplus(r, fingerprint@, keep@),
                self@.files.len() as int,
            ),
            forall|k: int| 0 <= k < found@.len() ==> (#[trigger] found@[k]) < self@.files.len(),
    {
        let ghost wanted = |r: FileRecordView| is_surplus(r, fingerprint@, keep@);
        let mut found: Vec<usize> = Vec::new();
        let mut i: usize = 0;
        assert(as_ints(found@) =~= Seq::<int>::empty());
        while i < self.files.len()
            invariant
                i <= self.files.len(),
                wanted == (|r: FileRecordView| is_surplus(r, fingerprint@, keep@)),
                as_ints(found@) == positions_where(self@.files, wanted, i as int),
                forall|k: int| 0 <= k < found@.len() ==> (#[trigger] found@[k]) < i,
            decreases self.files.len() - i,
        {
            let rec = &self.files[i];
            assert(self@.files[i as int] == rec@);
            let same = match &rec.fingerprint {
                Some(f) => crate::text::same_text(f.as_str(), fingerprint),
                None => false,
            };
            if rec.is_active() && same && !crate::text::same_text(rec.id.as_str(), keep) {
                let ghost before = as_ints(found@);
                found.push(i);
                assert(as_ints(found@) =~= before.push(i as int));
            }
            i += 1;
        }
        found
    }
}

/// Identifiers of a list of stamps.
pub open spec fn stamp_ids(v: Seq<Stamp>) -> Seq<Seq<char>> {
    Seq::new(v.len(), |i: int| v[i].id@)
}

/// Times of a list of stamps.
pub open spec fn stamp_times(v: Seq<Stamp>) -> Seq<i64> {
    Seq::new(v.len(), |i: int| v[i].now)
}

/// The queue after one change of kind `kind` has been enqueued for each of
/// the records at `targets`, in turn, each starting from the path on
/// record, the `k`-th under identifier `ids[k]` and time `times[k]`.
pub open spec fn staged_for(
    q: Seq<PendingChangeView>,
    files: Seq<FileRecordView>,
    targets: Seq<int>,
    kind: ChangeKind,
    payload: Option<Seq<char>>,
    ids: Seq<Seq<char>>,
    times: Seq<i64>,
) -> Seq<PendingChangeView>
    decreases targets.len(),
{
    if targets.len() == 0 {
        q
    } else {
        let k = targets.len() - 1;
        enqueued(
            staged_for(q, files, targets.drop_last(), kind, payload, ids, times),
            drafted(
                ids[k],
                files[targets[k]].id,
                kind,
                Some(files[targets[k]].path),
                None,
                payload,
                times[k],
            ),
        )
    }
}

/// Only the identifiers and times up to the number of targets matter.
pub proof fn lemma_staged_for_reads_prefix(
    q: Seq<PendingChangeView>,
    files: Seq<FileRecordView>,
    targets: Seq<int>,
    kind: ChangeKind,
    payload: Option<Seq<char>>,
    ids: Seq<Seq<char>>,
    times: Seq<i64>,
    ids2: Seq<Seq<char>>,
    times2: Seq<i64>,
)
    requires
        forall|k: int| 0 <= k < targets.len() ==> ids[k] == ids2[k] && times[k] == times2[k],
    ensures
        staged_for(q, files, targets, kind, payload, ids, times) == staged_for(
            q,
            files,
            targets,
            kind,
            payload,
            ids2,
            times2,
        ),
    decreases targets.len(),
{
    if targets.len() > 0 {
        lemma_staged_for_reads_prefix(
            q,
            files,
            targets.drop_last(),
            kind,
            payload,
            ids,
            times,
            ids2,
            times2,
        );
    }
}

/// Where none of the first `n` records is wanted, no position is listed.
pub proof fn lemma_no_position(
    files: Seq<FileRecordView>,
    wanted: spec_fn(FileRecordView) -> bool,
    n: int,
)
    requires
        forall|j: int| 0 <= j < n ==> !wanted(#[trigger] files[j]),
    ensures
        positions_where(files, wanted, n) == Seq::<int>::empty(),
    decreases n,
{
    if n > 0 {
        lemma_no_position(files, wanted, n - 1);
    }
}

/// Where exactly one of the first `n` records is wanted, its position is
/// the only one listed.
pub proof fn lemma_single_position(
    files: Seq<FileRecordView>,
    wanted: spec_fn(FileRecordView) -> bool,
    n: int,
    i: int,
)
    requires
        0 <= i < n,
        wanted(files[i]),
        forall|j: int| 0 <= j < n && j != i ==> !wanted(#[trigger] files[j]),
    ensures
        positions_where(files, wanted, n) == seq![i],
    decreases n,
{
    if i == n - 1 {
        lemma_no_position(files, wanted, n - 1);
        assert(Seq::<int>::empty().push(i) =~= seq![i]);
    } else {
        lemma_single_position(files, wanted, n - 1, i);
    }
}

/// A flow that finds a single file stages a single change: the queue ends
/// up as after enqueueing one change for that file, from the path on
/// record, under the first identifier and the first time. So what holds of
/// enqueueing holds of the flow: the change is the only pending one of its
/// kind for the file.
pub proof fn law_single_file_is_staged_once(
    q: Seq<PendingChangeView>,
    files: Seq<FileRecordView>,
    wanted: spec_fn(FileRecordView) -> bool,
    i: int,
    kind: ChangeKind,
    payload: Option<Seq<char>>,
    ids: Seq<Seq<char>>,
    times: Seq<i64>,
)
    requires
        0 <= i < files.len(),
        wanted(files[i]),
        forall|j: int| 0 <= j < files.len() && j != i ==> !wanted(#[trigger] files[j]),
    ensures
        positions_where(files, wanted, files.len() as int) == seq![i],
        staged_for(
            q,
            files,
            positions_where(files, wanted, files.len() as int),
            kind,
            payload,
            ids,
            times,
        ) == enqueued(
            q,
            drafted(ids[0], files[i].id, kind, Some(files[i].path), None, payload, times[0]),
        ),
{
    lemma_single_position(files, wanted, files.len() as int, i);
    let targets = seq![i];
    assert(targets.drop_last() =~= Seq::<int>::empty());
    assert(staged_for(q, files, targets.drop_last(), kind, payload, ids, times) == q);
}

/// Stages one change of kind `kind` for each of the records at `targets`,
/// in turn. Each change starts from the path on record and supersedes the
/// pending change of the same kind for the same file, if there is one.
/// Returns identifier and time of each change staged.
pub fn stage_for_files(
    queue: &mut ChangeQueue,
    lib: &Library,
    targets: &Vec<usize>,
    kind: ChangeKind,
    payload: &Option<String>,
) -> (stamps: Vec<Stamp>)
    requires
        forall|k: int| 0 <= k < targets@.len() ==> (#[trigger] targets@[k]) < lib@.files.len(),
    ensures
        stamps@.len() == targets@.len(),
        final(queue)@ == staged_for(
            old(queue)@,
            lib@.files,
            as_ints(targets@),
            kind,
            opt_view(*payload),
            stamp_ids(stamps@),
            stamp_times(stamps@),
        ),
{
    let ghost all = as_ints(targets@);
    let ghost q0 = queue@;
    let mut stamps: Vec<Stamp> = Vec::new();
    let mut i: usize = 0;
    assert(all.subrange(0, 0) =~= Seq::<int>::empty());
    while i < targets.len()
        invariant
            i <= targets.len(),
            stamps.len() == i,
            all == as_ints(targets@),
            forall|k: int| 0 <= k < targets@.len() ==> (#[trigger] targets@[k]) < lib@.files.len(),
            queue@ == staged_for(
                q0,
                lib@.files,
                all.subrange(0, i as int),
                kind,
                opt_view(*payload),
                stamp_ids(stamps@),
                stamp_times(stamps@),
            ),
        decreases targets.len() - i,
    {
        let rec = &lib.files[targets[i]];
        assert(lib@.files[targets@[i as int] as int] == rec@);
        let ghost before_ids = stamp_ids(stamps@);
        let ghost before_times = stamp_times(stamps@);
        let ghost before_targets = all.subrange(0, i as int);
        let stamp = crate::stamps::stage(
            queue,
            rec.id.clone(),
            kind,
            Some(rec.path.clone()),
            None,
            copy_opt(payload),
        );
        stamps.push(stamp);
        proof {
            let next = all.subrange(0, i + 1);
            assert(next.drop_last() == before_targets);
            assert(next[i as int] == targets@[i as int] as int);
            lemma_staged_for_reads_prefix(
                q0,
                lib@.files,
                before_targets,
                kind,
                opt_view(*payload),
                before_ids,
                before_times,
                stamp_ids(stamps@),
                stamp_times(stamps@),
            );
        }
        i += 1;
    }
    assert(all.subrange(0, i as int) == all);
    stamps
}

/// Stages a metadata edit for every active EPUB file of an item. An edit
/// that rewrites nothing stages nothing. `payload` is the edit as it is
/// stored with the change. Returns one stamp for each change staged, in
/// table order of the files: as many as the item has active EPUB files.
pub fn queue_epub_changes_for_item(
    queue: &mut ChangeQueue,
    lib: &Library,
    item_id: &str,
    edit: &MetadataEdit,
    payload: &str,
) -> (stamps: Vec<Stamp>)
    ensures
        !(edit.title is Some || edit.author is Some || edit.isbn is Some || edit.description
            is Some) ==> stamps@.len() == 0 && final(queue)@ == old(queue)@,
        (edit.title is Some || edit.author is Some || edit.isbn is Some || edit.description
            is Some) ==> stamps@.len() == positions_where(
            lib@.files,
            |r: FileRecordView| is_editable(r, item_id@),
            lib@.files.len() as int,
        ).len(),
        (edit.title is Some || edit.author is Some || edit.isbn is Some || edit.description
            is Some) ==> final(queue)@ == staged_for(
            old(queue)@,
            lib@.files,
            positions_where(
                lib@.files,
                |r: FileRecordView| is_editable(r, item_id@),
                lib@.files.len() as int,
            ),
            ChangeKind::MetadataEdit,
            Some(payload@),
            stamp_ids(stamps@),
            stamp_times(stamps@),
        ),
{
    if !edit.has_changes() {
        return Vec::new();
    }
    let targets = lib.editable_files(item_id);
    assert(as_ints(targets@).len() == targets@.len());
    let stored = Some(crate::text::copy_string(payload));
    stage_for_files(queue, lib, &targets, ChangeKind::MetadataEdit, &stored)
}

/// The first entry of `raws` that, as a valid book number in normal form or
/// else as it is, takes ten or thirteen bytes.
pub open spec fn first_book_number(raws: Seq<Seq<char>>) -> Option<Seq<char>>
    decreases raws.len(),
{
    if raws.len() == 0 {
        None
    } else {
        let value = crate::metadata::identifier_of(raws[0]).value;
        let len = vstd::utf8::encode_utf8(value).len();
        if len == 10 || len == 13 {
            Some(value)
        } else {
            first_book_number(raws.drop_first())
        }
    }
}

/// The edit that brings the files of an item in line with a catalog
/// candidate: its title, the first of its authors, and the first of its
/// identifiers that has the length of a book number. The description is
/// left alone.
pub fn queue_epub_changes(title: &Option<String>, authors: &Vec<String>, identifiers: &Vec<String>) -> (edit:
    MetadataEdit)
    ensures
        edit@ == (EditView {
            title: opt_view(*title),
            author: if authors@.len() > 0 {
                Some(authors@[0]@)
            } else {
                None
            },
            isbn: first_book_number(texts(identifiers@)),
            description: None,
        }),
{
    let ghost raws = texts(identifiers@);
    let mut isbn: Option<String> = None;
    let mut i: usize = 0;
    assert(raws.subrange(0, raws.len() as int) == raws);
    while i < identifiers.len() && isbn.is_none()
        invariant
            i <= identifiers.len(),
            raws == texts(identifiers@),
            isbn is None ==> first_book_number(raws) == first_book_number(
                raws.subrange(i as int, raws.len() as int),
            ),
            isbn is Some ==> opt_view(isbn) == first_book_number(raws),
        decreases identifiers.len() - i + if isbn is Some {
            0int
        } else {
            1int
        },
    {
        let ghost rest = raws.subrange(i as int, raws.len() as int);
        assert(rest[0] == identifiers@[i as int]@);
        assert(rest.drop_first() == raws.subrange(i + 1, raws.len() as int));
        let id = crate::metadata::classify_identifier(identifiers[i].as_str());
        let len = crate::text::byte_len(id.value.as_str());
        if len == 10 || len == 13 {
            isbn = Some(id.value);
        } else {
            i += 1;
        }
    }
    MetadataEdit {
        title: copy_opt(title),
        author: if authors.len() > 0 {
            Some(authors[0].clone())
        } else {
            None
        },
        isbn,
        description: None,
    }
}

/// Why a duplicate group could not be resolved.
#[derive(Clone, Copy, Debug, PartialEq, Eq, Structural)]
pub enum ResolveError {
    /// The file to keep is not an active member of the group.
    NotInGroup,
}

/// Whether some active record bears the identifier `keep` and the
/// fingerprint of the group.
pub open spec fn is_member(files: Seq<FileRecordView>, fingerprint: Seq<char>, keep: Seq<char>) -> bool {
    exists|i: int|
        0 <= i < files.len() && (#[trigger] files[i]).id == keep && files[i].status
            == FileStatus::Active && files[i].fingerprint == Some(fingerprint)
}

/// Resolves a duplicate group in favour of one file: a removal is staged
/// for every other active file with the group's fingerprint. The records
/// themselves are left alone until the removals are applied. Nothing is
/// staged unless the file to keep is an active member of the group.
/// Returns one stamp for each removal staged.
pub fn resolve_duplicate_group(
    queue: &mut ChangeQueue,
    lib: &Library,
    fingerprint: &str,
    keep_file_id: &str,
) -> (r: Result<Vec<Stamp>, ResolveError>)
    ensures
        match r {
            Err(e) => !is_member(lib@.files, fingerprint@, keep_file_id@) && final(queue)@ == old(
                queue,
            )@,
            Ok(stamps) => is_member(lib@.files, fingerprint@, keep_file_id@) && stamps@.len()
                == positions_where(
                lib@.files,
                |r: FileRecordView| is_surplus(r, fingerprint@, keep_file_id@),
                lib@.files.len() as int,
            ).len() && final(queue)@ == staged_for(
                old(queue)@,
                lib@.files,
                positions_where(
                    lib@.files,
                    |r: FileRecordView| is_surplus(r, fingerprint@, keep_file_id@),
                    lib@.files.len() as int,
                ),
                ChangeKind::Delete,
                None,
                stamp_ids(stamps@),
                stamp_times(stamps@),
            ),
        },
{
    let mut member = false;
    let mut i: usize = 0;
    while i < lib.files.len() && !member
        invariant
            i <= lib.files.len(),
            member ==> is_member(lib@.files, fingerprint@, keep_file_id@),
            !member ==> forall|k: int|
                0 <= k < i ==> !((#[trigger] lib@.files[k]).id == keep_file_id@
                    && lib@.files[k].status == FileStatus::Active && lib@.files[k].fingerprint
                    == Some(fingerprint@)),
        decreases lib.files.len() - i + if member {
            0int
        } else {
            1int
        },
    {
        let rec = &lib.files[i];
        assert(lib@.files[i as int] == rec@);
        let same = match &rec.fingerprint {
            Some(f) => crate::text::same_text(f.as_str(), fingerprint),
            None => false,
        };
        if rec.is_active() && same && crate::text::same_text(rec.id.as_str(), keep_file_id) {
            member = true;
        } else {
            i += 1;
        }
    }
    if !member {
        return Err(ResolveError::NotInGroup);
    }
    let targets = lib.surplus_copies(fingerprint, keep_file_id);
    assert(as_ints(targets@).len() == targets@.len());
    Ok(stage_for_files(queue, lib, &targets, ChangeKind::Delete, &None))
}

/// The queue after the renames of the first `n` entries of a plan have been
/// enqueued, in turn. The `k`-th rename is staged under `ids[k]` at
/// `times[k]`; skips stage nothing and use up nothing.
pub open spec fn staged_plan(
    q: Seq<PendingChangeView>,
    entries: Seq<OrganizeEntryView>,
    n: int,
    ids: Seq<Seq<char>>,
    times: Seq<i64>,
) -> Seq<PendingChangeView>
    decreases n,
{
    if n <= 0 {
        q
    } else {
        let front = staged_plan(q, entries, n - 1, ids, times);
        let k = crate::organizer::work_count(entries, n - 1) as int;
        match rename_of(entries[n - 1], ids[k], times[k]) {
            Some(c) => enqueued(front, c),
            None => front,
        }
    }
}

/// Only the identifiers and times up to the number of renames matter.
pub proof fn lemma_staged_plan_reads_prefix(
    q: Seq<PendingChangeView>,
    entries: Seq<OrganizeEntryView>,
    n: int,
    ids: Seq<Seq<char>>,
    times: Seq<i64>,
    ids2: Seq<Seq<char>>,
    times2: Seq<i64>,
)
    requires
        forall|k: int|
            0 <= k < crate::organizer::work_count(entries, n) ==> ids[k] == ids2[k] && times[k]
                == times2[k],
    ensures
        staged_plan(q, entries, n, ids, times) == staged_plan(q, entries, n, ids2, times2),
    decreases n,
{
    if n > 0 {
        lemma_staged_plan_reads_prefix(q, entries, n - 1, ids, times, ids2, times2);
    }
}

/// Turns an organize plan into staged changes: one rename per entry that
/// is not a skip, from its source to its target. Returns identifier and
/// time of each rename staged.
pub fn generate_pending_changes_from_organize(queue: &mut ChangeQueue, plan: &OrganizePlan) -> (stamps:
    Vec<Stamp>)
    ensures
        stamps@.len() == crate::organizer::work_count(
            plan_views(plan.entries@),
            plan.entries@.len() as int,
        ),
        final(queue)@ == staged_plan(
            old(queue)@,
            plan_views(plan.entries@),
            plan.entries@.len() as int,
            stamp_ids(stamps@),
            stamp_times(stamps@),
        ),
{
    let ghost entries = plan_views(plan.entries@);
    let ghost q0 = queue@;
    let mut stamps: Vec<Stamp> = Vec::new();
    let mut i: usize = 0;
    while i < plan.entries.len()
        invariant
            i <= plan.entries.len(),
            entries == plan_views(plan.entries@),
            stamps@.len() == crate::organizer::work_count(entries, i as int),
            queue@ == staged_plan(q0, entries, i as int, stamp_ids(stamps@), stamp_times(stamps@)),
        decreases plan.entries.len() - i,
    {
        let entry = &plan.entries[i];
        assert(entries[i as int] == entry@);
        let skip = match entry.action {
            PlanAction::Skip => true,
            _ => false,
        };
        if !skip {
            let ghost before_ids = stamp_ids(stamps@);
            let ghost before_times = stamp_times(stamps@);
            let stamp = crate::stamps::stage(
                queue,
                entry.file_id.clone(),
                ChangeKind::Rename,
                Some(entry.source_path.clone()),
                Some(entry.target_path.clone()),
                None,
            );
            stamps.push(stamp);
            proof {
                lemma_staged_plan_reads_prefix(
                    q0,
                    entries,
                    i as int,
                    before_ids,
                    before_times,
                    stamp_ids(stamps@),
                    stamp_times(stamps@),
                );
            }
        }
        i += 1;
    }
    stamps
}

} // verus!
