//! What holds of the scanner's transitions, whatever the store and the disk
//! look like.

use vstd::prelude::*;
use crate::records::{
    best_match, ids_distinct, lemma_best_match, lemma_live_at, lemma_with_id, live, live_at,
    paths_distinct, with_id, FileRecordView, FileStatus, LibraryView,
};
use crate::scanner::{
    closed_files, closed_record, fast_match, goes_missing, missing_entries, reactivated,
    settle_error, settled, verdict_of, ObservedView, Verdict,
};

verus! {

/// Settling a file puts the newcomer on top of a stale record: the content at
/// the observed path belongs to one record while another live record still
/// claims that path.
pub open spec fn displaces(
    files: Seq<FileRecordView>,
    obs: ObservedView,
    fingerprint: Seq<char>,
) -> bool {
    match (best_match(files, fingerprint), live_at(files, obs.path)) {
        (Some(i), Some(j)) => i != j,
        _ => false,
    }
}

/// The fast path changes no record except to reactivate the one it matched:
/// identifiers, paths and contents stay, and nothing is added or removed.
pub proof fn law_probe_keeps_records(files: Seq<FileRecordView>, obs: ObservedView, now: i64)
    requires
        fast_match(files, obs) is Some,
    ensures
        ({
            let i = fast_match(files, obs)->0;
            let after = files.update(i, reactivated(files[i], now));
            &&& after.len() == files.len()
            &&& after[i].status == FileStatus::Active
            &&& after[i].id == files[i].id
            &&& after[i].item_id == files[i].item_id
            &&& after[i].path == files[i].path
            &&& forall|k: int| 0 <= k < files.len() && k != i ==> after[k] == files[k]
        }),
{
    lemma_live_at(files, obs.path);
}

/// Move detection. When the fingerprint of the file belongs to a live record
/// whose own path no longer exists, the file is classified as moved: that
/// record keeps its identifier and its item and now points at the observed
/// path, no record and no item is created, and every other record is left
/// as it was.
pub proof fn law_move_detection(
    lib: LibraryView,
    obs: ObservedView,
    fingerprint: Seq<char>,
    file_id: Seq<char>,
    item_id: Seq<char>,
    now: i64,
)
    requires
        best_match(lib.files, fingerprint) is Some,
    ensures
        verdict_of(lib.files, obs, fingerprint, false) == Verdict::Moved,
        settle_error(lib, obs, fingerprint, false, file_id, item_id) is None,
        ({
            let i = best_match(lib.files, fingerprint)->0;
            let after = settled(lib, obs, fingerprint, false, file_id, item_id, now);
            &&& after.files.len() == lib.files.len()
            &&& after.items == lib.items
            &&& after.issues == lib.issues
            &&& after.files[i].id == lib.files[i].id
            &&& after.files[i].item_id == lib.files[i].item_id
            &&& after.files[i].fingerprint == Some(fingerprint)
            &&& after.files[i].path == obs.path
            &&& after.files[i].status == FileStatus::Active
            &&& forall|k: int| 0 <= k < lib.files.len() && k != i ==> after.files[k] == lib.files[k]
        }),
{
    lemma_best_match(lib.files, fingerprint);
}

/// Duplicate detection. When the fingerprint of the file belongs to a live
/// record whose own path still exists, the file is classified as a
/// duplicate: one record is appended for the observed path, sharing the
/// fingerprint and the item of the original, one issue is raised against the
/// original, and every record that was there before is left untouched.
pub proof fn law_duplicate_detection(
    lib: LibraryView,
    obs: ObservedView,
    fingerprint: Seq<char>,
    file_id: Seq<char>,
    item_id: Seq<char>,
    now: i64,
)
    requires
        best_match(lib.files, fingerprint) is Some,
        with_id(lib.files, file_id) is None,
    ensures
        verdict_of(lib.files, obs, fingerprint, true) == Verdict::Duplicate,
        settle_error(lib, obs, fingerprint, true, file_id, item_id) is None,
        ({
            let i = best_match(lib.files, fingerprint)->0;
            let after = settled(lib, obs, fingerprint, true, file_id, item_id, now);
            let copy = after.files.last();
            &&& after.files.len() == lib.files.len() + 1
            &&& after.files.subrange(0, lib.files.len() as int) == lib.files
            &&& after.items == lib.items
            &&& copy.id == file_id
            &&& copy.path == obs.path
            &&& copy.status == FileStatus::Active
            &&& copy.fingerprint == lib.files[i].fingerprint
            &&& copy.item_id == lib.files[i].item_id
            &&& after.issues.len() == lib.issues.len() + 1
            &&& after.issues.last().file_id == Some(lib.files[i].id)
        }),
{
    lemma_best_match(lib.files, fingerprint);
    let after = settled(lib, obs, fingerprint, true, file_id, item_id, now);
    assert(after.files.subrange(0, lib.files.len() as int) =~= lib.files);
}

/// Missing detection. The closing step of a pass removes no record and
/// changes no identifier. A record that was active, lies under the root and
/// was not visited becomes missing, never inactive; every other record is
/// left as it was.
pub proof fn law_missing_detection(
    files: Seq<FileRecordView>,
    root: Seq<char>,
    seen: Seq<Seq<char>>,
    now: i64,
)
    ensures
        closed_files(files, root, seen, now).len() == files.len(),
        forall|k: int|
            0 <= k < files.len() ==> {
                let before = files[k];
                let after = #[trigger] closed_files(files, root, seen, now)[k];
                &&& after.id == before.id
                &&& after.path == before.path
                &&& after.item_id == before.item_id
                &&& goes_missing(before, root, seen) ==> after.status == FileStatus::Missing
                &&& !goes_missing(before, root, seen) ==> after == before
            },
{
}

/// The closing step reaches no further than the root. Let the root be
/// given without a separator at its end. A record whose path is not the
/// root and does not continue it after a separator is left as it was,
/// whatever else holds of it: also where its path begins with the very
/// characters of the root, as that of a file in a sibling directory may.
pub proof fn law_close_spares_outsiders(
    r: FileRecordView,
    root: Seq<char>,
    seen: Seq<Seq<char>>,
    now: i64,
)
    requires
        root.len() > 0,
        root.last() != '/',
        r.path != root,
        !(root + seq!['/']).is_prefix_of(r.path),
    ensures
        !crate::paths::lies_under(r.path, root),
        !goes_missing(r, root, seen),
        closed_record(r, root, seen, now) == r,
{
    let p = r.path;
    if root.is_prefix_of(p) {
        if p.len() == root.len() {
            assert(p =~= root);
        } else if p[root.len() as int] == '/' {
            let head = root + seq!['/'];
            assert(head =~= p.subrange(0, head.len() as int));
            assert(head.is_prefix_of(p));
        }
    }
}

/// Settling a file removes no record, changes no identifier, and never
/// touches a retired record: `inactive` is final.
pub proof fn law_settle_keeps_history(
    lib: LibraryView,
    obs: ObservedView,
    fingerprint: Seq<char>,
    old_exists: bool,
    file_id: Seq<char>,
    item_id: Seq<char>,
    now: i64,
)
    ensures
        ({
            let after = settled(lib, obs, fingerprint, old_exists, file_id, item_id, now);
            &&& after.files.len() >= lib.files.len()
            &&& forall|k: int|
                0 <= k < lib.files.len() ==> {
                    &&& (#[trigger] after.files[k]).id == lib.files[k].id
                    &&& after.files[k].item_id == lib.files[k].item_id
                    &&& !live(lib.files[k]) ==> after.files[k] == lib.files[k]
                }
        }),
{
    lemma_best_match(lib.files, fingerprint);
    lemma_live_at(lib.files, obs.path);
}

/// Settling a file keeps identifiers distinct, provided it succeeds.
pub proof fn law_settle_keeps_ids_distinct(
    lib: LibraryView,
    obs: ObservedView,
    fingerprint: Seq<char>,
    old_exists: bool,
    file_id: Seq<char>,
    item_id: Seq<char>,
    now: i64,
)
    requires
        ids_distinct(lib.files),
        settle_error(lib, obs, fingerprint, old_exists, file_id, item_id) is None,
    ensures
        ids_distinct(settled(lib, obs, fingerprint, old_exists, file_id, item_id, now).files),
{
    lemma_best_match(lib.files, fingerprint);
    lemma_live_at(lib.files, obs.path);
    lemma_with_id(lib.files, file_id);
}

/// Settling a file keeps "at most one live record per path", provided it
/// succeeds and does not put the newcomer on top of a stale record.
pub proof fn law_settle_keeps_paths_distinct(
    lib: LibraryView,
    obs: ObservedView,
    fingerprint: Seq<char>,
    old_exists: bool,
    file_id: Seq<char>,
    item_id: Seq<char>,
    now: i64,
)
    requires
        paths_distinct(lib.files),
        !displaces(lib.files, obs, fingerprint),
        old_exists ==> best_match(lib.files, fingerprint) is None || live_at(lib.files, obs.path)
            is None,
    ensures
        paths_distinct(settled(lib, obs, fingerprint, old_exists, file_id, item_id, now).files),
{
    lemma_best_match(lib.files, fingerprint);
    lemma_live_at(lib.files, obs.path);
}

/// Idempotent rescanning, one file at a time. Once a file has been settled,
/// visiting it again with the same size and modification time takes the fast
/// path: it is unchanged and no fingerprint is asked for. This needs the
/// settled record to be the first live one at its path, which holds unless
/// settling put it on top of a stale record.
pub proof fn law_revisit_is_unchanged(
    lib: LibraryView,
    obs: ObservedView,
    fingerprint: Seq<char>,
    old_exists: bool,
    file_id: Seq<char>,
    item_id: Seq<char>,
    now: i64,
)
    requires
        best_match(lib.files, fingerprint) is Some ==> if old_exists {
            live_at(lib.files, obs.path) is None
        } else {
            !displaces(lib.files, obs, fingerprint)
        },
    ensures
        fast_match(
            settled(lib, obs, fingerprint, old_exists, file_id, item_id, now).files,
            obs,
        ) is Some,
{
    let after = settled(lib, obs, fingerprint, old_exists, file_id, item_id, now).files;
    lemma_best_match(lib.files, fingerprint);
    lemma_live_at(lib.files, obs.path);
    lemma_live_at(after, obs.path);
    // The record that settling wrote: it sits at the observed path, is live,
    // and carries the observed size and time.
    let w: int = match best_match(lib.files, fingerprint) {
        Some(i) => if old_exists {
            lib.files.len() as int
        } else {
            i
        },
        None => match live_at(lib.files, obs.path) {
            Some(j) => j,
            None => lib.files.len() as int,
        },
    };
    assert(0 <= w < after.len());
    assert(after[w].path == obs.path && live(after[w]));
    assert(after[w].size_bytes == Some(obs.size_bytes) && after[w].modified_at == obs.modified_at);
    match live_at(after, obs.path) {
        Some(j) => {
            if j < w {
                assert(j < lib.files.len());
                assert(after[j] == lib.files[j]);
            }
        },
        None => {},
    }
}

/// Idempotent rescanning, the fast path. A file that was found unchanged is
/// found unchanged again, and the record it matched stays the same one.
pub proof fn law_unchanged_stays_unchanged(files: Seq<FileRecordView>, obs: ObservedView, now: i64)
    requires
        fast_match(files, obs) is Some,
    ensures
        ({
            let i = fast_match(files, obs)->0;
            fast_match(files.update(i, reactivated(files[i], now)), obs) == Some(i)
        }),
{
    lemma_live_at(files, obs.path);
    let i = fast_match(files, obs)->0;
    let after = files.update(i, reactivated(files[i], now));
    lemma_live_at(after, obs.path);
    assert(after[i].path == obs.path && live(after[i]));
    match live_at(after, obs.path) {
        Some(j) => {
            if j < i {
                assert(after[j] == files[j]);
            }
        },
        None => {},
    }
}

/// Idempotent rescanning, the closing step. After a pass has been closed,
/// closing another pass that visited at least the same paths marks nothing
/// missing.
pub proof fn law_second_close_marks_nothing(
    files: Seq<FileRecordView>,
    root: Seq<char>,
    seen: Seq<Seq<char>>,
    seen_again: Seq<Seq<char>>,
    session_id: Seq<char>,
    now: i64,
)
    requires
        forall|p: Seq<char>| seen.contains(p) ==> seen_again.contains(p),
    ensures
        missing_entries(closed_files(files, root, seen, now), root, seen_again, session_id).len()
            == 0,
    decreases files.len(),
{
    let closed = closed_files(files, root, seen, now);
    if files.len() > 0 {
        law_second_close_marks_nothing(files.drop_last(), root, seen, seen_again, session_id, now);
        assert(closed.drop_last() =~= closed_files(files.drop_last(), root, seen, now));
        let r = files.last();
        assert(closed.last() == closed_record(r, root, seen, now));
        if goes_missing(r, root, seen) {
            assert(closed.last().status == FileStatus::Missing);
        } else if r.status == FileStatus::Active && crate::paths::lies_under(r.path, root) {
            assert(seen.contains(r.path));
            assert(seen_again.contains(r.path));
        }
    }
}

} // verus!
