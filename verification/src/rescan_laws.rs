//! Idempotent rescanning, for whole passes.
//!
//! A pass is modelled as what the scanner's functions compute, one after the
//! other, for a sequence of sightings: for each file the fast path where it
//! answers, and the slow path otherwise. Scanning an unchanged directory a
//! second time then takes the fast path for every file and marks nothing
//! missing.

use vstd::prelude::*;
use crate::records::{
    best_match, lemma_best_match, lemma_live_at, live, live_at, FileRecordView, FileStatus,
    LibraryView,
};
use crate::scan_laws::{displaces, law_revisit_is_unchanged, law_unchanged_stays_unchanged};
use crate::scanner::{
    action_of, closed_files, closed_record, fast_match, goes_missing, missing_entries,
    reactivated, settle_error, settled, settled_file_id, verdict_of, visit_entry, ObservedView,
    ScanAction, ScanRunView, ScanStats, SessionStatus,
};

verus! {

/// One file as a pass comes across it: what the walk reports, the
/// fingerprint of its content, and the identifiers on offer should rows
/// have to be created for it.
pub struct Sighting {
    pub obs: ObservedView,
    pub fingerprint: Seq<char>,
    pub file_id: Seq<char>,
    pub item_id: Seq<char>,
}

/// Whether the record that shares the fingerprint, if there is one, sits at
/// a path that exists on disk.
pub open spec fn old_path_exists(
    files: Seq<FileRecordView>,
    fingerprint: Seq<char>,
    on_disk: Set<Seq<char>>,
) -> bool {
    match best_match(files, fingerprint) {
        Some(j) => on_disk.contains(files[j].path),
        None => false,
    }
}

/// Whether settling the sighting would fail.
pub open spec fn visit_fails(lib: LibraryView, s: Sighting, on_disk: Set<Seq<char>>) -> bool {
    fast_match(lib.files, s.obs) is None && settle_error(
        lib,
        s.obs,
        s.fingerprint,
        old_path_exists(lib.files, s.fingerprint, on_disk),
        s.file_id,
        s.item_id,
    ) is Some
}

/// The record store after a sighting has been handled: by the fast path
/// where it answers, by the slow path otherwise. A sighting whose settling
/// fails leaves the store as it is.
pub open spec fn store_after_visit(
    lib: LibraryView,
    s: Sighting,
    on_disk: Set<Seq<char>>,
    now: i64,
) -> LibraryView {
    match fast_match(lib.files, s.obs) {
        Some(i) => LibraryView { files: lib.files.update(i, reactivated(lib.files[i], now)), ..lib },
        None => if visit_fails(lib, s, on_disk) {
            lib
        } else {
            settled(
                lib,
                s.obs,
                s.fingerprint,
                old_path_exists(lib.files, s.fingerprint, on_disk),
                s.file_id,
                s.item_id,
                now,
            )
        },
    }
}

/// The pass after a sighting has been handled.
pub open spec fn run_after_visit(
    lib: LibraryView,
    run: ScanRunView,
    s: Sighting,
    on_disk: Set<Seq<char>>,
) -> ScanRunView {
    let noted = run.noted(s.obs.path);
    match fast_match(lib.files, s.obs) {
        Some(i) => noted.logged(
            visit_entry(run.session_id, s.obs, None, ScanAction::Unchanged, lib.files[i].id),
        ),
        None => if visit_fails(lib, s, on_disk) {
            noted
        } else {
            let old_exists = old_path_exists(lib.files, s.fingerprint, on_disk);
            noted.logged(
                visit_entry(
                    run.session_id,
                    s.obs,
                    Some(s.fingerprint),
                    action_of(verdict_of(lib.files, s.obs, s.fingerprint, old_exists)),
                    settled_file_id(lib.files, s.obs, s.fingerprint, old_exists, s.file_id),
                ),
            )
        },
    }
}

/// The record store after the first `n` sightings have been handled.
pub open spec fn store_after_walk(
    lib: LibraryView,
    sightings: Seq<Sighting>,
    n: int,
    on_disk: Set<Seq<char>>,
    now: i64,
) -> LibraryView
    decreases n,
{
    if n <= 0 {
        lib
    } else {
        store_after_visit(
            store_after_walk(lib, sightings, n - 1, on_disk, now),
            sightings[n - 1],
            on_disk,
            now,
        )
    }
}

/// The pass after the first `n` sightings have been handled.
pub open spec fn run_after_walk(
    lib: LibraryView,
    run: ScanRunView,
    sightings: Seq<Sighting>,
    n: int,
    on_disk: Set<Seq<char>>,
    now: i64,
) -> ScanRunView
    decreases n,
{
    if n <= 0 {
        run
    } else {
        run_after_visit(
            store_after_walk(lib, sightings, n - 1, on_disk, now),
            run_after_walk(lib, run, sightings, n - 1, on_disk, now),
            sightings[n - 1],
            on_disk,
        )
    }
}

/// Whether the first `n` sightings were handled without a failure and
/// without putting a newcomer on top of a stale record.
pub open spec fn walk_is_clean(
    lib: LibraryView,
    sightings: Seq<Sighting>,
    n: int,
    on_disk: Set<Seq<char>>,
    now: i64,
) -> bool
    decreases n,
{
    if n <= 0 {
        true
    } else {
        let before = store_after_walk(lib, sightings, n - 1, on_disk, now);
        let s = sightings[n - 1];
        &&& walk_is_clean(lib, sightings, n - 1, on_disk, now)
        &&& !visit_fails(before, s, on_disk)
        &&& fast_match(before.files, s.obs) is None && best_match(before.files, s.fingerprint)
            is Some ==> if old_path_exists(before.files, s.fingerprint, on_disk) {
            live_at(before.files, s.obs.path) is None
        } else {
            !displaces(before.files, s.obs, s.fingerprint)
        }
    }
}

/// No two sightings are of the same path.
pub open spec fn paths_differ(sightings: Seq<Sighting>) -> bool {
    forall|a: int, b: int|
        0 <= a < b < sightings.len() ==> sightings[a].obs.path != sightings[b].obs.path
}

/// The fast path answers for each of the first `n` sightings.
pub open spec fn in_sync(files: Seq<FileRecordView>, sightings: Seq<Sighting>, n: int) -> bool {
    forall|j: int| 0 <= j < n ==> fast_match(files, (#[trigger] sightings[j]).obs) is Some
}

/// Every active record under the root sits at one of the paths given.
pub open spec fn all_listed(
    files: Seq<FileRecordView>,
    root: Seq<char>,
    paths: Seq<Seq<char>>,
) -> bool {
    forall|i: int|
        0 <= i < files.len() && (#[trigger] files[i]).status == FileStatus::Active
            && crate::paths::lies_under(files[i].path, root) ==> paths.contains(files[i].path)
}

/// The paths of the first `n` sightings.
pub open spec fn sighted_paths(sightings: Seq<Sighting>, n: int) -> Seq<Seq<char>>
    decreases n,
{
    if n <= 0 {
        Seq::empty()
    } else {
        sighted_paths(sightings, n - 1).push(sightings[n - 1].obs.path)
    }
}

/// The sighted paths are the paths of the sightings.
pub proof fn lemma_sighted_paths(sightings: Seq<Sighting>, n: int)
    requires
        0 <= n <= sightings.len(),
    ensures
        sighted_paths(sightings, n).len() == n,
        forall|j: int| 0 <= j < n ==> sighted_paths(sightings, n).contains(#[trigger] sightings[j].obs.path),
        forall|p: Seq<char>|
            sighted_paths(sightings, n).contains(p) ==> exists|j: int|
                0 <= j < n && #[trigger] sightings[j].obs.path == p,
    decreases n,
{
    if n > 0 {
        lemma_sighted_paths(sightings, n - 1);
        let front = sighted_paths(sightings, n - 1);
        let all = sighted_paths(sightings, n);
        assert forall|j: int| 0 <= j < n implies all.contains(#[trigger] sightings[j].obs.path) by {
            if j < n - 1 {
                let k = choose|k: int| 0 <= k < front.len() && front[k] == sightings[j].obs.path;
                assert(all[k] == sightings[j].obs.path);
            } else {
                assert(all[n - 1] == sightings[j].obs.path);
            }
        }
        assert forall|p: Seq<char>| all.contains(p) implies exists|j: int|
            0 <= j < n && #[trigger] sightings[j].obs.path == p by {
            let k = choose|k: int| 0 <= k < all.len() && all[k] == p;
            if k < n - 1 {
                assert(front[k] == p);
                assert(front.contains(p));
                let j = choose|j: int| 0 <= j < n - 1 && #[trigger] sightings[j].obs.path == p;
                assert(0 <= j < n && sightings[j].obs.path == p);
            } else {
                assert(sightings[n - 1].obs.path == p);
            }
        }
    }
}

/// Changing a record that neither sat nor comes to sit at a path leaves the
/// answer for that path as it was.
pub proof fn lemma_update_elsewhere(
    files: Seq<FileRecordView>,
    i: int,
    r: FileRecordView,
    obs: ObservedView,
)
    requires
        0 <= i < files.len(),
        files[i].path != obs.path,
        r.path != obs.path,
    ensures
        live_at(files.update(i, r), obs.path) == live_at(files, obs.path),
        fast_match(files.update(i, r), obs) == fast_match(files, obs),
    decreases files.len(),
{
    let after = files.update(i, r);
    lemma_live_at(files, obs.path);
    lemma_live_at(after, obs.path);
    match live_at(files, obs.path) {
        Some(a) => {
            assert(after[a] == files[a]);
            match live_at(after, obs.path) {
                Some(b) => {
                    if b < a {
                        assert(after[b] == files[b]);
                    }
                    if a < b {
                        assert(after[a].path == obs.path && live(after[a]));
                    }
                },
                None => {
                    assert(after[a].path == obs.path && live(after[a]));
                },
            }
        },
        None => {
            match live_at(after, obs.path) {
                Some(b) => {
                    assert(after[b] == files[b]);
                },
                None => {},
            }
        },
    }
}

/// Adding a record at another path leaves the answer for a path as it was.
pub proof fn lemma_push_elsewhere(files: Seq<FileRecordView>, r: FileRecordView, obs: ObservedView)
    requires
        r.path != obs.path,
    ensures
        live_at(files.push(r), obs.path) == live_at(files, obs.path),
        fast_match(files.push(r), obs) == fast_match(files, obs),
{
    let after = files.push(r);
    assert(after.drop_last() == files);
    lemma_live_at(files, obs.path);
    match live_at(files, obs.path) {
        Some(a) => {
            assert(after[a] == files[a]);
        },
        None => {},
    }
}

/// Handling a sighting leaves the answer for every other path that exists
/// on disk as it was.
pub proof fn lemma_visit_keeps_others(
    lib: LibraryView,
    s: Sighting,
    other: ObservedView,
    on_disk: Set<Seq<char>>,
    now: i64,
)
    requires
        s.obs.path != other.path,
        on_disk.contains(other.path),
    ensures
        fast_match(store_after_visit(lib, s, on_disk, now).files, other) == fast_match(
            lib.files,
            other,
        ),
{
    lemma_live_at(lib.files, s.obs.path);
    lemma_best_match(lib.files, s.fingerprint);
    match fast_match(lib.files, s.obs) {
        Some(i) => {
            lemma_update_elsewhere(lib.files, i, reactivated(lib.files[i], now), other);
        },
        None => {
            if !visit_fails(lib, s, on_disk) {
                let old_exists = old_path_exists(lib.files, s.fingerprint, on_disk);
                match best_match(lib.files, s.fingerprint) {
                    Some(i) => {
                        if old_exists {
                            lemma_push_elsewhere(
                                lib.files,
                                crate::scanner::created(
                                    s.file_id,
                                    lib.files[i].item_id,
                                    s.obs,
                                    s.fingerprint,
                                    now,
                                ),
                                other,
                            );
                        } else {
                            lemma_update_elsewhere(
                                lib.files,
                                i,
                                crate::scanner::relocated(lib.files[i], s.obs, now),
                                other,
                            );
                        }
                    },
                    None => match live_at(lib.files, s.obs.path) {
                        Some(j) => {
                            lemma_update_elsewhere(
                                lib.files,
                                j,
                                crate::scanner::refreshed(lib.files[j], s.obs, s.fingerprint, now),
                                other,
                            );
                        },
                        None => {
                            lemma_push_elsewhere(
                                lib.files,
                                crate::scanner::created(
                                    s.file_id,
                                    s.item_id,
                                    s.obs,
                                    s.fingerprint,
                                    now,
                                ),
                                other,
                            );
                        },
                    },
                }
            }
        },
    }
}

/// After a sighting has been handled cleanly, the fast path answers for it.
pub proof fn lemma_visit_syncs(lib: LibraryView, s: Sighting, on_disk: Set<Seq<char>>, now: i64)
    requires
        !visit_fails(lib, s, on_disk),
        fast_match(lib.files, s.obs) is None && best_match(lib.files, s.fingerprint) is Some
            ==> if old_path_exists(lib.files, s.fingerprint, on_disk) {
            live_at(lib.files, s.obs.path) is None
        } else {
            !displaces(lib.files, s.obs, s.fingerprint)
        },
    ensures
        fast_match(store_after_visit(lib, s, on_disk, now).files, s.obs) is Some,
{
    match fast_match(lib.files, s.obs) {
        Some(i) => {
            law_unchanged_stays_unchanged(lib.files, s.obs, now);
        },
        None => {
            law_revisit_is_unchanged(
                lib,
                s.obs,
                s.fingerprint,
                old_path_exists(lib.files, s.fingerprint, on_disk),
                s.file_id,
                s.item_id,
                now,
            );
        },
    }
}

/// A clean walk leaves the store in sync with what it saw: afterwards the
/// fast path answers for every sighting.
pub proof fn lemma_clean_walk_syncs(
    lib: LibraryView,
    sightings: Seq<Sighting>,
    n: int,
    on_disk: Set<Seq<char>>,
    now: i64,
)
    requires
        0 <= n <= sightings.len(),
        paths_differ(sightings),
        forall|j: int| 0 <= j < sightings.len() ==> on_disk.contains(#[trigger] sightings[j].obs.path),
        walk_is_clean(lib, sightings, n, on_disk, now),
    ensures
        in_sync(store_after_walk(lib, sightings, n, on_disk, now).files, sightings, n),
    decreases n,
{
    if n > 0 {
        lemma_clean_walk_syncs(lib, sightings, n - 1, on_disk, now);
        let before = store_after_walk(lib, sightings, n - 1, on_disk, now);
        let after = store_after_walk(lib, sightings, n, on_disk, now);
        let s = sightings[n - 1];
        assert forall|j: int| 0 <= j < n implies fast_match(
            after.files,
            (#[trigger] sightings[j]).obs,
        ) is Some by {
            if j < n - 1 {
                lemma_visit_keeps_others(before, s, sightings[j].obs, on_disk, now);
            } else {
                lemma_visit_syncs(before, s, on_disk, now);
            }
        }
    }
}

/// The closing step leaves the answer of the fast path as it was for every
/// path that was visited.
pub proof fn lemma_close_keeps_sync(
    files: Seq<FileRecordView>,
    root: Seq<char>,
    seen: Seq<Seq<char>>,
    obs: ObservedView,
    now: i64,
)
    requires
        seen.contains(obs.path),
    ensures
        fast_match(closed_files(files, root, seen, now), obs) == fast_match(files, obs),
{
    let closed = closed_files(files, root, seen, now);
    lemma_live_at(files, obs.path);
    lemma_live_at(closed, obs.path);
    assert forall|k: int| 0 <= k < files.len() implies (#[trigger] closed[k]).path == files[k].path
        && live(closed[k]) == live(files[k]) by {
        assert(closed[k] == closed_record(files[k], root, seen, now));
    }
    match live_at(files, obs.path) {
        Some(a) => {
            assert(closed[a] == closed_record(files[a], root, seen, now));
            assert(closed[a] == files[a]);
            match live_at(closed, obs.path) {
                Some(b) => {
                    if b < a {
                        assert(closed[b].path == files[b].path);
                    }
                },
                None => {
                    assert(closed[a].path == obs.path);
                },
            }
        },
        None => {
            match live_at(closed, obs.path) {
                Some(b) => {
                    assert(closed[b].path == files[b].path);
                },
                None => {},
            }
        },
    }
}

/// After the closing step every active record under the root sits at a
/// path that was visited.
pub proof fn lemma_close_lists_all(
    files: Seq<FileRecordView>,
    root: Seq<char>,
    seen: Seq<Seq<char>>,
    now: i64,
)
    ensures
        all_listed(closed_files(files, root, seen, now), root, seen),
{
    let closed = closed_files(files, root, seen, now);
    assert forall|i: int|
        0 <= i < closed.len() && (#[trigger] closed[i]).status == FileStatus::Active
            && crate::paths::lies_under(closed[i].path, root) implies seen.contains(
            closed[i].path,
        ) by {
        assert(closed[i] == closed_record(files[i], root, seen, now));
    }
}

/// A pass that has not seen anything yet.
pub open spec fn is_fresh(run: ScanRunView) -> bool {
    &&& run.entries.len() == 0
    &&& run.seen.len() == 0
    &&& run.stats == (ScanStats { added: 0, updated: 0, moved: 0, unchanged: 0, missing: 0 })
    &&& run.status == SessionStatus::Running
}

/// Over a store that is in sync with the sightings, a walk takes the fast
/// path every time: the store changes in nothing but reactivations, every
/// visit is counted as unchanged, and the paths seen are those sighted.
pub proof fn lemma_synced_walk(
    lib: LibraryView,
    run: ScanRunView,
    sightings: Seq<Sighting>,
    n: int,
    on_disk: Set<Seq<char>>,
    now: i64,
)
    requires
        0 <= n <= sightings.len(),
        sightings.len() < u64::MAX,
        paths_differ(sightings),
        in_sync(lib.files, sightings, sightings.len() as int),
        is_fresh(run),
    ensures
        ({
            let after = store_after_walk(lib, sightings, n, on_disk, now);
            let ran = run_after_walk(lib, run, sightings, n, on_disk, now);
            &&& in_sync(after.files, sightings, sightings.len() as int)
            &&& after.files.len() == lib.files.len()
            &&& forall|i: int|
                0 <= i < lib.files.len() ==> {
                    &&& (#[trigger] after.files[i]).path == lib.files[i].path
                    &&& after.files[i].status == FileStatus::Active ==> lib.files[i].status
                        == FileStatus::Active || sighted_paths(sightings, n).contains(
                        after.files[i].path,
                    )
                }
            &&& ran.stats == (ScanStats {
                added: 0,
                updated: 0,
                moved: 0,
                unchanged: n as u64,
                missing: 0,
            })
            &&& ran.entries.len() == n
            &&& ran.seen == sighted_paths(sightings, n)
            &&& ran.root_path == run.root_path
            &&& ran.session_id == run.session_id
            &&& n > 0 ==> fast_match(
                store_after_walk(lib, sightings, n - 1, on_disk, now).files,
                sightings[n - 1].obs,
            ) is Some
        }),
    decreases n,
{
    if n > 0 {
        lemma_synced_walk(lib, run, sightings, n - 1, on_disk, now);
        lemma_sighted_paths(sightings, n - 1);
        let before = store_after_walk(lib, sightings, n - 1, on_disk, now);
        let ran_before = run_after_walk(lib, run, sightings, n - 1, on_disk, now);
        let after = store_after_walk(lib, sightings, n, on_disk, now);
        let ran = run_after_walk(lib, run, sightings, n, on_disk, now);
        let s = sightings[n - 1];
        assert(fast_match(before.files, s.obs) is Some);
        let i = fast_match(before.files, s.obs)->0;
        lemma_live_at(before.files, s.obs.path);
        assert(after.files == before.files.update(i, reactivated(before.files[i], now)));
        assert forall|j: int| 0 <= j < sightings.len() implies fast_match(
            after.files,
            (#[trigger] sightings[j]).obs,
        ) is Some by {
            if j == n - 1 {
                law_unchanged_stays_unchanged(before.files, s.obs, now);
            } else {
                lemma_update_elsewhere(
                    before.files,
                    i,
                    reactivated(before.files[i], now),
                    sightings[j].obs,
                );
            }
        }
        let listed = sighted_paths(sightings, n);
        let listed_before = sighted_paths(sightings, n - 1);
        assert forall|k: int| 0 <= k < lib.files.len() implies {
            &&& (#[trigger] after.files[k]).path == lib.files[k].path
            &&& after.files[k].status == FileStatus::Active ==> lib.files[k].status
                == FileStatus::Active || listed.contains(after.files[k].path)
        } by {
            if k == i {
                assert(listed[n - 1] == s.obs.path);
            } else {
                assert(after.files[k] == before.files[k]);
                if listed_before.contains(before.files[k].path) {
                    let w = choose|w: int|
                        0 <= w < listed_before.len() && listed_before[w] == before.files[k].path;
                    assert(listed[w] == before.files[k].path);
                }
            }
        }
    }
}

/// Where every active record under the root sits at a path that was seen,
/// the closing step changes nothing and logs nothing.
pub proof fn lemma_nothing_to_close(
    files: Seq<FileRecordView>,
    root: Seq<char>,
    seen: Seq<Seq<char>>,
    session_id: Seq<char>,
    now: i64,
)
    requires
        all_listed(files, root, seen),
    ensures
        missing_entries(files, root, seen, session_id).len() == 0,
        closed_files(files, root, seen, now) == files,
    decreases files.len(),
{
    if files.len() > 0 {
        let front = files.drop_last();
        assert forall|i: int|
            0 <= i < front.len() && (#[trigger] front[i]).status == FileStatus::Active
                && crate::paths::lies_under(front[i].path, root) implies seen.contains(
                front[i].path,
            ) by {
            assert(front[i] == files[i]);
        }
        lemma_nothing_to_close(front, root, seen, session_id, now);
        assert(files.last() == files[files.len() - 1]);
        assert(!goes_missing(files.last(), root, seen));
    }
    assert(closed_files(files, root, seen, now) =~= files) by {
        assert forall|i: int| 0 <= i < files.len() implies closed_files(files, root, seen, now)[i]
            == files[i] by {
            assert(!goes_missing(files[i], root, seen));
        }
    }
}

/// Idempotent rescanning. Let a first pass handle a sequence of sightings
/// cleanly, every sighted path existing on disk and no path sighted twice,
/// and let it be closed. Then a second pass over the same directory, that
/// is over sightings with the same paths, sizes and modification times,
///
/// * takes the fast path for every file, so that no fingerprint is needed,
/// * counts every file as unchanged and none as added, updated or moved,
/// * and marks nothing missing when it is closed: its closing step leaves
///   the record store as it is and logs nothing.
pub proof fn law_rescan_is_idempotent(
    lib: LibraryView,
    first: ScanRunView,
    second: ScanRunView,
    sightings: Seq<Sighting>,
    again: Seq<Sighting>,
    on_disk: Set<Seq<char>>,
    then: i64,
    now: i64,
)
    requires
        is_fresh(first),
        is_fresh(second),
        first.root_path == second.root_path,
        sightings.len() < u64::MAX,
        paths_differ(sightings),
        forall|j: int| 0 <= j < sightings.len() ==> on_disk.contains(#[trigger] sightings[j].obs.path),
        walk_is_clean(lib, sightings, sightings.len() as int, on_disk, then),
        again.len() == sightings.len(),
        forall|j: int| 0 <= j < sightings.len() ==> (#[trigger] again[j]).obs == sightings[j].obs,
    ensures
        ({
            let n = sightings.len() as int;
            let walked = store_after_walk(lib, sightings, n, on_disk, then);
            let seen = run_after_walk(lib, first, sightings, n, on_disk, then).seen;
            let closed = LibraryView {
                files: closed_files(walked.files, first.root_path, seen, then),
                ..walked
            };
            let rewalked = store_after_walk(closed, again, n, on_disk, now);
            let rerun = run_after_walk(closed, second, again, n, on_disk, now);
            &&& forall|k: int|
                0 < k <= n ==> fast_match(
                    store_after_walk(closed, again, k - 1, on_disk, now).files,
                    (#[trigger] again[k - 1]).obs,
                ) is Some
            &&& rerun.stats == (ScanStats {
                added: 0,
                updated: 0,
                moved: 0,
                unchanged: n as u64,
                missing: 0,
            })
            &&& missing_entries(rewalked.files, second.root_path, rerun.seen, rerun.session_id).len()
                == 0
            &&& closed_files(rewalked.files, second.root_path, rerun.seen, now) == rewalked.files
        }),
{
    let n = sightings.len() as int;
    let root = first.root_path;
    let walked = store_after_walk(lib, sightings, n, on_disk, then);
    let ran = run_after_walk(lib, first, sightings, n, on_disk, then);
    let seen = ran.seen;
    let closed = LibraryView { files: closed_files(walked.files, root, seen, then), ..walked };
    // The first pass leaves the store in sync with what it saw ...
    lemma_clean_walk_syncs(lib, sightings, n, on_disk, then);
    lemma_seen_after_walk(lib, first, sightings, n, on_disk, then);
    lemma_sighted_paths(sightings, n);
    lemma_sighted_paths(again, n);
    // ... and closing it keeps it so, with every active record listed.
    assert forall|j: int| 0 <= j < n implies fast_match(closed.files, (#[trigger] again[j]).obs)
        is Some by {
        assert(seen.contains(sightings[j].obs.path));
        lemma_close_keeps_sync(walked.files, root, seen, sightings[j].obs, then);
        assert(fast_match(walked.files, sightings[j].obs) is Some);
    }
    lemma_close_lists_all(walked.files, root, seen, then);
    assert(paths_differ(again)) by {
        assert forall|a: int, b: int| 0 <= a < b < again.len() implies again[a].obs.path
            != again[b].obs.path by {
            assert(again[a].obs == sightings[a].obs);
            assert(again[b].obs == sightings[b].obs);
        }
    }
    // The second pass therefore takes the fast path throughout.
    assert forall|k: int| 0 < k <= n implies fast_match(
        store_after_walk(closed, again, k - 1, on_disk, now).files,
        (#[trigger] again[k - 1]).obs,
    ) is Some by {
        lemma_synced_walk(closed, second, again, k, on_disk, now);
    }
    lemma_synced_walk(closed, second, again, n, on_disk, now);
    let rewalked = store_after_walk(closed, again, n, on_disk, now);
    let rerun = run_after_walk(closed, second, again, n, on_disk, now);
    // Whatever is active under the root afterwards was seen again.
    assert(all_listed(rewalked.files, second.root_path, rerun.seen)) by {
        assert forall|i: int|
            0 <= i < rewalked.files.len() && (#[trigger] rewalked.files[i]).status
                == FileStatus::Active && crate::paths::lies_under(
                rewalked.files[i].path,
                second.root_path,
            ) implies rerun.seen.contains(rewalked.files[i].path) by {
            if !sighted_paths(again, n).contains(rewalked.files[i].path) {
                assert(closed.files[i].status == FileStatus::Active);
                assert(closed.files[i].path == rewalked.files[i].path);
                assert(seen.contains(closed.files[i].path));
                let j = choose|j: int|
                    0 <= j < n && #[trigger] sightings[j].obs.path == closed.files[i].path;
                assert(again[j].obs == sightings[j].obs);
                assert(sighted_paths(again, n).contains(again[j].obs.path));
            }
        }
    }
    lemma_nothing_to_close(rewalked.files, second.root_path, rerun.seen, rerun.session_id, now);
}

/// A fresh pass has seen exactly the paths of the sightings that it
/// handled.
pub proof fn lemma_seen_after_walk(
    lib: LibraryView,
    run: ScanRunView,
    sightings: Seq<Sighting>,
    n: int,
    on_disk: Set<Seq<char>>,
    now: i64,
)
    requires
        0 <= n <= sightings.len(),
        is_fresh(run),
    ensures
        run_after_walk(lib, run, sightings, n, on_disk, now).seen == sighted_paths(sightings, n),
        run_after_walk(lib, run, sightings, n, on_disk, now).root_path == run.root_path,
    decreases n,
{
    if n > 0 {
        lemma_seen_after_walk(lib, run, sightings, n - 1, on_disk, now);
    } else {
        assert(run.seen =~= Seq::<Seq<char>>::empty());
    }
}

} // verus!
