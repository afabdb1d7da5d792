//! A whole pass over a listing.
//!
//! Where the files of a directory are known beforehand with their
//! fingerprints, a pass needs nothing from outside while it runs: the fast
//! path is tried for each file, the slow path follows where it does not
//! answer, and the pass is closed at the end. What such a pass computes is
//! what [`crate::rescan_laws`] speaks of.

use vstd::prelude::*;
use crate::records::{texts, Library, LibraryView};
use crate::rescan_laws::{
    law_rescan_is_idempotent, old_path_exists, paths_differ, run_after_visit, run_after_walk,
    store_after_visit, store_after_walk, visit_fails, walk_is_clean, Sighting,
};
use crate::scanner::{
    closed_files, fast_match, holds_text, missing_entries, FreshIds, Observed, Probe, ScanRun,
    ScanRunView, ScanStats, SessionStatus,
};
use crate::text::copy_string;

verus! {

/// One file of a listing: what the walk reports about it, the fingerprint
/// of its content, and the identifiers on offer should rows have to be
/// created for it.
#[derive(Debug)]
pub struct Listed {
    pub observed: Observed,
    pub fingerprint: String,
    pub ids: FreshIds,
}

impl View for Listed {
    type V = Sighting;

    open spec fn view(&self) -> Sighting {
        Sighting {
            obs: self.observed@,
            fingerprint: self.fingerprint@,
            file_id: self.ids.file@,
            item_id: self.ids.item@,
        }
    }
}

/// Views of the files of a listing.
pub open spec fn sightings_of(v: Seq<Listed>) -> Seq<Sighting> {
    Seq::new(v.len(), |i: int| v[i]@)
}

/// The paths that a list names, as a set.
pub open spec fn paths_on(v: Seq<Seq<char>>) -> Set<Seq<char>> {
    Set::new(|p: Seq<char>| v.contains(p))
}

/// Whether none of the first `n` sightings fails to settle.
pub open spec fn none_fails(
    lib: LibraryView,
    sightings: Seq<Sighting>,
    n: int,
    on_disk: Set<Seq<char>>,
    now: i64,
) -> bool {
    forall|k: int|
        0 <= k < n ==> !visit_fails(
            #[trigger] store_after_walk(lib, sightings, k, on_disk, now),
            sightings[k],
            on_disk,
        )
}

impl ScanRun {
    /// Handles the files of `listing` in turn: each by the fast path where
    /// it answers, and by the slow path otherwise. `on_disk` names the paths
    /// that exist. The walk stops at the first file that cannot be settled
    /// and returns its position; that file has been noted as visited and
    /// nothing else has happened for it.
    pub fn walk(
        &mut self,
        lib: &mut Library,
        listing: &Vec<Listed>,
        on_disk: &Vec<String>,
        now: i64,
    ) -> (stopped: Option<usize>)
        requires
            old(self).wf(),
        ensures
            final(self).wf(),
            ({
                let all = sightings_of(listing@);
                let disk = paths_on(texts(on_disk@));
                let handled = match stopped {
                    Some(k) => k as int,
                    None => listing@.len() as int,
                };
                let reached = match stopped {
                    Some(k) => k + 1,
                    None => listing@.len() as int,
                };
                &&& reached <= listing@.len()
                &&& none_fails(old(lib)@, all, handled, disk, now)
                &&& stopped is Some ==> visit_fails(
                    store_after_walk(old(lib)@, all, handled, disk, now),
                    all[handled],
                    disk,
                )
                &&& final(lib)@ == store_after_walk(old(lib)@, all, reached, disk, now)
                &&& final(self)@ == run_after_walk(old(lib)@, old(self)@, all, reached, disk, now)
            }),
    {
        let ghost all = sightings_of(listing@);
        let ghost disk = paths_on(texts(on_disk@));
        let ghost lib0 = lib@;
        let ghost run0 = self@;
        let mut i: usize = 0;
        while i < listing.len()
            invariant
                i <= listing.len(),
                self.wf(),
                lib0 == old(lib)@,
                run0 == old(self)@,
                all == sightings_of(listing@),
                disk == paths_on(texts(on_disk@)),
                none_fails(lib0, all, i as int, disk, now),
                lib@ == store_after_walk(lib0, all, i as int, disk, now),
                self@ == run_after_walk(lib0, run0, all, i as int, disk, now),
            decreases listing.len() - i,
        {
            let item = &listing[i];
            assert(all[i as int] == item@);
            let ghost before = lib@;
            let ghost ran = self@;
            match self.probe(lib, &item.observed, now) {
                Probe::Unchanged => {},
                Probe::NeedsFingerprint => {
                    proof {
                        crate::records::lemma_best_match(lib@.files, item@.fingerprint);
                    }
                    let old_exists = match lib.find_fingerprint(item.fingerprint.as_str()) {
                        Some(j) => {
                            assert(lib@.files[j as int] == lib.files@[j as int]@);
                            holds_text(on_disk, lib.files[j].path.as_str())
                        },
                        None => false,
                    };
                    assert(old_exists == old_path_exists(before.files, item@.fingerprint, disk));
                    let ids = FreshIds {
                        file: copy_string(item.ids.file.as_str()),
                        item: copy_string(item.ids.item.as_str()),
                    };
                    match self.settle(
                        lib,
                        &item.observed,
                        item.fingerprint.as_str(),
                        old_exists,
                        ids,
                        now,
                    ) {
                        Ok(_) => {},
                        Err(_) => {
                            proof {
                                assert(visit_fails(before, all[i as int], disk));
                                assert(store_after_walk(lib0, all, i + 1, disk, now)
                                    == store_after_visit(before, all[i as int], disk, now));
                                assert(run_after_walk(lib0, run0, all, i + 1, disk, now)
                                    == run_after_visit(before, ran, all[i as int], disk));
                            }
                            return Some(i);
                        },
                    }
                },
            }
            i += 1;
        }
        None
    }
}

/// Handling sightings leaves the session of a pass as it is: its identifier,
/// its root, its times and its status.
pub proof fn lemma_walk_keeps_session(
    lib: LibraryView,
    run: ScanRunView,
    sightings: Seq<Sighting>,
    n: int,
    on_disk: Set<Seq<char>>,
    now: i64,
)
    ensures
        ({
            let after = run_after_walk(lib, run, sightings, n, on_disk, now);
            &&& after.session_id == run.session_id
            &&& after.root_path == run.root_path
            &&& after.started_at == run.started_at
            &&& after.ended_at == run.ended_at
            &&& after.status == run.status
        }),
    decreases n,
{
    if n > 0 {
        lemma_walk_keeps_session(lib, run, sightings, n - 1, on_disk, now);
    }
}

/// The pass that [`scan_listing`] returns for a store `lib`: begun afresh,
/// walked over the sightings, and closed where no sighting failed to
/// settle, or marked failed at the first that did.
pub open spec fn listed_pass(
    lib: LibraryView,
    session_id: Seq<char>,
    root: Seq<char>,
    sightings: Seq<Sighting>,
    on_disk: Set<Seq<char>>,
    now: i64,
    ended_at: i64,
    reached: int,
    failed: bool,
) -> ScanRunView {
    let walked = run_after_walk(
        lib,
        fresh_pass(session_id, root, now),
        sightings,
        reached,
        on_disk,
        now,
    );
    if failed {
        ScanRunView { status: SessionStatus::Failed, ended_at: Some(ended_at), ..walked }
    } else {
        let lost = missing_entries(
            store_after_walk(lib, sightings, reached, on_disk, now).files,
            root,
            walked.seen,
            session_id,
        );
        ScanRunView {
            status: SessionStatus::Success,
            ended_at: Some(ended_at),
            entries: walked.entries + lost,
            stats: ScanStats {
                missing: (walked.stats.missing + lost.len()) as u64,
                ..walked.stats
            },
            ..walked
        }
    }
}

/// The pass as it is begun.
pub open spec fn fresh_pass(session_id: Seq<char>, root: Seq<char>, now: i64) -> ScanRunView {
    ScanRunView {
        session_id,
        root_path: root,
        started_at: now,
        ended_at: None,
        status: SessionStatus::Running,
        entries: Seq::empty(),
        seen: Seq::empty(),
        stats: ScanStats { added: 0, updated: 0, moved: 0, unchanged: 0, missing: 0 },
    }
}

/// In a clean walk no sighting fails to settle.
pub proof fn lemma_clean_walk_settles(
    lib: LibraryView,
    sightings: Seq<Sighting>,
    n: int,
    on_disk: Set<Seq<char>>,
    now: i64,
)
    requires
        walk_is_clean(lib, sightings, n, on_disk, now),
    ensures
        none_fails(lib, sightings, n, on_disk, now),
    decreases n,
{
    if n > 0 {
        lemma_clean_walk_settles(lib, sightings, n - 1, on_disk, now);
    }
}

/// Idempotent rescanning, pass by pass. Let a first pass over a listing be
/// clean, every listed path existing on disk and none listed twice. Then
/// it succeeds, and a second pass over the same root, with a listing of the
/// same paths, sizes and modification times, succeeds as well: it counts
/// every file as unchanged and none as added, updated, moved or missing,
/// it needs no fingerprint, and its closing step changes no record.
pub proof fn law_second_pass_finds_nothing_new(
    lib: LibraryView,
    root: Seq<char>,
    first_id: Seq<char>,
    sightings: Seq<Sighting>,
    then: i64,
    then_ended: i64,
    second_id: Seq<char>,
    again: Seq<Sighting>,
    now: i64,
    now_ended: i64,
    on_disk: Set<Seq<char>>,
)
    requires
        sightings.len() < u64::MAX,
        paths_differ(sightings),
        forall|j: int| 0 <= j < sightings.len() ==> on_disk.contains(#[trigger] sightings[j].obs.path),
        walk_is_clean(lib, sightings, sightings.len() as int, on_disk, then),
        again.len() == sightings.len(),
        forall|j: int| 0 <= j < sightings.len() ==> (#[trigger] again[j]).obs == sightings[j].obs,
    ensures
        ({
            let n = sightings.len() as int;
            let first = listed_pass(lib, first_id, root, sightings, on_disk, then, then_ended, n, false);
            let walked = store_after_walk(lib, sightings, n, on_disk, then);
            let closed = LibraryView {
                files: closed_files(walked.files, root, first.seen, then),
                ..walked
            };
            let second = listed_pass(closed, second_id, root, again, on_disk, now, now_ended, n, false);
            let rewalked = store_after_walk(closed, again, n, on_disk, now);
            &&& none_fails(lib, sightings, n, on_disk, then)
            &&& none_fails(closed, again, n, on_disk, now)
            &&& forall|k: int|
                0 <= k < n ==> fast_match(
                    (#[trigger] store_after_walk(closed, again, k, on_disk, now)).files,
                    again[k].obs,
                ) is Some
            &&& second.status == SessionStatus::Success
            &&& second.stats == (ScanStats {
                added: 0,
                updated: 0,
                moved: 0,
                unchanged: n as u64,
                missing: 0,
            })
            &&& closed_files(rewalked.files, root, second.seen, now) == rewalked.files
        }),
{
    let n = sightings.len() as int;
    let begun = fresh_pass(first_id, root, then);
    let begun_again = fresh_pass(second_id, root, now);
    lemma_clean_walk_settles(lib, sightings, n, on_disk, then);
    law_rescan_is_idempotent(lib, begun, begun_again, sightings, again, on_disk, then, now);
    let walked = store_after_walk(lib, sightings, n, on_disk, then);
    let first = listed_pass(lib, first_id, root, sightings, on_disk, then, then_ended, n, false);
    assert(first.seen == run_after_walk(lib, begun, sightings, n, on_disk, then).seen);
    let closed = LibraryView { files: closed_files(walked.files, root, first.seen, then), ..walked };
    lemma_walk_keeps_session(closed, begun_again, again, n, on_disk, now);
    assert forall|k: int| 0 <= k < n implies fast_match(
        (#[trigger] store_after_walk(closed, again, k, on_disk, now)).files,
        again[k].obs,
    ) is Some by {
        assert(fast_match(
            store_after_walk(closed, again, (k + 1) - 1, on_disk, now).files,
            again[(k + 1) - 1].obs,
        ) is Some);
    }
}

/// Scans a directory that is known by its listing: a pass over `root` is
/// begun, the files of `listing` are handled in turn, and the pass is
/// closed, so that every active record under the root that was not in the
/// listing goes missing. Where a file cannot be settled the pass stops
/// there and is marked failed, and nothing goes missing.
pub fn scan_listing(
    lib: &mut Library,
    session_id: String,
    root: &str,
    listing: &Vec<Listed>,
    on_disk: &Vec<String>,
    now: i64,
    ended_at: i64,
) -> (run: ScanRun)
    ensures
        run.wf(),
        ({
            let all = sightings_of(listing@);
            let disk = paths_on(texts(on_disk@));
            let n = listing@.len() as int;
            if none_fails(old(lib)@, all, n, disk, now) {
                let walked = store_after_walk(old(lib)@, all, n, disk, now);
                &&& run@ == listed_pass(old(lib)@, session_id@, root@, all, disk, now, ended_at, n, false)
                &&& final(lib)@ == (LibraryView {
                    files: closed_files(walked.files, root@, run@.seen, now),
                    ..walked
                })
            } else {
                exists|k: int|
                    0 <= k < n && none_fails(old(lib)@, all, k, disk, now) && visit_fails(
                        #[trigger] store_after_walk(old(lib)@, all, k, disk, now),
                        all[k],
                        disk,
                    ) && run@ == listed_pass(
                        old(lib)@,
                        session_id@,
                        root@,
                        all,
                        disk,
                        now,
                        ended_at,
                        k + 1,
                        true,
                    ) && final(lib)@ == store_after_walk(old(lib)@, all, k, disk, now)
            }
        }),
{
    let ghost all = sightings_of(listing@);
    let ghost disk = paths_on(texts(on_disk@));
    let ghost lib0 = lib@;
    let mut run = ScanRun::begin(session_id, root, now);
    let ghost fresh = run@;
    let ghost n = listing@.len() as int;
    match run.walk(lib, listing, on_disk, now) {
        None => {
            let ghost walked = run@;
            proof {
                lemma_walk_keeps_session(lib0, fresh, all, n, disk, now);
            }
            run.finish(lib, now, ended_at);
            assert(run@ == listed_pass(lib0, session_id@, root@, all, disk, now, ended_at, n, false));
        },
        Some(k) => {
            proof {
                lemma_walk_keeps_session(lib0, fresh, all, k + 1, disk, now);
            }
            run.fail(ended_at);
            assert(!none_fails(lib0, all, n, disk, now)) by {
                let at = store_after_walk(lib0, all, k as int, disk, now);
                assert(visit_fails(at, all[k as int], disk));
            }
            assert(store_after_walk(lib0, all, k + 1, disk, now) == store_after_walk(
                lib0,
                all,
                k as int,
                disk,
                now,
            ));
            assert(run@ == listed_pass(
                lib0,
                session_id@,
                root@,
                all,
                disk,
                now,
                ended_at,
                k + 1,
                true,
            ));
        },
    }
    run
}

} // verus!
