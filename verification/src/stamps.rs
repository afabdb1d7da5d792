//! Fresh identifiers and the current time.
//!
//! Both come from outside and differ from call to call, so nothing is
//! promised of them beyond their shape. The functions of the library that
//! create rows take identifier and time as arguments; the ones here draw
//! them and pass them on.

use vstd::prelude::*;
use crate::changes::{enqueued, ChangeKind, ChangeQueue, ChangeStatus, PendingChange,
    PendingChangeView};
use crate::records::opt_view;
use crate::scanner::{FreshIds, ScanError, ScanRun, ScanRunView, ScanStats, SessionStatus};

verus! {

/// Trusted: `uuid::Uuid::new_v4`, written out with `to_string`, is a random
/// identifier in hyphenated form, thirty-six characters long. It stops the
/// program if the operating system has no random numbers to give.
#[verifier::external_body]
fn random_id() -> (id: String)
    ensures
        id@.len() == 36,
{
    uuid::Uuid::new_v4().to_string()
}

/// Trusted: `chrono::Utc::now`, read with `timestamp_millis`, is the time
/// in milliseconds since the start of 1970. Nothing is promised of it. It
/// stops the program if the system clock stands before 1970.
#[verifier::external_body]
fn clock_millis() -> (now: i64)
{
    chrono::Utc::now().timestamp_millis()
}

/// Draws the identifiers that settling one file may need.
pub fn draw_ids() -> (ids: FreshIds)
    ensures
        ids.file@.len() == 36,
        ids.item@.len() == 36,
{
    FreshIds { file: random_id(), item: random_id() }
}

/// Opens a scan pass over `root` under a fresh session identifier, started
/// now. `root_exists` says whether the root was found on disk: a root that
/// does not exist is refused before anything else happens. Returns the pass
/// and the time it started at.
pub fn open_scan(root: &str, root_exists: bool) -> (r: Result<(ScanRun, i64), ScanError>)
    ensures
        !root_exists ==> r == Err::<(ScanRun, i64), ScanError>(ScanError::RootMissing),
        root_exists ==> r is Ok && r->Ok_0.0.wf() && r->Ok_0.0@.session_id.len() == 36
            && r->Ok_0.0@ == (ScanRunView {
            session_id: r->Ok_0.0@.session_id,
            root_path: root@,
            started_at: r->Ok_0.1,
            ended_at: None,
            status: SessionStatus::Running,
            entries: Seq::empty(),
            seen: Seq::empty(),
            stats: ScanStats { added: 0, updated: 0, moved: 0, unchanged: 0, missing: 0 },
        }),
{
    if !root_exists {
        return Err(ScanError::RootMissing);
    }
    let now = clock_millis();
    let id = random_id();
    Ok((ScanRun::begin(id, root, now), now))
}

/// The change that [`stage`] enqueues, but for identifier and time.
pub open spec fn drafted(
    id: Seq<char>,
    file_id: Seq<char>,
    kind: ChangeKind,
    from_path: Option<Seq<char>>,
    to_path: Option<Seq<char>>,
    payload: Option<Seq<char>>,
    now: i64,
) -> PendingChangeView {
    PendingChangeView {
        id,
        file_id,
        kind,
        from_path,
        to_path,
        payload,
        status: ChangeStatus::Pending,
        created_at: now,
        applied_at: None,
        error: None,
    }
}

/// Identifier and time that a staged change was given.
#[derive(Debug)]
pub struct Stamp {
    pub id: String,
    pub now: i64,
}

/// Stages a change for a file under a fresh identifier, created now: the
/// queue ends up as after enqueueing that change. Returns the identifier
/// and the time that were drawn.
pub fn stage(
    queue: &mut ChangeQueue,
    file_id: String,
    kind: ChangeKind,
    from_path: Option<String>,
    to_path: Option<String>,
    payload: Option<String>,
) -> (stamp: Stamp)
    ensures
        stamp.id@.len() == 36,
        final(queue)@ == enqueued(
            old(queue)@,
            drafted(
                stamp.id@,
                file_id@,
                kind,
                opt_view(from_path),
                opt_view(to_path),
                opt_view(payload),
                stamp.now,
            ),
        ),
{
    let now = clock_millis();
    let id = random_id();
    let change = PendingChange {
        id: id.clone(),
        file_id,
        kind,
        from_path,
        to_path,
        payload,
        status: ChangeStatus::Pending,
        created_at: now,
        applied_at: None,
        error: None,
    };
    assert(change@ == drafted(
        id@,
        file_id@,
        kind,
        opt_view(from_path),
        opt_view(to_path),
        opt_view(payload),
        now,
    ));
    queue.enqueue(change);
    Stamp { id, now }
}

} // verus!
