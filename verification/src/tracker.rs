//! Starting and stopping at the present moment: the store's operations with
//! the time read from the wall clock.

use crate::model::{has_open, is_full, latest_open, started, stopped, well_formed};
use crate::store::{EntryStore, Started, StopOutcome, StoreError};
use vstd::prelude::*;

verus! {

/// The present moment in whole seconds since the Unix epoch.
///
/// Calls `chrono::Local::now` and `DateTime::timestamp` on its result. The
/// value depends on the machine's clock, so nothing is claimed of it. chrono
/// itself gives up with a panic where the clock stands before the epoch.
#[verifier::external_body]
fn wall_clock_seconds() -> i64 {
    chrono::Local::now().timestamp()
}

/// Starts tracking `project` now: inserts an open row whose start time is the
/// clock's reading, which the acknowledgement carries. Fails, and changes
/// nothing, only when the ids are used up.
pub fn start_tracking(store: &mut EntryStore, project: String) -> (result: Result<
    Started,
    StoreError,
>)
    requires
        project@.len() > 0,
    ensures
        well_formed(final(store)@),
        is_full(old(store)@) ==> {
            &&& result == Err::<Started, StoreError>(StoreError::StorageFailure)
            &&& final(store)@ == old(store)@
        },
        !is_full(old(store)@) ==> {
            &&& result matches Ok(ack)
            &&& ack.project@ == project@
            &&& final(store)@ == started(old(store)@, project@, ack.start_time as int)
        },
{
    let now: i64 = wall_clock_seconds();
    store.start(project, now)
}

/// Stops tracking now: closes the most recent open row with the clock's
/// reading as its stop time, which the outcome carries together with the
/// exact seconds since the row's start. With no open row nothing changes.
pub fn stop_tracking(store: &mut EntryStore) -> (outcome: StopOutcome)
    ensures
        well_formed(final(store)@),
        has_open(old(store)@) ==> {
            &&& outcome matches StopOutcome::Stopped { id, project, stop_time, seconds }
            &&& final(store)@ == stopped(old(store)@, stop_time as int)
            &&& id == old(store)@[latest_open(old(store)@)].id
            &&& project@ == old(store)@[latest_open(old(store)@)].project
            &&& seconds == stop_time - old(store)@[latest_open(old(store)@)].start_time
        },
        !has_open(old(store)@) ==> {
            &&& outcome == StopOutcome::NothingToStop
            &&& final(store)@ == old(store)@
        },
{
    let now: i64 = wall_clock_seconds();
    store.stop(now)
}

} // verus!
