//! The entry store: the table of time entries and its operations.

use crate::entry::{rows_view, EntryView, TimeEntry};
use crate::model::{
    has_open, initialized, is_full, is_latest_open, latest_open, lemma_latest_open_is,
    lemma_started_well_formed, lemma_stopped_well_formed, lemma_well_formed_extends, started,
    stopped, well_formed,
};
use crate::report::{report_of, summarize, totals_view, ProjectTotal};
use vstd::prelude::*;

verus! {

/// The one kind of failure a store reports.
#[derive(Clone, Copy, Debug, PartialEq, Eq)]
pub enum StoreError {
    /// The table cannot be opened, read or written.
    StorageFailure,
}

/// The acknowledgement of a start: the row to persist, without its id.
#[derive(Clone, Debug, PartialEq, Eq)]
pub struct Started {
    pub project: String,
    pub start_time: i64,
}

/// What a stop found and did.
#[derive(Clone, Debug, PartialEq, Eq)]
pub enum StopOutcome {
    /// The row `id` of `project` was closed at `stop_time`, `seconds` after
    /// it had started.
    Stopped { id: i64, project: String, stop_time: i64, seconds: i128 },
    /// No row was open; nothing changed.
    NothingToStop,
}

/// What the storage medium held before the store was opened: no table, or
/// the rows of the table.
pub open spec fn medium_view(existing: Option<Vec<TimeEntry>>) -> Option<Seq<EntryView>> {
    match existing {
        Some(rows) => Some(rows_view(rows@)),
        None => None,
    }
}

/// The table of time entries, in insertion order.
pub struct EntryStore {
    entries: Vec<TimeEntry>,
}

impl View for EntryStore {
    type V = Seq<EntryView>;

    closed spec fn view(&self) -> Seq<EntryView> {
        rows_view(self.entries@)
    }
}

impl EntryStore {
    #[verifier::type_invariant]
    spec fn table_is_well_formed(&self) -> bool {
        well_formed(self@)
    }

    /// An empty table.
    pub fn new() -> (store: EntryStore)
        ensures
            store@ == Seq::<EntryView>::empty(),
            well_formed(store@),
    {
        EntryStore { entries: Vec::new() }
    }

    /// Opens the store over what the storage medium holds. A medium without
    /// the table (`None`) gets an empty one; an existing table is taken over
    /// row by row, and refused if its rows are not well-formed.
    pub fn initialize(existing: Option<Vec<TimeEntry>>) -> (result: Result<EntryStore, StoreError>)
        ensures
            match initialized(medium_view(existing)) {
                Some(rows) => result matches Ok(store) && store@ == rows,
                None => result == Err::<EntryStore, StoreError>(StoreError::StorageFailure),
            },
            result matches Ok(store) ==> well_formed(store@),
    {
        match existing {
            None => Ok(EntryStore::new()),
            Some(rows) => {
                if rows_are_well_formed(&rows) {
                    Ok(EntryStore { entries: rows })
                } else {
                    Err(StoreError::StorageFailure)
                }
            },
        }
    }

    /// The rows, in insertion order.
    pub fn entries(&self) -> (rows: &Vec<TimeEntry>)
        ensures
            rows_view(rows@) == self@,
            well_formed(self@),
    {
        proof {
            use_type_invariant(self);
        }
        &self.entries
    }

    /// The number of rows.
    pub fn len(&self) -> (n: usize)
        ensures
            n == self@.len(),
    {
        self.entries.len()
    }

    /// Inserts an open row for `project` that starts at `now`. The store
    /// assigns the id. Fails, and changes nothing, only when the ids are
    /// used up.
    pub fn start(&mut self, project: String, now: i64) -> (result: Result<Started, StoreError>)
        requires
            project@.len() > 0,
        ensures
            well_formed(final(self)@),
            is_full(old(self)@) ==> {
                &&& result == Err::<Started, StoreError>(StoreError::StorageFailure)
                &&& final(self)@ == old(self)@
            },
            !is_full(old(self)@) ==> {
                &&& final(self)@ == started(old(self)@, project@, now as int)
                &&& result matches Ok(ack)
                &&& ack.project@ == project@
                &&& ack.start_time == now
            },
    {
        proof {
            use_type_invariant(&*self);
        }
        let n: usize = self.entries.len();
        let id: i64 = if n == 0 {
            1
        } else {
            let newest: i64 = self.entries[n - 1].id;
            if newest == i64::MAX {
                return Err(StoreError::StorageFailure);
            }
            newest + 1
        };
        let ack = Started { project: project.clone(), start_time: now };
        let entry = TimeEntry::open(id, project, now);
        let ghost before = self@;
        let mut entries: Vec<TimeEntry> = Vec::new();
        std::mem::swap(&mut entries, &mut self.entries);
        entries.push(entry);
        proof {
            assert(rows_view(entries@) =~= started(before, project@, now as int));
            lemma_started_well_formed(before, project@, now as int);
        }
        self.entries = entries;
        Ok(ack)
    }

    /// Closes the most recent open row at `now` and says which it was and how
    /// long it ran. With no open row the store stays as it is; that is a
    /// normal outcome, not a failure.
    pub fn stop(&mut self, now: i64) -> (outcome: StopOutcome)
        ensures
            well_formed(final(self)@),
            final(self)@ == stopped(old(self)@, now as int),
            has_open(old(self)@) ==> {
                &&& outcome matches StopOutcome::Stopped { id, project, stop_time, seconds }
                &&& id == old(self)@[latest_open(old(self)@)].id
                &&& project@ == old(self)@[latest_open(old(self)@)].project
                &&& stop_time == now
                &&& seconds == now - old(self)@[latest_open(old(self)@)].start_time
            },
            !has_open(old(self)@) ==> {
                &&& outcome == StopOutcome::NothingToStop
                &&& final(self)@ == old(self)@
            },
    {
        proof {
            use_type_invariant(&*self);
        }
        let ghost before = self@;
        match find_latest_open(&self.entries) {
            None => StopOutcome::NothingToStop,
            Some(at) => {
                proof {
                    lemma_latest_open_is(before, at as int);
                }
                let id: i64 = self.entries[at].id;
                let start_time: i64 = self.entries[at].start_time;
                let closed = TimeEntry {
                    id,
                    project: self.entries[at].project.clone(),
                    start_time,
                    stop_time: Some(now),
                };
                let outcome = StopOutcome::Stopped {
                    id,
                    project: self.entries[at].project.clone(),
                    stop_time: now,
                    seconds: now as i128 - start_time as i128,
                };
                let mut entries: Vec<TimeEntry> = Vec::new();
                std::mem::swap(&mut entries, &mut self.entries);
                entries.set(at, closed);
                proof {
                    assert(rows_view(entries@) =~= stopped(before, now as int));
                    lemma_stopped_well_formed(before, now as int);
                }
                self.entries = entries;
                outcome
            },
        }
    }

    /// The seconds tracked per project: one line for each project that has a
    /// closed row, in the order in which the first closed row of each project
    /// stands in the table. Open rows count for nothing.
    pub fn report(&self) -> (totals: Vec<ProjectTotal>)
        ensures
            totals_view(totals@) == report_of(self@),
    {
        proof {
            use_type_invariant(self);
        }
        summarize(&self.entries)
    }
}

/// Finds the most recent open row: the open row with the greatest start time,
/// the last inserted of those that share it.
pub fn find_latest_open(rows: &Vec<TimeEntry>) -> (found: Option<usize>)
    ensures
        match found {
            Some(at) => is_latest_open(rows_view(rows@), at as int),
            None => !has_open(rows_view(rows@)),
        },
{
    let ghost view = rows_view(rows@);
    let mut best: Option<usize> = None;
    let mut i: usize = 0;
    while i < rows.len()
        invariant
            i <= rows.len(),
            view == rows_view(rows@),
            match best {
                Some(b) => {
                    &&& b < i
                    &&& view[b as int].is_open()
                    &&& forall|j: int|
                        0 <= j < i && (#[trigger] view[j]).is_open() ==> {
                            ||| view[j].start_time < view[b as int].start_time
                            ||| (view[j].start_time == view[b as int].start_time && j <= b)
                        }
                },
                None => forall|j: int| 0 <= j < i ==> !(#[trigger] view[j]).is_open(),
            },
        decreases rows.len() - i,
    {
        if rows[i].is_open() {
            let newer = match best {
                Some(b) => rows[i].start_time >= rows[b].start_time,
                None => true,
            };
            if newer {
                best = Some(i);
            }
        }
        i += 1;
    }
    best
}

/// Checks the table's guarantees on rows read from the medium.
pub fn rows_are_well_formed(rows: &Vec<TimeEntry>) -> (ok: bool)
    ensures
        ok == well_formed(rows_view(rows@)),
{
    let ghost view = rows_view(rows@);
    let mut i: usize = 0;
    while i < rows.len()
        invariant
            i <= rows.len(),
            view == rows_view(rows@),
            well_formed(view.take(i as int)),
        decreases rows.len() - i,
    {
        let row = &rows[i];
        assert(view[i as int] == row@);
        if row.id < 1 || row.project.as_str().is_empty() {
            return false;
        }
        if i > 0 && rows[i - 1].id >= row.id {
            assert(view[i - 1].id >= view[i as int].id);
            return false;
        }
        proof {
            lemma_well_formed_extends(view, i as int);
        }
        i += 1;
    }
    assert(view.take(i as int) =~= view);
    true
}

} // verus!
