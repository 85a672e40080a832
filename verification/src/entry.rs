//! The time entry: one tracked work session for a project.

use vstd::prelude::*;

verus! {

/// One row of the entry table.
///
/// An entry is *open* while `stop_time` is absent and *closed* once it is
/// present. Times are whole seconds since the Unix epoch.
#[derive(Clone, Debug, PartialEq, Eq)]
pub struct TimeEntry {
    pub id: i64,
    pub project: String,
    pub start_time: i64,
    pub stop_time: Option<i64>,
}

/// The mathematical value of a [`TimeEntry`].
pub struct EntryView {
    pub id: int,
    pub project: Seq<char>,
    pub start_time: int,
    pub stop_time: Option<int>,
}

impl EntryView {
    /// The stop time has not been recorded yet.
    pub open spec fn is_open(self) -> bool {
        self.stop_time is None
    }

    /// Both times are recorded.
    pub open spec fn is_closed(self) -> bool {
        self.stop_time is Some
    }

    /// Seconds from start to stop; meaningful for a closed entry.
    pub open spec fn duration(self) -> int {
        self.stop_time->0 - self.start_time
    }

    /// The same entry with its stop time recorded as `at`.
    pub open spec fn closed_at(self, at: int) -> EntryView {
        EntryView { stop_time: Some(at), ..self }
    }

    /// Every number of the entry fits the 64-bit integers the table stores.
    pub open spec fn storable(self) -> bool {
        &&& i64::MIN <= self.id <= i64::MAX
        &&& i64::MIN <= self.start_time <= i64::MAX
        &&& self.stop_time matches Some(t) ==> i64::MIN <= t <= i64::MAX
    }
}

impl View for TimeEntry {
    type V = EntryView;

    open spec fn view(&self) -> EntryView {
        EntryView {
            id: self.id as int,
            project: self.project@,
            start_time: self.start_time as int,
            stop_time: match self.stop_time {
                Some(t) => Some(t as int),
                None => None,
            },
        }
    }
}

/// The rows that a vector of entries stands for.
pub open spec fn rows_view(entries: Seq<TimeEntry>) -> Seq<EntryView> {
    entries.map_values(|e: TimeEntry| e@)
}

impl TimeEntry {
    /// A fresh open entry.
    pub fn open(id: i64, project: String, start_time: i64) -> (entry: TimeEntry)
        ensures
            entry@ == (EntryView {
                id: id as int,
                project: project@,
                start_time: start_time as int,
                stop_time: None,
            }),
    {
        TimeEntry { id, project, start_time, stop_time: None }
    }

    /// Whether the entry still waits for its stop time.
    pub fn is_open(&self) -> (open: bool)
        ensures
            open == self@.is_open(),
    {
        self.stop_time.is_none()
    }

    /// The exact number of seconds between start and stop of a closed entry,
    /// `None` for an open one. The difference of two 64-bit times always
    /// fits the 128-bit result.
    pub fn duration(&self) -> (seconds: Option<i128>)
        ensures
            match seconds {
                Some(s) => self@.is_closed() && s == self@.duration(),
                None => self@.is_open(),
            },
    {
        match self.stop_time {
            Some(stop) => Some(stop as i128 - self.start_time as i128),
            None => None,
        }
    }
}

} // verus!
