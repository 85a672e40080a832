//! What holds of the store's operations taken together, proved over the
//! table model.

use crate::entry::EntryView;
use crate::model::{
    closed_projects, contribution, has_closed, has_open, initialized, is_full, is_latest_open,
    latest_open, lemma_closed_projects_complete, lemma_closed_projects_distinct,
    lemma_latest_open_exists, lemma_latest_open_is, lemma_started_well_formed,
    lemma_stopped_well_formed, lemma_total_zero_without_closed, next_id, project_total, started,
    stopped, well_formed,
};
use crate::report::{report_of, TotalView};
use vstd::prelude::*;

verus! {

/// Opening the store again over the table that an earlier opening left gives
/// that same table: no row is lost, none is added, and the table is not
/// created a second time. A medium without the table gets an empty one.
pub proof fn theorem_initialize_is_idempotent(existing: Option<Seq<EntryView>>)
    ensures
        initialized(existing) matches Some(rows) ==> initialized(Some(rows)) == Some(rows),
        existing matches Some(rows) ==> (initialized(existing) matches Some(kept) ==> kept
            == rows),
        existing is None ==> initialized(existing) == Some(Seq::<EntryView>::empty()),
{
}

/// A start changes no row that is already there: it only adds one open row
/// at the end.
pub proof fn theorem_start_keeps_rows(rows: Seq<EntryView>, project: Seq<char>, now: int)
    ensures
        started(rows, project, now).len() == rows.len() + 1,
        forall|i: int| 0 <= i < rows.len() ==> started(rows, project, now)[i] == rows[i],
        started(rows, project, now).last().is_open(),
        started(rows, project, now).last().project == project,
        started(rows, project, now).last().start_time == now,
{
}

/// A stop changes at most the stop time of one open row: ids, projects and
/// start times stay, closed rows stay closed with their stop time, and no row
/// is added or removed.
pub proof fn theorem_stop_keeps_rows(rows: Seq<EntryView>, now: int)
    ensures
        stopped(rows, now).len() == rows.len(),
        forall|i: int|
            0 <= i < rows.len() ==> {
                &&& (#[trigger] stopped(rows, now)[i]).id == rows[i].id
                &&& stopped(rows, now)[i].project == rows[i].project
                &&& stopped(rows, now)[i].start_time == rows[i].start_time
                &&& rows[i].is_closed() ==> stopped(rows, now)[i] == rows[i]
            },
{
    if has_open(rows) {
        lemma_latest_open_exists(rows);
    }
}

/// A stop on a table without an open row leaves the table as it is.
pub proof fn theorem_stop_without_open_changes_nothing(rows: Seq<EntryView>, now: int)
    requires
        !has_open(rows),
    ensures
        stopped(rows, now) == rows,
{
}

/// Of two open rows, a stop never closes the one that started earlier. Where
/// the later one is the most recent open row, the stop closes exactly it.
pub proof fn theorem_stop_closes_most_recent(
    rows: Seq<EntryView>,
    earlier: int,
    later: int,
    now: int,
)
    requires
        0 <= earlier < rows.len(),
        0 <= later < rows.len(),
        rows[earlier].is_open(),
        rows[later].is_open(),
        rows[earlier].start_time < rows[later].start_time,
    ensures
        latest_open(rows) != earlier,
        stopped(rows, now)[earlier] == rows[earlier],
        stopped(rows, now)[earlier].is_open(),
        is_latest_open(rows, later) ==> stopped(rows, now) == rows.update(
            later,
            rows[later].closed_at(now),
        ),
{
    lemma_latest_open_exists(rows);
    if is_latest_open(rows, later) {
        lemma_latest_open_is(rows, later);
    }
}

/// The row that a stop closes gets the duration `now - start_time` exactly,
/// which is not negative where the clock did not run backwards.
pub proof fn theorem_stop_records_exact_duration(rows: Seq<EntryView>, now: int)
    requires
        has_open(rows),
    ensures
        stopped(rows, now)[latest_open(rows)].is_closed(),
        stopped(rows, now)[latest_open(rows)].duration() == now - rows[latest_open(
            rows,
        )].start_time,
        now >= rows[latest_open(rows)].start_time ==> stopped(rows, now)[latest_open(
            rows,
        )].duration() >= 0,
{
    lemma_latest_open_exists(rows);
}

/// The report lists a project exactly when one of its rows is closed, lists
/// it once, and gives it the sum of the durations of its closed rows.
pub proof fn theorem_report_lists_each_project_once(rows: Seq<EntryView>)
    ensures
        forall|k: int, l: int|
            0 <= k < l < report_of(rows).len() ==> (#[trigger] report_of(rows)[k]).project != (
            #[trigger] report_of(rows)[l]).project,
        forall|k: int|
            0 <= k < report_of(rows).len() ==> {
                &&& has_closed(rows, (#[trigger] report_of(rows)[k]).project)
                &&& report_of(rows)[k].total_seconds == project_total(
                    rows,
                    report_of(rows)[k].project,
                )
            },
        forall|project: Seq<char>| #[trigger]
            has_closed(rows, project) ==> exists|k: int|
                0 <= k < report_of(rows).len() && (#[trigger] report_of(rows)[k]).project
                    == project,
        !(exists|i: int| 0 <= i < rows.len() && (#[trigger] rows[i]).is_closed()) ==> report_of(
            rows,
        ) == Seq::<TotalView>::empty(),
{
    let listed = closed_projects(rows);
    let lines = report_of(rows);
    lemma_closed_projects_distinct(rows);
    assert forall|k: int| 0 <= k < lines.len() implies has_closed(
        rows,
        (#[trigger] lines[k]).project,
    ) by {
        lemma_closed_projects_complete(rows, listed[k]);
    }
    assert forall|project: Seq<char>| #[trigger] has_closed(rows, project) implies exists|k: int|
        0 <= k < lines.len() && (#[trigger] lines[k]).project == project by {
        lemma_closed_projects_complete(rows, project);
        let k = choose|k: int| 0 <= k < listed.len() && listed[k] == project;
        assert(lines[k].project == project);
    }
    if listed.len() > 0 {
        lemma_closed_projects_complete(rows, listed[0]);
    }
}

/// A start of `project` followed by a stop closes the row just started,
/// provided no open row of the table started later than it. The report then
/// lists `project`, and the project's total has grown by exactly the time
/// between the start and the stop; for a project without earlier closed rows
/// the total is that time.
pub proof fn theorem_start_stop_report_round_trip(
    rows: Seq<EntryView>,
    project: Seq<char>,
    start_time: int,
    stop_time: int,
)
    requires
        forall|i: int|
            0 <= i < rows.len() && (#[trigger] rows[i]).is_open() ==> rows[i].start_time
                <= start_time,
    ensures
        ({
            let after = stopped(started(rows, project, start_time), stop_time);
            &&& after == rows.push(
                EntryView { id: next_id(rows), project, start_time, stop_time: Some(stop_time) },
            )
            &&& has_closed(after, project)
            &&& project_total(after, project) == project_total(rows, project) + (stop_time
                - start_time)
            &&& !has_closed(rows, project) ==> project_total(after, project) == stop_time
                - start_time
            &&& exists|k: int|
                0 <= k < report_of(after).len() && #[trigger] report_of(after)[k] == (TotalView {
                    project,
                    total_seconds: project_total(rows, project) + (stop_time - start_time),
                })
        }),
{
    let running = started(rows, project, start_time);
    let newest = rows.len() as int;
    assert(is_latest_open(running, newest)) by {
        assert forall|j: int| 0 <= j < newest && (#[trigger] running[j]).is_open() implies running[j].start_time
            <= start_time by {
            assert(running[j] == rows[j]);
        }
    }
    lemma_latest_open_is(running, newest);
    let after = stopped(running, stop_time);
    assert(after.drop_last() =~= rows);
    if !has_closed(rows, project) {
        lemma_total_zero_without_closed(rows, project);
    }
    lemma_closed_projects_complete(after, project);
    let listed = closed_projects(after);
    let k = choose|k: int| 0 <= k < listed.len() && listed[k] == project;
    assert(report_of(after)[k] == (TotalView {
        project,
        total_seconds: project_total(rows, project) + (stop_time - start_time),
    }));
}

/// Whatever a start and a stop do to a well-formed table, they keep it
/// well-formed.
pub proof fn theorem_operations_keep_table_well_formed(
    rows: Seq<EntryView>,
    project: Seq<char>,
    now: int,
)
    requires
        well_formed(rows),
        i64::MIN <= now <= i64::MAX,
    ensures
        well_formed(stopped(rows, now)),
        !is_full(rows) && project.len() > 0 ==> well_formed(started(rows, project, now)),
{
    lemma_stopped_well_formed(rows, now);
    if !is_full(rows) && project.len() > 0 {
        lemma_started_well_formed(rows, project, now);
    }
}

} // verus!
