//! The entry table as a mathematical sequence of rows, and what each
//! operation of the store does to it.
//!
//! Rows stand in insertion order. Everything here is specification: the
//! executable store states its contracts over these functions.

use crate::entry::EntryView;
use vstd::prelude::*;

verus! {

/// What the table guarantees of its rows: every number is storable, ids are
/// positive and grow strictly with insertion order (hence are unique), and no
/// project name is empty.
pub open spec fn well_formed(rows: Seq<EntryView>) -> bool {
    &&& forall|i: int|
        0 <= i < rows.len() ==> {
            &&& (#[trigger] rows[i]).storable()
            &&& rows[i].id >= 1
            &&& rows[i].project.len() > 0
        }
    &&& forall|i: int, j: int|
        0 <= i < j < rows.len() ==> (#[trigger] rows[i]).id < (#[trigger] rows[j]).id
}

/// The table after the store was opened over what the medium held: a medium
/// without the table gets an empty one, a well-formed table is kept as it
/// is, and any other table is refused (`None`).
pub open spec fn initialized(existing: Option<Seq<EntryView>>) -> Option<Seq<EntryView>> {
    match existing {
        None => Some(Seq::empty()),
        Some(rows) => if well_formed(rows) {
            Some(rows)
        } else {
            None
        },
    }
}

/// The id the next inserted row receives: one more than the newest row's.
pub open spec fn next_id(rows: Seq<EntryView>) -> int {
    if rows.len() == 0 {
        1
    } else {
        rows.last().id + 1
    }
}

/// No further row can be inserted: the ids are used up.
pub open spec fn is_full(rows: Seq<EntryView>) -> bool {
    next_id(rows) > i64::MAX
}

/// The table after a start: one more open row at the end.
pub open spec fn started(rows: Seq<EntryView>, project: Seq<char>, now: int) -> Seq<EntryView> {
    rows.push(EntryView { id: next_id(rows), project, start_time: now, stop_time: None })
}

/// Some row is open.
pub open spec fn has_open(rows: Seq<EntryView>) -> bool {
    exists|i: int| 0 <= i < rows.len() && (#[trigger] rows[i]).is_open()
}

/// Row `i` is the most recent open row: it is open, no open row started
/// later, and of the open rows that started at the same second it was
/// inserted last.
pub open spec fn is_latest_open(rows: Seq<EntryView>, i: int) -> bool {
    &&& 0 <= i < rows.len()
    &&& rows[i].is_open()
    &&& forall|j: int|
        0 <= j < rows.len() && (#[trigger] rows[j]).is_open() ==> {
            ||| rows[j].start_time < rows[i].start_time
            ||| (rows[j].start_time == rows[i].start_time && j <= i)
        }
}

/// The index of the most recent open row, where one exists.
pub open spec fn latest_open(rows: Seq<EntryView>) -> int {
    choose|i: int| is_latest_open(rows, i)
}

/// The table after a stop at `now`: the most recent open row is closed, and
/// a table without open rows stays as it is.
pub open spec fn stopped(rows: Seq<EntryView>, now: int) -> Seq<EntryView> {
    if has_open(rows) {
        rows.update(latest_open(rows), rows[latest_open(rows)].closed_at(now))
    } else {
        rows
    }
}

/// What a row adds to the total of `project`: its duration if it is closed
/// and belongs to the project, nothing otherwise.
pub open spec fn contribution(row: EntryView, project: Seq<char>) -> int {
    if row.is_closed() && row.project == project {
        row.duration()
    } else {
        0
    }
}

/// The sum of the durations of the closed rows of `project`.
pub open spec fn project_total(rows: Seq<EntryView>, project: Seq<char>) -> int
    decreases rows.len(),
{
    if rows.len() == 0 {
        0
    } else {
        project_total(rows.drop_last(), project) + contribution(rows.last(), project)
    }
}

/// Some closed row belongs to `project`.
pub open spec fn has_closed(rows: Seq<EntryView>, project: Seq<char>) -> bool {
    exists|i: int|
        0 <= i < rows.len() && (#[trigger] rows[i]).is_closed() && rows[i].project == project
}

/// The projects that have a closed row, each once, in the order in which
/// their first closed row was inserted.
pub open spec fn closed_projects(rows: Seq<EntryView>) -> Seq<Seq<char>>
    decreases rows.len(),
{
    if rows.len() == 0 {
        Seq::empty()
    } else {
        let earlier = closed_projects(rows.drop_last());
        if rows.last().is_closed() && !earlier.contains(rows.last().project) {
            earlier.push(rows.last().project)
        } else {
            earlier
        }
    }
}

/// Where some row is open, `latest_open` names the most recent open row.
pub proof fn lemma_latest_open_exists(rows: Seq<EntryView>)
    requires
        has_open(rows),
    ensures
        is_latest_open(rows, latest_open(rows)),
    decreases rows.len(),
{
    let last = rows.len() - 1;
    let front = rows.drop_last();
    if exists|i: int| 0 <= i < front.len() && (#[trigger] front[i]).is_open() {
        lemma_latest_open_exists(front);
        let k = latest_open(front);
        if rows[last].is_open() && rows[last].start_time >= rows[k].start_time {
            assert(is_latest_open(rows, last)) by {
                assert forall|j: int| 0 <= j < rows.len() && (#[trigger] rows[j]).is_open() implies {
                    ||| rows[j].start_time < rows[last].start_time
                    ||| (rows[j].start_time == rows[last].start_time && j <= last)
                } by {
                    if j < last {
                        assert(front[j].is_open());
                    }
                }
            }
        } else {
            assert(is_latest_open(rows, k)) by {
                assert forall|j: int| 0 <= j < rows.len() && (#[trigger] rows[j]).is_open() implies {
                    ||| rows[j].start_time < rows[k].start_time
                    ||| (rows[j].start_time == rows[k].start_time && j <= k)
                } by {
                    if j < last {
                        assert(front[j].is_open());
                    }
                }
            }
        }
    } else {
        let w = choose|i: int| 0 <= i < rows.len() && (#[trigger] rows[i]).is_open();
        if w < last {
            assert(front[w].is_open());
        }
        assert(is_latest_open(rows, last)) by {
            assert forall|j: int| 0 <= j < rows.len() && (#[trigger] rows[j]).is_open() implies {
                ||| rows[j].start_time < rows[last].start_time
                ||| (rows[j].start_time == rows[last].start_time && j <= last)
            } by {
                if j < last {
                    assert(front[j].is_open());
                }
            }
        }
    }
}

/// At most one row is the most recent open row.
pub proof fn lemma_latest_open_unique(rows: Seq<EntryView>, i: int, j: int)
    requires
        is_latest_open(rows, i),
        is_latest_open(rows, j),
    ensures
        i == j,
{
}

/// A row that is the most recent open one is the one that `latest_open` names.
pub proof fn lemma_latest_open_is(rows: Seq<EntryView>, i: int)
    requires
        is_latest_open(rows, i),
    ensures
        has_open(rows),
        latest_open(rows) == i,
{
    lemma_latest_open_unique(rows, i, latest_open(rows));
}

/// In a well-formed table a row's id is at least its position counted from
/// one, so the table holds no more rows than there are ids.
pub proof fn lemma_id_bounds_position(rows: Seq<EntryView>, i: int)
    requires
        well_formed(rows),
        0 <= i < rows.len(),
    ensures
        rows[i].id >= i + 1,
        rows.len() <= rows.last().id <= i64::MAX,
{
    lemma_id_grows(rows, i);
    lemma_id_grows(rows, rows.len() - 1);
}

proof fn lemma_id_grows(rows: Seq<EntryView>, i: int)
    requires
        well_formed(rows),
        0 <= i < rows.len(),
    ensures
        rows[i].id >= i + 1,
    decreases i,
{
    if i > 0 {
        lemma_id_grows(rows, i - 1);
    }
}

/// One more row changes a project's total by that row's contribution.
pub proof fn lemma_total_step(rows: Seq<EntryView>, i: int, project: Seq<char>)
    requires
        0 <= i < rows.len(),
    ensures
        project_total(rows.take(i + 1), project) == project_total(rows.take(i), project)
            + contribution(rows[i], project),
{
    assert(rows.take(i + 1).drop_last() =~= rows.take(i));
}

/// One more row adds its project to the listed ones if it is closed and the
/// project was not listed yet, and changes nothing otherwise.
pub proof fn lemma_closed_projects_step(rows: Seq<EntryView>, i: int)
    requires
        0 <= i < rows.len(),
    ensures
        closed_projects(rows.take(i + 1)) == if rows[i].is_closed() && !closed_projects(
            rows.take(i),
        ).contains(rows[i].project) {
            closed_projects(rows.take(i)).push(rows[i].project)
        } else {
            closed_projects(rows.take(i))
        },
{
    assert(rows.take(i + 1).drop_last() =~= rows.take(i));
}

/// A project is listed exactly when one of its rows is closed.
pub proof fn lemma_closed_projects_complete(rows: Seq<EntryView>, project: Seq<char>)
    ensures
        closed_projects(rows).contains(project) <==> has_closed(rows, project),
    decreases rows.len(),
{
    if rows.len() > 0 {
        let front = rows.drop_last();
        let last = rows.len() - 1;
        lemma_closed_projects_complete(front, project);
        lemma_closed_projects_complete(front, rows.last().project);
        let listed = closed_projects(rows);
        let earlier = closed_projects(front);
        if has_closed(rows, project) {
            let w = choose|i: int|
                0 <= i < rows.len() && (#[trigger] rows[i]).is_closed() && rows[i].project
                    == project;
            if w < last {
                assert(front[w].is_closed() && front[w].project == project);
                let k = choose|k: int| 0 <= k < earlier.len() && earlier[k] == project;
                assert(listed[k] == project);
            } else if !earlier.contains(project) {
                assert(listed[earlier.len() as int] == project);
            }
        }
        if listed.contains(project) && !earlier.contains(project) {
            assert(rows[last].is_closed() && rows[last].project == project);
        }
    }
}

/// No project is listed twice.
pub proof fn lemma_closed_projects_distinct(rows: Seq<EntryView>)
    ensures
        closed_projects(rows).no_duplicates(),
    decreases rows.len(),
{
    if rows.len() > 0 {
        lemma_closed_projects_distinct(rows.drop_last());
    }
}

/// A project without a closed row has the total zero.
pub proof fn lemma_total_zero_without_closed(rows: Seq<EntryView>, project: Seq<char>)
    requires
        !has_closed(rows, project),
    ensures
        project_total(rows, project) == 0,
    decreases rows.len(),
{
    if rows.len() > 0 {
        let front = rows.drop_last();
        assert(!rows.last().is_closed() || rows.last().project != project);
        assert forall|i: int| 0 <= i < front.len() && (#[trigger] front[i]).is_closed() implies front[i].project
            != project by {
            assert(front[i] == rows[i]);
        }
        lemma_total_zero_without_closed(front, project);
    }
}

/// The greatest distance between two storable times.
pub open spec fn widest_duration() -> int {
    i64::MAX - i64::MIN
}

/// A total of storable rows is at most one widest duration per row away
/// from zero.
pub proof fn lemma_total_bounded(rows: Seq<EntryView>, project: Seq<char>)
    requires
        forall|i: int| 0 <= i < rows.len() ==> (#[trigger] rows[i]).storable(),
    ensures
        -(rows.len() * widest_duration()) <= project_total(rows, project) <= rows.len()
            * widest_duration(),
    decreases rows.len(),
{
    if rows.len() > 0 {
        let front = rows.drop_last();
        assert forall|i: int| 0 <= i < front.len() implies (#[trigger] front[i]).storable() by {
            assert(rows[i].storable());
        }
        lemma_total_bounded(front, project);
        assert(rows.last().storable());
        assert(rows.len() * widest_duration() == front.len() * widest_duration()
            + widest_duration()) by (nonlinear_arith)
            requires
                rows.len() == front.len() + 1,
        ;
    }
}

/// A well-formed beginning of a table stays well-formed with the next row,
/// if that row is storable, has a positive id above its predecessor's, and
/// names a project.
pub proof fn lemma_well_formed_extends(rows: Seq<EntryView>, i: int)
    requires
        0 <= i < rows.len(),
        well_formed(rows.take(i)),
        rows[i].storable(),
        rows[i].id >= 1,
        rows[i].project.len() > 0,
        i > 0 ==> rows[i - 1].id < rows[i].id,
    ensures
        well_formed(rows.take(i + 1)),
{
    let shorter = rows.take(i);
    let longer = rows.take(i + 1);
    assert forall|a: int, b: int| 0 <= a < b < longer.len() implies (#[trigger] longer[a]).id < (
    #[trigger] longer[b]).id by {
        assert(longer[a] == shorter[a]);
        if b < i {
            assert(longer[b] == shorter[b]);
        } else if a < i - 1 {
            assert(shorter[a].id < shorter[i - 1].id);
        }
    }
    assert forall|a: int| 0 <= a < longer.len() implies {
        &&& (#[trigger] longer[a]).storable()
        &&& longer[a].id >= 1
        &&& longer[a].project.len() > 0
    } by {
        if a < i {
            assert(longer[a] == shorter[a]);
        }
    }
}

/// A start keeps the table well-formed as long as an id is left and the new
/// row is storable.
pub proof fn lemma_started_well_formed(rows: Seq<EntryView>, project: Seq<char>, now: int)
    requires
        well_formed(rows),
        !is_full(rows),
        project.len() > 0,
        i64::MIN <= now <= i64::MAX,
    ensures
        well_formed(started(rows, project, now)),
{
    let after = started(rows, project, now);
    assert forall|i: int, j: int| 0 <= i < j < after.len() implies (#[trigger] after[i]).id < (
    #[trigger] after[j]).id by {
        assert(after[i] == rows[i]);
        if j == rows.len() {
            assert(rows[i].id <= rows.last().id);
        } else {
            assert(after[j] == rows[j]);
        }
    }
    assert forall|i: int| 0 <= i < after.len() implies {
        &&& (#[trigger] after[i]).storable()
        &&& after[i].id >= 1
        &&& after[i].project.len() > 0
    } by {
        if i < rows.len() {
            assert(after[i] == rows[i]);
        } else if rows.len() > 0 {
            assert(rows.last().storable());
        }
    }
}

/// A stop at a storable time keeps the table well-formed.
pub proof fn lemma_stopped_well_formed(rows: Seq<EntryView>, now: int)
    requires
        well_formed(rows),
        i64::MIN <= now <= i64::MAX,
    ensures
        well_formed(stopped(rows, now)),
{
    let after = stopped(rows, now);
    if has_open(rows) {
        lemma_latest_open_exists(rows);
        assert forall|i: int| 0 <= i < after.len() implies {
            &&& (#[trigger] after[i]).storable()
            &&& after[i].id == rows[i].id
            &&& after[i].id >= 1
            &&& after[i].project.len() > 0
        } by {
            assert(rows[i].storable());
        }
    }
}

} // verus!
