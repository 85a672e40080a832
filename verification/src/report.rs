//! The report: the seconds tracked per project, summed over closed entries.

use crate::entry::{rows_view, EntryView, TimeEntry};
use crate::model::{
    closed_projects, lemma_closed_projects_complete, lemma_closed_projects_distinct,
    lemma_closed_projects_step, lemma_id_bounds_position, lemma_total_bounded, lemma_total_step,
    lemma_total_zero_without_closed, project_total, well_formed, widest_duration,
};
use vstd::prelude::*;

verus! {

/// One line of the report: a project and the seconds of its closed entries.
#[derive(Clone, Debug, PartialEq, Eq)]
pub struct ProjectTotal {
    pub project: String,
    pub total_seconds: i128,
}

/// The mathematical value of a [`ProjectTotal`].
pub struct TotalView {
    pub project: Seq<char>,
    pub total_seconds: int,
}

impl View for ProjectTotal {
    type V = TotalView;

    open spec fn view(&self) -> TotalView {
        TotalView { project: self.project@, total_seconds: self.total_seconds as int }
    }
}

/// The lines that a vector of totals stands for.
pub open spec fn totals_view(totals: Seq<ProjectTotal>) -> Seq<TotalView> {
    totals.map_values(|t: ProjectTotal| t@)
}

/// The report of a table: one line for each project that has a closed row,
/// in the order of `closed_projects`, with the sum of its closed rows.
pub open spec fn report_of(rows: Seq<EntryView>) -> Seq<TotalView> {
    closed_projects(rows).map_values(
        |project: Seq<char>|
            TotalView { project, total_seconds: project_total(rows, project) },
    )
}

/// An open row leaves the report as it is.
pub proof fn lemma_report_skips_open(rows: Seq<EntryView>, i: int)
    requires
        0 <= i < rows.len(),
        rows[i].is_open(),
    ensures
        report_of(rows.take(i + 1)) == report_of(rows.take(i)),
{
    lemma_closed_projects_step(rows, i);
    let listed = closed_projects(rows.take(i));
    assert forall|k: int| 0 <= k < listed.len() implies report_of(rows.take(i + 1))[k]
        == report_of(rows.take(i))[k] by {
        lemma_total_step(rows, i, listed[k]);
    }
}

/// A closed row of a project that is listed at `at` adds its duration to
/// that line and leaves the other lines as they are.
pub proof fn lemma_report_adds_to_line(rows: Seq<EntryView>, i: int, at: int)
    requires
        0 <= i < rows.len(),
        rows[i].is_closed(),
        0 <= at < closed_projects(rows.take(i)).len(),
        closed_projects(rows.take(i))[at] == rows[i].project,
    ensures
        report_of(rows.take(i + 1)) == report_of(rows.take(i)).update(
            at,
            TotalView {
                project: rows[i].project,
                total_seconds: report_of(rows.take(i))[at].total_seconds + rows[i].duration(),
            },
        ),
{
    lemma_closed_projects_step(rows, i);
    lemma_closed_projects_distinct(rows.take(i));
    let listed = closed_projects(rows.take(i));
    let updated = report_of(rows.take(i)).update(
        at,
        TotalView {
            project: rows[i].project,
            total_seconds: report_of(rows.take(i))[at].total_seconds + rows[i].duration(),
        },
    );
    assert(listed.contains(rows[i].project));
    assert forall|k: int| 0 <= k < listed.len() implies report_of(rows.take(i + 1))[k]
        == updated[k] by {
        lemma_total_step(rows, i, listed[k]);
        if k != at {
            assert(listed[k] != listed[at]);
        }
    }
}

/// A closed row of a project that is not listed yet adds a line at the end
/// with the row's duration.
pub proof fn lemma_report_appends_line(rows: Seq<EntryView>, i: int)
    requires
        0 <= i < rows.len(),
        rows[i].is_closed(),
        !closed_projects(rows.take(i)).contains(rows[i].project),
    ensures
        report_of(rows.take(i + 1)) == report_of(rows.take(i)).push(
            TotalView { project: rows[i].project, total_seconds: rows[i].duration() },
        ),
{
    lemma_closed_projects_step(rows, i);
    lemma_closed_projects_complete(rows.take(i), rows[i].project);
    lemma_total_zero_without_closed(rows.take(i), rows[i].project);
    lemma_total_step(rows, i, rows[i].project);
    let listed = closed_projects(rows.take(i));
    let pushed = report_of(rows.take(i)).push(
        TotalView { project: rows[i].project, total_seconds: rows[i].duration() },
    );
    assert forall|k: int| 0 <= k < listed.len() implies report_of(rows.take(i + 1))[k]
        == pushed[k] by {
        lemma_total_step(rows, i, listed[k]);
        assert(listed.contains(listed[k]));
    }
}

/// Every total of a well-formed table fits 128 bits: the table holds fewer
/// than 2^63 rows, and no row is wider than 2^64 seconds.
pub proof fn lemma_total_fits(rows: Seq<EntryView>, i: int, project: Seq<char>)
    requires
        well_formed(rows),
        0 <= i <= rows.len(),
    ensures
        i128::MIN <= project_total(rows.take(i), project) <= i128::MAX,
{
    let seen = rows.take(i);
    assert forall|k: int| 0 <= k < seen.len() implies (#[trigger] seen[k]).storable() by {
        assert(rows[k].storable());
    }
    lemma_total_bounded(seen, project);
    if rows.len() > 0 {
        lemma_id_bounds_position(rows, 0);
    }
    assert(seen.len() * widest_duration() <= i64::MAX * widest_duration()) by (nonlinear_arith)
        requires
            0 <= seen.len() <= i64::MAX,
    ;
}

/// The position of the first line of `project`, if it has one.
pub fn find_project(totals: &Vec<ProjectTotal>, project: &String) -> (found: Option<usize>)
    ensures
        match found {
            Some(at) => {
                &&& at < totals.len()
                &&& totals[at as int].project@ == project@
                &&& forall|k: int| 0 <= k < at ==> totals[k].project@ != project@
            },
            None => forall|k: int| 0 <= k < totals.len() ==> totals[k].project@ != project@,
        },
{
    let mut k: usize = 0;
    while k < totals.len()
        invariant
            k <= totals.len(),
            forall|m: int| 0 <= m < k ==> totals[m].project@ != project@,
        decreases totals.len() - k,
    {
        if totals[k].project == *project {
            return Some(k);
        }
        k += 1;
    }
    None
}

/// Sums the closed rows per project. Open rows count for nothing, and a
/// table without closed rows gives an empty report.
pub fn summarize(rows: &Vec<TimeEntry>) -> (totals: Vec<ProjectTotal>)
    requires
        well_formed(rows_view(rows@)),
    ensures
        totals_view(totals@) == report_of(rows_view(rows@)),
{
    let ghost view = rows_view(rows@);
    let mut totals: Vec<ProjectTotal> = Vec::new();
    let mut i: usize = 0;
    while i < rows.len()
        invariant
            i <= rows.len(),
            view == rows_view(rows@),
            well_formed(view),
            totals_view(totals@) == report_of(view.take(i as int)),
        decreases rows.len() - i,
    {
        let row = &rows[i];
        let ghost listed = closed_projects(view.take(i as int));
        assert(view[i as int] == row@);
        assert(totals.len() == listed.len()) by {
            assert(totals_view(totals@).len() == report_of(view.take(i as int)).len());
        }
        assert forall|k: int| 0 <= k < totals.len() implies totals[k]@ == report_of(
            view.take(i as int),
        )[k] by {
            assert(totals_view(totals@)[k] == totals[k]@);
        }
        match row.duration() {
            None => {
                proof {
                    lemma_report_skips_open(view, i as int);
                }
            },
            Some(seconds) => {
                match find_project(&totals, &row.project) {
                    Some(at) => {
                        proof {
                            assert(totals[at as int]@ == report_of(view.take(i as int))[at as int]);
                            lemma_report_adds_to_line(view, i as int, at as int);
                            lemma_total_step(view, i as int, row@.project);
                            lemma_total_fits(view, i + 1, row@.project);
                        }
                        let sum: i128 = totals[at].total_seconds + seconds;
                        totals.set(at, ProjectTotal { project: row.project.clone(), total_seconds: sum });
                    },
                    None => {
                        proof {
                            assert(!listed.contains(row@.project)) by {
                                if listed.contains(row@.project) {
                                    let k = listed.index_of(row@.project);
                                    assert(totals[k]@ == report_of(view.take(i as int))[k]);
                                }
                            }
                            lemma_report_appends_line(view, i as int);
                        }
                        totals.push(
                            ProjectTotal { project: row.project.clone(), total_seconds: seconds },
                        );
                    },
                }
            },
        }
        i += 1;
    }
    assert(view.take(i as int) =~= view);
    totals
}

} // verus!
