use time_tracking::entry::TimeEntry;
use time_tracking::message::report_line;
use time_tracking::report::{find_project, summarize, ProjectTotal};

fn closed(id: i64, project: &str, seconds: i64) -> TimeEntry {
    TimeEntry {
        id,
        project: project.to_string(),
        start_time: 1_700_000_000,
        stop_time: Some(1_700_000_000 + seconds),
    }
}

fn hours(total_seconds: i128) -> String {
    format!("{:.2}", total_seconds as f64 / 3600.0)
}

#[test]
fn summarize_three_closed_entries() {
    let rows = vec![closed(1, "A", 100), closed(2, "A", 200), closed(3, "B", 50)];
    let totals = summarize(&rows);
    assert_eq!(
        totals,
        vec![
            ProjectTotal { project: "A".to_string(), total_seconds: 300 },
            ProjectTotal { project: "B".to_string(), total_seconds: 50 },
        ]
    );
}

#[test]
fn summarize_renders_as_hours_with_two_decimals() {
    let rows = vec![closed(1, "A", 100), closed(2, "A", 200), closed(3, "B", 50)];
    let totals = summarize(&rows);
    let lines: Vec<String> = totals
        .iter()
        .map(|t| report_line(&t.project, &hours(t.total_seconds)))
        .collect();
    assert_eq!(lines, vec!["- A: 0.08 hours".to_string(), "- B: 0.01 hours".to_string()]);
}

#[test]
fn summarize_empty_table() {
    assert!(summarize(&vec![]).is_empty());
}

#[test]
fn summarize_one_hour_and_a_half() {
    let rows = vec![closed(1, "deep work", 3600), closed(2, "deep work", 1800)];
    let totals = summarize(&rows);
    assert_eq!(totals.len(), 1);
    assert_eq!(totals[0].total_seconds, 5400);
    assert_eq!(report_line(&totals[0].project, &hours(totals[0].total_seconds)), "- deep work: 1.50 hours");
}

#[test]
fn find_project_by_name() {
    let totals = vec![
        ProjectTotal { project: "A".to_string(), total_seconds: 1 },
        ProjectTotal { project: "B".to_string(), total_seconds: 2 },
        ProjectTotal { project: "A".to_string(), total_seconds: 3 },
    ];
    assert_eq!(find_project(&totals, &"A".to_string()), Some(0));
    assert_eq!(find_project(&totals, &"B".to_string()), Some(1));
    assert_eq!(find_project(&totals, &"C".to_string()), None);
    assert_eq!(find_project(&vec![], &"A".to_string()), None);
}
