use time_tracking::entry::TimeEntry;
use time_tracking::report::ProjectTotal;
use time_tracking::store::{
    find_latest_open, rows_are_well_formed, EntryStore, Started, StopOutcome, StoreError,
};

fn entry(id: i64, project: &str, start_time: i64, stop_time: Option<i64>) -> TimeEntry {
    TimeEntry { id, project: project.to_string(), start_time, stop_time }
}

fn total(project: &str, total_seconds: i128) -> ProjectTotal {
    ProjectTotal { project: project.to_string(), total_seconds }
}

fn store_of(rows: Vec<TimeEntry>) -> EntryStore {
    match EntryStore::initialize(Some(rows)) {
        Ok(store) => store,
        Err(_) => panic!("rows were refused"),
    }
}

#[test]
fn new_store_is_empty() {
    let store = EntryStore::new();
    assert_eq!(store.len(), 0);
    assert!(store.entries().is_empty());
    assert!(store.report().is_empty());
}

#[test]
fn initialize_without_table_gives_empty_store() {
    let store = EntryStore::initialize(None);
    assert!(matches!(&store, Ok(s) if s.len() == 0));
}

#[test]
fn initialize_keeps_existing_rows() {
    let rows = vec![
        entry(1, "alpha", 100, Some(160)),
        entry(2, "beta", 200, None),
        entry(5, "alpha", 300, Some(310)),
    ];
    let store = store_of(rows.clone());
    assert_eq!(store.entries(), &rows);
}

#[test]
fn initialize_twice_neither_loses_nor_duplicates_rows() {
    let rows = vec![entry(1, "alpha", 100, Some(160)), entry(2, "beta", 200, None)];
    let first = store_of(rows.clone());
    let second = store_of(first.entries().clone());
    assert_eq!(second.entries(), &rows);
    assert_eq!(second.len(), 2);
    let third = store_of(second.entries().clone());
    assert_eq!(third.entries(), first.entries());
}

#[test]
fn initialize_refuses_repeated_id() {
    let rows = vec![entry(1, "alpha", 100, None), entry(1, "beta", 200, None)];
    assert!(matches!(EntryStore::initialize(Some(rows)), Err(StoreError::StorageFailure)));
}

#[test]
fn initialize_refuses_descending_ids() {
    let rows = vec![entry(2, "alpha", 100, None), entry(1, "beta", 200, None)];
    assert!(matches!(EntryStore::initialize(Some(rows)), Err(StoreError::StorageFailure)));
}

#[test]
fn initialize_refuses_id_below_one() {
    let rows = vec![entry(0, "alpha", 100, None)];
    assert!(matches!(EntryStore::initialize(Some(rows)), Err(StoreError::StorageFailure)));
    let rows = vec![entry(-3, "alpha", 100, None), entry(4, "beta", 100, None)];
    assert!(matches!(EntryStore::initialize(Some(rows)), Err(StoreError::StorageFailure)));
}

#[test]
fn initialize_refuses_empty_project() {
    let rows = vec![entry(1, "alpha", 100, None), entry(2, "", 200, None)];
    assert!(matches!(EntryStore::initialize(Some(rows)), Err(StoreError::StorageFailure)));
}

#[test]
fn rows_are_well_formed_agrees_with_initialize() {
    assert!(rows_are_well_formed(&vec![]));
    assert!(rows_are_well_formed(&vec![entry(1, "a", 0, None), entry(9, "a", -5, Some(-9))]));
    assert!(!rows_are_well_formed(&vec![entry(3, "a", 0, None), entry(3, "b", 0, None)]));
    assert!(!rows_are_well_formed(&vec![entry(3, "", 0, None)]));
}

#[test]
fn start_appends_an_open_row_with_the_next_id() {
    let mut store = EntryStore::new();
    let ack = store.start("alpha".to_string(), 1000);
    assert_eq!(ack, Ok(Started { project: "alpha".to_string(), start_time: 1000 }));
    assert_eq!(store.entries(), &vec![entry(1, "alpha", 1000, None)]);

    let ack = store.start("beta".to_string(), 1005);
    assert_eq!(ack, Ok(Started { project: "beta".to_string(), start_time: 1005 }));
    assert_eq!(
        store.entries(),
        &vec![entry(1, "alpha", 1000, None), entry(2, "beta", 1005, None)]
    );
}

#[test]
fn start_continues_after_the_newest_id() {
    let mut store = store_of(vec![entry(3, "alpha", 10, Some(20)), entry(7, "beta", 30, None)]);
    assert!(store.start("gamma".to_string(), 40).is_ok());
    assert_eq!(store.entries()[2], entry(8, "gamma", 40, None));
}

#[test]
fn start_allows_several_open_rows_of_one_project() {
    let mut store = EntryStore::new();
    assert!(store.start("alpha".to_string(), 10).is_ok());
    assert!(store.start("alpha".to_string(), 20).is_ok());
    assert_eq!(
        store.entries(),
        &vec![entry(1, "alpha", 10, None), entry(2, "alpha", 20, None)]
    );
}

#[test]
fn start_fails_when_ids_are_used_up() {
    let rows = vec![entry(i64::MAX, "alpha", 10, None)];
    let mut store = store_of(rows.clone());
    assert_eq!(store.start("beta".to_string(), 20), Err(StoreError::StorageFailure));
    assert_eq!(store.entries(), &rows);
}

#[test]
fn start_succeeds_just_below_the_last_id() {
    let mut store = store_of(vec![entry(i64::MAX - 1, "alpha", 10, None)]);
    assert!(store.start("beta".to_string(), 20).is_ok());
    assert_eq!(store.entries()[1].id, i64::MAX);
}

#[test]
fn stop_closes_the_open_row() {
    let mut store = EntryStore::new();
    assert!(store.start("alpha".to_string(), 1000).is_ok());
    let outcome = store.stop(1250);
    assert_eq!(
        outcome,
        StopOutcome::Stopped { id: 1, project: "alpha".to_string(), stop_time: 1250, seconds: 250 }
    );
    assert_eq!(store.entries(), &vec![entry(1, "alpha", 1000, Some(1250))]);
}

#[test]
fn stop_without_open_row_changes_nothing() {
    let mut store = EntryStore::new();
    assert_eq!(store.stop(500), StopOutcome::NothingToStop);
    assert_eq!(store.len(), 0);

    let rows = vec![entry(1, "alpha", 100, Some(160)), entry(2, "beta", 200, Some(210))];
    let mut store = store_of(rows.clone());
    assert_eq!(store.stop(500), StopOutcome::NothingToStop);
    assert_eq!(store.entries(), &rows);
}

#[test]
fn stop_closes_the_most_recent_of_two_open_rows() {
    let mut store = EntryStore::new();
    assert!(store.start("early".to_string(), 100).is_ok());
    assert!(store.start("late".to_string(), 200).is_ok());
    let outcome = store.stop(260);
    assert_eq!(
        outcome,
        StopOutcome::Stopped { id: 2, project: "late".to_string(), stop_time: 260, seconds: 60 }
    );
    assert_eq!(
        store.entries(),
        &vec![entry(1, "early", 100, None), entry(2, "late", 200, Some(260))]
    );
}

#[test]
fn stop_goes_by_start_time_not_by_insertion_order() {
    let mut store = store_of(vec![
        entry(1, "late", 900, None),
        entry(2, "early", 100, None),
        entry(3, "closed", 950, Some(960)),
    ]);
    let outcome = store.stop(1000);
    assert_eq!(
        outcome,
        StopOutcome::Stopped { id: 1, project: "late".to_string(), stop_time: 1000, seconds: 100 }
    );
    assert_eq!(store.entries()[0].stop_time, Some(1000));
    assert_eq!(store.entries()[1].stop_time, None);
    assert_eq!(store.entries()[2].stop_time, Some(960));
}

#[test]
fn stop_on_equal_start_times_closes_the_last_inserted() {
    let mut store = store_of(vec![
        entry(1, "first", 100, None),
        entry(2, "second", 100, None),
        entry(3, "older", 50, None),
    ]);
    let outcome = store.stop(130);
    assert_eq!(
        outcome,
        StopOutcome::Stopped { id: 2, project: "second".to_string(), stop_time: 130, seconds: 30 }
    );
}

#[test]
fn stop_twice_closes_the_next_open_row() {
    let mut store = EntryStore::new();
    assert!(store.start("alpha".to_string(), 100).is_ok());
    assert!(store.start("beta".to_string(), 200).is_ok());
    assert!(matches!(store.stop(300), StopOutcome::Stopped { id: 2, seconds: 100, .. }));
    assert!(matches!(store.stop(400), StopOutcome::Stopped { id: 1, seconds: 300, .. }));
    assert_eq!(store.stop(500), StopOutcome::NothingToStop);
    assert_eq!(
        store.entries(),
        &vec![entry(1, "alpha", 100, Some(400)), entry(2, "beta", 200, Some(300))]
    );
}

#[test]
fn stop_before_start_gives_a_negative_duration() {
    let mut store = store_of(vec![entry(1, "alpha", 1000, None)]);
    let outcome = store.stop(400);
    assert_eq!(
        outcome,
        StopOutcome::Stopped { id: 1, project: "alpha".to_string(), stop_time: 400, seconds: -600 }
    );
}

#[test]
fn stop_duration_is_exact_at_the_ends_of_the_range() {
    let mut store = store_of(vec![entry(1, "alpha", i64::MIN, None)]);
    let outcome = store.stop(i64::MAX);
    assert_eq!(
        outcome,
        StopOutcome::Stopped {
            id: 1,
            project: "alpha".to_string(),
            stop_time: i64::MAX,
            seconds: 18446744073709551615,
        }
    );
    let mut store = store_of(vec![entry(1, "alpha", i64::MAX, None)]);
    assert!(matches!(
        store.stop(i64::MIN),
        StopOutcome::Stopped { seconds: -18446744073709551615, .. }
    ));
}

#[test]
fn find_latest_open_names_the_row() {
    assert_eq!(find_latest_open(&vec![]), None);
    assert_eq!(find_latest_open(&vec![entry(1, "a", 5, Some(6))]), None);
    let rows = vec![
        entry(1, "a", 5, None),
        entry(2, "b", 9, Some(10)),
        entry(3, "c", 7, None),
        entry(4, "d", 7, None),
        entry(5, "e", 6, None),
    ];
    assert_eq!(find_latest_open(&rows), Some(3));
}

#[test]
fn entry_duration_is_stop_minus_start() {
    assert_eq!(entry(1, "a", 100, Some(350)).duration(), Some(250));
    assert_eq!(entry(1, "a", 100, Some(100)).duration(), Some(0));
    assert_eq!(entry(1, "a", 100, Some(40)).duration(), Some(-60));
    assert_eq!(entry(1, "a", 100, None).duration(), None);
    assert!(entry(1, "a", 100, None).is_open());
    assert!(!entry(1, "a", 100, Some(101)).is_open());
}

#[test]
fn entry_open_has_no_stop_time() {
    let fresh = TimeEntry::open(4, "alpha".to_string(), 77);
    assert_eq!(fresh, entry(4, "alpha", 77, None));
}

#[test]
fn round_trip_start_stop_report() {
    let mut store = EntryStore::new();
    assert!(store.start("X".to_string(), 5000).is_ok());
    let outcome = store.stop(5420);
    assert!(matches!(outcome, StopOutcome::Stopped { seconds: 420, .. }));
    assert_eq!(store.report(), vec![total("X", 420)]);
}

#[test]
fn round_trip_adds_to_an_earlier_total() {
    let mut store = store_of(vec![entry(1, "X", 0, Some(30)), entry(2, "Y", 40, Some(50))]);
    assert!(store.start("X".to_string(), 100).is_ok());
    assert!(matches!(store.stop(170), StopOutcome::Stopped { id: 3, seconds: 70, .. }));
    assert_eq!(store.report(), vec![total("X", 100), total("Y", 10)]);
}

#[test]
fn report_sums_closed_rows_per_project() {
    let store = store_of(vec![
        entry(1, "A", 1000, Some(1100)),
        entry(2, "A", 2000, Some(2200)),
        entry(3, "B", 3000, Some(3050)),
    ]);
    assert_eq!(store.report(), vec![total("A", 300), total("B", 50)]);
}

#[test]
fn report_lists_each_project_once() {
    let store = store_of(vec![
        entry(1, "B", 0, Some(1)),
        entry(2, "A", 0, Some(2)),
        entry(3, "B", 0, Some(4)),
        entry(4, "C", 0, Some(8)),
        entry(5, "A", 0, Some(16)),
        entry(6, "B", 0, Some(32)),
    ]);
    assert_eq!(store.report(), vec![total("B", 37), total("A", 18), total("C", 8)]);
}

#[test]
fn report_ignores_open_rows() {
    let store = store_of(vec![
        entry(1, "A", 10, None),
        entry(2, "B", 20, Some(25)),
        entry(3, "B", 30, None),
    ]);
    assert_eq!(store.report(), vec![total("B", 5)]);
}

#[test]
fn report_without_closed_rows_is_empty() {
    let store = store_of(vec![entry(1, "A", 10, None), entry(2, "B", 20, None)]);
    assert!(store.report().is_empty());
}

#[test]
fn report_keeps_negative_and_zero_totals() {
    let store = store_of(vec![
        entry(1, "A", 100, Some(40)),
        entry(2, "B", 7, Some(7)),
        entry(3, "A", 100, Some(130)),
    ]);
    assert_eq!(store.report(), vec![total("A", -30), total("B", 0)]);
}

#[test]
fn report_totals_beyond_sixty_four_bits_are_exact() {
    let store = store_of(vec![
        entry(1, "A", i64::MIN, Some(i64::MAX)),
        entry(2, "A", i64::MIN, Some(i64::MAX)),
        entry(3, "A", 0, Some(2)),
    ]);
    assert_eq!(store.report(), vec![total("A", 36893488147419103232)]);
}

#[test]
fn report_tells_projects_apart_by_their_exact_name() {
    let store = store_of(vec![
        entry(1, "a", 0, Some(1)),
        entry(2, "A", 0, Some(2)),
        entry(3, "a ", 0, Some(4)),
    ]);
    assert_eq!(store.report(), vec![total("a", 1), total("A", 2), total("a ", 4)]);
}
