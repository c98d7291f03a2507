use stats::charts::NewVerifiedContracts;
use stats::date::{Date, DateValue};
use stats::engine::{
    apply_all, apply_fetched, resume_point, select_after, update_from_source, FetchError,
    UpdateError,
};
use stats::registry::{ChartType, Registry};
use stats::store::SeriesStore;

fn day(s: &str) -> Date {
    let parts: Vec<&str> = s.split('-').collect();
    Date::from_ymd(
        parts[0].parse().unwrap(),
        parts[1].parse().unwrap(),
        parts[2].parse().unwrap(),
    )
    .unwrap()
}

fn points(values: &[(&str, &str)]) -> Vec<DateValue> {
    values
        .iter()
        .map(|(d, v)| DateValue::new(day(d), v.to_string()))
        .collect()
}

fn rows(store: &SeriesStore, name: &str) -> Vec<(Date, String)> {
    store
        .rows(&name.to_string())
        .into_iter()
        .map(|r| (r.date, r.value))
        .collect()
}

fn expected(values: &[(&str, &str)]) -> Vec<(Date, String)> {
    values.iter().map(|(d, v)| (day(d), v.to_string())).collect()
}

#[test]
fn update_new_verified_contracts() {
    let chart = NewVerifiedContracts::default();
    let name = chart.name().to_string();
    let source = points(&[("2022-11-10", "1"), ("2022-11-11", "2")]);
    let mut store = SeriesStore::new();
    update_from_source(&mut store, &name, &source, false);
    assert_eq!(
        rows(&store, "newVerifiedContracts"),
        expected(&[("2022-11-10", "1"), ("2022-11-11", "2")])
    );
}

#[test]
fn new_rows_are_appended_and_old_ones_kept() {
    let name = "newVerifiedContracts".to_string();
    let mut source = points(&[("2022-11-10", "1"), ("2022-11-11", "2")]);
    let mut store = SeriesStore::new();
    update_from_source(&mut store, &name, &source, false);
    assert_eq!(
        rows(&store, "newVerifiedContracts"),
        expected(&[("2022-11-10", "1"), ("2022-11-11", "2")])
    );
    source.push(DateValue::new(day("2022-11-12"), "5".to_string()));
    assert_eq!(resume_point(&store, &name, false), Some(day("2022-11-11")));
    update_from_source(&mut store, &name, &source, false);
    assert_eq!(
        rows(&store, "newVerifiedContracts"),
        expected(&[("2022-11-10", "1"), ("2022-11-11", "2"), ("2022-11-12", "5")])
    );
}

#[test]
fn two_incremental_updates_give_the_same_series() {
    let name = "txns".to_string();
    let source = points(&[("2023-01-02", "7"), ("2023-01-01", "3"), ("2023-01-03", "4")]);
    let mut store = SeriesStore::new();
    update_from_source(&mut store, &name, &source, false);
    let first = rows(&store, "txns");
    update_from_source(&mut store, &name, &source, false);
    assert_eq!(rows(&store, "txns"), first);
    assert_eq!(
        first,
        expected(&[("2023-01-01", "3"), ("2023-01-02", "7"), ("2023-01-03", "4")])
    );
}

#[test]
fn incremental_after_full_adds_nothing() {
    let name = "txns".to_string();
    let source = points(&[("2023-01-01", "3"), ("2023-01-02", "7")]);
    let mut store = SeriesStore::new();
    update_from_source(&mut store, &name, &source, true);
    let first = rows(&store, "txns");
    let resume = resume_point(&store, &name, false);
    assert_eq!(resume, Some(day("2023-01-02")));
    assert!(select_after(&source, resume).is_empty());
    update_from_source(&mut store, &name, &source, false);
    assert_eq!(rows(&store, "txns"), first);
}

#[test]
fn full_recompute_overwrites_revised_values() {
    let name = "txns".to_string();
    let mut store = SeriesStore::new();
    update_from_source(&mut store, &name, &points(&[("2023-01-01", "3"), ("2023-01-02", "7")]), false);
    let revised = points(&[("2023-01-01", "30"), ("2023-01-02", "70")]);
    update_from_source(&mut store, &name, &revised, false);
    assert_eq!(rows(&store, "txns"), expected(&[("2023-01-01", "3"), ("2023-01-02", "7")]));
    update_from_source(&mut store, &name, &revised, true);
    assert_eq!(rows(&store, "txns"), expected(&[("2023-01-01", "30"), ("2023-01-02", "70")]));
}

#[test]
fn failed_fetch_writes_nothing() {
    let name = "txns".to_string();
    let mut store = SeriesStore::new();
    update_from_source(&mut store, &name, &points(&[("2023-01-01", "3")]), false);
    let r = apply_fetched(&mut store, &name, Err(FetchError::Source("timeout".to_string())));
    match r {
        Err(UpdateError::SourceFailure { name: n, error: FetchError::Source(m) }) => {
            assert_eq!(n, "txns");
            assert_eq!(m, "timeout");
        }
        other => panic!("unexpected outcome {:?}", other),
    }
    assert_eq!(rows(&store, "txns"), expected(&[("2023-01-01", "3")]));
}

#[test]
fn duplicate_dates_in_an_answer_are_rejected() {
    let name = "txns".to_string();
    let mut store = SeriesStore::new();
    let answer = points(&[("2023-01-01", "3"), ("2023-01-02", "1"), ("2023-01-01", "4")]);
    let r = apply_fetched(&mut store, &name, Ok(answer));
    match r {
        Err(UpdateError::SourceFailure { name: n, error: FetchError::DuplicateDate(d) }) => {
            assert_eq!(n, "txns");
            assert_eq!(d, day("2023-01-01"));
        }
        other => panic!("unexpected outcome {:?}", other),
    }
    assert!(rows(&store, "txns").is_empty());
}

#[test]
fn empty_answer_changes_nothing() {
    let name = "txns".to_string();
    let mut store = SeriesStore::new();
    assert!(apply_fetched(&mut store, &name, Ok(Vec::new())).is_ok());
    assert!(store.latest(&name).is_none());
    update_from_source(&mut store, &name, &points(&[("2023-01-01", "3")]), false);
    assert!(apply_fetched(&mut store, &name, Ok(Vec::new())).is_ok());
    assert_eq!(rows(&store, "txns"), expected(&[("2023-01-01", "3")]));
}

#[test]
fn overlapping_upserts_keep_one_row_per_date() {
    let name = "txns".to_string();
    let mut store = SeriesStore::new();
    store.upsert(&name, &points(&[("2023-01-02", "2"), ("2023-01-01", "1")]));
    store.upsert(&name, &points(&[("2023-01-02", "20"), ("2023-01-03", "3")]));
    store.upsert(&name, &points(&[("2023-01-02", "20"), ("2023-01-03", "3")]));
    assert_eq!(
        rows(&store, "txns"),
        expected(&[("2023-01-01", "1"), ("2023-01-02", "20"), ("2023-01-03", "3")])
    );
    let latest = store.latest(&name).unwrap();
    assert_eq!(latest.date, day("2023-01-03"));
    assert_eq!(latest.value, "3");
}

#[test]
fn statistics_keep_separate_series() {
    let mut store = SeriesStore::new();
    store.upsert(&"a".to_string(), &points(&[("2023-01-01", "1")]));
    store.upsert(&"b".to_string(), &points(&[("2023-01-01", "9"), ("2023-01-05", "8")]));
    assert_eq!(rows(&store, "a"), expected(&[("2023-01-01", "1")]));
    assert_eq!(resume_point(&store, &"a".to_string(), false), Some(day("2023-01-01")));
    assert_eq!(resume_point(&store, &"b".to_string(), false), Some(day("2023-01-05")));
    assert_eq!(resume_point(&store, &"b".to_string(), true), None);
    assert_eq!(resume_point(&store, &"c".to_string(), false), None);
}

#[test]
fn resume_boundary_is_exclusive() {
    let source = points(&[("2023-01-01", "1"), ("2023-01-02", "2"), ("2023-01-03", "3")]);
    let after = select_after(&source, Some(day("2023-01-02")));
    assert_eq!(after.len(), 1);
    assert_eq!(after[0].date, day("2023-01-03"));
    assert_eq!(select_after(&source, None).len(), 3);
    assert!(select_after(&source, Some(day("2023-01-03"))).is_empty());
}

#[test]
fn batch_reports_one_outcome_per_statistic() {
    let mut registry = Registry::new();
    registry.register("a".to_string(), ChartType::Line).unwrap();
    registry.register("b".to_string(), ChartType::Counter).unwrap();
    registry.register("c".to_string(), ChartType::Line).unwrap();
    let mut store = SeriesStore::new();
    let fetched = vec![
        Ok(points(&[("2023-01-01", "1")])),
        Err(FetchError::Source("down".to_string())),
        Ok(points(&[("2023-01-02", "2")])),
    ];
    let outcomes = apply_all(&mut store, &registry, fetched);
    assert_eq!(outcomes.len(), 3);
    assert!(outcomes[0].is_ok());
    assert!(matches!(&outcomes[1], Err(UpdateError::SourceFailure { name, .. }) if name == "b"));
    assert!(outcomes[2].is_ok());
    assert_eq!(rows(&store, "a"), expected(&[("2023-01-01", "1")]));
    assert!(rows(&store, "b").is_empty());
    assert_eq!(rows(&store, "c"), expected(&[("2023-01-02", "2")]));
}
