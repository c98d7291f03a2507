use stats::charts::{NewVerifiedContracts, NEW_VERIFIED_CONTRACTS_AFTER, NEW_VERIFIED_CONTRACTS_FULL};
use stats::date::{Date, DateValue};
use stats::registry::{ChartType, Registry, RegistryError};

#[test]
fn calendar_dates_are_checked() {
    assert!(Date::from_ymd(2022, 11, 10).is_some());
    assert!(Date::from_ymd(2024, 2, 29).is_some());
    assert!(Date::from_ymd(2000, 2, 29).is_some());
    assert!(Date::from_ymd(2023, 2, 29).is_none());
    assert!(Date::from_ymd(1900, 2, 29).is_none());
    assert!(Date::from_ymd(2023, 4, 31).is_none());
    assert!(Date::from_ymd(2023, 13, 1).is_none());
    assert!(Date::from_ymd(2023, 0, 1).is_none());
    assert!(Date::from_ymd(2023, 1, 0).is_none());
    assert!(Date::from_ymd(2023, 12, 31).is_some());
}

#[test]
fn dates_are_ordered_by_day() {
    let a = Date::from_ymd(2022, 11, 30).unwrap();
    let b = Date::from_ymd(2022, 12, 1).unwrap();
    let c = Date::from_ymd(2023, 1, 1).unwrap();
    assert!(b.is_after(&a));
    assert!(c.is_after(&b));
    assert!(!a.is_after(&a));
    assert!(!a.is_after(&c));
    assert_eq!(a.key(), 2022 * 65536 + 11 * 256 + 30);
}

#[test]
fn registry_refuses_a_second_name() {
    let mut registry = Registry::new();
    assert!(registry.register("newVerifiedContracts".to_string(), ChartType::Line).is_ok());
    let r = registry.register("newVerifiedContracts".to_string(), ChartType::Counter);
    assert!(matches!(r, Err(RegistryError::DuplicateName(n)) if n == "newVerifiedContracts"));
    assert_eq!(registry.len(), 1);
    let s = registry.get(&"newVerifiedContracts".to_string()).unwrap();
    assert_eq!(s.kind, ChartType::Line);
    assert!(registry.get(&"other".to_string()).is_none());
    assert!(registry.register("totalBlocks".to_string(), ChartType::Counter).is_ok());
    let names: Vec<&str> = registry.all().iter().map(|s| s.name.as_str()).collect();
    assert_eq!(names, vec!["newVerifiedContracts", "totalBlocks"]);
}

#[test]
fn new_verified_contracts_chart() {
    let chart = NewVerifiedContracts::default();
    assert_eq!(chart.name(), "newVerifiedContracts");
    assert_eq!(chart.chart_type(), ChartType::Line);
    let s = chart.statistic();
    assert_eq!(s.name, "newVerifiedContracts");
    assert_eq!(s.kind, ChartType::Line);
    let full = chart.values_query(None);
    assert_eq!(full.sql, NEW_VERIFIED_CONTRACTS_FULL);
    assert!(full.after.is_none());
    let last = DateValue::new(Date::from_ymd(2022, 11, 11).unwrap(), "2".to_string());
    let after = chart.values_query(Some(&last));
    assert_eq!(after.sql, NEW_VERIFIED_CONTRACTS_AFTER);
    assert!(after.sql.contains("DATE(b.timestamp) > $1"));
    assert_eq!(after.after, Date::from_ymd(2022, 11, 11));
}
