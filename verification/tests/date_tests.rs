use harvest::date::{date_le_exec, date_string, days_in_month, enumerate_dates, next_day, Date};

fn d(year: u32, month: u32, day: u32) -> Date {
    Date { year, month, day }
}

#[test]
fn date_coverage_stride_two() {
    let units = enumerate_dates(&d(2024, 1, 1), &d(2024, 1, 5), 2);
    let keys: Vec<String> = units.iter().map(date_string).collect();
    assert_eq!(keys, vec!["2024-01-01", "2024-01-03", "2024-01-05"]);
}

#[test]
fn date_coverage_partial_final_step() {
    let units = enumerate_dates(&d(2024, 1, 1), &d(2024, 1, 4), 2);
    let keys: Vec<String> = units.iter().map(date_string).collect();
    assert_eq!(keys, vec!["2024-01-01", "2024-01-03"]);
}

#[test]
fn date_coverage_stride_one() {
    let units = enumerate_dates(&d(2024, 2, 27), &d(2024, 3, 1), 1);
    let keys: Vec<String> = units.iter().map(date_string).collect();
    assert_eq!(keys, vec!["2024-02-27", "2024-02-28", "2024-02-29", "2024-03-01"]);
}

#[test]
fn single_day_range() {
    let units = enumerate_dates(&d(2024, 6, 15), &d(2024, 6, 15), 7);
    let keys: Vec<String> = units.iter().map(date_string).collect();
    assert_eq!(keys, vec!["2024-06-15"]);
}

#[test]
fn empty_range() {
    let units = enumerate_dates(&d(2024, 6, 16), &d(2024, 6, 15), 1);
    assert!(units.is_empty());
}

#[test]
fn leap_year_rules() {
    assert_eq!(days_in_month(2024, 2), 29);
    assert_eq!(days_in_month(2023, 2), 28);
    assert_eq!(days_in_month(2000, 2), 29);
    assert_eq!(days_in_month(1900, 2), 28);
    assert_eq!(days_in_month(2024, 4), 30);
    assert_eq!(days_in_month(2024, 12), 31);
}

#[test]
fn next_day_rollovers() {
    let n = next_day(&d(2024, 2, 29));
    assert_eq!(date_string(&n), "2024-03-01");
    let n = next_day(&d(2023, 12, 31));
    assert_eq!(date_string(&n), "2024-01-01");
    let n = next_day(&d(2024, 1, 31));
    assert_eq!(date_string(&n), "2024-02-01");
}

#[test]
fn date_key_is_zero_padded() {
    assert_eq!(date_string(&d(987, 3, 7)), "0987-03-07");
}

#[test]
fn date_ordering() {
    assert!(date_le_exec(&d(2023, 12, 31), &d(2024, 1, 1)));
    assert!(date_le_exec(&d(2024, 1, 1), &d(2024, 1, 1)));
    assert!(!date_le_exec(&d(2024, 1, 2), &d(2024, 1, 1)));
}
