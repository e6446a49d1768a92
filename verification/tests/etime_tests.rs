use runmat_runtime::etime::{checked_days_from_civil, days_from_civil, invalid_input};

fn day_seconds(y: i64, mo: i64, d: i64, h: i64, mi: i64, s: i64) -> i64 {
    days_from_civil(y, mo, d) * 86_400 + h * 3600 + mi * 60 + s
}

#[test]
fn observed_one_second_elapsed() {
    assert_eq!(day_seconds(2020, 1, 1, 0, 0, 1) - day_seconds(2020, 1, 1, 0, 0, 0), 1);
}

#[test]
fn unresolved_choice_negative_when_t2_before_t1() {
    assert_eq!(day_seconds(2020, 1, 1, 0, 0, 0) - day_seconds(2020, 1, 1, 0, 0, 1), -1);
}

#[test]
fn unresolved_choice_cross_day_span() {
    assert_eq!(day_seconds(2020, 1, 2, 1, 0, 0) - day_seconds(2020, 1, 1, 0, 0, 0), 90_000);
}

#[test]
fn unresolved_choice_cross_year_span() {
    assert_eq!(days_from_civil(2022, 1, 1) - days_from_civil(2021, 1, 1), 365);
    assert_eq!(days_from_civil(2021, 1, 1) - days_from_civil(2020, 1, 1), 366);
}

#[test]
fn unix_epoch_is_day_zero() {
    assert_eq!(days_from_civil(1970, 1, 1), 0);
    assert_eq!(days_from_civil(1969, 12, 31), -1);
    assert_eq!(days_from_civil(2000, 3, 1), 11_017);
}

#[test]
fn month_overflow_rolls_into_next_year() {
    assert_eq!(days_from_civil(2020, 13, 1), days_from_civil(2021, 1, 1));
    assert_eq!(days_from_civil(2020, 1, 32), days_from_civil(2020, 2, 1));
}

#[test]
fn invalid_input_error_names_etime() {
    let e = invalid_input("etime: expected two date vectors".to_string());
    assert!(e.message.contains("etime"));
    assert_eq!(e.identifier.as_deref(), Some("RunMat:etime:InvalidInput"));
}

#[test]
fn day_count_reaches_far_years_and_refuses_overflow() {
    assert_eq!(checked_days_from_civil(10_000_000_000_000_000, 3, 1), Some(3_652_424_999_999_280_532));
    assert_eq!(days_from_civil(10_000_000_000_000_000, 3, 1), 3_652_424_999_999_280_532);
    assert_eq!(checked_days_from_civil(2000, 3, 1), Some(11_017));
    assert_eq!(checked_days_from_civil(i64::MAX, 1, 1), None);
    assert_eq!(checked_days_from_civil(i64::MIN, 3, 1), None);
    assert_eq!(checked_days_from_civil(2000, i64::MAX, 1), None);
    assert_eq!(checked_days_from_civil(2000, 3, i64::MAX), None);
}
