use schedule_worker::{days_in_month, get_month_bounds, is_valid_ym, month_days, parse_ym};

#[test]
fn february_of_leap_year_has_29_days() {
    assert_eq!(days_in_month("2024-02"), 29);
}

#[test]
fn february_of_common_year_has_28_days() {
    assert_eq!(days_in_month("2023-02"), 28);
}

#[test]
fn february_2100_is_not_leap() {
    assert_eq!(days_in_month("2100-02"), 28);
    assert_eq!(days_in_month("2000-02"), 29);
}

#[test]
fn december_rolls_over_to_next_year() {
    assert_eq!(days_in_month("2024-12"), 31);
    assert_eq!(month_days(2023, 12), 31);
}

#[test]
fn thirty_day_months() {
    assert_eq!(days_in_month("2024-04"), 30);
    assert_eq!(days_in_month("2024-06"), 30);
    assert_eq!(days_in_month("2024-09"), 30);
    assert_eq!(days_in_month("2024-11"), 30);
    assert_eq!(days_in_month("2024-01"), 31);
}

#[test]
fn invalid_ym_values_are_rejected() {
    assert!(!is_valid_ym("2024-13"));
    assert!(!is_valid_ym("abcd-01"));
    assert!(!is_valid_ym("2024-1"));
    assert!(!is_valid_ym("2024-00"));
    assert!(!is_valid_ym("1999-12"));
    assert!(!is_valid_ym("2101-01"));
    assert!(!is_valid_ym("2024/01"));
    assert!(!is_valid_ym(""));
    assert!(!is_valid_ym("+024-01"));
}

#[test]
fn valid_ym_values_are_accepted() {
    assert!(is_valid_ym("2000-01"));
    assert!(is_valid_ym("2100-12"));
    assert!(is_valid_ym("2024-07"));
    assert_eq!(parse_ym("2024-07"), Some((2024, 7)));
    assert_eq!(parse_ym("2024-7"), None);
}

#[test]
fn month_bounds_span_the_month() {
    assert_eq!(
        get_month_bounds("2024-02"),
        Some(("2024-02-01".to_string(), "2024-02-29".to_string()))
    );
    assert_eq!(
        get_month_bounds("2023-12"),
        Some(("2023-12-01".to_string(), "2023-12-31".to_string()))
    );
    assert_eq!(get_month_bounds("2024-13"), None);
}
