use schedule_worker::{
    extract_day_from_datetime, parse_usize, person_id, person_name, transform_to_month_shifts,
    RawShiftDisplayConfig, RawShift, ShiftDisplayConfig,
};

fn shift(start: &str, alias: &str, id: Option<u64>, first: Option<&str>, last: Option<&str>) -> RawShift {
    RawShift {
        start_time: start.to_string(),
        alias: alias.to_string(),
        user_id: id,
        first_name: first.map(|s| s.to_string()),
        last_name: last.map(|s| s.to_string()),
    }
}

fn cell(codes: &[&str]) -> Option<Vec<String>> {
    Some(codes.iter().map(|c| c.to_string()).collect())
}

#[test]
fn rows_match_people_and_days() {
    let shifts = vec![
        shift("2024-02-01 08:00:00", "RATM 8:00AM - 2:00PM", Some(7), Some("Ann"), Some("Lee")),
        shift("2024-02-03 08:00:00", "FT 8:30am - 6:30", Some(3), Some("Bob"), Some("Ray")),
        shift("2024-02-29 08:00:00", "FT 8:30am - 6:30", Some(12), Some("Cy"), None),
    ];
    let out = transform_to_month_shifts("2024-02".to_string(), shifts, &ShiftDisplayConfig::default());
    assert_eq!(out.ym, "2024-02");
    assert_eq!(out.people.len(), 3);
    assert_eq!(out.rows.len(), 3);
    for row in &out.rows {
        assert_eq!(row.len(), 29);
    }
}

#[test]
fn people_sorted_by_id_as_text() {
    let shifts = vec![
        shift("2024-02-01 08:00:00", "A", Some(7), Some("Ann"), Some("Lee")),
        shift("2024-02-01 08:00:00", "A", Some(12), Some("Cy"), None),
        shift("2024-02-01 08:00:00", "A", Some(3), Some("Bob"), Some("Ray")),
    ];
    let out = transform_to_month_shifts("2024-02".to_string(), shifts, &ShiftDisplayConfig::default());
    let ids: Vec<&str> = out.people.iter().map(|p| p.id.as_str()).collect();
    assert_eq!(ids, vec!["12", "3", "7"]);
    let names: Vec<&str> = out.people.iter().map(|p| p.name.as_str()).collect();
    assert_eq!(names, vec!["Cy", "Bob Ray", "Ann Lee"]);
}

#[test]
fn first_seen_name_wins() {
    let shifts = vec![
        shift("2024-03-01 08:00:00", "A", Some(5), Some("Ann"), Some("Lee")),
        shift("2024-03-02 08:00:00", "A", Some(5), Some("Anna"), Some("Leigh")),
    ];
    let out = transform_to_month_shifts("2024-03".to_string(), shifts, &ShiftDisplayConfig::default());
    assert_eq!(out.people.len(), 1);
    assert_eq!(out.people[0].name, "Ann Lee");
}

#[test]
fn double_shift_keeps_both_codes_in_order() {
    let shifts = vec![
        shift("2024-03-05 08:00:00", "RATM 8:00AM - 2:00PM", Some(1), Some("A"), Some("B")),
        shift("2024-03-05 14:00:00", "FT 2:00PM - 8:00PM", Some(1), Some("A"), Some("B")),
    ];
    let out = transform_to_month_shifts("2024-03".to_string(), shifts, &ShiftDisplayConfig::default());
    assert_eq!(out.rows[0][4], cell(&["RATM", "FT"]));
    assert_eq!(out.rows[0][3], None);
    assert_eq!(out.codes, vec!["FT".to_string(), "RATM".to_string()]);
}

#[test]
fn unknown_person_groups_consistently() {
    let shifts = vec![
        shift("2024-03-05 08:00:00", "RATM 8:00AM", None, None, None),
        shift("2024-03-06 08:00:00", "FT", None, None, None),
    ];
    let out = transform_to_month_shifts("2024-03".to_string(), shifts, &ShiftDisplayConfig::default());
    assert_eq!(out.people.len(), 1);
    assert_eq!(out.people[0].id, "Unknown_");
    assert_eq!(out.people[0].name, "Unknown");
    assert_eq!(out.rows[0][4], cell(&["RATM"]));
    assert_eq!(out.rows[0][5], cell(&["FT"]));
}

#[test]
fn bad_days_are_dropped_but_codes_kept() {
    let shifts = vec![
        shift("2024-02-30 08:00:00", "LATE", Some(1), Some("A"), None),
        shift("2024-02-00 08:00:00", "ZERO", Some(1), Some("A"), None),
        shift("garbage", "JUNK", Some(1), Some("A"), None),
        shift("2024-02-10 08:00:00", "OK", Some(1), Some("A"), None),
    ];
    let out = transform_to_month_shifts("2024-02".to_string(), shifts, &ShiftDisplayConfig::default());
    assert_eq!(
        out.codes,
        vec!["JUNK".to_string(), "LATE".to_string(), "OK".to_string(), "ZERO".to_string()]
    );
    let filled: Vec<usize> = (0..29).filter(|d| out.rows[0][*d].is_some()).collect();
    assert_eq!(filled, vec![9]);
    assert_eq!(out.rows[0][9], cell(&["OK"]));
}

#[test]
fn shift_names_resolved_last_wins() {
    let cfg = ShiftDisplayConfig::from_raw(RawShiftDisplayConfig {
        aliases: vec![("ratm".to_string(), "RAT".to_string())],
        labels: vec![("RATX".to_string(), "Special".to_string())],
    });
    let shifts = vec![
        shift("2024-03-01 08:00:00", "RATM 8:00AM - 2:00PM", Some(1), Some("A"), None),
        shift("2024-03-02 08:00:00", "RATM", Some(1), Some("A"), None),
        shift("2024-03-02 08:00:00", "RATX", Some(2), Some("B"), None),
    ];
    let out = transform_to_month_shifts("2024-03".to_string(), shifts, &cfg);
    assert_eq!(out.codes, vec!["RAT".to_string(), "RATX".to_string()]);
    assert_eq!(out.shift_names.get("RAT"), Some(&"RAT".to_string()));
    assert_eq!(out.shift_names.get("RATX"), Some(&"Special".to_string()));
    assert_eq!(out.shift_names.len(), 2);
    assert_eq!(out.rows[0][1], cell(&["RAT"]));
}

#[test]
fn blank_alias_is_placed_but_not_listed() {
    let shifts = vec![shift("2024-03-01 08:00:00", "  ", Some(1), Some("A"), None)];
    let out = transform_to_month_shifts("2024-03".to_string(), shifts, &ShiftDisplayConfig::default());
    assert!(out.codes.is_empty());
    assert_eq!(out.shift_names.len(), 0);
    assert_eq!(out.rows[0][0], cell(&[""]));
}

#[test]
fn empty_input_gives_empty_grid() {
    let out = transform_to_month_shifts("2024-03".to_string(), Vec::new(), &ShiftDisplayConfig::default());
    assert!(out.people.is_empty());
    assert!(out.rows.is_empty());
    assert!(out.codes.is_empty());
}

#[test]
fn day_extraction() {
    assert_eq!(extract_day_from_datetime("2024-03-05 08:00:00"), Some(5));
    assert_eq!(extract_day_from_datetime("  2024-03-17T08"), None);
    assert_eq!(extract_day_from_datetime("2024-03-+9 08:00"), Some(9));
    assert_eq!(extract_day_from_datetime("2024-03"), None);
    assert_eq!(extract_day_from_datetime("2024-03-05-01"), None);
    assert_eq!(extract_day_from_datetime(""), None);
    assert_eq!(extract_day_from_datetime("2024-03-x"), None);
}

#[test]
fn usize_parsing_matches_std() {
    for text in ["0", "42", "+7", "+", "", "-1", "12a", "18446744073709551615", "18446744073709551616", "007"] {
        assert_eq!(parse_usize(text), text.parse::<usize>().ok(), "{}", text);
    }
}

#[test]
fn person_identity() {
    let s = shift("x", "a", Some(1234567890123), Some("Ann"), Some("Lee"));
    assert_eq!(person_id(&s), "1234567890123");
    let s = shift("x", "a", None, Some("Ann"), Some("Lee"));
    assert_eq!(person_id(&s), "Ann_Lee");
    assert_eq!(person_name(&s), "Ann Lee");
    let s = shift("x", "a", None, Some(""), Some(""));
    assert_eq!(person_id(&s), "_");
    assert_eq!(person_name(&s), "");
    let s = shift("x", "a", None, None, Some("Lee"));
    assert_eq!(person_id(&s), "Unknown_Lee");
    assert_eq!(person_name(&s), "Unknown Lee");
}
