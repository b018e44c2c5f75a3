use schedule_worker::{
    extract_shift_code, RawShiftDisplayConfig, ShiftDisplayConfig, ShiftStylingConfig,
};

fn pairs(items: &[(&str, &str)]) -> Vec<(String, String)> {
    items
        .iter()
        .map(|(k, v)| (k.to_string(), v.to_string()))
        .collect()
}

fn config(aliases: &[(&str, &str)], labels: &[(&str, &str)]) -> ShiftDisplayConfig {
    ShiftDisplayConfig::from_raw(RawShiftDisplayConfig {
        aliases: pairs(aliases),
        labels: pairs(labels),
    })
}

#[test]
fn shift_code_strips_time_range() {
    let cfg = ShiftDisplayConfig::default();
    assert_eq!(extract_shift_code("RATM 8:00AM - 2:00PM", &cfg), "RATM");
    assert_eq!(extract_shift_code("FT 8:30am - 6:30", &cfg), "FT");
}

#[test]
fn shift_code_uses_alias() {
    let cfg = config(&[("ratm", "RAT")], &[]);
    assert_eq!(extract_shift_code("RATM 8:00AM - 2:00PM", &cfg), "RAT");
}

#[test]
fn shift_code_of_blank_alias_is_empty() {
    let cfg = ShiftDisplayConfig::default();
    assert_eq!(extract_shift_code("   ", &cfg), "");
    assert_eq!(extract_shift_code("", &cfg), "");
}

#[test]
fn code_override_wins_over_raw_alias_override() {
    let cfg = config(
        &[],
        &[("RAT", "Rat label"), ("RATM 8:00AM - 2:00PM", "Raw label")],
    );
    assert_eq!(cfg.resolve_label("RAT", "RATM 8:00AM - 2:00PM"), "Rat label");
}

#[test]
fn normalized_override_comes_before_raw_override() {
    let cfg = config(
        &[("night shift", "NS")],
        &[("NS", "Night"), ("night shift", "Raw night")],
    );
    assert_eq!(cfg.resolve_label("X", "night shift"), "Night");
}

#[test]
fn raw_override_used_when_others_missing() {
    let cfg = config(&[], &[("RATM 8:00AM - 2:00PM", "Raw label")]);
    assert_eq!(cfg.resolve_label("RATM", "RATM 8:00AM - 2:00PM"), "Raw label");
}

#[test]
fn label_falls_back_to_normalized_then_code() {
    let cfg = ShiftDisplayConfig::default();
    assert_eq!(cfg.resolve_label("FT", "  FT 8:30am  "), "FT 8:30am");
    assert_eq!(cfg.resolve_label("FT", "   "), "FT");
}

#[test]
fn normalize_token_precedence() {
    let cfg = config(&[("ft 8:30am", "FULL"), ("ft", "F")], &[]);
    assert_eq!(cfg.normalize_token("  FT 8:30am "), "FULL");
    assert_eq!(cfg.normalize_token("ft 9:00am"), "F");
    assert_eq!(cfg.normalize_token("  Other thing "), "Other thing");
    assert_eq!(cfg.normalize_token("   "), "");
}

#[test]
fn label_override_is_case_insensitive() {
    let cfg = config(&[], &[(" Rat ", " Rat label ")]);
    assert_eq!(cfg.label_override("rat"), Some("Rat label".to_string()));
    assert_eq!(cfg.label_override("RAT"), Some("Rat label".to_string()));
    assert_eq!(cfg.label_override(" Rat"), Some("Rat label".to_string()));
    assert_eq!(cfg.label_override("rAt"), Some("Rat label".to_string()));
    assert_eq!(cfg.label_override("other"), None);
    assert_eq!(cfg.label_override("  "), None);
}

#[test]
fn raw_config_is_trimmed_and_filtered() {
    let cfg = config(
        &[(" RATM ", " RAT "), ("", "X"), ("y", "  "), ("ft", "A"), ("FT", "B")],
        &[("", "x"), ("k", " ")],
    );
    assert_eq!(cfg.alias_map.get("ratm"), Some(&"RAT".to_string()));
    assert_eq!(cfg.alias_map.get("y"), None);
    assert_eq!(cfg.alias_map.get("ft"), Some(&"B".to_string()));
    assert_eq!(cfg.alias_map.len(), 2);
    assert_eq!(cfg.label_map.len(), 0);
}

#[test]
fn label_map_holds_three_casings() {
    let cfg = config(&[], &[("Rat", "Label")]);
    assert_eq!(cfg.label_map.get("Rat"), Some(&"Label".to_string()));
    assert_eq!(cfg.label_map.get("RAT"), Some(&"Label".to_string()));
    assert_eq!(cfg.label_map.get("rat"), Some(&"Label".to_string()));
    assert_eq!(cfg.label_map.len(), 3);
}

#[test]
fn styling_default_has_no_underline() {
    assert!(ShiftStylingConfig::default().conditional_underline.is_none());
}
