use schedule_worker::{cookie_grants_access, has_access_token, verify_access_token};

#[test]
fn bearer_token_is_compared_trimmed() {
    assert!(has_access_token(Some("Bearer  s3cret "), None, Some("s3cret")));
    assert!(!has_access_token(Some("Bearer wrong"), None, Some("s3cret")));
    assert!(!has_access_token(Some("Bearer s3cret"), None, None));
}

#[test]
fn bearer_header_decides_alone() {
    let cookie = Some("schedule_viewer_access=granted");
    assert!(!has_access_token(Some("Bearer wrong"), cookie, Some("s3cret")));
    assert!(has_access_token(Some("Basic abc"), cookie, Some("s3cret")));
}

#[test]
fn cookie_entries_are_checked() {
    assert!(cookie_grants_access("a=1; schedule_viewer_access=granted; b=2"));
    assert!(cookie_grants_access("  schedule_viewer_access=granted_forever"));
    assert!(!cookie_grants_access("a=1; schedule_viewer_access=denied"));
    assert!(!cookie_grants_access("a=schedule_viewer_access=granted"));
    assert!(!cookie_grants_access(""));
    assert!(!has_access_token(None, None, Some("s3cret")));
}

#[test]
fn token_comparison() {
    assert!(verify_access_token(" pass ", Some("pass")));
    assert!(!verify_access_token("pass", Some("Pass")));
    assert!(!verify_access_token("", None));
    assert!(verify_access_token("", Some("  ")));
}
