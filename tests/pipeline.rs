use schedule_worker::{
    check_month_param, decide, error_code, error_status, schedule_url, AttemptOutcome,
    RetryDecision, RetryState, ScheduleError, TelemetryBuffer, TelemetryIngestResult,
};

#[test]
fn invalid_months_rejected_before_fetch() {
    for ym in ["2024-13", "abcd-01", "2024-1"] {
        assert!(matches!(check_month_param(Some(ym)), Err(ScheduleError::InvalidYm)));
    }
    assert!(matches!(check_month_param(None), Err(ScheduleError::MissingParam)));
    assert!(check_month_param(Some("2024-02")).is_ok());
}

#[test]
fn upstream_url_covers_month() {
    assert_eq!(
        schedule_url("https://api.example", "tok", "2024-02"),
        Some(
            "https://api.example/public/schedule?token=tok&startDate=2024-02-01&endDate=2024-02-29&scheduleVersion=live"
                .to_string()
        )
    );
    assert_eq!(schedule_url("https://api.example", "tok", "2024-1"), None);
}

#[test]
fn errors_map_to_status_and_code() {
    assert_eq!(error_status(&ScheduleError::UpstreamTimeout), 504);
    assert_eq!(error_code(&ScheduleError::UpstreamTimeout), "UPSTREAM_TIMEOUT");
    assert_eq!(error_status(&ScheduleError::UpstreamStatus(404)), 502);
    assert_eq!(error_code(&ScheduleError::UpstreamTransport), "UPSTREAM_ERROR");
    assert_eq!(error_status(&ScheduleError::InvalidYm), 400);
    assert_eq!(error_code(&ScheduleError::MissingParam), "MISSING_PARAM");
    assert_eq!(error_status(&ScheduleError::Config), 500);
    assert_eq!(error_code(&ScheduleError::Parse), "PARSE_ERROR");
}

#[test]
fn retry_decisions() {
    assert!(matches!(decide(0, 2, &AttemptOutcome::Status(200)), RetryDecision::Deliver));
    assert!(matches!(decide(0, 2, &AttemptOutcome::Status(503)), RetryDecision::Retry));
    assert!(matches!(decide(2, 2, &AttemptOutcome::Status(503)), RetryDecision::FailStatus(503)));
    assert!(matches!(decide(0, 2, &AttemptOutcome::Status(404)), RetryDecision::FailStatus(404)));
    assert!(matches!(decide(1, 2, &AttemptOutcome::Transport), RetryDecision::Retry));
    assert!(matches!(decide(2, 2, &AttemptOutcome::Transport), RetryDecision::FailTransport));
    assert!(matches!(decide(2, 2, &AttemptOutcome::TimedOut), RetryDecision::FailTimeout));
}

#[test]
fn retry_budget_allows_three_attempts() {
    let mut state = RetryState::new(2);
    let mut attempts = 0;
    loop {
        attempts += 1;
        match state.on_outcome(&AttemptOutcome::Status(500)) {
            RetryDecision::Retry => continue,
            RetryDecision::FailStatus(s) => {
                assert_eq!(s, 500);
                break;
            }
            _ => panic!("unexpected decision"),
        }
    }
    assert_eq!(attempts, 3);
    assert_eq!(state.retries, 2);
}

#[test]
fn telemetry_buffers_then_flushes() {
    let mut buffer: TelemetryBuffer<u32> = TelemetryBuffer::new(1_000);
    assert!(matches!(buffer.ingest(vec![1, 2], false, 1_001), TelemetryIngestResult::Buffered));
    assert!(matches!(buffer.ingest(Vec::new(), false, 1_002), TelemetryIngestResult::Noop));
    match buffer.ingest(vec![3], true, 1_003) {
        TelemetryIngestResult::Flush(events) => assert_eq!(events, vec![1, 2, 3]),
        _ => panic!("expected a flush"),
    }
    assert!(buffer.events.is_empty());
    assert_eq!(buffer.last_flush, 1_003);
    assert!(matches!(buffer.ingest(Vec::new(), true, 1_004), TelemetryIngestResult::Noop));
}

#[test]
fn telemetry_flushes_when_full_or_stale() {
    let mut buffer: TelemetryBuffer<u32> = TelemetryBuffer::new(0);
    assert!(matches!(buffer.ingest((0..49).collect(), false, 1), TelemetryIngestResult::Buffered));
    match buffer.ingest(vec![49], false, 2) {
        TelemetryIngestResult::Flush(events) => assert_eq!(events.len(), 50),
        _ => panic!("expected a flush at capacity"),
    }
    assert!(matches!(buffer.ingest(vec![1], false, 31), TelemetryIngestResult::Buffered));
    match buffer.ingest(Vec::new(), false, 32) {
        TelemetryIngestResult::Flush(events) => assert_eq!(events, vec![1]),
        _ => panic!("expected a flush after the interval"),
    }
}
