use karmx::stop_reason::StopReason;

#[test]
fn maps_every_provider_spelling_of_a_clean_stop() {
    for s in [
        "stop",
        "end_turn",
        "endTurn",
        "STOP",
        " stop ",
        "completed",
        "tool_use",
        "tool_calls",
    ] {
        assert_eq!(
            StopReason::from_finish_reason(s),
            StopReason::Complete,
            "failed on {s:?}"
        );
    }
}

#[test]
fn maps_every_provider_spelling_of_truncation() {
    for s in [
        "length",
        "max_tokens",
        "MAX_TOKENS",
        "max_output_tokens",
        "incomplete",
    ] {
        assert_eq!(
            StopReason::from_finish_reason(s),
            StopReason::OutputTruncated,
            "failed on {s:?}"
        );
    }
}

#[test]
fn maps_safety_and_error_stops() {
    for s in ["content_filter", "SAFETY", "RECITATION", "blocked", "failed"] {
        assert_eq!(
            StopReason::from_finish_reason(s),
            StopReason::Error,
            "failed on {s:?}"
        );
    }
}

#[test]
fn unknown_reason_is_not_treated_as_failure() {
    let r = StopReason::from_finish_reason("some_new_reason");
    assert_eq!(r, StopReason::Complete);
    assert!(!r.is_failure());
}

#[test]
fn only_truncation_is_resumable() {
    assert!(StopReason::OutputTruncated.is_resumable());
    assert!(!StopReason::Complete.is_resumable());
    assert!(!StopReason::Error.is_resumable());
    assert!(!StopReason::AuthRequired.is_resumable());
    assert!(!StopReason::Restart.is_resumable());
}

#[test]
fn failures_are_flagged() {
    assert!(StopReason::Error.is_failure());
    assert!(StopReason::AuthRequired.is_failure());
    assert!(!StopReason::OutputTruncated.is_failure());
}

#[test]
fn severity_wins_when_several_reasons_are_reported() {
    let both = vec!["stop".to_string(), "content_filter".to_string()];
    assert_eq!(
        StopReason::from_finish_reasons(&both),
        Some(StopReason::Error)
    );

    let trunc = vec!["length".to_string(), "stop".to_string()];
    assert_eq!(
        StopReason::from_finish_reasons(&trunc),
        Some(StopReason::OutputTruncated),
        "truncation must outrank a clean stop"
    );
}

#[test]
fn no_reasons_yields_none_not_a_guess() {
    assert_eq!(StopReason::from_finish_reasons(&[]), None);
}

#[test]
fn auth_failures_are_recognised() {
    assert_eq!(
        StopReason::from_finish_reason("Unauthorized"),
        StopReason::AuthRequired
    );
    let rs = vec!["unauthorized".to_string(), "length".to_string()];
    assert_eq!(StopReason::from_finish_reasons(&rs), Some(StopReason::AuthRequired));
}

#[test]
fn a_single_reason_is_returned_as_is() {
    let rs = vec!["max_tokens".to_string()];
    assert_eq!(StopReason::from_finish_reasons(&rs), Some(StopReason::OutputTruncated));
}
