use rich_tui_core::oauth_transport::OAuthTransportFailureState;

#[test]
fn pending_auth_failure_stops_sse_retry_until_recovery_finishes() {
    let mut failure_state = OAuthTransportFailureState::default();
    let rejected_access_token = "rejected-access-token".to_string();

    failure_state.record_rejected_access_token(rejected_access_token.clone());
    assert_eq!(failure_state.sse_retry_delay_ms(/*current_times*/ 1), None);

    failure_state.finish_recovery(&rejected_access_token);
    assert!(failure_state.pending_rejected_access_token().is_none());
    assert!(failure_state.sse_retry_delay_ms(/*current_times*/ 1).is_some());
}

#[test]
fn recovery_of_another_token_keeps_the_pending_rejection() {
    let mut state = OAuthTransportFailureState::new();
    state.record_rejected_access_token("old".to_string());
    state.record_rejected_access_token("new".to_string());
    state.finish_recovery("old");
    assert_eq!(state.pending_rejected_access_token(), Some("new".to_string()));
    assert_eq!(state.sse_retry_delay_ms(0), None);
    state.finish_recovery("new");
    assert_eq!(state.pending_rejected_access_token(), None);
}

#[test]
fn default_backoff_doubles_from_one_second() {
    let state = OAuthTransportFailureState::new();
    assert_eq!(state.sse_retry_delay_ms(0), Some(1_000));
    assert_eq!(state.sse_retry_delay_ms(1), Some(2_000));
    assert_eq!(state.sse_retry_delay_ms(3), Some(8_000));
    assert_eq!(state.sse_retry_delay_ms(40), Some(1_000 * u32::MAX as u128));
}

#[test]
fn only_unattended_rejections_are_recorded() {
    let mut state = OAuthTransportFailureState::new();
    state.record_transport_failure(false, Some("request-token".to_string()));
    assert_eq!(state.pending_rejected_access_token(), None);
    state.record_transport_failure(true, None);
    assert_eq!(state.pending_rejected_access_token(), None);
    state.record_transport_failure(true, Some("response-token".to_string()));
    assert_eq!(state.pending_rejected_access_token(), Some("response-token".to_string()));
    state.record_transport_failure(false, Some("other".to_string()));
    assert_eq!(state.pending_rejected_access_token(), Some("response-token".to_string()));
}
