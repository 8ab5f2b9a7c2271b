use rich_tui_core::endpoint::is_local_endpoint;
use rich_tui_core::local_auto_router::{
    all_targets, bounded_text, classifier_prompt, classifier_timeout_ms, complete_route, config,
    fallback_sol, plan_route, response_within_limit, route_score, route_without_classifier,
    target_or_fallback, ReasoningEffort, RouteOutcome, RoutePlan, ScoreBand,
    CLASSIFIER_INSTRUCTIONS, LUNA, MAX_PROMPT_BYTES, MAX_RESPONSE_BYTES, MAX_TIMEOUT_MS, SOL,
    TERRA,
};

#[test]
fn bounds_text_at_eight_kib_without_splitting_utf8() {
    let text = "é".repeat(10_000);
    let bounded = bounded_text(&text).expect("text");
    assert!(bounded.len() <= MAX_PROMPT_BYTES);
    assert!(bounded.is_char_boundary(bounded.len()));
}

#[test]
fn unavailable_target_uses_configured_model() {
    let routed = target_or_fallback(
        LUNA,
        ReasoningEffort::Low,
        "Luna (low)",
        &Vec::new(),
        "gpt-5.4".to_string(),
        Some(ReasoningEffort::Medium),
    );
    assert_eq!(routed.model, "gpt-5.4");
    assert_eq!(routed.effort, Some(ReasoningEffort::Medium));
}

#[test]
fn score_boundaries_select_expected_models() {
    assert_eq!(
        route_score(ScoreBand::BelowLow, &all_targets(), "other".to_string(), None).model,
        LUNA
    );
    assert_eq!(
        route_score(ScoreBand::BelowMedium, &all_targets(), "other".to_string(), None).model,
        TERRA
    );
    assert_eq!(
        route_score(ScoreBand::AtLeastMedium, &all_targets(), "other".to_string(), None).model,
        SOL
    );
}

#[test]
fn invalid_score_or_threshold_falls_back_to_sol() {
    let routed = route_score(ScoreBand::Unusable, &all_targets(), "other".to_string(), None);
    assert_eq!(routed.model, SOL);
    assert_eq!(routed.outcome, RouteOutcome::ClassifierFallback);
    assert_eq!(routed.label, "Sol (medium)");
}

#[test]
fn only_plain_http_loopback_endpoints_are_allowed() {
    assert!(is_local_endpoint("http://localhost:11434/api/generate"));
    assert!(is_local_endpoint("http://127.0.0.1:11434/api/generate"));
    assert!(is_local_endpoint("http://[::1]:11434/api/generate"));
    assert!(!is_local_endpoint("https://localhost/api/generate"));
    assert!(!is_local_endpoint("http://example.com/api/generate"));
    assert!(!is_local_endpoint("http://user@localhost/api/generate"));
}

#[test]
fn loopback_edge_cases() {
    assert!(is_local_endpoint("HTTP://LocalHost/api"));
    assert!(is_local_endpoint("http://127.9.8.7/"));
    assert!(!is_local_endpoint("http://localhost/api#frag"));
    assert!(!is_local_endpoint("http://:pw@localhost/"));
    assert!(!is_local_endpoint("http://128.0.0.1/"));
    assert!(!is_local_endpoint("http://[::2]/"));
    assert!(!is_local_endpoint("not a url"));
    assert!(!is_local_endpoint(""));
}

#[test]
fn timeout_is_hard_capped() {
    assert_eq!(5_000_u64.min(MAX_TIMEOUT_MS), MAX_TIMEOUT_MS);
    assert_eq!(classifier_timeout_ms(5_000), MAX_TIMEOUT_MS);
    assert_eq!(classifier_timeout_ms(1_999), 1_999);
    assert_eq!(classifier_timeout_ms(2_000), 2_000);
}

#[test]
fn blank_text_is_not_classified() {
    assert_eq!(bounded_text(""), None);
    assert_eq!(bounded_text(" \n\t\u{3000}"), None);
    assert_eq!(bounded_text("  fix it  "), Some("  fix it  ".to_string()));
}

#[test]
fn bounded_text_keeps_whole_characters() {
    let text = format!("{}{}", "a".repeat(MAX_PROMPT_BYTES - 1), "é");
    let bounded = bounded_text(&text).expect("text");
    assert_eq!(bounded, "a".repeat(MAX_PROMPT_BYTES - 1));
    let exact = "a".repeat(MAX_PROMPT_BYTES);
    assert_eq!(bounded_text(&exact), Some(exact.clone()));
    let emoji = "😀".repeat(3000);
    let bounded = bounded_text(&emoji).expect("text");
    assert_eq!(bounded.len(), MAX_PROMPT_BYTES);
    assert_eq!(bounded.chars().count(), MAX_PROMPT_BYTES / 4);
}

#[test]
fn fallback_is_the_configured_model_when_sol_is_missing() {
    let routed = fallback_sol(&vec![LUNA.to_string()], "gpt-5.4".to_string(), Some(ReasoningEffort::High));
    assert_eq!(routed.model, "gpt-5.4");
    assert_eq!(routed.effort, Some(ReasoningEffort::High));
    assert_eq!(routed.label, "configured model");
    assert_eq!(routed.outcome, RouteOutcome::ClassifierFallback);
}

#[test]
fn plan_policy_forces_sol_without_classifying() {
    assert_eq!(
        plan_route(&config(), true, "anything", true),
        RoutePlan::Fallback(RouteOutcome::PlanPolicy)
    );
    let routed = route_without_classifier(
        RouteOutcome::PlanPolicy,
        &all_targets(),
        "other".to_string(),
        None,
    );
    assert_eq!(routed.model, SOL);
    assert_eq!(routed.effort, Some(ReasoningEffort::Medium));
    assert_eq!(routed.outcome, RouteOutcome::PlanPolicy);
}

#[test]
fn plan_falls_back_without_a_usable_request() {
    assert_eq!(
        plan_route(&config(), false, "task", false),
        RoutePlan::Fallback(RouteOutcome::ClassifierFallback)
    );
    assert_eq!(
        plan_route(&config(), true, "   ", false),
        RoutePlan::Fallback(RouteOutcome::ClassifierFallback)
    );
    let mut remote = config();
    remote.endpoint = "http://example.com/api/generate".to_string();
    assert_eq!(
        plan_route(&remote, true, "task", false),
        RoutePlan::Fallback(RouteOutcome::ClassifierFallback)
    );
}

#[test]
fn plan_classifies_local_requests() {
    let mut slow = config();
    slow.timeout_ms = 9_000;
    match plan_route(&slow, true, "Rename a variable", false) {
        RoutePlan::Classify { prompt, timeout_ms } => {
            assert_eq!(timeout_ms, MAX_TIMEOUT_MS);
            assert_eq!(prompt, format!("{CLASSIFIER_INSTRUCTIONS}Rename a variable\n---"));
            assert!(prompt.starts_with("You are a coding-task router."));
            assert!(prompt.ends_with("Task:\n---\nRename a variable\n---"));
        }
        other => panic!("unexpected plan {other:?}"),
    }
    assert_eq!(config().timeout_ms, 500);
    assert_eq!(config().endpoint, "http://localhost");
    assert_eq!(config().classifier_model, "local");
}

#[test]
fn classifier_prompt_wraps_the_task() {
    let prompt = classifier_prompt("x");
    assert_eq!(prompt.len(), CLASSIFIER_INSTRUCTIONS.len() + 5);
    assert!(prompt.contains("{\"score\":0.85}"));
}

#[test]
fn failed_classification_falls_back() {
    let routed = complete_route(None, &all_targets(), "other".to_string(), None);
    assert_eq!(routed.model, SOL);
    assert_eq!(routed.outcome, RouteOutcome::ClassifierFallback);
    let routed = complete_route(Some(ScoreBand::BelowLow), &all_targets(), "other".to_string(), None);
    assert_eq!(routed.model, LUNA);
    assert_eq!(routed.effort, Some(ReasoningEffort::Low));
    assert_eq!(routed.label, "Luna (low)");
    assert_eq!(routed.outcome, RouteOutcome::Classified);
}

#[test]
fn response_limit_is_inclusive() {
    assert!(response_within_limit(0, MAX_RESPONSE_BYTES));
    assert!(!response_within_limit(1, MAX_RESPONSE_BYTES));
    assert!(!response_within_limit(usize::MAX, usize::MAX));
    assert!(response_within_limit(MAX_RESPONSE_BYTES, 0));
}

#[test]
fn all_targets_lists_the_three_models() {
    assert_eq!(all_targets(), vec![LUNA.to_string(), TERRA.to_string(), SOL.to_string()]);
}
