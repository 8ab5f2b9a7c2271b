use rich_tui_core::auto_selection::{
    restore_plan, selection_from_contents, should_persist_active_selection, AutoSelection,
    LoadOutcome, RestorePlan, AUTO_SELECTION_DIRECTORY,
};

#[test]
fn stored_text_reads_back() {
    for selection in [AutoSelection::Auto, AutoSelection::Manual] {
        assert_eq!(selection_from_contents(selection.as_str()), Some(selection));
        assert_eq!(
            selection_from_contents(&format!("  {}\n", selection.as_str())),
            Some(selection)
        );
    }
    assert_eq!(AutoSelection::Auto.as_str(), "auto");
    assert_eq!(AutoSelection::Manual.as_str(), "manual");
    assert_eq!(AUTO_SELECTION_DIRECTORY, "auto-selections");
}

#[test]
fn invalid_contents_are_rejected() {
    assert_eq!(selection_from_contents("Auto"), None);
    assert_eq!(selection_from_contents(""), None);
    assert_eq!(selection_from_contents("auto manual"), None);
}

#[test]
fn restore_without_auto_config_switches_auto_off() {
    assert_eq!(
        restore_plan(None, LoadOutcome::Found(AutoSelection::Auto), true),
        RestorePlan { auto_selected: false, warm_classifier: false, persist: None }
    );
}

#[test]
fn stored_selection_wins_and_is_not_rewritten() {
    assert_eq!(
        restore_plan(Some(false), LoadOutcome::Found(AutoSelection::Auto), true),
        RestorePlan { auto_selected: true, warm_classifier: true, persist: None }
    );
    assert_eq!(
        restore_plan(Some(true), LoadOutcome::Found(AutoSelection::Manual), true),
        RestorePlan { auto_selected: false, warm_classifier: false, persist: None }
    );
}

#[test]
fn missing_or_unreadable_selection_uses_and_stores_the_default() {
    assert_eq!(
        restore_plan(Some(true), LoadOutcome::Missing, false),
        RestorePlan {
            auto_selected: true,
            warm_classifier: false,
            persist: Some(AutoSelection::Auto)
        }
    );
    assert_eq!(
        restore_plan(Some(false), LoadOutcome::Failed, true),
        RestorePlan {
            auto_selected: false,
            warm_classifier: false,
            persist: Some(AutoSelection::Manual)
        }
    );
}

#[test]
fn active_selection_is_persisted_only_with_auto_and_a_thread() {
    assert!(should_persist_active_selection(true, true));
    assert!(!should_persist_active_selection(false, true));
    assert!(!should_persist_active_selection(true, false));
}
