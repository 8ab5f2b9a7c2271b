use rich_tui_core::followup_directives::{rewrite_followup_line, FollowupDirective};
use rich_tui_core::followups::{
    AppEvent, BottomPane, ChatWidget, FOLLOWUP_SUBTITLE, FOLLOWUP_TITLE, FOLLOWUP_VIEW_ID,
};

fn widget() -> ChatWidget {
    ChatWidget {
        bottom_pane: BottomPane { composer_text: "draft".to_string(), selection_view: None },
    }
}

#[test]
fn followups_are_offered_in_order_and_prefill_the_composer() {
    let mut chat = widget();
    chat.show_followup_suggestions(vec![
        FollowupDirective { label: "Review".to_string(), prompt: "Show the diff.".to_string() },
        FollowupDirective { label: "Test".to_string(), prompt: "Run the tests.".to_string() },
    ]);
    let view = chat.bottom_pane.selection_view.take().expect("view");
    assert_eq!(view.view_id, Some(FOLLOWUP_VIEW_ID));
    assert_eq!(view.title.as_deref(), Some(FOLLOWUP_TITLE));
    assert_eq!(view.subtitle.as_deref(), Some("Choose one to edit before sending"));
    assert_eq!(FOLLOWUP_SUBTITLE, "Choose one to edit before sending");
    assert_eq!(view.items.len(), 2);
    assert_eq!(view.items[1].name, "Test");
    assert_eq!(view.items[1].description.as_deref(), Some("Run the tests."));
    assert!(view.items[1].dismiss_on_select);
    assert_eq!(chat.bottom_pane.composer_text, "draft");

    let AppEvent::PrefillComposer { text } = view.items[0].actions[0].clone();
    chat.prefill_composer(text);
    assert_eq!(chat.bottom_pane.composer_text, "Show the diff.");
}

#[test]
fn no_followups_show_an_empty_view() {
    let mut chat = widget();
    chat.show_followup_suggestions(Vec::new());
    assert_eq!(chat.bottom_pane.selection_view.expect("view").items.len(), 0);
}

const FOLLOWUP_MARKDOWN: &str = r#"Done.

- :codex-followup[Start acceptance run]{prompt="Make the harness event-driven."}
:codex-followup[Review changes]{Show the exact harness changes.}"#;

fn rendered_lines_and_followups(markdown: &str) -> (Vec<String>, Vec<FollowupDirective>) {
    let mut lines = Vec::new();
    let mut followups = Vec::new();
    for line in markdown.lines() {
        match rewrite_followup_line(line) {
            Some(rewritten) => {
                lines.push(rewritten.visible_line);
                followups.extend(rewritten.followup);
            }
            None => lines.push(line.to_string()),
        }
    }
    (lines, followups)
}

#[test]
fn final_answer_shows_followups_and_selection_prefills_composer() {
    let mut chat = widget();
    let (_, followups) = rendered_lines_and_followups(FOLLOWUP_MARKDOWN);
    chat.show_followup_suggestions(followups);
    let view = chat.bottom_pane.selection_view.take().expect("view");
    assert_eq!(view.title.as_deref(), Some("Suggested follow-ups"));
    assert_eq!(view.subtitle.as_deref(), Some("Choose one to edit before sending"));
    let entries: Vec<(&str, Option<&str>)> =
        view.items.iter().map(|item| (item.name.as_str(), item.description.as_deref())).collect();
    assert_eq!(
        entries,
        vec![
            ("Start acceptance run", Some("Make the harness event-driven.")),
            ("Review changes", Some("Show the exact harness changes.")),
        ]
    );

    let AppEvent::PrefillComposer { text: prompt } =
        view.items[0].actions.first().cloned().expect("follow-up selection event");
    assert_eq!(prompt, "Make the harness event-driven.");
    chat.prefill_composer(prompt);
    assert_eq!(chat.bottom_pane.composer_text, "Make the harness event-driven.");
}

#[test]
fn replayed_followups_render_as_plain_bullets() {
    let (lines, followups) = rendered_lines_and_followups(FOLLOWUP_MARKDOWN);
    assert_eq!(lines, vec!["Done.", "", "- Start acceptance run", "- Review changes"]);
    let rendered = lines.join("\n");
    assert!(!rendered.contains("codex-followup"));
    assert_eq!(followups.len(), 2);
}
