use rich_tui_core::followup_directives::{
    nonempty, parse_prompt_payload, rewrite_followup_line, FollowupDirective,
    RewrittenFollowupLine,
};

#[test]
fn rewrites_canonical_followup() {
    assert_eq!(
        rewrite_followup_line(
            "  - :codex-followup[Review changes]{prompt=\"Show the exact changes.\"}",
        ),
        Some(RewrittenFollowupLine {
            visible_line: "  - Review changes".to_string(),
            followup: Some(FollowupDirective {
                label: "Review changes".to_string(),
                prompt: "Show the exact changes.".to_string(),
            }),
        })
    );
}

#[test]
fn rewrites_observed_bare_prompt_followup() {
    assert_eq!(
        rewrite_followup_line(
            ":codex-followup[Start acceptance run]{Make the harness event-driven.}",
        ),
        Some(RewrittenFollowupLine {
            visible_line: "- Start acceptance run".to_string(),
            followup: Some(FollowupDirective {
                label: "Start acceptance run".to_string(),
                prompt: "Make the harness event-driven.".to_string(),
            }),
        })
    );
}

#[test]
fn accepts_equals_signs_in_bare_prompt_text() {
    assert_eq!(
        rewrite_followup_line(":codex-followup[Update config]{Set retry_count=3.}"),
        Some(RewrittenFollowupLine {
            visible_line: "- Update config".to_string(),
            followup: Some(FollowupDirective {
                label: "Update config".to_string(),
                prompt: "Set retry_count=3.".to_string(),
            }),
        })
    );
}

#[test]
fn preserves_readable_label_when_payload_is_invalid() {
    assert_eq!(
        rewrite_followup_line(":codex-followup[Review changes]{prompt=}"),
        Some(RewrittenFollowupLine {
            visible_line: "- Review changes".to_string(),
            followup: None,
        })
    );
}

#[test]
fn unescapes_quotes_in_canonical_prompt() {
    let rewritten = rewrite_followup_line(
        r#"- :codex-followup[Explain it]{prompt="Explain \"this\" behavior."}"#,
    )
    .expect("follow-up");
    assert_eq!(
        rewritten.followup.expect("action").prompt,
        r#"Explain "this" behavior."#
    );
}

#[test]
fn lines_without_a_directive_are_left_alone() {
    assert_eq!(rewrite_followup_line("- plain bullet"), None);
    assert_eq!(rewrite_followup_line(""), None);
    assert_eq!(rewrite_followup_line(":codex-followup[no closing bracket"), None);
    assert_eq!(rewrite_followup_line(":codex-followup[   ]{prompt=\"x\"}"), None);
    assert_eq!(rewrite_followup_line("x :codex-followup[Label]{prompt=\"x\"}"), None);
}

#[test]
fn tabs_and_spaces_form_the_indent() {
    let rewritten = rewrite_followup_line("\t  :codex-followup[ Tidy ]").expect("label");
    assert_eq!(rewritten.visible_line, "\t  - Tidy");
    assert_eq!(rewritten.followup, None);
}

#[test]
fn last_prompt_attribute_wins_and_other_attributes_are_ignored() {
    assert_eq!(
        parse_prompt_payload(r#"{kind=quick prompt="first" prompt='x'}"#),
        Some("'x'".to_string())
    );
    assert_eq!(
        parse_prompt_payload(r#"{ kind="a b"   prompt="  padded  " }"#),
        Some("padded".to_string())
    );
    assert_eq!(parse_prompt_payload(r#"{prompt="   "}"#), None);
}

#[test]
fn payload_must_be_braced() {
    assert_eq!(parse_prompt_payload("prompt=\"x\""), None);
    assert_eq!(parse_prompt_payload("{"), None);
    assert_eq!(parse_prompt_payload("{}"), None);
    assert_eq!(parse_prompt_payload("{ bare text }"), Some("bare text".to_string()));
    assert_eq!(parse_prompt_payload("{prompt=\"unterminated}"), None);
}

#[test]
fn nonempty_trims_unicode_whitespace() {
    assert_eq!(nonempty("\u{3000} hi\u{a0}\n"), Some("hi".to_string()));
    assert_eq!(nonempty(" \t\u{2028} "), None);
    assert_eq!(nonempty(""), None);
}

#[test]
fn canonical_form_reads_back_label_and_prompt() {
    let line = "\t - :codex-followup[ Explain ]{prompt=\"Say \\\"hi\\\" \\\\ there \"}";
    assert_eq!(
        rewrite_followup_line(line),
        Some(RewrittenFollowupLine {
            visible_line: "\t - Explain".to_string(),
            followup: Some(FollowupDirective {
                label: "Explain".to_string(),
                prompt: "Say \"hi\" \\ there".to_string(),
            }),
        })
    );
}
