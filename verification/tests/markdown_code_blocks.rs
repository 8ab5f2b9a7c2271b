use rich_tui_core::markdown_code_blocks::{
    last_fenced_code_block, last_fenced_code_block_in, MarkdownEvent,
};

#[test]
fn returns_the_last_non_empty_fenced_block_verbatim() {
    let markdown = "Before\n```rust\nfn first() {}\n```\n\n    indented\n\n```json\n{\"ok\": true}\n```\n```text\n```\n";

    assert_eq!(
        last_fenced_code_block(markdown),
        Some("{\"ok\": true}\n".to_string())
    );
}

#[test]
fn returns_none_without_a_non_empty_fenced_block() {
    assert_eq!(
        last_fenced_code_block("Text\n\n    indented code\n\n```text\n \n\t\n```\n"),
        None
    );
}

#[test]
fn multi_line_blocks_keep_their_lines() {
    assert_eq!(
        last_fenced_code_block("```\na\n  b\n```\ntext"),
        Some("a\n  b\n".to_string())
    );
}

#[test]
fn events_are_folded_in_order() {
    let events = vec![
        MarkdownEvent::Text("outside".to_string()),
        MarkdownEvent::FencedCodeStart,
        MarkdownEvent::Text("one".to_string()),
        MarkdownEvent::LineBreak,
        MarkdownEvent::Text("two".to_string()),
        MarkdownEvent::CodeBlockEnd,
        MarkdownEvent::FencedCodeStart,
        MarkdownEvent::CodeBlockEnd,
        MarkdownEvent::Other,
    ];
    assert_eq!(last_fenced_code_block_in(&events), Some("one\ntwo".to_string()));
    assert_eq!(last_fenced_code_block_in(&Vec::new()), None);
}
