use rich_tui_core::code_panel::{fits_on_one_row, hard_wrap_code_line, CodeLine, CodeSpan};

fn span(content: &str, style: u32) -> CodeSpan {
    CodeSpan { content: content.to_string(), style }
}

fn text_of(line: &CodeLine) -> String {
    line.spans.iter().map(|s| s.content.as_str()).collect()
}

#[test]
fn short_rows_are_kept_as_they_are() {
    let line = CodeLine { style: 7, spans: vec![span("let x", 1), span(" = 1;", 2)] };
    assert_eq!(hard_wrap_code_line(&line, 20), vec![line.clone()]);
    assert_eq!(hard_wrap_code_line(&line, 10), vec![line]);
}

#[test]
fn long_rows_wrap_without_losing_whitespace() {
    let line = CodeLine { style: 3, spans: vec![span("ab  ", 1), span("cdef", 2)] };
    let rows = hard_wrap_code_line(&line, 3);
    let texts: Vec<String> = rows.iter().map(text_of).collect();
    assert_eq!(texts, vec!["ab ", " cd", "ef"]);
    assert!(rows.iter().all(|row| row.style == 3));
    assert_eq!(rows[1].spans, vec![span(" ", 1), span("cd", 2)]);
    assert_eq!(rows[2].spans, vec![span("ef", 2)]);
}

#[test]
fn zero_width_counts_as_one_column() {
    let line = CodeLine { style: 0, spans: vec![span("xyz", 5)] };
    let rows = hard_wrap_code_line(&line, 0);
    let texts: Vec<String> = rows.iter().map(text_of).collect();
    assert_eq!(texts, vec!["x", "y", "z"]);
}

#[test]
fn wide_graphemes_are_not_split() {
    let line = CodeLine { style: 0, spans: vec![span("漢字e\u{301}x", 4)] };
    let rows = hard_wrap_code_line(&line, 2);
    let texts: Vec<String> = rows.iter().map(text_of).collect();
    assert_eq!(texts, vec!["漢", "字", "e\u{301}x"]);
}

#[test]
fn same_style_spans_merge_in_wrapped_rows() {
    let line = CodeLine { style: 9, spans: vec![span("ab", 1), span("cd", 1), span("e", 2)] };
    let rows = hard_wrap_code_line(&line, 3);
    assert_eq!(rows.len(), 2);
    assert_eq!(rows[0].spans, vec![span("abc", 1)]);
    assert_eq!(rows[1].spans, vec![span("d", 1), span("e", 2)]);
}

#[test]
fn fitting_rows_are_reported() {
    let line = CodeLine { style: 1, spans: vec![span("abc", 2)] };
    assert!(fits_on_one_row(&line, 3));
    assert!(!fits_on_one_row(&line, 2));
    assert!(!fits_on_one_row(&line, 0));
    let single = CodeLine { style: 1, spans: vec![span("a", 2)] };
    assert!(fits_on_one_row(&single, 0));
}
