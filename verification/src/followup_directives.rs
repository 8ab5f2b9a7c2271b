//! Follow-up suggestions written by the assistant as directive lines.
//!
//! A line such as `- :codex-followup[Review changes]{prompt="Show the exact changes."}` is
//! rewritten to the Markdown bullet `- Review changes`, and the label with its prompt becomes a
//! follow-up the user can pick. The canonical payload carries the prompt in a quoted `prompt`
//! attribute; a payload that holds the prompt directly inside the braces is accepted as well.
//! A recognized label is rendered cleanly even when its payload is invalid.

use vstd::prelude::*;

use crate::directive_attributes::{
    attribute_value, canonical_prompt_attribute, lemma_canonical_prompt_attribute, prompt_attribute,
};
use crate::text::{
    append_chars, chars_of, find_char, in_class, index_of, leading_count, leading_in_class,
    lemma_index_of, lemma_index_of_none, lemma_index_of_unique, lemma_leading_bounds,
    lemma_leading_unique,
    lemma_trimmed_idempotent, lemma_trimmed_shape, range_starts_with, starts_with,
    string_from_chars, sub_vec, trim_bounds, trim_start_class, trimmed, CharClass,
};

verus! {

/// A follow-up the user can select: the visible label and the prompt it submits.
#[derive(Clone, Debug, Eq, Hash, PartialEq)]
pub struct FollowupDirective {
    pub label: String,
    pub prompt: String,
}

/// A directive line rewritten for display, with the follow-up it carries when its payload is
/// valid.
#[derive(Debug, Eq, PartialEq)]
pub struct RewrittenFollowupLine {
    pub visible_line: String,
    pub followup: Option<FollowupDirective>,
}

impl View for FollowupDirective {
    type V = (Seq<char>, Seq<char>);

    open spec fn view(&self) -> (Seq<char>, Seq<char>) {
        (self.label@, self.prompt@)
    }
}

impl View for RewrittenFollowupLine {
    type V = (Seq<char>, Option<(Seq<char>, Seq<char>)>);

    open spec fn view(&self) -> (Seq<char>, Option<(Seq<char>, Seq<char>)>) {
        (
            self.visible_line@,
            match self.followup {
                Some(f) => Some(f@),
                None => None,
            },
        )
    }
}

/// The text that opens a follow-up directive.
pub open spec fn directive_prefix() -> Seq<char> {
    ":codex-followup["@
}

/// `value` trimmed, unless nothing is left.
pub open spec fn spec_nonempty(value: Seq<char>) -> Option<Seq<char>> {
    let t = trimmed(value);
    if t.len() == 0 {
        None
    } else {
        Some(t)
    }
}

/// The prompt carried by a `{...}` payload: the canonical `prompt` attribute when the payload is
/// an attribute list that has one, else the bare text between the braces unless it starts with
/// `prompt=`.
pub open spec fn spec_parse_prompt_payload(payload: Seq<char>) -> Option<Seq<char>> {
    if !(payload.len() >= 2 && payload[0] == '{' && payload.last() == '}') {
        None
    } else {
        let inner = payload.subrange(1, payload.len() - 1);
        match attribute_value(inner, "prompt"@) {
            Some(Some(prompt)) => spec_nonempty(prompt),
            _ => {
                let bare = trimmed(inner);
                if starts_with(bare, "prompt="@) {
                    None
                } else {
                    spec_nonempty(bare)
                }
            },
        }
    }
}

/// The indentation of `line`: its leading spaces and tabs.
pub open spec fn line_indent(line: Seq<char>) -> Seq<char> {
    line.take(leading_in_class(line, CharClass::SpaceOrTab) as int)
}

/// What follows the indentation and an optional `- ` bullet.
pub open spec fn line_body(line: Seq<char>) -> Seq<char> {
    let content = trim_start_class(line, CharClass::SpaceOrTab);
    if starts_with(content, "- "@) {
        content.skip("- "@.len() as int)
    } else {
        content
    }
}

/// The rewritten line as (visible line, optional (label, prompt)).
pub open spec fn spec_rewrite_followup_line(line: Seq<char>) -> Option<
    (Seq<char>, Option<(Seq<char>, Seq<char>)>),
> {
    let body = line_body(line);
    if !starts_with(body, directive_prefix()) {
        None
    } else {
        let remainder = body.skip(directive_prefix().len() as int);
        match index_of(remainder, ']') {
            None => None,
            Some(end) => {
                let label = trimmed(remainder.take(end as int));
                if label.len() == 0 {
                    None
                } else {
                    Some(
                        (
                            line_indent(line) + "- "@ + label,
                            match spec_parse_prompt_payload(remainder.skip(end as int + 1)) {
                                Some(prompt) => Some((label, prompt)),
                                None => None,
                            },
                        ),
                    )
                }
            },
        }
    }
}

/// `v[lo..hi]` trimmed, as a `String`, unless nothing is left.
fn nonempty_range(v: &Vec<char>, lo: usize, hi: usize) -> (r: Option<String>)
    requires
        lo <= hi <= v@.len(),
    ensures
        match spec_nonempty(v@.subrange(lo as int, hi as int)) {
            Some(t) => r matches Some(s) && s@ == t,
            None => r is None,
        },
{
    let (a, b) = trim_bounds(v, lo, hi);
    if a == b {
        None
    } else {
        Some(string_from_chars(v, a, b))
    }
}

/// The trimmed `value`, or `None` when it is blank.
pub fn nonempty(value: &str) -> (r: Option<String>)
    ensures
        match spec_nonempty(value@) {
            Some(t) => r matches Some(s) && s@ == t,
            None => r is None,
        },
{
    let v = chars_of(value);
    assert(v@.subrange(0, v@.len() as int) == v@);
    nonempty_range(&v, 0, v.len())
}

fn parse_prompt_payload_range(v: &Vec<char>, lo: usize, hi: usize) -> (r: Option<String>)
    requires
        lo <= hi <= v@.len(),
    ensures
        match spec_parse_prompt_payload(v@.subrange(lo as int, hi as int)) {
            Some(p) => r matches Some(s) && s@ == p,
            None => r is None,
        },
{
    let ghost payload = v@.subrange(lo as int, hi as int);
    if hi - lo < 2 || v[lo] != '{' || v[hi - 1] != '}' {
        return None;
    }
    let ghost inner = payload.subrange(1, payload.len() - 1);
    assert(inner == v@.subrange(lo + 1, hi - 1));
    let inner_chars = sub_vec(v, lo + 1, hi - 1);
    match prompt_attribute(&inner_chars) {
        Some(Some(prompt)) => {
            assert(prompt@.subrange(0, prompt@.len() as int) == prompt@);
            nonempty_range(&prompt, 0, prompt.len())
        },
        _ => {
            let (a, b) = trim_bounds(v, lo + 1, hi - 1);
            let marker = chars_of("prompt=");
            if range_starts_with(v, a, b, &marker) {
                None
            } else {
                nonempty_range(v, a, b)
            }
        },
    }
}

/// The prompt of a `{...}` follow-up payload.
pub fn parse_prompt_payload(payload: &str) -> (r: Option<String>)
    ensures
        match spec_parse_prompt_payload(payload@) {
            Some(p) => r matches Some(s) && s@ == p,
            None => r is None,
        },
{
    let v = chars_of(payload);
    assert(v@.subrange(0, v@.len() as int) == v@);
    parse_prompt_payload_range(&v, 0, v.len())
}

/// Replaces a follow-up directive line with a readable Markdown bullet.
///
/// The canonical form stores the submitted text in a quoted `prompt` attribute. Some responses
/// omit that attribute and put the prompt directly inside the braces, so that form is accepted
/// as well. A recognized label is still rendered cleanly when its payload is invalid.
pub fn rewrite_followup_line(line: &str) -> (r: Option<RewrittenFollowupLine>)
    ensures
        match spec_rewrite_followup_line(line@) {
            Some(rewritten) => r matches Some(x) && x@ == rewritten,
            None => r is None,
        },
{
    let v = chars_of(line);
    let n = v.len();
    assert(v@.subrange(0, n as int) == v@);
    let lead = leading_count(&v, 0, n, CharClass::SpaceOrTab);
    let dash = chars_of("- ");
    let ghost content = v@.skip(lead as int);
    assert(content == v@.subrange(lead as int, n as int));
    let mut start = lead;
    if range_starts_with(&v, lead, n, &dash) {
        start = lead + dash.len();
        assert(content.skip(dash@.len() as int) == v@.subrange(start as int, n as int));
    }
    assert(line_body(line@) == v@.subrange(start as int, n as int));
    let prefix = chars_of(":codex-followup[");
    if !range_starts_with(&v, start, n, &prefix) {
        return None;
    }
    let rem = start + prefix.len();
    assert(line_body(line@).skip(directive_prefix().len() as int) == v@.subrange(rem as int, n as int));
    let end = match find_char(&v, rem, n, ']') {
        Some(e) => e,
        None => {
            return None;
        },
    };
    proof {
        lemma_index_of(v@.subrange(rem as int, n as int), ']');
    }
    assert(v@.subrange(rem as int, n as int).take(end as int) == v@.subrange(
        rem as int,
        (rem + end) as int,
    ));
    let (a, b) = trim_bounds(&v, rem, rem + end);
    if a == b {
        return None;
    }
    let label = string_from_chars(&v, a, b);
    let mut visible = string_from_chars(&v, 0, lead);
    append_chars(&mut visible, &dash, 0, dash.len());
    append_chars(&mut visible, &v, a, b);
    proof {
        assert(dash@.subrange(0, dash@.len() as int) == dash@);
        assert(line_indent(line@) == v@.subrange(0, lead as int));
    }
    assert(v@.subrange(rem as int, n as int).skip(end + 1) == v@.subrange(
        (rem + end + 1) as int,
        n as int,
    ));
    let followup = match parse_prompt_payload_range(&v, rem + end + 1, n) {
        Some(prompt) => Some(FollowupDirective { label, prompt }),
        None => None,
    };
    Some(RewrittenFollowupLine { visible_line: visible, followup })
}

/// A follow-up's label and prompt are never blank and carry no surrounding whitespace; the
/// visible line is the indentation, a `- ` bullet and the label.
pub proof fn lemma_followup_is_trimmed(line: Seq<char>)
    ensures
        spec_rewrite_followup_line(line) matches Some((visible, followup)) ==> {
            &&& exists|label: Seq<char>|
                {
                    &&& visible == line_indent(line) + "- "@ + label
                    &&& label.len() > 0
                    &&& #[trigger] trimmed(label) == label
                    &&& followup matches Some((l, _)) ==> l == label
                }
            &&& followup matches Some((label, prompt)) ==> {
                &&& prompt.len() > 0
                &&& trimmed(prompt) == prompt
            }
        },
{
    if let Some((visible, followup)) = spec_rewrite_followup_line(line) {
        let remainder = line_body(line).skip(directive_prefix().len() as int);
        let end = index_of(remainder, ']').unwrap();
        let label = trimmed(remainder.take(end as int));
        lemma_trimmed_idempotent(remainder.take(end as int));
        let payload = remainder.skip(end as int + 1);
        if let Some(prompt) = spec_parse_prompt_payload(payload) {
            let inner = payload.subrange(1, payload.len() - 1);
            match attribute_value(inner, "prompt"@) {
                Some(Some(p)) => {
                    lemma_trimmed_idempotent(p);
                },
                _ => {
                    lemma_trimmed_idempotent(trimmed(inner));
                    lemma_trimmed_idempotent(inner);
                },
            }
        }
        assert(trimmed(label) == label);
    }
}

/// The canonical follow-up line: indentation, a `- ` bullet, the directive with `label` and a
/// quoted `prompt` attribute holding `prompt`.
pub open spec fn canonical_followup_line(indent: Seq<char>, label: Seq<char>, prompt: Seq<char>) -> Seq<
    char,
> {
    indent + "- "@ + directive_prefix() + label + seq![']', '{'] + canonical_prompt_attribute(prompt)
        + seq!['}']
}

/// A follow-up written in the canonical form reads back as its label and prompt, trimmed, and is
/// shown as a bullet with the same indentation.
pub proof fn lemma_canonical_followup_round_trip(
    indent: Seq<char>,
    label: Seq<char>,
    prompt: Seq<char>,
)
    requires
        forall|j: int| 0 <= j < indent.len() ==> in_class(#[trigger] indent[j], CharClass::SpaceOrTab),
        forall|j: int| 0 <= j < label.len() ==> #[trigger] label[j] != ']',
        trimmed(label).len() > 0,
        trimmed(prompt).len() > 0,
    ensures
        spec_rewrite_followup_line(canonical_followup_line(indent, label, prompt)) == Some(
            (indent + "- "@ + trimmed(label), Some((trimmed(label), trimmed(prompt)))),
        ),
{
    reveal_strlit("- ");
    let dash = "- "@;
    let attr = canonical_prompt_attribute(prompt);
    let payload = seq!['{'] + attr + seq!['}'];
    let remainder = label + seq![']'] + payload;
    let body = directive_prefix() + remainder;
    let line = canonical_followup_line(indent, label, prompt);
    assert(line =~= indent + (dash + body));
    assert(line[indent.len() as int] == '-');
    assert forall|j: int| 0 <= j < indent.len() implies in_class(#[trigger] line[j], CharClass::SpaceOrTab) by {
        assert(line[j] == indent[j]);
    }
    lemma_leading_unique(line, CharClass::SpaceOrTab, indent.len() as int);
    assert(line_indent(line) =~= indent);
    let content = trim_start_class(line, CharClass::SpaceOrTab);
    assert(content =~= dash + body);
    assert(content.take(2) =~= dash);
    assert(line_body(line) =~= body);
    assert(body.take(directive_prefix().len() as int) =~= directive_prefix());
    assert(body.skip(directive_prefix().len() as int) =~= remainder);
    assert(remainder[label.len() as int] == ']');
    assert forall|j: int| 0 <= j < label.len() implies #[trigger] remainder[j] != ']' by {
        assert(remainder[j] == label[j]);
    }
    lemma_index_of_unique(remainder, ']', label.len() as int);
    assert(remainder.take(label.len() as int) =~= label);
    assert(remainder.skip(label.len() as int + 1) =~= payload);
    assert(payload.subrange(1, payload.len() - 1) =~= attr);
    lemma_canonical_prompt_attribute(prompt);
}

/// The `- ` bullet before a directive is optional: with or without it, a directive line at the
/// same indentation is rewritten to the same bullet and carries the same follow-up.
pub proof fn lemma_bullet_is_optional(indent: Seq<char>, directive: Seq<char>)
    requires
        forall|j: int| 0 <= j < indent.len() ==> in_class(#[trigger] indent[j], CharClass::SpaceOrTab),
        starts_with(directive, directive_prefix()),
    ensures
        spec_rewrite_followup_line(indent + "- "@ + directive) == spec_rewrite_followup_line(
            indent + directive,
        ),
{
    reveal_strlit("- ");
    reveal_strlit(":codex-followup[");
    let dash = "- "@;
    let with = indent + dash + directive;
    let without = indent + directive;
    assert(directive[0] == ':') by {
        assert(directive.take(directive_prefix().len() as int)[0] == directive_prefix()[0]);
    }
    assert(with[indent.len() as int] == '-');
    assert(without[indent.len() as int] == ':');
    assert forall|j: int| 0 <= j < indent.len() implies in_class(#[trigger] with[j], CharClass::SpaceOrTab) by {
        assert(with[j] == indent[j]);
    }
    assert forall|j: int| 0 <= j < indent.len() implies in_class(#[trigger] without[j], CharClass::SpaceOrTab) by {
        assert(without[j] == indent[j]);
    }
    lemma_leading_unique(with, CharClass::SpaceOrTab, indent.len() as int);
    lemma_leading_unique(without, CharClass::SpaceOrTab, indent.len() as int);
    assert(line_indent(with) =~= indent);
    assert(line_indent(without) =~= indent);
    assert(trim_start_class(with, CharClass::SpaceOrTab) =~= dash + directive);
    assert((dash + directive).take(2) =~= dash);
    assert(line_body(with) =~= directive);
    assert(trim_start_class(without, CharClass::SpaceOrTab) =~= directive);
    assert(directive.take(2)[0] == ':');
    assert(!starts_with(directive, dash));
    assert(line_body(without) =~= directive);
}

/// A canonical directive without the `- ` bullet reads back as its label and prompt as well.
pub proof fn lemma_canonical_followup_without_bullet(
    indent: Seq<char>,
    label: Seq<char>,
    prompt: Seq<char>,
)
    requires
        forall|j: int| 0 <= j < indent.len() ==> in_class(#[trigger] indent[j], CharClass::SpaceOrTab),
        forall|j: int| 0 <= j < label.len() ==> #[trigger] label[j] != ']',
        trimmed(label).len() > 0,
        trimmed(prompt).len() > 0,
    ensures
        spec_rewrite_followup_line(
            indent + directive_prefix() + label + seq![']', '{'] + canonical_prompt_attribute(prompt)
                + seq!['}'],
        ) == Some((indent + "- "@ + trimmed(label), Some((trimmed(label), trimmed(prompt))))),
{
    let directive = directive_prefix() + label + seq![']', '{'] + canonical_prompt_attribute(prompt)
        + seq!['}'];
    assert(directive.take(directive_prefix().len() as int) =~= directive_prefix());
    lemma_bullet_is_optional(indent, directive);
    lemma_canonical_followup_round_trip(indent, label, prompt);
    assert(canonical_followup_line(indent, label, prompt) =~= indent + "- "@ + directive);
    assert(indent + directive_prefix() + label + seq![']', '{'] + canonical_prompt_attribute(prompt)
        + seq!['}'] =~= indent + directive);
}

/// A rewritten line is plain text: rewriting it again finds no directive, so rendering is stable.
pub proof fn lemma_rewritten_line_is_plain(line: Seq<char>)
    ensures
        spec_rewrite_followup_line(line) matches Some((visible, _)) ==> spec_rewrite_followup_line(
            visible,
        ) is None,
{
    if let Some((visible, followup)) = spec_rewrite_followup_line(line) {
        reveal_strlit("- ");
        let remainder = line_body(line).skip(directive_prefix().len() as int);
        let end = index_of(remainder, ']').unwrap();
        lemma_index_of(remainder, ']');
        let raw = remainder.take(end as int);
        let label = trimmed(raw);
        lemma_trimmed_shape(raw);
        let indent = line_indent(line);
        lemma_leading_bounds(line, CharClass::SpaceOrTab);
        assert(visible[indent.len() as int] == '-');
        assert forall|j: int| 0 <= j < indent.len() implies in_class(
            #[trigger] visible[j],
            CharClass::SpaceOrTab,
        ) by {
            assert(visible[j] == line[j]);
        }
        lemma_leading_unique(visible, CharClass::SpaceOrTab, indent.len() as int);
        let content = trim_start_class(visible, CharClass::SpaceOrTab);
        assert(content =~= "- "@ + label);
        assert(content.take(2) =~= "- "@);
        assert(line_body(visible) =~= label);
        if starts_with(label, directive_prefix()) {
            let rest = label.skip(directive_prefix().len() as int);
            assert forall|j: int| 0 <= j < rest.len() implies #[trigger] rest[j] != ']' by {
                let lead = leading_in_class(raw, CharClass::Whitespace);
                assert(rest[j] == label[j + directive_prefix().len()]);
                assert(label[j + directive_prefix().len()] == raw[j + directive_prefix().len()
                    + lead]);
                assert(raw[j + directive_prefix().len() + lead] == remainder[j
                    + directive_prefix().len() + lead]);
            }
            lemma_index_of_none(rest, ']');
        }
    }
}

} // verus!
