//! Semantic helpers for fenced Markdown code blocks in assistant responses.
//!
//! `/copy-code` copies the last non-empty fenced block of the latest response, verbatim. A block
//! that holds only whitespace counts as empty.

use vstd::prelude::*;

use pulldown_cmark::{CodeBlockKind, Event, Options, Parser, Tag, TagEnd};

use crate::text::{append_chars, chars_of, option_string_view, push_char, trim_bounds, trimmed};

verus! {

/// A Markdown parser event, reduced to what code-block extraction reads.
#[derive(Clone, Debug, PartialEq, Eq)]
pub enum MarkdownEvent {
    /// Start of a fenced code block.
    FencedCodeStart,
    /// End of a code block (fenced or indented).
    CodeBlockEnd,
    /// Text or inline code.
    Text(String),
    /// A soft or hard line break.
    LineBreak,
    /// Any other event.
    Other,
}

/// The mathematical value of a [`MarkdownEvent`].
pub enum MarkdownEventView {
    FencedCodeStart,
    CodeBlockEnd,
    Text(Seq<char>),
    LineBreak,
    Other,
}

impl View for MarkdownEvent {
    type V = MarkdownEventView;

    open spec fn view(&self) -> MarkdownEventView {
        match self {
            MarkdownEvent::FencedCodeStart => MarkdownEventView::FencedCodeStart,
            MarkdownEvent::CodeBlockEnd => MarkdownEventView::CodeBlockEnd,
            MarkdownEvent::Text(t) => MarkdownEventView::Text(t@),
            MarkdownEvent::LineBreak => MarkdownEventView::LineBreak,
            MarkdownEvent::Other => MarkdownEventView::Other,
        }
    }
}

pub open spec fn events_view(events: Seq<MarkdownEvent>) -> Seq<MarkdownEventView> {
    events.map_values(|e: MarkdownEvent| e@)
}

/// The events that `pulldown_cmark` produces for `markdown` with no extensions enabled.
pub uninterp spec fn parsed_markdown_events(markdown: Seq<char>) -> Seq<MarkdownEventView>;

/// Runs `pulldown_cmark::Parser::new_ext` with `Options::empty()` over `markdown` and reduces
/// each event to a [`MarkdownEvent`]. Claimed: the events are `parsed_markdown_events` of the
/// text, a function of the text alone.
#[verifier::external_body]
fn markdown_events(markdown: &str) -> (r: Vec<MarkdownEvent>)
    ensures
        events_view(r@) == parsed_markdown_events(markdown@),
{
    let mut events = Vec::new();
    for event in Parser::new_ext(markdown, Options::empty()) {
        events.push(match event {
            Event::Start(Tag::CodeBlock(CodeBlockKind::Fenced(_))) => MarkdownEvent::FencedCodeStart,
            Event::End(TagEnd::CodeBlock) => MarkdownEvent::CodeBlockEnd,
            Event::Text(text) | Event::Code(text) => MarkdownEvent::Text(text.to_string()),
            Event::SoftBreak | Event::HardBreak => MarkdownEvent::LineBreak,
            _ => MarkdownEvent::Other,
        });
    }
    events
}

/// The block being collected and the last non-empty block seen, after one more event.
pub open spec fn scan_step(
    state: (Option<Seq<char>>, Option<Seq<char>>),
    event: MarkdownEventView,
) -> (Option<Seq<char>>, Option<Seq<char>>) {
    let (current, latest) = state;
    match event {
        MarkdownEventView::FencedCodeStart => (Some(Seq::empty()), latest),
        MarkdownEventView::CodeBlockEnd => match current {
            Some(block) => if trimmed(block).len() > 0 {
                (None, Some(block))
            } else {
                (None, latest)
            },
            None => (None, latest),
        },
        MarkdownEventView::Text(t) => match current {
            Some(block) => (Some(block + t), latest),
            None => (None, latest),
        },
        MarkdownEventView::LineBreak => match current {
            Some(block) => (Some(block.push('\n')), latest),
            None => (None, latest),
        },
        MarkdownEventView::Other => (current, latest),
    }
}

/// The state after all of `events`.
pub open spec fn scan_events(events: Seq<MarkdownEventView>) -> (Option<Seq<char>>, Option<Seq<char>>)
    decreases events.len(),
{
    if events.len() == 0 {
        (None, None)
    } else {
        scan_step(scan_events(events.drop_last()), events.last())
    }
}

/// The content of the last fenced code block among `events` that holds more than whitespace.
pub open spec fn last_block(events: Seq<MarkdownEventView>) -> Option<Seq<char>> {
    scan_events(events).1
}

/// The content of the last non-empty fenced code block among parser `events`.
pub fn last_fenced_code_block_in(events: &Vec<MarkdownEvent>) -> (r: Option<String>)
    ensures
        option_string_view(r) == last_block(events_view(events@)),
{
    let mut current: Option<String> = None;
    let mut latest: Option<String> = None;
    let mut i: usize = 0;
    while i < events.len()
        invariant
            i <= events@.len(),
            (option_string_view(current), option_string_view(latest)) == scan_events(
                events_view(events@.take(i as int)),
            ),
        decreases events@.len() - i,
    {
        proof {
            assert(events_view(events@.take(i + 1)).drop_last() =~= events_view(events@.take(i as int)));
            assert(events_view(events@.take(i + 1)).last() == events@[i as int]@);
        }
        match &events[i] {
            MarkdownEvent::FencedCodeStart => {
                current = Some(String::new());
            },
            MarkdownEvent::CodeBlockEnd => {
                let block = current;
                current = None;
                match block {
                    Some(b) => {
                        let chars = chars_of(b.as_str());
                        assert(chars@.subrange(0, chars@.len() as int) == chars@);
                        let (lo, hi) = trim_bounds(&chars, 0, chars.len());
                        if lo < hi {
                            latest = Some(b);
                        }
                    },
                    None => {},
                }
            },
            MarkdownEvent::Text(t) => {
                match current {
                    Some(mut b) => {
                        let chars = chars_of(t.as_str());
                        append_chars(&mut b, &chars, 0, chars.len());
                        assert(chars@.subrange(0, chars@.len() as int) == chars@);
                        current = Some(b);
                    },
                    None => {
                        current = None;
                    },
                }
            },
            MarkdownEvent::LineBreak => {
                match current {
                    Some(mut b) => {
                        push_char(&mut b, '\n');
                        current = Some(b);
                    },
                    None => {
                        current = None;
                    },
                }
            },
            MarkdownEvent::Other => {},
        }
        i = i + 1;
    }
    assert(events@.take(events@.len() as int) =~= events@);
    latest
}

/// The content of the last non-empty fenced code block of `markdown`, verbatim.
pub fn last_fenced_code_block(markdown: &str) -> (r: Option<String>)
    ensures
        option_string_view(r) == last_block(parsed_markdown_events(markdown@)),
{
    let events = markdown_events(markdown);
    last_fenced_code_block_in(&events)
}

/// The block kept so far is never blank.
proof fn lemma_scan_latest_not_blank(events: Seq<MarkdownEventView>)
    ensures
        scan_events(events).1 matches Some(b) ==> trimmed(b).len() > 0,
    decreases events.len(),
{
    if events.len() > 0 {
        lemma_scan_latest_not_blank(events.drop_last());
    }
}

/// What `/copy-code` copies is never blank.
pub proof fn lemma_copied_block_is_not_blank(markdown: Seq<char>)
    ensures
        last_block(parsed_markdown_events(markdown)) matches Some(b) ==> trimmed(b).len() > 0,
{
    lemma_scan_latest_not_blank(parsed_markdown_events(markdown));
}

/// A fenced block that ends with content kept it: the copied block is the last one that
/// closed with non-blank content, whatever follows outside of blocks.
pub proof fn lemma_later_blocks_replace_earlier(
    events: Seq<MarkdownEventView>,
    content: Seq<char>,
)
    requires
        trimmed(content).len() > 0,
    ensures
        last_block(
            events + seq![
                MarkdownEventView::FencedCodeStart,
                MarkdownEventView::Text(content),
                MarkdownEventView::CodeBlockEnd,
            ],
        ) == Some(content),
{
    let tail = seq![
        MarkdownEventView::FencedCodeStart,
        MarkdownEventView::Text(content),
        MarkdownEventView::CodeBlockEnd,
    ];
    let all = events + tail;
    assert(all.drop_last().drop_last().drop_last() =~= events);
    assert(all.drop_last().drop_last().last() == MarkdownEventView::FencedCodeStart);
    assert(all.drop_last().last() == MarkdownEventView::Text(content));
    assert(all.last() == MarkdownEventView::CodeBlockEnd);
    assert(Seq::<char>::empty() + content =~= content);
    let s0 = scan_events(events);
    let s1 = scan_events(all.drop_last().drop_last());
    assert(s1 == scan_step(s0, MarkdownEventView::FencedCodeStart));
    let s2 = scan_events(all.drop_last());
    assert(s2 == scan_step(s1, MarkdownEventView::Text(content)));
    assert(s2.0 == Some(content));
    assert(scan_events(all) == scan_step(s2, MarkdownEventView::CodeBlockEnd));
}

/// Once the kept block is settled and no fenced block is open, events that open no fenced block
/// leave it as it is.
proof fn lemma_tail_keeps_block(
    prefix: Seq<MarkdownEventView>,
    tail: Seq<MarkdownEventView>,
    content: Seq<char>,
)
    requires
        scan_events(prefix) == (None::<Seq<char>>, Some(content)),
        forall|i: int| 0 <= i < tail.len() ==> !(#[trigger] tail[i] is FencedCodeStart),
    ensures
        scan_events(prefix + tail) == (None::<Seq<char>>, Some(content)),
    decreases tail.len(),
{
    if tail.len() == 0 {
        assert(prefix + tail =~= prefix);
    } else {
        let all = prefix + tail;
        assert(all.drop_last() =~= prefix + tail.drop_last());
        assert forall|i: int| 0 <= i < tail.drop_last().len() implies !(
        #[trigger] tail.drop_last()[i] is FencedCodeStart) by {
            assert(tail.drop_last()[i] == tail[i]);
        }
        lemma_tail_keeps_block(prefix, tail.drop_last(), content);
        assert(all.last() == tail[tail.len() - 1]);
    }
}

/// `/copy-code` copies the last fenced block that closed with content: whatever comes after it
/// (prose, indented code blocks, blank fenced blocks never opened) changes nothing unless another
/// fenced block opens.
pub proof fn lemma_events_after_last_block_change_nothing(
    events: Seq<MarkdownEventView>,
    content: Seq<char>,
    tail: Seq<MarkdownEventView>,
)
    requires
        trimmed(content).len() > 0,
        forall|i: int| 0 <= i < tail.len() ==> !(#[trigger] tail[i] is FencedCodeStart),
    ensures
        last_block(
            events + seq![
                MarkdownEventView::FencedCodeStart,
                MarkdownEventView::Text(content),
                MarkdownEventView::CodeBlockEnd,
            ] + tail,
        ) == Some(content),
{
    let block = seq![
        MarkdownEventView::FencedCodeStart,
        MarkdownEventView::Text(content),
        MarkdownEventView::CodeBlockEnd,
    ];
    let prefix = events + block;
    assert(prefix.drop_last().drop_last().drop_last() =~= events);
    assert(prefix.drop_last().drop_last().last() == MarkdownEventView::FencedCodeStart);
    assert(prefix.drop_last().last() == MarkdownEventView::Text(content));
    assert(prefix.last() == MarkdownEventView::CodeBlockEnd);
    assert(Seq::<char>::empty() + content =~= content);
    assert(scan_events(prefix.drop_last().drop_last()).0 == Some(Seq::<char>::empty()));
    assert(scan_events(prefix.drop_last()).0 == Some(content));
    assert(scan_events(prefix) == (None::<Seq<char>>, Some(content)));
    lemma_tail_keeps_block(prefix, tail, content);
}

} // verus!
