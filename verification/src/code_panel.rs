//! Hard wrapping of syntax-highlighted code rows.
//!
//! A code row is split into rows no wider than the panel without changing or discarding any
//! source character; runs of the same style stay in one span so syntax colors carry across
//! continuation rows. Styles are identified by a key: two spans have the same style exactly when
//! their keys are equal.

use vstd::prelude::*;

use unicode_segmentation::UnicodeSegmentation;

use crate::text::{append_chars, chars_of};

verus! {

/// A run of text in one style.
#[derive(Clone, Debug, PartialEq, Eq)]
pub struct CodeSpan {
    pub content: String,
    /// Key of the span's style.
    pub style: u32,
}

/// A row of code: its own style and its spans.
#[derive(Clone, Debug, PartialEq, Eq)]
pub struct CodeLine {
    /// Key of the row's style.
    pub style: u32,
    pub spans: Vec<CodeSpan>,
}

/// The mathematical value of a span: its text and style key.
pub type SpanView = (Seq<char>, u32);

/// The mathematical value of a row: its style key and spans.
pub type LineView = (u32, Seq<SpanView>);

impl View for CodeSpan {
    type V = SpanView;

    open spec fn view(&self) -> SpanView {
        (self.content@, self.style)
    }
}

impl View for CodeLine {
    type V = LineView;

    open spec fn view(&self) -> LineView {
        (self.style, spans_view(self.spans@))
    }
}

pub open spec fn spans_view(spans: Seq<CodeSpan>) -> Seq<SpanView> {
    spans.map_values(|s: CodeSpan| s@)
}

pub open spec fn lines_view(lines: Seq<CodeLine>) -> Seq<LineView> {
    lines.map_values(|l: CodeLine| l@)
}

pub open spec fn strings_view(strings: Seq<String>) -> Seq<Seq<char>> {
    strings.map_values(|s: String| s@)
}

/// The concatenation of `parts`.
pub open spec fn concat(parts: Seq<Seq<char>>) -> Seq<char>
    decreases parts.len(),
{
    if parts.len() == 0 {
        Seq::empty()
    } else {
        concat(parts.drop_last()) + parts.last()
    }
}

/// The extended grapheme clusters of `s`, as `unicode_segmentation` splits it.
pub uninterp spec fn grapheme_clusters(s: Seq<char>) -> Seq<Seq<char>>;

/// The display width of `s` in terminal columns, as `ratatui` measures a span.
pub uninterp spec fn display_width(s: Seq<char>) -> nat;

/// Calls `UnicodeSegmentation::graphemes(s, true)`. Claimed: the clusters are
/// `grapheme_clusters` of the text, a function of the text alone, and they split the text
/// without losing or adding characters.
#[verifier::external_body]
fn graphemes_of(s: &str) -> (r: Vec<String>)
    ensures
        strings_view(r@) == grapheme_clusters(s@),
        concat(strings_view(r@)) == s@,
{
    s.graphemes(true).map(String::from).collect()
}

/// Calls `ratatui::text::Span::width` on a span holding `s`. Claimed: the result is
/// `display_width` of the text, a function of the text alone.
#[verifier::external_body]
fn span_width(s: &str) -> (r: usize)
    ensures
        r == display_width(s@),
{
    ratatui::text::Span::raw(s).width()
}

/// `a + b`, saturating at `usize::MAX`.
pub open spec fn saturating_add(a: nat, b: nat) -> nat {
    if a + b > usize::MAX {
        usize::MAX as nat
    } else {
        a + b
    }
}

/// The wrapping state: finished rows, the row being filled, and its width so far.
pub type WrapState = (Seq<Seq<SpanView>>, Seq<SpanView>, nat);

/// The state after placing grapheme `g` of style `style` on rows at most `width` wide: a new
/// row is started when the current one is not empty and `g` would overflow it; `g` joins the
/// last span of the row when that span has the same style.
pub open spec fn place_grapheme(state: WrapState, g: Seq<char>, style: u32, width: nat) -> WrapState {
    let (done, row, row_width) = state;
    let w = display_width(g);
    let (done, row, row_width) = if row_width > 0 && saturating_add(row_width, w) > width {
        (done.push(row), Seq::<SpanView>::empty(), 0nat)
    } else {
        (done, row, row_width)
    };
    let row = if row.len() > 0 && row.last().1 == style {
        row.drop_last().push((row.last().0 + g, style))
    } else {
        row.push((g, style))
    };
    (done, row, saturating_add(row_width, w))
}

/// The state after placing the graphemes `gs`, all of style `style`.
pub open spec fn place_graphemes(state: WrapState, gs: Seq<Seq<char>>, style: u32, width: nat) -> WrapState
    decreases gs.len(),
{
    if gs.len() == 0 {
        state
    } else {
        place_grapheme(place_graphemes(state, gs.drop_last(), style, width), gs.last(), style, width)
    }
}

/// The state after placing the graphemes of `spans`, from an empty first row.
pub open spec fn place_spans(spans: Seq<SpanView>, width: nat) -> WrapState
    decreases spans.len(),
{
    if spans.len() == 0 {
        (Seq::empty(), Seq::empty(), 0)
    } else {
        place_graphemes(
            place_spans(spans.drop_last(), width),
            grapheme_clusters(spans.last().0),
            spans.last().1,
            width,
        )
    }
}

/// The display width of a row: the sum of its span widths.
pub open spec fn line_width(spans: Seq<SpanView>) -> nat
    decreases spans.len(),
{
    if spans.len() == 0 {
        0
    } else {
        line_width(spans.drop_last()) + display_width(spans.last().0)
    }
}

/// The rows for `line` at `width` columns (a width of zero counts as one): the line itself when
/// it fits, else the wrapped rows, each in the line's style.
pub open spec fn spec_hard_wrap(line: LineView, width: nat) -> Seq<LineView> {
    let width = if width == 0 {
        1
    } else {
        width
    };
    if line_width(line.1) <= width {
        seq![line]
    } else {
        let (done, row, _) = place_spans(line.1, width);
        done.push(row).map_values(|spans: Seq<SpanView>| (line.0, spans))
    }
}

/// The text of a row: its span contents in order.
pub open spec fn spans_text(spans: Seq<SpanView>) -> Seq<char>
    decreases spans.len(),
{
    if spans.len() == 0 {
        Seq::empty()
    } else {
        spans_text(spans.drop_last()) + spans.last().0
    }
}

/// The text of several rows, one after the other.
pub open spec fn rows_text(rows: Seq<Seq<SpanView>>) -> Seq<char>
    decreases rows.len(),
{
    if rows.len() == 0 {
        Seq::empty()
    } else {
        rows_text(rows.drop_last()) + spans_text(rows.last())
    }
}

/// The text of the rows of a wrapping state, the current row included.
pub open spec fn state_text(state: WrapState) -> Seq<char> {
    rows_text(state.0.push(state.1))
}

proof fn lemma_place_grapheme_text(state: WrapState, g: Seq<char>, style: u32, width: nat)
    ensures
        state_text(place_grapheme(state, g, style, width)) == state_text(state) + g,
{
    let (done, row, row_width) = state;
    let w = display_width(g);
    let wrap = row_width > 0 && saturating_add(row_width, w) > width;
    let (d1, r1) = if wrap {
        (done.push(row), Seq::<SpanView>::empty())
    } else {
        (done, row)
    };
    assert(rows_text(d1.push(r1)) == rows_text(done.push(row))) by {
        if wrap {
            assert(d1.push(r1).drop_last() =~= done.push(row));
            assert(spans_text(r1) =~= Seq::<char>::empty());
            assert(rows_text(done.push(row)) + Seq::<char>::empty() =~= rows_text(done.push(row)));
        }
    }
    let r2 = if r1.len() > 0 && r1.last().1 == style {
        r1.drop_last().push((r1.last().0 + g, style))
    } else {
        r1.push((g, style))
    };
    assert(spans_text(r2) == spans_text(r1) + g) by {
        if r1.len() > 0 && r1.last().1 == style {
            assert(r2.drop_last() =~= r1.drop_last());
            assert(spans_text(r1) == spans_text(r1.drop_last()) + r1.last().0);
            assert(spans_text(r1.drop_last()) + (r1.last().0 + g) =~= spans_text(r1.drop_last())
                + r1.last().0 + g);
        } else {
            assert(r2.drop_last() =~= r1);
        }
    }
    assert(d1.push(r2).drop_last() =~= d1);
    assert(d1.push(r1).drop_last() =~= d1);
    assert(rows_text(d1) + (spans_text(r1) + g) =~= rows_text(d1) + spans_text(r1) + g);
}

/// The text of a single row is the text of its spans.
proof fn lemma_rows_text_single(row: Seq<SpanView>)
    ensures
        rows_text(seq![row]) == spans_text(row),
{
    let rows = seq![row];
    assert(rows.drop_last() =~= Seq::<Seq<SpanView>>::empty());
    assert(rows_text(rows.drop_last()) == Seq::<char>::empty());
    assert(Seq::<char>::empty() + spans_text(row) =~= spans_text(row));
}

/// The text of a sequence of rows built from `line`'s style.
pub open spec fn lines_text(lines: Seq<LineView>) -> Seq<char> {
    rows_text(lines.map_values(|l: LineView| l.1))
}

/// Whether neighbouring spans of `row` differ in style: each run of one style is one span.
pub open spec fn style_runs_merged(row: Seq<SpanView>) -> bool {
    forall|i: int, j: int|
        0 <= i && i + 1 == j && j < row.len() ==> #[trigger] row[i].1 != #[trigger] row[j].1
}

/// Whether every row of a wrapping state, the current one included, has merged style runs.
pub open spec fn state_runs_merged(state: WrapState) -> bool {
    &&& forall|k: int| 0 <= k < state.0.len() ==> style_runs_merged(#[trigger] state.0[k])
    &&& style_runs_merged(state.1)
}

proof fn lemma_place_grapheme_runs(state: WrapState, g: Seq<char>, style: u32, width: nat)
    requires
        state_runs_merged(state),
    ensures
        state_runs_merged(place_grapheme(state, g, style, width)),
{
    let (done, row, row_width) = state;
    let w = display_width(g);
    let wrap = row_width > 0 && saturating_add(row_width, w) > width;
    let (d1, r1) = if wrap {
        (done.push(row), Seq::<SpanView>::empty())
    } else {
        (done, row)
    };
    assert forall|k: int| 0 <= k < d1.len() implies style_runs_merged(#[trigger] d1[k]) by {
        if wrap && k == done.len() {
            assert(d1[k] == row);
        } else {
            assert(d1[k] == done[k]);
        }
    }
    assert(style_runs_merged(r1));
    let r2 = if r1.len() > 0 && r1.last().1 == style {
        r1.drop_last().push((r1.last().0 + g, style))
    } else {
        r1.push((g, style))
    };
    assert forall|i: int, j: int| 0 <= i && i + 1 == j && j < r2.len() implies #[trigger] r2[i].1
        != #[trigger] r2[j].1 by {
        if r1.len() > 0 && r1.last().1 == style {
            assert(r2[i].1 == r1[i].1);
            assert(r2[j].1 == r1[j].1);
            assert(r1[i].1 != r1[j].1);
        } else if j < r1.len() {
            assert(r1[i].1 != r1[j].1);
        } else {
            assert(r2[i] == r1.last());
        }
    }
}

proof fn lemma_place_graphemes_runs(state: WrapState, gs: Seq<Seq<char>>, style: u32, width: nat)
    requires
        state_runs_merged(state),
    ensures
        state_runs_merged(place_graphemes(state, gs, style, width)),
    decreases gs.len(),
{
    if gs.len() > 0 {
        lemma_place_graphemes_runs(state, gs.drop_last(), style, width);
        lemma_place_grapheme_runs(
            place_graphemes(state, gs.drop_last(), style, width),
            gs.last(),
            style,
            width,
        );
    }
}

proof fn lemma_place_spans_runs(spans: Seq<SpanView>, width: nat)
    ensures
        state_runs_merged(place_spans(spans, width)),
    decreases spans.len(),
{
    if spans.len() > 0 {
        lemma_place_spans_runs(spans.drop_last(), width);
        lemma_place_graphemes_runs(
            place_spans(spans.drop_last(), width),
            grapheme_clusters(spans.last().0),
            spans.last().1,
            width,
        );
    }
}

/// When a row is wrapped, every resulting row is in the row's style and holds each run of one
/// span style as a single span, so syntax colors carry across continuation rows unchanged.
pub proof fn lemma_wrapped_rows_keep_style_runs(line: LineView, width: nat)
    requires
        line_width(line.1) > (if width == 0 {
            1
        } else {
            width
        }),
    ensures
        forall|k: int|
            0 <= k < spec_hard_wrap(line, width).len() ==> {
                &&& (#[trigger] spec_hard_wrap(line, width)[k]).0 == line.0
                &&& style_runs_merged(spec_hard_wrap(line, width)[k].1)
            },
{
    let w = if width == 0 {
        1
    } else {
        width
    };
    lemma_place_spans_runs(line.1, w);
    let (done, row, _) = place_spans(line.1, w);
    let rows = done.push(row);
    assert forall|k: int| 0 <= k < rows.len() implies style_runs_merged(#[trigger] rows[k]) by {
        if k < done.len() {
            assert(rows[k] == done[k]);
        }
    }
}

/// Whether the spans of `line` fit in `width` columns.
fn line_fits(line: &CodeLine, width: usize) -> (r: bool)
    ensures
        r == (line_width(spans_view(line.spans@)) <= width),
{
    let mut total: usize = 0;
    let mut i: usize = 0;
    while i < line.spans.len()
        invariant
            i <= line.spans@.len(),
            total == line_width(spans_view(line.spans@.take(i as int))),
            total <= width,
        decreases line.spans@.len() - i,
    {
        proof {
            assert(spans_view(line.spans@.take(i + 1)).drop_last() =~= spans_view(
                line.spans@.take(i as int),
            ));
        }
        let w = span_width(line.spans[i].content.as_str());
        if w > width - total {
            proof {
                lemma_line_width_prefix(spans_view(line.spans@), i + 1);
                assert(spans_view(line.spans@).take(i + 1) =~= spans_view(line.spans@.take(i + 1)));
            }
            return false;
        }
        total = total + w;
        i = i + 1;
    }
    assert(line.spans@.take(i as int) =~= line.spans@);
    true
}

/// The width of a prefix of a row is at most the width of the row.
proof fn lemma_line_width_prefix(spans: Seq<SpanView>, k: int)
    requires
        0 <= k <= spans.len(),
    ensures
        line_width(spans.take(k)) <= line_width(spans),
    decreases spans.len(),
{
    if k < spans.len() {
        assert(spans.drop_last().take(k) =~= spans.take(k));
        lemma_line_width_prefix(spans.drop_last(), k);
    } else {
        assert(spans.take(k) =~= spans);
    }
}

/// The spans of each of `rows`.
pub open spec fn rows_view(rows: Seq<CodeLine>) -> Seq<Seq<SpanView>> {
    rows.map_values(|r: CodeLine| spans_view(r.spans@))
}

/// A copy of `line`.
fn copy_line(line: &CodeLine) -> (r: CodeLine)
    ensures
        r@ == line@,
{
    let mut spans: Vec<CodeSpan> = Vec::new();
    let mut i: usize = 0;
    while i < line.spans.len()
        invariant
            i <= line.spans@.len(),
            spans_view(spans@) == spans_view(line.spans@.take(i as int)),
        decreases line.spans@.len() - i,
    {
        let ghost before = spans@;
        spans.push(CodeSpan { content: line.spans[i].content.clone(), style: line.spans[i].style });
        proof {
            assert(spans_view(line.spans@.take(i + 1)) =~= spans_view(line.spans@.take(i as int)).push(
                line.spans@[i as int]@,
            ));
            assert(spans_view(spans@) =~= spans_view(before).push(line.spans@[i as int]@));
        }
        i = i + 1;
    }
    assert(line.spans@.take(i as int) =~= line.spans@);
    CodeLine { style: line.style, spans }
}

/// Places grapheme `g` of style `style`.
fn place_grapheme_exec(
    done: &mut Vec<CodeLine>,
    line_style: u32,
    row: &mut Vec<CodeSpan>,
    row_width: &mut usize,
    g: &String,
    style: u32,
    width: usize,
)
    requires
        forall|k: int| 0 <= k < old(done)@.len() ==> #[trigger] old(done)@[k].style == line_style,
    ensures
        forall|k: int| 0 <= k < final(done)@.len() ==> #[trigger] final(done)@[k].style == line_style,
        (rows_view(final(done)@), spans_view(final(row)@), *final(row_width) as nat) == place_grapheme(
            (rows_view(old(done)@), spans_view(old(row)@), *old(row_width) as nat),
            g@,
            style,
            width as nat,
        ),
{
    let w = span_width(g.as_str());
    let added: usize = if *row_width > usize::MAX - w {
        usize::MAX
    } else {
        *row_width + w
    };
    if *row_width > 0 && added > width {
        let mut finished: Vec<CodeSpan> = Vec::new();
        std::mem::swap(&mut finished, row);
        done.push(CodeLine { style: line_style, spans: finished });
        *row_width = 0;
        proof {
            assert(rows_view(done@) =~= rows_view(old(done)@).push(spans_view(old(row)@)));
            assert(spans_view(row@) =~= Seq::<SpanView>::empty());
        }
    }
    let ghost before = spans_view(row@);
    let chars = chars_of(g.as_str());
    assert(chars@.subrange(0, chars@.len() as int) == chars@);
    let merge = row.len() > 0 && row[row.len() - 1].style == style;
    if merge {
        let mut last = row.pop().unwrap();
        append_chars(&mut last.content, &chars, 0, chars.len());
        row.push(last);
        proof {
            assert(spans_view(row@) =~= before.drop_last().push((before.last().0 + g@, style)));
        }
    } else {
        let mut content = String::new();
        append_chars(&mut content, &chars, 0, chars.len());
        assert(Seq::<char>::empty() + chars@ =~= chars@);
        row.push(CodeSpan { content, style });
        proof {
            assert(spans_view(row@) =~= before.push((g@, style)));
        }
    }
    *row_width = if *row_width > usize::MAX - w {
        usize::MAX
    } else {
        *row_width + w
    };
}

/// Whether `line` is kept as it is at `width` columns (a width of zero counts as one), in which
/// case [`hard_wrap_code_line`] returns it as its only row.
pub fn fits_on_one_row(line: &CodeLine, width: usize) -> (r: bool)
    ensures
        r == (line_width(line@.1) <= (if width == 0 {
            1
        } else {
            width
        })),
        r ==> spec_hard_wrap(line@, width as nat) == seq![line@],
{
    let width = if width == 0 {
        1
    } else {
        width
    };
    line_fits(line, width)
}

/// Hard-wraps a syntax-highlighted code row at `width` columns without changing or discarding
/// source whitespace.
pub fn hard_wrap_code_line(line: &CodeLine, width: usize) -> (r: Vec<CodeLine>)
    ensures
        lines_view(r@) == spec_hard_wrap(line@, width as nat),
        lines_text(lines_view(r@)) == spans_text(line@.1),
{
    let width = if width == 0 {
        1
    } else {
        width
    };
    if line_fits(line, width) {
        let mut rows: Vec<CodeLine> = Vec::new();
        rows.push(copy_line(line));
        assert(lines_view(rows@) =~= seq![line@]);
        proof {
            let rs = lines_view(rows@).map_values(|l: LineView| l.1);
            assert(rs =~= seq![line@.1]);
            lemma_rows_text_single(line@.1);
        }
        return rows;
    }
    let mut done: Vec<CodeLine> = Vec::new();
    let mut row: Vec<CodeSpan> = Vec::new();
    let mut row_width: usize = 0;
    let mut i: usize = 0;
    proof {
        let empty_rows = rows_view(done@).push(spans_view(row@));
        assert(spans_view(row@) =~= Seq::<SpanView>::empty());
        assert(empty_rows =~= seq![Seq::<SpanView>::empty()]);
        lemma_rows_text_single(Seq::<SpanView>::empty());
        assert(spans_text(Seq::<SpanView>::empty()) == Seq::<char>::empty());
        assert(spans_view(line.spans@.take(0)) =~= Seq::<SpanView>::empty());
        assert(rows_view(done@) =~= Seq::<Seq<SpanView>>::empty());
    }
    while i < line.spans.len()
        invariant
            i <= line.spans@.len(),
            (rows_view(done@), spans_view(row@), row_width as nat) == place_spans(
                spans_view(line.spans@.take(i as int)),
                width as nat,
            ),
            forall|k: int| 0 <= k < done@.len() ==> #[trigger] done@[k].style == line.style,
            state_text((rows_view(done@), spans_view(row@), row_width as nat)) == spans_text(
                spans_view(line.spans@.take(i as int)),
            ),
        decreases line.spans@.len() - i,
    {
        let span = &line.spans[i];
        let gs = graphemes_of(span.content.as_str());
        let ghost start = (rows_view(done@), spans_view(row@), row_width as nat);
        let mut j: usize = 0;
        assert(strings_view(gs@.take(0)) =~= Seq::<Seq<char>>::empty());
        assert(state_text(start) + Seq::<char>::empty() =~= state_text(start));
        while j < gs.len()
            invariant
                j <= gs@.len(),
                strings_view(gs@) == grapheme_clusters(span.content@),
                (rows_view(done@), spans_view(row@), row_width as nat) == place_graphemes(
                    start,
                    strings_view(gs@.take(j as int)),
                    span.style,
                    width as nat,
                ),
                forall|k: int| 0 <= k < done@.len() ==> #[trigger] done@[k].style == line.style,
                state_text((rows_view(done@), spans_view(row@), row_width as nat)) == state_text(
                    start,
                ) + concat(strings_view(gs@.take(j as int))),
            decreases gs@.len() - j,
        {
            proof {
                assert(strings_view(gs@.take(j + 1)).drop_last() =~= strings_view(gs@.take(j as int)));
                assert(strings_view(gs@.take(j + 1)).last() == gs@[j as int]@);
                lemma_place_grapheme_text(
                    (rows_view(done@), spans_view(row@), row_width as nat),
                    gs@[j as int]@,
                    span.style,
                    width as nat,
                );
                assert(state_text(start) + concat(strings_view(gs@.take(j as int))) + gs@[j as int]@
                    =~= state_text(start) + concat(strings_view(gs@.take(j + 1))));
            }
            place_grapheme_exec(&mut done, line.style, &mut row, &mut row_width, &gs[j], span.style, width);
            j = j + 1;
        }
        proof {
            assert(gs@.take(gs@.len() as int) =~= gs@);
            assert(spans_view(line.spans@.take(i + 1)).drop_last() =~= spans_view(
                line.spans@.take(i as int),
            ));
            assert(spans_view(line.spans@.take(i + 1)).last() == span@);
        }
        i = i + 1;
    }
    assert(line.spans@.take(i as int) =~= line.spans@);
    let ghost finished = rows_view(done@).push(spans_view(row@));
    done.push(CodeLine { style: line.style, spans: row });
    proof {
        assert(rows_view(done@) =~= finished);
        assert(lines_view(done@) =~= finished.map_values(|spans: Seq<SpanView>| (line.style, spans)));
        assert(lines_view(done@).map_values(|l: LineView| l.1) =~= finished);
    }
    done
}

/// The grapheme clusters of the spans of a row, in order.
pub open spec fn row_graphemes(spans: Seq<SpanView>) -> Seq<Seq<char>>
    decreases spans.len(),
{
    if spans.len() == 0 {
        Seq::empty()
    } else {
        row_graphemes(spans.drop_last()) + grapheme_clusters(spans.last().0)
    }
}

/// The columns that the graphemes `gs` take, each measured on its own.
pub open spec fn graphemes_width(gs: Seq<Seq<char>>) -> nat
    decreases gs.len(),
{
    if gs.len() == 0 {
        0
    } else {
        graphemes_width(gs.drop_last()) + display_width(gs.last())
    }
}

/// The groups `groups`, one after the other.
pub open spec fn flatten_groups(groups: Seq<Seq<Seq<char>>>) -> Seq<Seq<char>>
    decreases groups.len(),
{
    if groups.len() == 0 {
        Seq::empty()
    } else {
        flatten_groups(groups.drop_last()) + groups.last()
    }
}

/// Whether every grapheme of `gs` but the last takes no column.
pub open spec fn only_last_takes_columns(gs: Seq<Seq<char>>) -> bool {
    forall|i: int| 0 <= i < gs.len() - 1 ==> display_width(#[trigger] gs[i]) == 0
}

/// `rows` split `graphemes` greedily at `width` columns: `groups` gives the graphemes of each row,
/// in order and without gaps; a row is no wider than `width` unless it holds a single grapheme
/// that takes columns (after any that take none); and a row ends only when it is not empty and
/// the first grapheme of the next row would not fit on it.
pub open spec fn splits_greedily(
    rows: Seq<LineView>,
    groups: Seq<Seq<Seq<char>>>,
    graphemes: Seq<Seq<char>>,
    width: nat,
) -> bool {
    &&& groups.len() == rows.len()
    &&& flatten_groups(groups) == graphemes
    &&& forall|k: int| 0 <= k < rows.len() ==> spans_text(#[trigger] rows[k].1) == concat(groups[k])
    &&& forall|k: int|
        0 <= k < groups.len() ==> graphemes_width(#[trigger] groups[k]) <= width
            || only_last_takes_columns(groups[k])
    &&& forall|k: int|
        0 <= k < groups.len() - 1 ==> {
            &&& groups[k + 1].len() > 0
            &&& graphemes_width(#[trigger] groups[k]) > 0
            &&& graphemes_width(groups[k]) + display_width(groups[k + 1][0]) > width
        }
}

/// The columns of a panel `width` wide; a width of zero counts as one.
pub open spec fn panel_width(width: nat) -> nat {
    if width == 0 {
        1
    } else {
        width
    }
}

/// `x`, saturating at `usize::MAX`.
spec fn saturate(x: nat) -> nat {
    if x > usize::MAX {
        usize::MAX as nat
    } else {
        x
    }
}

/// The graphemes of the finished rows and of the current row, alongside a wrapping state.
type GroupState = (Seq<Seq<Seq<char>>>, Seq<Seq<char>>);

/// The groups after placing `g` in `state`, as `place_grapheme` does.
spec fn group_step(state: WrapState, groups: GroupState, g: Seq<char>, width: nat) -> GroupState {
    if state.2 > 0 && saturating_add(state.2, display_width(g)) > width {
        (groups.0.push(groups.1), seq![g])
    } else {
        (groups.0, groups.1.push(g))
    }
}

spec fn groups_after_graphemes(
    state: WrapState,
    groups: GroupState,
    gs: Seq<Seq<char>>,
    style: u32,
    width: nat,
) -> GroupState
    decreases gs.len(),
{
    if gs.len() == 0 {
        groups
    } else {
        group_step(
            place_graphemes(state, gs.drop_last(), style, width),
            groups_after_graphemes(state, groups, gs.drop_last(), style, width),
            gs.last(),
            width,
        )
    }
}

spec fn groups_after_spans(spans: Seq<SpanView>, width: nat) -> GroupState
    decreases spans.len(),
{
    if spans.len() == 0 {
        (Seq::empty(), Seq::empty())
    } else {
        groups_after_graphemes(
            place_spans(spans.drop_last(), width),
            groups_after_spans(spans.drop_last(), width),
            grapheme_clusters(spans.last().0),
            spans.last().1,
            width,
        )
    }
}

/// How the groups describe a wrapping state after `placed` graphemes.
spec fn groups_describe(state: WrapState, groups: GroupState, placed: Seq<Seq<char>>, width: nat) -> bool {
    let (done, row, row_width) = state;
    let (gdone, grow) = groups;
    let all = gdone.push(grow);
    &&& gdone.len() == done.len()
    &&& forall|k: int| 0 <= k < done.len() ==> spans_text(#[trigger] done[k]) == concat(gdone[k])
    &&& spans_text(row) == concat(grow)
    &&& row_width == saturate(graphemes_width(grow))
    &&& forall|k: int|
        0 <= k < all.len() ==> graphemes_width(#[trigger] all[k]) <= width
            || only_last_takes_columns(all[k])
    &&& forall|k: int|
        0 <= k < all.len() - 1 ==> {
            &&& all[k + 1].len() > 0
            &&& graphemes_width(#[trigger] all[k]) > 0
            &&& graphemes_width(all[k]) + display_width(all[k + 1][0]) > width
        }
    &&& flatten_groups(all) == placed
}

proof fn lemma_zero_width_graphemes(gs: Seq<Seq<char>>)
    requires
        graphemes_width(gs) == 0,
    ensures
        forall|i: int| 0 <= i < gs.len() ==> display_width(#[trigger] gs[i]) == 0,
    decreases gs.len(),
{
    if gs.len() > 0 {
        lemma_zero_width_graphemes(gs.drop_last());
        assert forall|i: int| 0 <= i < gs.len() implies display_width(#[trigger] gs[i]) == 0 by {
            if i < gs.len() - 1 {
                assert(gs[i] == gs.drop_last()[i]);
            }
        }
    }
}

proof fn lemma_row_text_after_place(r1: Seq<SpanView>, g: Seq<char>, style: u32)
    ensures
        spans_text(
            if r1.len() > 0 && r1.last().1 == style {
                r1.drop_last().push((r1.last().0 + g, style))
            } else {
                r1.push((g, style))
            },
        ) == spans_text(r1) + g,
{
    let r2 = if r1.len() > 0 && r1.last().1 == style {
        r1.drop_last().push((r1.last().0 + g, style))
    } else {
        r1.push((g, style))
    };
    if r1.len() > 0 && r1.last().1 == style {
        assert(r2.drop_last() =~= r1.drop_last());
        assert(spans_text(r1) == spans_text(r1.drop_last()) + r1.last().0);
        assert(spans_text(r1.drop_last()) + (r1.last().0 + g) =~= spans_text(r1.drop_last())
            + r1.last().0 + g);
    } else {
        assert(r2.drop_last() =~= r1);
    }
}

proof fn lemma_group_step(state: WrapState, groups: GroupState, placed: Seq<Seq<char>>, g: Seq<char>, style: u32, width: nat)
    requires
        width < usize::MAX,
        groups_describe(state, groups, placed, width),
    ensures
        groups_describe(
            place_grapheme(state, g, style, width),
            group_step(state, groups, g, width),
            placed.push(g),
            width,
        ),
{
    let (done, row, row_width) = state;
    let (gdone, grow) = groups;
    let all = gdone.push(grow);
    let w = display_width(g);
    let gw = graphemes_width(grow);
    let wrap = row_width > 0 && saturating_add(row_width, w) > width;
    assert(wrap == (gw > 0 && gw + w > width));
    let next = place_grapheme(state, g, style, width);
    let ngroups = group_step(state, groups, g, width);
    let (d1, r1) = if wrap {
        (done.push(row), Seq::<SpanView>::empty())
    } else {
        (done, row)
    };
    lemma_row_text_after_place(r1, g, style);
    assert(next.0 == d1);
    let (ngdone, ngrow) = ngroups;
    let nall = ngdone.push(ngrow);
    assert(graphemes_width(grow.push(g)) == gw + w) by {
        assert(grow.push(g).drop_last() =~= grow);
    }
    assert(concat(grow.push(g)) == concat(grow) + g) by {
        assert(grow.push(g).drop_last() =~= grow);
    }
    if wrap {
        assert(ngrow =~= seq![g]);
        assert(seq![g].drop_last() =~= Seq::<Seq<char>>::empty());
        assert(concat(seq![g]) == concat(Seq::<Seq<char>>::empty()) + g);
        assert(concat(Seq::<Seq<char>>::empty()) + g =~= g);
        assert(spans_text(r1) =~= Seq::<char>::empty());
        assert(Seq::<char>::empty() + g =~= g);
        assert(graphemes_width(seq![g]) == graphemes_width(Seq::<Seq<char>>::empty()) + w);
        assert(nall =~= all.push(seq![g]));
        assert forall|k: int| 0 <= k < d1.len() implies spans_text(#[trigger] d1[k]) == concat(
            ngdone[k],
        ) by {
            if k < done.len() {
                assert(d1[k] == done[k]);
                assert(ngdone[k] == gdone[k]);
            } else {
                assert(d1[k] == row);
                assert(ngdone[k] == grow);
            }
        }
        assert forall|k: int| 0 <= k < nall.len() implies graphemes_width(#[trigger] nall[k]) <= width
            || only_last_takes_columns(nall[k]) by {
            if k < all.len() {
                assert(nall[k] == all[k]);
            } else {
                assert(nall[k] == seq![g]);
            }
        }
        assert forall|k: int| 0 <= k < nall.len() - 1 implies {
            &&& nall[k + 1].len() > 0
            &&& graphemes_width(#[trigger] nall[k]) > 0
            &&& graphemes_width(nall[k]) + display_width(nall[k + 1][0]) > width
        } by {
            assert(nall[k] == all[k]);
            if k + 1 < all.len() {
                assert(nall[k + 1] == all[k + 1]);
            } else {
                assert(all[k] == grow);
                assert(nall[k + 1] == seq![g]);
            }
        }
        assert(nall.drop_last() =~= all);
        assert(flatten_groups(nall) == flatten_groups(all) + seq![g]);
        assert(placed + seq![g] =~= placed.push(g));
    } else {
        assert(ngdone == gdone);
        assert(ngrow == grow.push(g));
        assert forall|k: int| 0 <= k < d1.len() implies spans_text(#[trigger] d1[k]) == concat(
            ngdone[k],
        ) by {
            assert(d1[k] == done[k]);
        }
        if gw == 0 {
            lemma_zero_width_graphemes(grow);
            assert forall|i: int| 0 <= i < ngrow.len() - 1 implies display_width(#[trigger] ngrow[i])
                == 0 by {
                assert(ngrow[i] == grow[i]);
            }
        }
        assert forall|k: int| 0 <= k < nall.len() implies graphemes_width(#[trigger] nall[k]) <= width
            || only_last_takes_columns(nall[k]) by {
            if k < gdone.len() {
                assert(nall[k] == all[k]);
            } else {
                assert(nall[k] == ngrow);
            }
        }
        assert forall|k: int| 0 <= k < nall.len() - 1 implies {
            &&& nall[k + 1].len() > 0
            &&& graphemes_width(#[trigger] nall[k]) > 0
            &&& graphemes_width(nall[k]) + display_width(nall[k + 1][0]) > width
        } by {
            assert(nall[k] == all[k]);
            assert(all[k + 1].len() > 0);
            assert(all[k + 1][0] == nall[k + 1][0]) by {
                if k + 1 == gdone.len() {
                    assert(all[k + 1] == grow);
                    assert(nall[k + 1] == grow.push(g));
                } else {
                    assert(all[k + 1] == nall[k + 1]);
                }
            }
        }
        assert(nall.drop_last() =~= gdone);
        assert(all.drop_last() =~= gdone);
        assert(flatten_groups(nall) =~= flatten_groups(all) + seq![g]);
        assert(placed + seq![g] =~= placed.push(g));
    }
}

proof fn lemma_groups_after_graphemes(
    state: WrapState,
    groups: GroupState,
    placed: Seq<Seq<char>>,
    gs: Seq<Seq<char>>,
    style: u32,
    width: nat,
)
    requires
        width < usize::MAX,
        groups_describe(state, groups, placed, width),
    ensures
        groups_describe(
            place_graphemes(state, gs, style, width),
            groups_after_graphemes(state, groups, gs, style, width),
            placed + gs,
            width,
        ),
    decreases gs.len(),
{
    if gs.len() == 0 {
        assert(placed + gs =~= placed);
    } else {
        lemma_groups_after_graphemes(state, groups, placed, gs.drop_last(), style, width);
        lemma_group_step(
            place_graphemes(state, gs.drop_last(), style, width),
            groups_after_graphemes(state, groups, gs.drop_last(), style, width),
            placed + gs.drop_last(),
            gs.last(),
            style,
            width,
        );
        assert((placed + gs.drop_last()).push(gs.last()) =~= placed + gs);
    }
}

proof fn lemma_groups_after_spans(spans: Seq<SpanView>, width: nat)
    requires
        width < usize::MAX,
    ensures
        groups_describe(place_spans(spans, width), groups_after_spans(spans, width), row_graphemes(spans), width),
    decreases spans.len(),
{
    if spans.len() == 0 {
        let all = Seq::<Seq<Seq<char>>>::empty().push(Seq::<Seq<char>>::empty());
        assert(all.drop_last() =~= Seq::<Seq<Seq<char>>>::empty());
        assert(flatten_groups(all) == flatten_groups(all.drop_last()) + all.last());
        assert(flatten_groups(Seq::<Seq<Seq<char>>>::empty()) == Seq::<Seq<char>>::empty());
        assert(flatten_groups(all) =~= Seq::<Seq<char>>::empty());
        assert forall|k: int| 0 <= k < all.len() implies graphemes_width(#[trigger] all[k]) <= width
            || only_last_takes_columns(all[k]) by {
            assert(all[k] == Seq::<Seq<char>>::empty());
        }
    } else {
        lemma_groups_after_spans(spans.drop_last(), width);
        lemma_groups_after_graphemes(
            place_spans(spans.drop_last(), width),
            groups_after_spans(spans.drop_last(), width),
            row_graphemes(spans.drop_last()),
            grapheme_clusters(spans.last().0),
            spans.last().1,
            width,
        );
    }
}

/// When a row is wrapped, its graphemes are split greedily: each resulting row holds the next
/// graphemes of the line in order, is no wider than the panel unless it holds a single grapheme
/// that takes columns, and ends only where the next grapheme would overflow it. Widths are those
/// of the graphemes measured one by one.
pub proof fn lemma_wrapped_rows_fill_greedily(line: LineView, width: nat)
    requires
        width < usize::MAX,
        line_width(line.1) > (if width == 0 {
            1
        } else {
            width
        }),
    ensures
        exists|groups: Seq<Seq<Seq<char>>>|
            #[trigger] splits_greedily(
                spec_hard_wrap(line, width),
                groups,
                row_graphemes(line.1),
                panel_width(width),
            ),
{
    let w: nat = if width == 0 {
        1
    } else {
        width
    };
    lemma_groups_after_spans(line.1, w);
    let (done, row, row_width) = place_spans(line.1, w);
    let (gdone, grow) = groups_after_spans(line.1, w);
    let groups = gdone.push(grow);
    let rows = spec_hard_wrap(line, width);
    assert(rows == done.push(row).map_values(|spans: Seq<SpanView>| (line.0, spans)));
    assert forall|k: int| 0 <= k < rows.len() implies spans_text(#[trigger] rows[k].1) == concat(
        groups[k],
    ) by {
        if k < done.len() {
            assert(rows[k].1 == done[k]);
        } else {
            assert(rows[k].1 == row);
        }
    }
    assert(w == panel_width(width));
    assert(splits_greedily(rows, groups, row_graphemes(line.1), panel_width(width)));
}

} // verus!
