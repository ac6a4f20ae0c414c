//! What to show of a matching line, piece by piece.

use crate::config::{Config, ConfigView};
use crate::record::{rejoin, MatchRecord, MatchingLine};
use crate::search::{search, search_model};
use vstd::prelude::*;

verus! {

/// One piece of an output line, to be shown in a style of its own.
#[derive(Debug, PartialEq, Eq)]
pub enum Span {
    /// The number of the line, to be shown with a colon behind it.
    LineNumber(usize),
    /// Text of the line outside the occurrences.
    Plain(String),
    /// Text of the line at an occurrence.
    Matched(String),
}

/// What a `Span` stands for.
pub enum SpanView {
    LineNumber(nat),
    Plain(Seq<char>),
    Matched(Seq<char>),
}

impl View for Span {
    type V = SpanView;

    open spec fn view(&self) -> SpanView {
        match self {
            Span::LineNumber(number) => SpanView::LineNumber(*number as nat),
            Span::Plain(text) => SpanView::Plain(text@),
            Span::Matched(text) => SpanView::Matched(text@),
        }
    }
}

impl DeepView for Span {
    type V = SpanView;

    open spec fn deep_view(&self) -> SpanView {
        self@
    }
}

/// Segments and matched texts in turn, each marked as what it is: piece `2k`
/// is segment `k`, piece `2k + 1` is matched text `k`.
pub open spec fn pieces(segments: Seq<Seq<char>>, matched_text: Seq<Seq<char>>) -> Seq<SpanView> {
    Seq::new(
        segments.len() + matched_text.len(),
        |i: int|
            if i % 2 == 0 {
                SpanView::Plain(segments[i / 2])
            } else {
                SpanView::Matched(matched_text[i / 2])
            },
    )
}

/// The output line of a record: the line number first where it is asked
/// for, then the pieces of the line in order.
pub open spec fn layout(record: MatchRecord, with_line_number: bool) -> Seq<SpanView> {
    if with_line_number {
        seq![SpanView::LineNumber(record.line_number)] + pieces(
            record.segments,
            record.matched_text,
        )
    } else {
        pieces(record.segments, record.matched_text)
    }
}

/// The text of the line that the spans show, one behind the other. A line
/// number shows nothing of the line.
pub open spec fn shown_text(spans: Seq<SpanView>) -> Seq<char>
    decreases spans.len(),
{
    if spans.len() == 0 {
        Seq::empty()
    } else {
        shown_text(spans.drop_last()) + match spans.last() {
            SpanView::LineNumber(_) => Seq::empty(),
            SpanView::Plain(text) => text,
            SpanView::Matched(text) => text,
        }
    }
}

/// The pieces of a line show the line put together again.
pub proof fn lemma_pieces_show_the_line(segments: Seq<Seq<char>>, matched_text: Seq<Seq<char>>)
    requires
        segments.len() == matched_text.len() + 1,
    ensures
        shown_text(pieces(segments, matched_text)) == rejoin(segments, matched_text),
    decreases matched_text.len(),
{
    let all = pieces(segments, matched_text);
    if matched_text.len() == 0 {
        assert(shown_text(all.drop_last()) =~= Seq::<char>::empty());
        assert(shown_text(all) =~= segments.last());
    } else {
        let earlier = pieces(segments.drop_last(), matched_text.drop_last());
        lemma_pieces_show_the_line(segments.drop_last(), matched_text.drop_last());
        let but_last = all.drop_last();
        assert(but_last.drop_last() =~= earlier);
        assert(but_last.last() == SpanView::Matched(matched_text.last()));
        assert(all.last() == SpanView::Plain(segments.last()));
        assert(shown_text(but_last) == shown_text(earlier) + matched_text.last());
        assert(shown_text(all) == shown_text(but_last) + segments.last());
    }
}

/// With or without its number, the output line of a record shows the line
/// that the record was cut from.
pub proof fn lemma_layout_shows_the_line(record: MatchRecord, with_line_number: bool)
    requires
        record.segments.len() == record.matched_text.len() + 1,
    ensures
        shown_text(layout(record, with_line_number)) == record.rejoined(),
{
    let all = pieces(record.segments, record.matched_text);
    lemma_pieces_show_the_line(record.segments, record.matched_text);
    if with_line_number {
        let number = seq![SpanView::LineNumber(record.line_number)];
        assert(shown_text(number.drop_last()) =~= Seq::<char>::empty());
        assert(shown_text(number) =~= Seq::<char>::empty());
        lemma_shown_text_adds(number, all);
    }
}

/// Spans shown one behind the other show their texts one behind the other.
pub proof fn lemma_shown_text_adds(first: Seq<SpanView>, second: Seq<SpanView>)
    ensures
        shown_text(first + second) == shown_text(first) + shown_text(second),
    decreases second.len(),
{
    if second.len() == 0 {
        assert(first + second =~= first);
        assert(shown_text(first) + shown_text(second) =~= shown_text(first));
    } else {
        lemma_shown_text_adds(first, second.drop_last());
        assert((first + second).drop_last() =~= first + second.drop_last());
        assert((first + second).last() == second.last());
        assert(shown_text(first + second) =~= shown_text(first) + shown_text(second));
    }
}

/// Lays out one matching line for output.
pub fn spans(line: &MatchingLine, with_line_number: bool) -> (shown: Vec<Span>)
    requires
        line.parts.len() == line.matches.len() + 1,
    ensures
        shown.deep_view() == layout(line@, with_line_number),
{
    let mut shown: Vec<Span> = Vec::new();
    if with_line_number {
        shown.push(Span::LineNumber(line.line_number));
    }
    let ghost lead = shown.deep_view();
    let ghost all = pieces(line@.segments, line@.matched_text);
    let count: usize = line.matches.len();
    let mut k: usize = 0;
    while k < count
        invariant
            count == line.matches.len(),
            line.parts.len() == count + 1,
            k <= count,
            all == pieces(line@.segments, line@.matched_text),
            shown.deep_view() == lead + all.take(2 * k),
        decreases count - k,
    {
        let ghost before = shown.deep_view();
        shown.push(Span::Plain(line.parts[k].clone()));
        shown.push(Span::Matched(line.matches[k].clone()));
        assert(shown.deep_view() =~= before.push(all[2 * k]).push(all[2 * k + 1]));
        assert(lead + all.take(2 * (k + 1)) =~= (lead + all.take(2 * k)).push(all[2 * k]).push(
            all[2 * k + 1],
        ));
        k += 1;
    }
    let ghost before = shown.deep_view();
    shown.push(Span::Plain(line.parts[count].clone()));
    assert(shown.deep_view() =~= before.push(all[2 * count]));
    assert(lead + all =~= (lead + all.take(2 * count)).push(all[2 * count]));
    shown
}

/// What a run with the settings `config` shows of `contents`: the output
/// line of every line that holds the pattern, in the order of the lines.
pub open spec fn report_model(config: ConfigView, contents: Seq<char>) -> Seq<Seq<SpanView>> {
    search_model(config.pattern, contents, config.case_insensitive).map_values(
        |record: MatchRecord| layout(record, config.print_line_index),
    )
}

/// Searches `contents` as `config` says and lays out every matching line
/// for output.
pub fn report(config: &Config, contents: &str) -> (shown: Vec<Vec<Span>>)
    ensures
        shown.deep_view() == report_model(config@, contents@),
{
    let found = search(config.pattern.as_str(), contents, config.case_insensitive);
    let ghost records = search_model(config@.pattern, contents@, config@.case_insensitive);
    let mut shown: Vec<Vec<Span>> = Vec::new();
    let mut k: usize = 0;
    while k < found.len()
        invariant
            k <= found.len(),
            shown.len() == k,
            found.deep_view() == records,
            forall|j: int| 0 <= j < found.len() ==> (#[trigger] found[j])@.well_formed(),
            forall|j: int|
                0 <= j < k ==> (#[trigger] shown[j]).deep_view() == layout(
                    records[j],
                    config@.print_line_index,
                ),
        decreases found.len() - k,
    {
        assert(found.deep_view()[k as int] == found[k as int]@);
        shown.push(spans(&found[k], config.print_line_index));
        k += 1;
    }
    assert(shown.deep_view() =~= report_model(config@, contents@));
    shown
}

} // verus!
