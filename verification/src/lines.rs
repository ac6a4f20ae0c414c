//! The lines of a text.
//!
//! A line ends at a line feed, or at the end of the text. The line feed is
//! not part of the line, nor is a carriage return that stands directly
//! before it. A text that ends in a line feed has no empty line behind it,
//! and the empty text has no lines.

use crate::text::{chars_of, string_of};
use vstd::prelude::*;

verus! {

/// How many characters stand before the first line feed of `text`; its whole
/// length where it has none.
pub open spec fn first_line_len(text: Seq<char>) -> int
    decreases text.len(),
{
    if text.len() == 0 || text[0] == '\n' {
        0
    } else {
        1 + first_line_len(text.drop_first())
    }
}

/// A line without the carriage return that stood before its line feed.
pub open spec fn without_carriage_return(line: Seq<char>) -> Seq<char> {
    if line.len() > 0 && line.last() == '\r' {
        line.drop_last()
    } else {
        line
    }
}

/// The lines of `text`, in order.
pub open spec fn lines_of(text: Seq<char>) -> Seq<Seq<char>>
    decreases text.len(),
{
    let stop = first_line_len(text);
    if text.len() == 0 {
        Seq::empty()
    } else if 0 <= stop < text.len() {
        seq![without_carriage_return(text.take(stop))] + lines_of(text.skip(stop + 1))
    } else {
        seq![text]
    }
}

/// The pieces of `text` that `bounds` delimits, each from its first index up
/// to, not including, its second.
pub open spec fn cut_out(text: Seq<char>, bounds: Seq<(usize, usize)>) -> Seq<Seq<char>> {
    Seq::new(bounds.len(), |k: int| text.subrange(bounds[k].0 as int, bounds[k].1 as int))
}

/// The first line of a text stops at `stop` where no line feed stands before
/// `stop` and one stands there, or the text ends there.
pub proof fn lemma_first_line_len(text: Seq<char>, stop: int)
    requires
        0 <= stop <= text.len(),
        forall|j: int| 0 <= j < stop ==> text[j] != '\n',
        stop == text.len() || text[stop] == '\n',
    ensures
        first_line_len(text) == stop,
    decreases text.len(),
{
    if stop > 0 {
        let rest = text.drop_first();
        assert forall|j: int| 0 <= j < stop - 1 implies rest[j] != '\n' by {
            assert(rest[j] == text[j + 1]);
        }
        lemma_first_line_len(rest, stop - 1);
    }
}

/// The first line of a text lies inside the text and holds no line feed.
pub proof fn lemma_first_line_holds_no_line_feed(text: Seq<char>)
    ensures
        0 <= first_line_len(text) <= text.len(),
        forall|j: int| 0 <= j < first_line_len(text) ==> text[j] != '\n',
        first_line_len(text) < text.len() ==> text[first_line_len(text)] == '\n',
    decreases text.len(),
{
    if text.len() > 0 && text[0] != '\n' {
        let rest = text.drop_first();
        lemma_first_line_holds_no_line_feed(rest);
        assert forall|j: int| 0 <= j < first_line_len(text) implies text[j] != '\n' by {
            if j > 0 {
                assert(text[j] == rest[j - 1]);
            }
        }
        if first_line_len(text) < text.len() {
            assert(text[first_line_len(text)] == rest[first_line_len(rest)]);
        }
    }
}

/// No line holds a line feed.
pub proof fn lemma_lines_hold_no_line_feed(text: Seq<char>, k: int, j: int)
    requires
        0 <= k < lines_of(text).len(),
        0 <= j < lines_of(text)[k].len(),
    ensures
        lines_of(text)[k][j] != '\n',
    decreases text.len(),
{
    let stop = first_line_len(text);
    lemma_first_line_holds_no_line_feed(text);
    if stop < text.len() {
        let rest = lines_of(text.skip(stop + 1));
        if k == 0 {
            assert(text.take(stop)[j] == text[j]);
        } else {
            assert(lines_of(text)[k] == rest[k - 1]);
            lemma_lines_hold_no_line_feed(text.skip(stop + 1), k - 1, j);
        }
    }
}

/// Finds where each line of `text` starts and ends.
pub fn line_bounds(text: &[char]) -> (bounds: Vec<(usize, usize)>)
    ensures
        forall|k: int|
            0 <= k < bounds.len() ==> (#[trigger] bounds[k]).0 <= bounds[k].1 <= text.len(),
        cut_out(text@, bounds@) == lines_of(text@),
{
    let len: usize = text.len();
    let mut bounds: Vec<(usize, usize)> = Vec::new();
    let mut start: usize = 0;
    assert(text@.skip(0) =~= text@);
    while start < len
        invariant
            len == text@.len(),
            start <= len,
            forall|k: int| 0 <= k < bounds.len() ==> (#[trigger] bounds[k]).0 <= bounds[k].1 <= len,
            lines_of(text@) == cut_out(text@, bounds@) + lines_of(text@.skip(start as int)),
        decreases len - start,
    {
        let mut stop: usize = start;
        while stop < len && text[stop] != '\n'
            invariant
                len == text@.len(),
                start <= stop <= len,
                forall|j: int| start <= j < stop ==> text@[j] != '\n',
            decreases len - stop,
        {
            stop += 1;
        }
        let ghost rest = text@.skip(start as int);
        let ghost done = cut_out(text@, bounds@);
        proof {
            lemma_first_line_len(rest, stop - start);
        }
        if stop == len {
            bounds.push((start, stop));
            proof {
                assert(rest =~= text@.subrange(start as int, stop as int));
                assert(lines_of(text@.skip(stop as int)) =~= Seq::<Seq<char>>::empty());
                assert(cut_out(text@, bounds@) =~= done.push(rest));
                assert(done + seq![rest] =~= done.push(rest) + Seq::<Seq<char>>::empty());
            }
            start = stop;
        } else {
            let end: usize = if stop > start && text[stop - 1] == '\r' {
                stop - 1
            } else {
                stop
            };
            bounds.push((start, end));
            proof {
                let line = without_carriage_return(rest.take(stop - start));
                assert(line =~= text@.subrange(start as int, end as int));
                assert(rest.skip(stop - start + 1) =~= text@.skip(stop + 1));
                assert(cut_out(text@, bounds@) =~= done.push(line));
                assert(done + (seq![line] + lines_of(text@.skip(stop + 1))) =~= done.push(line)
                    + lines_of(text@.skip(stop + 1)));
            }
            start = stop + 1;
        }
    }
    assert(lines_of(text@.skip(start as int)) =~= Seq::<Seq<char>>::empty());
    assert(cut_out(text@, bounds@) + Seq::<Seq<char>>::empty() =~= cut_out(text@, bounds@));
    bounds
}

/// The lines of `contents`, each as a string of its own.
pub fn lines(contents: &str) -> (all: Vec<String>)
    ensures
        all.deep_view() == lines_of(contents@),
{
    let text = chars_of(contents);
    let bounds = line_bounds(text.as_slice());
    let mut all: Vec<String> = Vec::new();
    let mut k: usize = 0;
    while k < bounds.len()
        invariant
            k <= bounds.len(),
            all.len() == k,
            forall|i: int|
                0 <= i < bounds.len() ==> (#[trigger] bounds[i]).0 <= bounds[i].1 <= text.len(),
            forall|i: int| 0 <= i < k ==> (#[trigger] all@[i])@ == cut_out(text@, bounds@)[i],
        decreases bounds.len() - k,
    {
        let (from, to) = bounds[k];
        all.push(string_of(text.as_slice(), from, to));
        k += 1;
    }
    assert(all.deep_view() =~= cut_out(text@, bounds@));
    all
}

} // verus!
