//! The record of one matching line, and how a line is cut into it.

use crate::occurrences::{positions, well_spaced};
use crate::text::string_of;
use vstd::prelude::*;

verus! {

/// What a `MatchingLine` stands for: a line cut at the occurrences of a
/// pattern.
pub struct MatchRecord {
    /// Position of the line in its text, counted from 1; 0 while the record
    /// has not been numbered.
    pub line_number: nat,
    /// The plain text before, between and behind the occurrences.
    pub segments: Seq<Seq<char>>,
    /// The text found at each occurrence, as the line spells it.
    pub matched_text: Seq<Seq<char>>,
    /// Whether letter case was ignored in the search.
    pub case_insensitive: bool,
    /// The pattern in the form that was searched for.
    pub pattern: Seq<char>,
}

impl MatchRecord {
    /// A record exists only for a line with an occurrence, and the plain
    /// segments enclose the occurrences.
    pub open spec fn well_formed(self) -> bool {
        &&& self.matched_text.len() >= 1
        &&& self.segments.len() == self.matched_text.len() + 1
    }

    /// The line put together again from its pieces.
    pub open spec fn rejoined(self) -> Seq<char> {
        rejoin(self.segments, self.matched_text)
    }

    /// The same record with a line number attached.
    pub open spec fn numbered(self, line_number: nat) -> MatchRecord {
        MatchRecord { line_number, ..self }
    }
}

/// One line that holds the pattern: its number, the plain parts around the
/// occurrences and the text of each occurrence.
#[derive(Debug, PartialEq, Eq)]
pub struct MatchingLine {
    /// Whether letter case was ignored in the search.
    pub is_case_insensitive: bool,
    /// The pattern in the form that was searched for: folded where letter
    /// case was ignored.
    pub pattern: String,
    /// The plain text before, between and behind the occurrences; one more
    /// than there are occurrences.
    pub parts: Vec<String>,
    /// The text at each occurrence, in the case the line has it.
    pub matches: Vec<String>,
    /// Position of the line in its text, counted from 1; 0 in a record that
    /// the scanner has made and no search has numbered.
    pub line_number: usize,
}

impl View for MatchingLine {
    type V = MatchRecord;

    open spec fn view(&self) -> MatchRecord {
        MatchRecord {
            line_number: self.line_number as nat,
            segments: self.parts.deep_view(),
            matched_text: self.matches.deep_view(),
            case_insensitive: self.is_case_insensitive,
            pattern: self.pattern@,
        }
    }
}

impl DeepView for MatchingLine {
    type V = MatchRecord;

    open spec fn deep_view(&self) -> MatchRecord {
        self@
    }
}

/// Where plain segment `k` starts: at the start of the line, or behind the
/// occurrence before it.
pub open spec fn segment_start(starts: Seq<int>, width: int, k: int) -> int {
    if k == 0 {
        0
    } else {
        starts[k - 1] + width
    }
}

/// Where plain segment `k` ends: at the next occurrence, or at the end of the
/// line.
pub open spec fn segment_end(line: Seq<char>, starts: Seq<int>, k: int) -> int {
    if k == starts.len() {
        line.len() as int
    } else {
        starts[k]
    }
}

/// The plain text of `line` around occurrences of `width` characters at
/// `starts`: one segment more than there are occurrences.
pub open spec fn segments_around(line: Seq<char>, starts: Seq<int>, width: int) -> Seq<Seq<char>> {
    Seq::new(
        starts.len() + 1,
        |k: int| line.subrange(segment_start(starts, width, k), segment_end(line, starts, k)),
    )
}

/// The text that `line` holds at each occurrence.
pub open spec fn texts_at(line: Seq<char>, starts: Seq<int>, width: int) -> Seq<Seq<char>> {
    Seq::new(starts.len(), |k: int| line.subrange(starts[k], starts[k] + width))
}

/// Segments and matched texts in turn: `segments[0]`, `matched_text[0]`,
/// `segments[1]`, and so on to the last segment.
pub open spec fn rejoin(segments: Seq<Seq<char>>, matched_text: Seq<Seq<char>>) -> Seq<char>
    decreases matched_text.len(),
{
    if segments.len() == 0 {
        Seq::empty()
    } else if matched_text.len() == 0 {
        segments.last()
    } else {
        rejoin(segments.drop_last(), matched_text.drop_last()) + matched_text.last()
            + segments.last()
    }
}

/// Cutting a line at occurrences that do not overlap loses nothing:
/// the pieces, put together in order, are the line.
pub proof fn lemma_cut_rejoins(line: Seq<char>, starts: Seq<int>, width: int)
    requires
        0 <= width,
        well_spaced(starts, width, line.len() as int),
    ensures
        rejoin(segments_around(line, starts, width), texts_at(line, starts, width)) == line,
    decreases starts.len(),
{
    let segments = segments_around(line, starts, width);
    let texts = texts_at(line, starts, width);
    if starts.len() == 0 {
        assert(segments.last() =~= line);
    } else {
        // All but the last occurrence lie in the text before the last one.
        let head = line.take(starts.last());
        let earlier = starts.drop_last();
        assert forall|k: int| 0 <= k < earlier.len() implies #[trigger] earlier[k] + width
            <= head.len() by {
            assert(starts[k] + width <= starts[starts.len() - 1]);
        }
        lemma_cut_rejoins(head, earlier, width);
        // There they are cut into the same pieces.
        assert(segments.drop_last() =~= segments_around(head, earlier, width)) by {
            assert forall|k: int| 0 <= k < starts.len() implies segments[k] == segments_around(
                head,
                earlier,
                width,
            )[k] by {
                assert(segment_end(head, earlier, k) == starts[k]);
            }
        }
        assert(texts.drop_last() =~= texts_at(head, earlier, width)) by {
            assert forall|k: int| 0 <= k < earlier.len() implies texts[k] == texts_at(
                head,
                earlier,
                width,
            )[k] by {
                assert(starts[k] + width <= starts[starts.len() - 1]);
            }
        }
        assert(head + texts.last() + segments.last() =~= line);
    }
}

/// Cuts `line` at occurrences of `width` characters: the plain segments
/// around them, and the text at each.
pub(crate) fn cut(line: &[char], starts: &Vec<usize>, width: usize) -> (pieces: (
    Vec<String>,
    Vec<String>,
))
    requires
        well_spaced(positions(starts@), width as int, line@.len() as int),
    ensures
        pieces.0.deep_view() == segments_around(line@, positions(starts@), width as int),
        pieces.1.deep_view() == texts_at(line@, positions(starts@), width as int),
{
    let ghost at = positions(starts@);
    let mut parts: Vec<String> = Vec::new();
    let mut matches: Vec<String> = Vec::new();
    let len: usize = line.len();
    let mut cursor: usize = 0;
    let mut k: usize = 0;
    while k < starts.len()
        invariant
            len == line@.len(),
            at == positions(starts@),
            well_spaced(at, width as int, line@.len() as int),
            k <= starts.len(),
            parts.len() == k,
            matches.len() == k,
            cursor == segment_start(at, width as int, k as int),
            cursor <= line@.len(),
            forall|i: int|
                0 <= i < k ==> (#[trigger] parts@[i])@ == segments_around(
                    line@,
                    at,
                    width as int,
                )[i],
            forall|i: int|
                0 <= i < k ==> (#[trigger] matches@[i])@ == texts_at(line@, at, width as int)[i],
        decreases starts.len() - k,
    {
        let start = starts[k];
        assert(at[k as int] == start);
        assert(start + width <= line@.len());
        assert(cursor <= start) by {
            if k > 0 {
                assert(at[k - 1] + width <= at[k as int]);
            }
        }
        parts.push(string_of(line, cursor, start));
        matches.push(string_of(line, start, start + width));
        cursor = start + width;
        k += 1;
    }
    parts.push(string_of(line, cursor, len));
    assert(parts.deep_view() =~= segments_around(line@, at, width as int));
    assert(matches.deep_view() =~= texts_at(line@, at, width as int));
    (parts, matches)
}

} // verus!
