//! The search engine: every line of a text that holds the pattern, numbered.

use crate::lines::{cut_out, line_bounds, lines_of};
use crate::record::{MatchRecord, MatchingLine};
use crate::occurrences::occurs_in;
use crate::scan::{
    compared_form, lemma_scan_matched_text_folds_to_pattern, lemma_scan_matched_text_is_pattern,
    lemma_scan_none_iff_absent, lemma_scan_rejoins, scan_chars, scan_model, sought_form,
};
use crate::text::chars_of;
use vstd::prelude::*;

verus! {

/// The records of `lines`: those of all lines but the last, followed by the
/// record of the last line where it has one, numbered with its position
/// counted from 1.
pub open spec fn records(lines: Seq<Seq<char>>, pattern: Seq<char>, case_insensitive: bool) -> Seq<
    MatchRecord,
>
    decreases lines.len(),
{
    if lines.len() == 0 {
        Seq::empty()
    } else {
        let earlier = records(lines.drop_last(), pattern, case_insensitive);
        match scan_model(lines.last(), pattern, case_insensitive) {
            Some(record) => earlier.push(record.numbered(lines.len())),
            None => earlier,
        }
    }
}

/// What a search of `contents` for `pattern` returns.
pub open spec fn search_model(
    pattern: Seq<char>,
    contents: Seq<char>,
    case_insensitive: bool,
) -> Seq<MatchRecord> {
    records(lines_of(contents), pattern, case_insensitive)
}

/// Every record of a search stands for the line that its number names: it is
/// the scanner's record of that line. The numbers are positions counted from
/// 1, and they ascend.
pub proof fn lemma_records_name_their_lines(
    lines: Seq<Seq<char>>,
    pattern: Seq<char>,
    case_insensitive: bool,
)
    ensures
        forall|j: int|
            0 <= j < records(lines, pattern, case_insensitive).len() ==> {
                let record = #[trigger] records(lines, pattern, case_insensitive)[j];
                &&& 1 <= record.line_number <= lines.len()
                &&& scan_model(lines[record.line_number - 1], pattern, case_insensitive) == Some(
                    record.numbered(0),
                )
            },
        forall|i: int, j: int|
            0 <= i < j < records(lines, pattern, case_insensitive).len() ==> (#[trigger] records(
                lines,
                pattern,
                case_insensitive,
            )[i]).line_number < (#[trigger] records(
                lines,
                pattern,
                case_insensitive,
            )[j]).line_number,
    decreases lines.len(),
{
    if lines.len() > 0 {
        let all = records(lines, pattern, case_insensitive);
        let earlier = records(lines.drop_last(), pattern, case_insensitive);
        lemma_records_name_their_lines(lines.drop_last(), pattern, case_insensitive);
        assert forall|j: int| 0 <= j < all.len() implies {
            let record = #[trigger] all[j];
            &&& 1 <= record.line_number <= lines.len()
            &&& scan_model(lines[record.line_number - 1], pattern, case_insensitive) == Some(
                record.numbered(0),
            )
        } by {
            if j < earlier.len() {
                assert(all[j] == earlier[j]);
                assert(lines.drop_last()[earlier[j].line_number - 1] == lines[earlier[j].line_number
                    - 1]);
            }
        }
        assert forall|i: int, j: int| 0 <= i < j < all.len() implies (#[trigger] all[i]).line_number
            < (#[trigger] all[j]).line_number by {
            assert(all[i] == earlier[i]);
            if j < earlier.len() {
                assert(all[j] == earlier[j]);
            }
        }
    }
}

/// A line has a record exactly where the scanner returns one for it: a line
/// in which the pattern does not occur leaves no record and no line number.
pub proof fn lemma_records_of_matching_lines(
    lines: Seq<Seq<char>>,
    pattern: Seq<char>,
    case_insensitive: bool,
    line_number: int,
)
    requires
        1 <= line_number <= lines.len(),
    ensures
        scan_model(lines[line_number - 1], pattern, case_insensitive) is Some <==> exists|j: int|
            0 <= j < records(lines, pattern, case_insensitive).len() && (#[trigger] records(
                lines,
                pattern,
                case_insensitive,
            )[j]).line_number == line_number,
    decreases lines.len(),
{
    let all = records(lines, pattern, case_insensitive);
    let earlier = records(lines.drop_last(), pattern, case_insensitive);
    lemma_records_name_their_lines(lines, pattern, case_insensitive);
    if scan_model(lines[line_number - 1], pattern, case_insensitive) is Some {
        if line_number == lines.len() {
            assert(all[all.len() - 1].line_number == line_number);
        } else {
            lemma_records_of_matching_lines(
                lines.drop_last(),
                pattern,
                case_insensitive,
                line_number,
            );
            let j = choose|j: int|
                0 <= j < earlier.len() && (#[trigger] earlier[j]).line_number == line_number;
            assert(all[j] == earlier[j]);
        }
    }
}

/// Every record of a search is well formed and rejoins to its line, and each
/// of its matched texts, in the form in which texts are compared, is the
/// pattern in that form.
pub proof fn lemma_records_are_sound(
    lines: Seq<Seq<char>>,
    pattern: Seq<char>,
    case_insensitive: bool,
)
    ensures
        forall|j: int|
            0 <= j < records(lines, pattern, case_insensitive).len() ==> {
                let record = #[trigger] records(lines, pattern, case_insensitive)[j];
                &&& record.well_formed()
                &&& 1 <= record.line_number <= lines.len()
                &&& record.rejoined() == lines[record.line_number - 1]
                &&& forall|k: int|
                    0 <= k < record.matched_text.len() ==> compared_form(
                        #[trigger] record.matched_text[k],
                        case_insensitive,
                    ) == compared_form(pattern, case_insensitive)
            },
{
    let all = records(lines, pattern, case_insensitive);
    lemma_records_name_their_lines(lines, pattern, case_insensitive);
    assert forall|j: int| 0 <= j < all.len() implies {
        let record = #[trigger] all[j];
        &&& record.well_formed()
        &&& record.rejoined() == lines[record.line_number - 1]
        &&& forall|k: int|
            0 <= k < record.matched_text.len() ==> compared_form(
                #[trigger] record.matched_text[k],
                case_insensitive,
            ) == compared_form(pattern, case_insensitive)
    } by {
        let line = lines[all[j].line_number - 1];
        lemma_scan_rejoins(line, pattern, case_insensitive);
        assert forall|k: int| 0 <= k < all[j].matched_text.len() implies compared_form(
            #[trigger] all[j].matched_text[k],
            case_insensitive,
        ) == compared_form(pattern, case_insensitive) by {
            if case_insensitive {
                lemma_scan_matched_text_folds_to_pattern(line, pattern, k);
            } else {
                lemma_scan_matched_text_is_pattern(line, pattern, k);
            }
        }
    }
}

/// Searches `contents` line by line. Returns one record for each line in
/// which `pattern` occurs, in the order of the lines, each with the position
/// of its line counted from 1. A line without an occurrence leaves no record.
/// The empty pattern occurs nowhere.
pub fn search(pattern: &str, contents: &str, case_insensitive: bool) -> (found: Vec<MatchingLine>)
    ensures
        found.deep_view() == search_model(pattern@, contents@, case_insensitive),
        forall|j: int|
            0 <= j < found.len() ==> {
                let record = #[trigger] found[j];
                &&& record@.well_formed()
                &&& 1 <= record.line_number <= lines_of(contents@).len()
                &&& record@.rejoined() == lines_of(contents@)[record.line_number - 1]
            },
        forall|i: int, j: int|
            0 <= i < j < found.len() ==> (#[trigger] found[i]).line_number
                < (#[trigger] found[j]).line_number,
        forall|i: int|
            0 <= i < lines_of(contents@).len() ==> (occurs_in(
                compared_form(#[trigger] lines_of(contents@)[i], case_insensitive),
                compared_form(pattern@, case_insensitive),
            ) <==> exists|j: int|
                0 <= j < found.len() && (#[trigger] found[j]).line_number == i + 1),
        forall|j: int, k: int|
            0 <= j < found.len() && 0 <= k < found[j]@.matched_text.len() ==> compared_form(
                #[trigger] found[j]@.matched_text[k],
                case_insensitive,
            ) == compared_form(pattern@, case_insensitive),
{
    let text = chars_of(contents);
    let sought = sought_form(pattern, case_insensitive);
    let bounds = line_bounds(text.as_slice());
    let ghost lines = lines_of(text@);
    let mut found: Vec<MatchingLine> = Vec::new();
    let mut k: usize = 0;
    assert(lines.take(0) =~= Seq::<Seq<char>>::empty());
    while k < bounds.len()
        invariant
            k <= bounds.len(),
            lines == cut_out(text@, bounds@),
            forall|i: int|
                0 <= i < bounds.len() ==> (#[trigger] bounds[i]).0 <= bounds[i].1 <= text.len(),
            sought@ == compared_form(pattern@, case_insensitive),
            found.deep_view() == records(lines.take(k as int), pattern@, case_insensitive),
        decreases bounds.len() - k,
    {
        let (from, to) = bounds[k];
        let line = vstd::slice::slice_subrange(text.as_slice(), from, to);
        let ghost before = found.deep_view();
        proof {
            let upto = lines.take(k + 1);
            assert(upto.drop_last() =~= lines.take(k as int));
            assert(upto.last() == line@);
        }
        match scan_chars(line, sought.as_slice(), case_insensitive) {
            Some(record) => {
                let ghost unnumbered = record@;
                found.push(
                    MatchingLine {
                        is_case_insensitive: record.is_case_insensitive,
                        pattern: record.pattern,
                        parts: record.parts,
                        matches: record.matches,
                        line_number: k + 1,
                    },
                );
                assert(found.deep_view() =~= before.push(unnumbered.numbered((k + 1) as nat)));
            },
            None => {},
        }
        k += 1;
    }
    proof {
        assert(lines.take(k as int) =~= lines);
        let all = records(lines, pattern@, case_insensitive);
        assert forall|j: int| 0 <= j < found.len() implies (#[trigger] found[j])@ == all[j] by {
            assert(found.deep_view()[j] == found[j]@);
        }
        lemma_records_name_their_lines(lines, pattern@, case_insensitive);
        lemma_records_are_sound(lines, pattern@, case_insensitive);
        assert forall|i: int| 0 <= i < lines.len() implies (occurs_in(
            compared_form(#[trigger] lines[i], case_insensitive),
            compared_form(pattern@, case_insensitive),
        ) <==> exists|j: int|
            0 <= j < found.len() && (#[trigger] found[j]).line_number == i + 1) by {
            lemma_scan_none_iff_absent(lines[i], pattern@, case_insensitive);
            lemma_records_of_matching_lines(lines, pattern@, case_insensitive, i + 1);
            if scan_model(lines[i], pattern@, case_insensitive) is Some {
                let j = choose|j: int|
                    0 <= j < all.len() && (#[trigger] all[j]).line_number == i + 1;
                assert(found[j].line_number == i + 1);
            }
        }
    }
    found
}

/// Searches `contents` for `pattern` as it is spelled.
pub fn search_case_sensitive(pattern: &str, contents: &str) -> (found: Vec<MatchingLine>)
    ensures
        found.deep_view() == search_model(pattern@, contents@, false),
{
    search(pattern, contents, false)
}

/// Searches `contents` for `pattern` with letter case ignored.
pub fn search_case_insensitive(pattern: &str, contents: &str) -> (found: Vec<MatchingLine>)
    ensures
        found.deep_view() == search_model(pattern@, contents@, true),
{
    search(pattern, contents, true)
}

} // verus!
