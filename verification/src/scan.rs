//! The line scanner: one line, one pattern, one record or none.

use crate::folding::{fold, fold_all, lemma_fold_subrange};
use crate::occurrences::{
    find_occurrences, lemma_occurrences_from_stand, lemma_occurrences_none_iff_absent,
    occurrences, occurs_in, positions,
};
use crate::record::{
    cut, lemma_cut_rejoins, segments_around, texts_at, MatchRecord, MatchingLine,
};
use crate::text::{chars_of, string_of};
use vstd::prelude::*;

verus! {

/// The form in which a text is compared: folded where letter case is
/// ignored, as it stands where it is not.
pub open spec fn compared_form(text: Seq<char>, case_insensitive: bool) -> Seq<char> {
    if case_insensitive {
        fold(text)
    } else {
        text
    }
}

/// The record of `line` for a pattern that is already in its compared form:
/// none where the pattern does not occur, else the line cut at the
/// occurrences, not yet numbered. The occurrences are located in the
/// compared form of the line; the pieces are taken from the line itself.
pub open spec fn record_for(line: Seq<char>, sought: Seq<char>, case_insensitive: bool) -> Option<
    MatchRecord,
> {
    let starts = occurrences(compared_form(line, case_insensitive), sought);
    if starts.len() == 0 {
        None
    } else {
        Some(
            MatchRecord {
                line_number: 0,
                segments: segments_around(line, starts, sought.len() as int),
                matched_text: texts_at(line, starts, sought.len() as int),
                case_insensitive,
                pattern: sought,
            },
        )
    }
}

/// What the scanner returns for `line` and `pattern`.
pub open spec fn scan_model(line: Seq<char>, pattern: Seq<char>, case_insensitive: bool) -> Option<
    MatchRecord,
> {
    record_for(line, compared_form(pattern, case_insensitive), case_insensitive)
}

/// A record of the scanner is well formed, and its pieces, put together in
/// order, are the line that was scanned.
pub proof fn lemma_scan_rejoins(line: Seq<char>, pattern: Seq<char>, case_insensitive: bool)
    ensures
        scan_model(line, pattern, case_insensitive) matches Some(record) ==> {
            &&& record.well_formed()
            &&& record.rejoined() == line
        },
{
    let sought = compared_form(pattern, case_insensitive);
    let within = compared_form(line, case_insensitive);
    lemma_occurrences_from_stand(within, sought, 0);
    lemma_cut_rejoins(line, occurrences(within, sought), sought.len() as int);
}

/// The scanner returns no record exactly where the pattern, in its compared
/// form, stands nowhere in the compared form of the line.
pub proof fn lemma_scan_none_iff_absent(line: Seq<char>, pattern: Seq<char>, case_insensitive: bool)
    ensures
        scan_model(line, pattern, case_insensitive) is None <==> !occurs_in(
            compared_form(line, case_insensitive),
            compared_form(pattern, case_insensitive),
        ),
{
    lemma_occurrences_none_iff_absent(
        compared_form(line, case_insensitive),
        compared_form(pattern, case_insensitive),
    );
}

/// The empty pattern gives no record.
pub proof fn lemma_scan_empty_pattern(line: Seq<char>, case_insensitive: bool)
    ensures
        scan_model(line, Seq::empty(), case_insensitive) is None,
{
}

/// Where letter case counts, every matched text is the pattern itself.
pub proof fn lemma_scan_matched_text_is_pattern(line: Seq<char>, pattern: Seq<char>, k: int)
    requires
        scan_model(line, pattern, false) matches Some(record) && 0 <= k
            < record.matched_text.len(),
    ensures
        scan_model(line, pattern, false)->0.matched_text[k] == pattern,
{
    lemma_occurrences_from_stand(line, pattern, 0);
}

/// Where letter case is ignored, every matched text folds to the folded
/// pattern, whatever case the line has it in.
pub proof fn lemma_scan_matched_text_folds_to_pattern(
    line: Seq<char>,
    pattern: Seq<char>,
    k: int,
)
    requires
        scan_model(line, pattern, true) matches Some(record) && 0 <= k < record.matched_text.len(),
    ensures
        fold(scan_model(line, pattern, true)->0.matched_text[k]) == fold(pattern),
{
    let starts = occurrences(fold(line), fold(pattern));
    lemma_occurrences_from_stand(fold(line), fold(pattern), 0);
    lemma_fold_subrange(line, starts[k], starts[k] + pattern.len());
}

/// The starts of the occurrences of `sought` in the compared form of `line`.
fn locate(line: &[char], sought: &[char], case_insensitive: bool) -> (starts: Vec<usize>)
    ensures
        positions(starts@) == occurrences(compared_form(line@, case_insensitive), sought@),
{
    if case_insensitive {
        let folded = fold_all(line);
        find_occurrences(folded.as_slice(), sought)
    } else {
        find_occurrences(line, sought)
    }
}

/// Scans a line for a pattern that is already in its compared form.
pub fn scan_chars(line: &[char], sought: &[char], case_insensitive: bool) -> (found: Option<
    MatchingLine,
>)
    ensures
        found.deep_view() == record_for(line@, sought@, case_insensitive),
{
    let starts = locate(line, sought, case_insensitive);
    if starts.len() == 0 {
        return None;
    }
    proof {
        lemma_occurrences_from_stand(compared_form(line@, case_insensitive), sought@, 0);
    }
    let (parts, matches) = cut(line, &starts, sought.len());
    let pattern = string_of(sought, 0, sought.len());
    assert(pattern@ =~= sought@);
    Some(
        MatchingLine {
            is_case_insensitive: case_insensitive,
            pattern,
            parts,
            matches,
            line_number: 0,
        },
    )
}

/// The pattern as a character sequence in its compared form.
pub fn sought_form(pattern: &str, case_insensitive: bool) -> (sought: Vec<char>)
    ensures
        sought@ == compared_form(pattern@, case_insensitive),
{
    let chars = chars_of(pattern);
    if case_insensitive {
        fold_all(chars.as_slice())
    } else {
        chars
    }
}

/// Scans one line for `pattern`. Returns `None` where the pattern does not
/// occur in the line, and always for the empty pattern. Otherwise returns the
/// line cut at the occurrences, found left to right without overlap, with
/// line number 0: the caller numbers the record.
pub fn scan(line: &str, pattern: &str, case_insensitive: bool) -> (found: Option<MatchingLine>)
    ensures
        found.deep_view() == scan_model(line@, pattern@, case_insensitive),
        found is None <==> !occurs_in(
            compared_form(line@, case_insensitive),
            compared_form(pattern@, case_insensitive),
        ),
        found matches Some(record) ==> {
            &&& record@.well_formed()
            &&& record@.rejoined() == line@
            &&& record.line_number == 0
            &&& forall|k: int|
                0 <= k < record@.matched_text.len() ==> compared_form(
                    #[trigger] record@.matched_text[k],
                    case_insensitive,
                ) == compared_form(pattern@, case_insensitive)
        },
{
    proof {
        lemma_scan_rejoins(line@, pattern@, case_insensitive);
        lemma_scan_none_iff_absent(line@, pattern@, case_insensitive);
        if scan_model(line@, pattern@, case_insensitive) is Some {
            let record = scan_model(line@, pattern@, case_insensitive)->0;
            assert forall|k: int| 0 <= k < record.matched_text.len() implies compared_form(
                #[trigger] record.matched_text[k],
                case_insensitive,
            ) == compared_form(pattern@, case_insensitive) by {
                if case_insensitive {
                    lemma_scan_matched_text_folds_to_pattern(line@, pattern@, k);
                } else {
                    lemma_scan_matched_text_is_pattern(line@, pattern@, k);
                }
            }
        }
    }
    let chars = chars_of(line);
    let sought = sought_form(pattern, case_insensitive);
    scan_chars(chars.as_slice(), sought.as_slice(), case_insensitive)
}

/// The plain parts of `line` around the occurrences of `pattern_lowercase`,
/// located with letter case ignored in the line. The pattern is compared as
/// it is given. A line without an occurrence is a single part.
pub fn split_line(line: &str, pattern_lowercase: &str) -> (parts: Vec<String>)
    ensures
        parts.deep_view() == segments_around(
            line@,
            occurrences(fold(line@), pattern_lowercase@),
            pattern_lowercase@.len() as int,
        ),
{
    let chars = chars_of(line);
    let sought = chars_of(pattern_lowercase);
    let starts = locate(chars.as_slice(), sought.as_slice(), true);
    proof {
        lemma_occurrences_from_stand(fold(line@), pattern_lowercase@, 0);
    }
    let (parts, _) = cut(chars.as_slice(), &starts, sought.len());
    parts
}

/// The text of `line` at each occurrence of `pattern_lowercase`, located
/// with letter case ignored in the line, in the case the line has it. The
/// pattern is compared as it is given.
pub fn get_matches(line: &str, pattern_lowercase: &str) -> (matches: Vec<String>)
    ensures
        matches.deep_view() == texts_at(
            line@,
            occurrences(fold(line@), pattern_lowercase@),
            pattern_lowercase@.len() as int,
        ),
{
    let chars = chars_of(line);
    let sought = chars_of(pattern_lowercase);
    let starts = locate(chars.as_slice(), sought.as_slice(), true);
    proof {
        lemma_occurrences_from_stand(fold(line@), pattern_lowercase@, 0);
    }
    let (_, matches) = cut(chars.as_slice(), &starts, sought.len());
    matches
}

} // verus!
