//! Where a pattern stands in a text: the greedy left-to-right scan for
//! occurrences that do not overlap.

use vstd::prelude::*;

verus! {

/// `pattern` stands in `text` at position `at`.
pub open spec fn occurs_at(text: Seq<char>, pattern: Seq<char>, at: int) -> bool {
    &&& 0 <= at
    &&& at + pattern.len() <= text.len()
    &&& text.subrange(at, at + pattern.len()) == pattern
}

/// `pattern` stands somewhere in `text`. The empty pattern stands nowhere.
pub open spec fn occurs_in(text: Seq<char>, pattern: Seq<char>) -> bool {
    pattern.len() > 0 && exists|at: int| occurs_at(text, pattern, at)
}

/// The starts of the occurrences that the scan finds at or behind `from`:
/// the first position where `pattern` stands is an occurrence, and the scan
/// goes on behind its last character. The empty pattern has no occurrences.
pub open spec fn occurrences_from(text: Seq<char>, pattern: Seq<char>, from: int) -> Seq<int>
    decreases text.len() - from,
{
    if pattern.len() == 0 || from < 0 || from + pattern.len() > text.len() {
        Seq::empty()
    } else if occurs_at(text, pattern, from) {
        seq![from] + occurrences_from(text, pattern, from + pattern.len())
    } else {
        occurrences_from(text, pattern, from + 1)
    }
}

/// The starts of the occurrences of `pattern` in `text`, in ascending order.
pub open spec fn occurrences(text: Seq<char>, pattern: Seq<char>) -> Seq<int> {
    occurrences_from(text, pattern, 0)
}

/// Each start leaves room for `width` characters inside a text of length
/// `len`, and each occurrence ends before the next one starts.
pub open spec fn well_spaced(starts: Seq<int>, width: int, len: int) -> bool {
    &&& forall|k: int|
        0 <= k < starts.len() ==> 0 <= #[trigger] starts[k] && starts[k] + width <= len
    &&& forall|i: int, j: int|
        0 <= i < j < starts.len() ==> #[trigger] starts[i] + width <= #[trigger] starts[j]
}

/// An occurrence of `width` characters at one of `starts` covers position
/// `at`.
pub open spec fn covered(starts: Seq<int>, width: int, at: int) -> bool {
    exists|k: int| 0 <= k < starts.len() && #[trigger] starts[k] <= at < starts[k] + width
}

/// Machine positions as mathematical integers.
pub open spec fn positions(starts: Seq<usize>) -> Seq<int> {
    starts.map_values(|start: usize| start as int)
}

/// Every start that the scan reports from `from` on lies at or behind `from`,
/// the pattern stands there, and the occurrences do not overlap.
pub proof fn lemma_occurrences_from_stand(text: Seq<char>, pattern: Seq<char>, from: int)
    requires
        0 <= from,
    ensures
        well_spaced(occurrences_from(text, pattern, from), pattern.len() as int, text.len() as int),
        forall|k: int|
            0 <= k < occurrences_from(text, pattern, from).len() ==> {
                &&& from <= #[trigger] occurrences_from(text, pattern, from)[k]
                &&& occurs_at(text, pattern, occurrences_from(text, pattern, from)[k])
            },
    decreases text.len() - from,
{
    let found = occurrences_from(text, pattern, from);
    if pattern.len() == 0 || from + pattern.len() > text.len() {
    } else if occurs_at(text, pattern, from) {
        let rest = occurrences_from(text, pattern, from + pattern.len());
        lemma_occurrences_from_stand(text, pattern, from + pattern.len());
        assert forall|k: int| 0 <= k < found.len() implies {
            &&& from <= #[trigger] found[k]
            &&& occurs_at(text, pattern, found[k])
        } by {
            if k > 0 {
                assert(found[k] == rest[k - 1]);
            }
        }
        assert forall|i: int, j: int| 0 <= i < j < found.len() implies #[trigger] found[i]
            + pattern.len() <= #[trigger] found[j] by {
            assert(found[j] == rest[j - 1]);
            if i > 0 {
                assert(found[i] == rest[i - 1]);
            }
        }
    } else {
        lemma_occurrences_from_stand(text, pattern, from + 1);
    }
}

/// Wherever the pattern stands at or behind `from`, an occurrence that the
/// scan reports from `from` on covers that position: the scan skips a place
/// only where it overlaps an occurrence found further left.
pub proof fn lemma_occurrences_from_cover(
    text: Seq<char>,
    pattern: Seq<char>,
    from: int,
    at: int,
)
    requires
        0 <= from <= at,
        pattern.len() > 0,
        occurs_at(text, pattern, at),
    ensures
        covered(occurrences_from(text, pattern, from), pattern.len() as int, at),
    decreases text.len() - from,
{
    let found = occurrences_from(text, pattern, from);
    if occurs_at(text, pattern, from) {
        let rest = occurrences_from(text, pattern, from + pattern.len());
        if at < from + pattern.len() {
            assert(found[0] == from);
        } else {
            lemma_occurrences_from_cover(text, pattern, from + pattern.len(), at);
            let k = choose|k: int|
                0 <= k < rest.len() && #[trigger] rest[k] <= at < rest[k] + pattern.len();
            assert(found[k + 1] == rest[k]);
        }
    } else {
        lemma_occurrences_from_cover(text, pattern, from + 1, at);
    }
}

/// `starts` are places at or behind `from` where the pattern stands, they do
/// not overlap, and they cover every place at or behind `from` where the
/// pattern stands.
pub open spec fn covers_from(
    text: Seq<char>,
    pattern: Seq<char>,
    from: int,
    starts: Seq<int>,
) -> bool {
    &&& well_spaced(starts, pattern.len() as int, text.len() as int)
    &&& forall|k: int|
        0 <= k < starts.len() ==> {
            &&& from <= #[trigger] starts[k]
            &&& occurs_at(text, pattern, starts[k])
        }
    &&& forall|at: int|
        from <= at && occurs_at(text, pattern, at) ==> #[trigger] covered(
            starts,
            pattern.len() as int,
            at,
        )
}

/// The scan is the only choice of occurrences that do not overlap and leave
/// out no place but one that an occurrence further left covers.
pub proof fn lemma_occurrences_from_unique(
    text: Seq<char>,
    pattern: Seq<char>,
    from: int,
    starts: Seq<int>,
)
    requires
        0 <= from,
        pattern.len() > 0,
        covers_from(text, pattern, from, starts),
    ensures
        starts == occurrences_from(text, pattern, from),
    decreases text.len() - from,
{
    let width = pattern.len() as int;
    if from + width > text.len() {
        if starts.len() > 0 {
            assert(occurs_at(text, pattern, starts[0]));
        }
        assert(starts =~= Seq::<int>::empty());
    } else if occurs_at(text, pattern, from) {
        assert(covered(starts, width, from));
        let k = choose|k: int|
            0 <= k < starts.len() && #[trigger] starts[k] <= from < starts[k] + width;
        assert(starts[k] == from);
        if k > 0 {
            assert(starts[0] + width <= starts[k]);
        }
        let rest = starts.drop_first();
        assert(covers_from(text, pattern, from + width, rest)) by {
            assert forall|i: int| 0 <= i < rest.len() implies {
                &&& 0 <= #[trigger] rest[i]
                &&& rest[i] + width <= text.len()
                &&& from + width <= rest[i]
                &&& occurs_at(text, pattern, rest[i])
            } by {
                assert(rest[i] == starts[i + 1]);
                assert(starts[0] + width <= starts[i + 1]);
            }
            assert forall|i: int, j: int| 0 <= i < j < rest.len() implies #[trigger] rest[i] + width
                <= #[trigger] rest[j] by {
                assert(rest[i] == starts[i + 1]);
                assert(rest[j] == starts[j + 1]);
            }
            assert forall|at: int|
                from + width <= at && occurs_at(text, pattern, at) implies #[trigger] covered(
                rest,
                width,
                at,
            ) by {
                assert(covered(starts, width, at));
                let j = choose|j: int|
                    0 <= j < starts.len() && #[trigger] starts[j] <= at < starts[j] + width;
                assert(rest[j - 1] == starts[j]);
            }
        }
        lemma_occurrences_from_unique(text, pattern, from + width, rest);
        assert(starts =~= seq![from] + rest);
    } else {
        assert(covers_from(text, pattern, from + 1, starts)) by {
            assert forall|k: int| 0 <= k < starts.len() implies from + 1
                <= #[trigger] starts[k] by {
                assert(occurs_at(text, pattern, starts[k]));
            }
            assert forall|at: int|
                from + 1 <= at && occurs_at(text, pattern, at) implies #[trigger] covered(
                starts,
                width,
                at,
            ) by {
                assert(covered(starts, width, at));
            }
        }
        lemma_occurrences_from_unique(text, pattern, from + 1, starts);
    }
}

/// What the scan finds, said without the scan: the occurrences of a pattern
/// that is not empty are the places where it stands, taken so that they do
/// not overlap and cover every place where it stands, and no other choice of
/// places does that.
pub proof fn lemma_occurrences_characterised(text: Seq<char>, pattern: Seq<char>, starts: Seq<int>)
    requires
        pattern.len() > 0,
    ensures
        covers_from(text, pattern, 0, starts) <==> starts == occurrences(text, pattern),
{
    if covers_from(text, pattern, 0, starts) {
        lemma_occurrences_from_unique(text, pattern, 0, starts);
    }
    let found = occurrences(text, pattern);
    lemma_occurrences_from_stand(text, pattern, 0);
    assert forall|at: int| 0 <= at && occurs_at(text, pattern, at) implies #[trigger] covered(
        found,
        pattern.len() as int,
        at,
    ) by {
        lemma_occurrences_from_cover(text, pattern, 0, at);
    }
}

/// The scan finds no occurrence exactly where the pattern stands nowhere in
/// the text.
pub proof fn lemma_occurrences_none_iff_absent(text: Seq<char>, pattern: Seq<char>)
    ensures
        occurrences(text, pattern).len() == 0 <==> !occurs_in(text, pattern),
{
    let found = occurrences(text, pattern);
    if occurs_in(text, pattern) {
        let at = choose|at: int| occurs_at(text, pattern, at);
        lemma_occurrences_from_cover(text, pattern, 0, at);
    }
    if found.len() > 0 {
        lemma_occurrences_from_stand(text, pattern, 0);
        assert(occurs_at(text, pattern, found[0]));
    }
}

/// Reports whether `pattern` stands in `text` at position `at`.
pub fn occurs_here(text: &[char], pattern: &[char], at: usize) -> (here: bool)
    ensures
        here == occurs_at(text@, pattern@, at as int),
{
    if pattern.len() > text.len() || at > text.len() - pattern.len() {
        return false;
    }
    let mut matched: usize = 0;
    while matched < pattern.len()
        invariant
            at + pattern.len() <= text.len(),
            matched <= pattern.len(),
            forall|k: int| 0 <= k < matched ==> text@[at + k] == pattern@[k],
        decreases pattern.len() - matched,
    {
        if text[at + matched] != pattern[matched] {
            assert(text@.subrange(at as int, at + pattern@.len())[matched as int] == text@[at
                + matched]);
            return false;
        }
        matched += 1;
    }
    assert(text@.subrange(at as int, at + pattern@.len()) =~= pattern@);
    true
}

/// Finds the occurrences of `pattern` in `text`: scans left to right and
/// goes on behind each occurrence, so that no two overlap.
pub fn find_occurrences(text: &[char], pattern: &[char]) -> (starts: Vec<usize>)
    ensures
        positions(starts@) == occurrences(text@, pattern@),
{
    let mut starts: Vec<usize> = Vec::new();
    if pattern.len() == 0 || pattern.len() > text.len() {
        return starts;
    }
    let last: usize = text.len() - pattern.len();
    let mut at: usize = 0;
    while at <= last
        invariant
            pattern.len() > 0,
            last == text.len() - pattern.len(),
            at <= text.len(),
            occurrences(text@, pattern@) == positions(starts@) + occurrences_from(
                text@,
                pattern@,
                at as int,
            ),
        decreases text.len() - at,
    {
        let ghost before = positions(starts@);
        if occurs_here(text, pattern, at) {
            starts.push(at);
            assert(positions(starts@) =~= before.push(at as int));
            assert(before + (seq![at as int] + occurrences_from(
                text@,
                pattern@,
                at + pattern@.len(),
            )) =~= before.push(at as int) + occurrences_from(
                text@,
                pattern@,
                at + pattern@.len(),
            ));
            at += pattern.len();
        } else {
            at += 1;
        }
    }
    starts
}

} // verus!
