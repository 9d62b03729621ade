//! Search: substring matches, when a match set can be narrowed, and how the
//! current match moves.

use crate::model::{CommitModel, CommitRecord};
use crate::text::{has_prefix, strip_prefix_of};
use vstd::prelude::*;

verus! {

/// `needle` stands in `haystack` at `at`.
pub open spec fn occurs_at(haystack: Seq<char>, needle: Seq<char>, at: int) -> bool {
    0 <= at && at + needle.len() <= haystack.len() && haystack.subrange(at, at + needle.len())
        == needle
}

/// `needle` stands somewhere in `haystack`.
pub open spec fn has_substring(haystack: Seq<char>, needle: Seq<char>) -> bool {
    exists|at: int| occurs_at(haystack, needle, at)
}

/// `str::contains` with a text as the pattern: whether it stands somewhere in the other.
#[verifier::external_body]
pub(crate) fn contains_text(haystack: &str, needle: &str) -> (r: bool)
    ensures
        r == has_substring(haystack@, needle@),
{
    haystack.contains(needle)
}

/// A text that contains `longer` contains every beginning of it.
pub proof fn lemma_substring_prefix(haystack: Seq<char>, shorter: Seq<char>, longer: Seq<char>)
    requires
        has_prefix(longer, shorter),
        has_substring(haystack, longer),
    ensures
        has_substring(haystack, shorter),
{
    let at = choose|at: int| occurs_at(haystack, longer, at);
    assert(haystack.subrange(at, at + shorter.len()) =~= haystack.subrange(
        at,
        at + longer.len(),
    ).take(shorter.len() as int));
    assert(occurs_at(haystack, shorter, at));
}

/// Whether a commit matches the lowercase query `q`: by its summary, its author or one of
/// its labels.
pub open spec fn commit_match(c: CommitModel, q: Seq<char>) -> bool {
    has_substring(c.search.summary_lower, q) || has_substring(c.search.author_lower, q)
        || has_substring(c.search.refs_lower, q)
}

/// Whether a commit matches the lowercase query `q`.
pub fn commit_matches(c: &CommitRecord, q: &str) -> (r: bool)
    ensures
        r == commit_match(c@, q@),
{
    contains_text(c.search.summary_lower.as_str(), q) || contains_text(
        c.search.author_lower.as_str(),
        q,
    ) || contains_text(c.search.refs_lower.as_str(), q)
}

/// Whether the match set of the previous query holds every match of the new one, and may hold
/// more: the rows are the same, and the new query extends the previous one by at least a
/// character.
pub open spec fn can_narrow(
    prev_query: Seq<char>,
    prev_generation: u64,
    query: Seq<char>,
    generation: u64,
) -> bool {
    &&& generation == prev_generation
    &&& prev_query.len() > 0
    &&& has_prefix(query, prev_query)
    &&& query.len() > prev_query.len()
}

/// Whether a search can filter the previous match set instead of scanning every row.
pub fn should_narrow(prev_query: &str, prev_generation: u64, query: &str, generation: u64) -> (r:
    bool)
    ensures
        r == can_narrow(prev_query@, prev_generation, query@, generation),
{
    if generation != prev_generation || prev_query.is_empty() {
        return false;
    }
    match strip_prefix_of(query, prev_query) {
        Some(rest) => !rest.as_str().is_empty(),
        None => false,
    }
}

/// The first index of `matches` at or behind `from` whose value is at least `cursor`;
/// their number if there is none.
pub open spec fn first_at_or_after(matches: Seq<usize>, cursor: int, from: int) -> int
    decreases matches.len() - from,
{
    if from >= matches.len() {
        matches.len() as int
    } else if matches[from] >= cursor {
        from
    } else {
        first_at_or_after(matches, cursor, from + 1)
    }
}

/// The index of the first match at or behind `cursor`, else of the first match; `None`
/// without matches.
pub open spec fn first_match_index(matches: Seq<usize>, cursor: int) -> Option<int> {
    if matches.len() == 0 {
        None
    } else if first_at_or_after(matches, cursor, 0) < matches.len() {
        Some(first_at_or_after(matches, cursor, 0))
    } else {
        Some(0)
    }
}

/// Moves `current` to the first match at or behind `cursor`, else to the first match, and
/// returns its position.
pub fn jump_first_at_or_after(matches: &[usize], current: &mut usize, cursor: usize) -> (r: Option<
    usize,
>)
    ensures
        match first_match_index(matches@, cursor as int) {
            Some(i) => 0 <= i < matches@.len() && *final(current) == i && r == Some(matches@[i]),
            None => *final(current) == *old(current) && r is None,
        },
{
    let mut i: usize = 0;
    while i < matches.len() && matches[i] < cursor
        invariant
            i <= matches@.len(),
            first_at_or_after(matches@, cursor as int, 0) == first_at_or_after(
                matches@,
                cursor as int,
                i as int,
            ),
        decreases matches@.len() - i,
    {
        i += 1;
    }
    if matches.len() == 0 {
        return None;
    }
    if i == matches.len() {
        i = 0;
    }
    *current = i;
    Some(matches[i])
}

/// Where `current` is after a move by `delta` round `len` matches; `None` without matches,
/// or with so many that they cannot be counted in an `isize`.
pub open spec fn cycled(len: int, current: int, delta: int) -> Option<int> {
    if len <= 0 || len > isize::MAX || current > isize::MAX {
        None
    } else {
        let sum = current + delta;
        let bounded = if sum > isize::MAX {
            isize::MAX as int
        } else {
            sum
        };
        Some(bounded % len)
    }
}

/// Moves `current` by `delta` round the matches, and returns the position of the match it
/// ends on.
pub fn cycle(matches: &[usize], current: &mut usize, delta: isize) -> (r: Option<usize>)
    ensures
        match cycled(matches@.len() as int, *old(current) as int, delta as int) {
            Some(i) => 0 <= i < matches@.len() && *final(current) == i && r == Some(matches@[i]),
            None => *final(current) == *old(current) && r is None,
        },
{
    let len: usize = matches.len();
    let limit: usize = isize::MAX as usize;
    if len == 0 || len > limit || *current > limit {
        return None;
    }
    let len_i: isize = len as isize;
    let cur_i: isize = *current as isize;
    let sum: isize = match cur_i.checked_add(delta) {
        Some(s) => s,
        None => isize::MAX,
    };
    match sum.checked_rem_euclid(len_i) {
        Some(next) => {
            *current = next as usize;
            Some(matches[next as usize])
        },
        None => None,
    }
}

/// Forward and back again leads to the match it started from, where the sums stay in range.
pub proof fn law_cycle_back(len: int, current: int, delta: int)
    requires
        0 <= current < len <= isize::MAX,
        current + delta <= isize::MAX,
        cycled(len, current, delta)->0 - delta <= isize::MAX,
    ensures
        cycled(len, cycled(len, current, delta)->0, -delta) == Some(current),
{
    let mid = (current + delta) % len;
    assert((mid - delta) % len == current) by (nonlinear_arith)
        requires
            0 <= current < len,
            mid == (current + delta) % len,
    {
        let q = (current + delta) / len;
        assert(current + delta == len * q + mid);
        assert(mid - delta == len * (-q) + current);
        vstd::arithmetic::div_mod::lemma_fundamental_div_mod_converse(
            mid - delta,
            len,
            -q,
            current,
        );
    }
}

/// The first match is the first one that does not lie in front of the cursor, or else the
/// first of all; there is one if and only if anything matches.
pub proof fn law_the_first_match_is_at_or_behind_the_cursor(matches: Seq<usize>, cursor: int)
    ensures
        first_match_index(matches, cursor) is Some <==> matches.len() > 0,
        first_match_index(matches, cursor) matches Some(i) ==> {
            &&& 0 <= i < matches.len()
            &&& matches[i] >= cursor ==> forall|k: int|
                0 <= k < i ==> #[trigger] matches[k] < cursor
            &&& matches[i] < cursor ==> i == 0 && forall|k: int|
                0 <= k < matches.len() ==> #[trigger] matches[k] < cursor
        },
{
    lemma_first_at_or_after(matches, cursor, 0);
}

proof fn lemma_first_at_or_after(matches: Seq<usize>, cursor: int, from: int)
    requires
        0 <= from <= matches.len(),
    ensures
        from <= first_at_or_after(matches, cursor, from) <= matches.len(),
        first_at_or_after(matches, cursor, from) < matches.len() ==> matches[first_at_or_after(
            matches,
            cursor,
            from,
        )] >= cursor,
        forall|k: int|
            from <= k < first_at_or_after(matches, cursor, from) ==> #[trigger] matches[k] < cursor,
    decreases matches.len() - from,
{
    if from < matches.len() && matches[from] < cursor {
        lemma_first_at_or_after(matches, cursor, from + 1);
    }
}

/// One step on leads to the next match, and from the last match to the first; one step back
/// leads to the previous match, and from the first match to the last.
pub proof fn law_matches_go_round(len: int, current: int)
    requires
        0 <= current < len < isize::MAX,
    ensures
        cycled(len, current, 1) == Some(if current + 1 == len {
            0
        } else {
            current + 1
        }),
        cycled(len, current, -1) == Some(if current == 0 {
            len - 1
        } else {
            current - 1
        }),
        cycled(0, current, 1) is None,
{
    if current + 1 == len {
        assert(len % len == 0) by (nonlinear_arith)
            requires
                len > 0,
        ;
    } else {
        vstd::arithmetic::div_mod::lemma_small_mod((current + 1) as nat, len as nat);
    }
    if current == 0 {
        vstd::arithmetic::div_mod::lemma_fundamental_div_mod_converse(-1, len, -1, len - 1);
    } else {
        vstd::arithmetic::div_mod::lemma_small_mod((current - 1) as nat, len as nat);
    }
}

/// `text` is `before`, then `part`, then `after`.
pub open spec fn parted_by(
    text: Seq<char>,
    part: Seq<char>,
    before: Seq<char>,
    after: Seq<char>,
) -> bool {
    text == before + part + after
}

/// A text stands in another exactly if the other is the text with something in front of it
/// and something behind it.
pub proof fn law_a_substring_has_something_on_either_side(text: Seq<char>, part: Seq<char>)
    ensures
        has_substring(text, part) <==> exists|before: Seq<char>, after: Seq<char>| #[trigger]
            parted_by(text, part, before, after),
{
    if has_substring(text, part) {
        let at = choose|at: int| occurs_at(text, part, at);
        let before = text.take(at);
        let after = text.skip(at + part.len());
        assert(text =~= before + text.subrange(at, at + part.len()) + after);
        assert(parted_by(text, part, before, after));
    }
    if exists|before: Seq<char>, after: Seq<char>| #[trigger] parted_by(text, part, before, after) {
        let (before, after) = choose|before: Seq<char>, after: Seq<char>| #[trigger]
            parted_by(text, part, before, after);
        let at = before.len() as int;
        assert(text.subrange(at, at + part.len()) =~= part);
        assert(occurs_at(text, part, at));
    }
}

/// A commit matches exactly where its summary, its author or its labels hold the query.
pub proof fn law_commits_match_by_summary_author_or_label(c: CommitModel, q: Seq<char>)
    ensures
        commit_match(c, q) <==> {
            ||| exists|before: Seq<char>, after: Seq<char>| #[trigger]
                parted_by(c.search.summary_lower, q, before, after)
            ||| exists|before: Seq<char>, after: Seq<char>| #[trigger]
                parted_by(c.search.author_lower, q, before, after)
            ||| exists|before: Seq<char>, after: Seq<char>| #[trigger]
                parted_by(c.search.refs_lower, q, before, after)
        },
{
    law_a_substring_has_something_on_either_side(c.search.summary_lower, q);
    law_a_substring_has_something_on_either_side(c.search.author_lower, q);
    law_a_substring_has_something_on_either_side(c.search.refs_lower, q);
}

/// Matches are narrowed exactly where the rows are the same and the query is the previous one
/// with something behind it.
pub proof fn law_a_longer_query_is_narrowed(
    prev: Seq<char>,
    more: Seq<char>,
    prev_generation: u64,
    generation: u64,
)
    ensures
        can_narrow(prev, prev_generation, prev + more, generation) <==> generation
            == prev_generation && prev.len() > 0 && more.len() > 0,
{
    assert((prev + more).take(prev.len() as int) =~= prev);
}

/// Matches are narrowed only for a longer query on the same rows, and so never in a way that
/// could lose one: whatever holds the new query holds the previous one.
pub proof fn law_narrowing_loses_no_match(
    prev: Seq<char>,
    prev_generation: u64,
    q: Seq<char>,
    generation: u64,
    text: Seq<char>,
)
    requires
        can_narrow(prev, prev_generation, q, generation),
    ensures
        generation == prev_generation,
        0 < prev.len() < q.len(),
        has_substring(text, q) ==> has_substring(text, prev),
{
    if has_substring(text, q) {
        lemma_substring_prefix(text, prev, q);
    }
}

} // verus!
