//! Completion of a partial input against the entry list, one path segment at a time.

use vstd::prelude::*;
use vstd::string::*;
use crate::error::LogicError;
use crate::text::{first_index_of, index_of, is_prefix, starts_with, views};

verus! {

/// The index, from `from` on, of the first candidate that begins with `partial`, or the
/// number of candidates where none does.
pub open spec fn first_match_from(candidates: Seq<Seq<char>>, partial: Seq<char>, from: int) -> int
    decreases candidates.len() - from,
{
    if from < 0 || from >= candidates.len() {
        candidates.len() as int
    } else if is_prefix(partial, candidates[from]) {
        from
    } else {
        first_match_from(candidates, partial, from + 1)
    }
}

/// The index of the first candidate that begins with `partial`.
pub open spec fn first_match(candidates: Seq<Seq<char>>, partial: Seq<char>) -> int {
    first_match_from(candidates, partial, 0)
}

/// There is a candidate to complete with: one that begins with `partial`, or the
/// second of the list to fall back on.
pub open spec fn has_candidate(candidates: Seq<Seq<char>>, partial: Seq<char>) -> bool {
    first_match(candidates, partial) < candidates.len() || candidates.len() >= 2
}

/// The candidate to complete with: the first that begins with `partial`, else the second
/// of the list.
pub open spec fn chosen(candidates: Seq<Seq<char>>, partial: Seq<char>) -> Seq<char> {
    let i = first_match(candidates, partial);
    if i < candidates.len() {
        candidates[i]
    } else {
        candidates[1]
    }
}

/// `entry` without `previous` at its start, or all of `entry` where it does not begin
/// with `previous`.
pub open spec fn remainder(entry: Seq<char>, previous: Seq<char>) -> Seq<char> {
    if is_prefix(previous, entry) {
        entry.subrange(previous.len() as int, entry.len() as int)
    } else {
        entry
    }
}

/// What stands before the first separator of `s`, or all of `s` where it has none.
pub open spec fn next_segment(s: Seq<char>) -> Seq<char> {
    s.subrange(0, first_index_of(s, '/'))
}

/// The input after completion: what was confirmed before, and one more segment of the
/// chosen candidate.
pub open spec fn completion(
    candidates: Seq<Seq<char>>,
    previous: Seq<char>,
    partial: Seq<char>,
) -> Seq<char> {
    previous + next_segment(remainder(chosen(candidates, partial), previous))
}

/// Finds the first candidate that begins with `partial`.
pub fn find_first(candidates: &Vec<String>, partial: &str) -> (i: usize)
    ensures
        i == first_match(views(candidates@), partial@),
        i <= candidates@.len(),
{
    let n: usize = candidates.len();
    let mut i: usize = 0;
    while i < n
        invariant
            n == candidates@.len(),
            i <= n,
            first_match_from(views(candidates@), partial@, i as int) == first_match(
                views(candidates@),
                partial@,
            ),
        decreases n - i,
    {
        assert(views(candidates@)[i as int] == candidates@[i as int]@);
        if starts_with(candidates[i].as_str(), partial) {
            return i;
        }
        i += 1;
    }
    i
}

/// Completes `partial_input` against `candidates`, given what an earlier completion
/// confirmed. Fails where no candidate begins with the input and the list is too short
/// to hold the fallback.
pub fn complete(candidates: &Vec<String>, previous_output: &str, partial_input: &str) -> (r: Result<
    String,
    LogicError,
>)
    ensures
        match r {
            Ok(out) => has_candidate(views(candidates@), partial_input@) && out@ == completion(
                views(candidates@),
                previous_output@,
                partial_input@,
            ),
            Err(e) => !has_candidate(views(candidates@), partial_input@) && e
                == LogicError::NoFallbackCandidate,
        },
{
    let n: usize = candidates.len();
    let found: usize = find_first(candidates, partial_input);
    if found >= n && n < 2 {
        return Err(LogicError::NoFallbackCandidate);
    }
    let pick: usize = if found < n {
        found
    } else {
        1
    };
    assert(views(candidates@)[pick as int] == candidates@[pick as int]@);
    let entry: &str = candidates[pick].as_str();
    let rest: &str = if starts_with(entry, previous_output) {
        entry.substring_char(previous_output.unicode_len(), entry.unicode_len())
    } else {
        entry
    };
    let k: usize = index_of(rest, '/');
    let mut out = String::from_str(previous_output);
    out.append(rest.substring_char(0, k));
    Ok(out)
}

} // verus!
