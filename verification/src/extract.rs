//! Finding a logging-macro call in one line of text.
//!
//! The search is purely textual: a macro name inside a string literal, a
//! comment or a longer identifier counts like any other occurrence.

use crate::text::{
    contains_text, find, find_char, find_text, first_occurrence, lemma_find_some, position,
    to_chars, trim, trim_bounds, CharClass,
};
use vstd::prelude::*;
use vstd::slice::slice_subrange;
use vstd::string::StrSliceExecFns;

verus! {

/// The number of logging macros that are looked for.
pub const MACRO_COUNT: usize = 5;

/// The name of the logging macro that is looked for in place `k`.
pub open spec fn macro_name(k: int) -> Seq<char> {
    if k == 0 {
        "info!"@
    } else if k == 1 {
        "error!"@
    } else if k == 2 {
        "debug!"@
    } else if k == 3 {
        "trace!"@
    } else {
        "warn!"@
    }
}

/// The place of the first macro name, from place `k` on, that stands in `line`.
pub open spec fn matched_name_from(line: Seq<char>, k: int) -> Option<int>
    decreases MACRO_COUNT - k,
{
    if k < 0 || k >= MACRO_COUNT {
        None
    } else if contains_text(line, macro_name(k)) {
        Some(k)
    } else {
        matched_name_from(line, k + 1)
    }
}

/// The place of the first macro name, in the order of the places, that stands
/// in `line`.
pub open spec fn matched_name(line: Seq<char>) -> Option<int> {
    matched_name_from(line, 0)
}

/// What follows the first `(` at or after index `start` of `line`, without
/// the whitespace at its two ends; nothing where no `(` follows.
pub open spec fn fragment_after(line: Seq<char>, start: int) -> Option<Seq<char>> {
    let tail = line.skip(start);
    match position(tail, '(') {
        Some(p) => Some(trim(tail.skip(p + 1), CharClass::Whitespace)),
        None => None,
    }
}

/// The argument text of the logging call in `line`: the matched macro name
/// is the first in the order of the places that stands in `line`, its first
/// occurrence is taken, and the text runs from behind the next `(` to the end
/// of the line. A line without a macro name, or without a `(` behind the
/// matched name, holds no call.
pub open spec fn fragment_of(line: Seq<char>) -> Option<Seq<char>> {
    match matched_name(line) {
        Some(k) => fragment_after(line, find(line, macro_name(k)).unwrap()),
        None => None,
    }
}

/// The name of the logging macro in place `k`, as characters.
pub fn macro_name_chars(k: usize) -> (name: Vec<char>)
    requires
        k < MACRO_COUNT,
    ensures
        name@ == macro_name(k as int),
{
    if k == 0 {
        to_chars("info!")
    } else if k == 1 {
        to_chars("error!")
    } else if k == 2 {
        to_chars("debug!")
    } else if k == 3 {
        to_chars("trace!")
    } else {
        to_chars("warn!")
    }
}

/// The bounds in `line` of the argument text of its logging call.
pub fn fragment_bounds(line: &[char]) -> (r: Option<(usize, usize)>)
    ensures
        match r {
            Some((a, b)) => a <= b <= line@.len() && fragment_of(line@) == Some(
                line@.subrange(a as int, b as int),
            ),
            None => fragment_of(line@) is None,
        },
{
    let n: usize = line.len();
    let mut k: usize = 0;
    while k < MACRO_COUNT
        invariant
            k <= MACRO_COUNT,
            n == line@.len(),
            matched_name(line@) == matched_name_from(line@, k as int),
        decreases MACRO_COUNT - k,
    {
        let name = macro_name_chars(k);
        match find_text(line, name.as_slice()) {
            Some(start) => {
                assert(contains_text(line@, macro_name(k as int)));
                assert(matched_name(line@) == Some(k as int));
                let tail = slice_subrange(line, start, n);
                match find_char(tail, '(') {
                    Some(p) => {
                        let rest = slice_subrange(tail, p + 1, tail.len());
                        let (a, b) = trim_bounds(rest, CharClass::Whitespace);
                        let from: usize = start + p + 1;
                        assert(rest@.subrange(a as int, b as int) =~= line@.subrange(
                            from + a,
                            from + b,
                        ));
                        return Some((from + a, from + b));
                    },
                    None => {
                        return None;
                    },
                }
            },
            None => {},
        }
        k = k + 1;
    }
    None
}

/// The argument text of the logging call in `line`, if `line` holds one.
pub fn extract_log_call<'a>(line: &'a str) -> (r: Option<&'a str>)
    ensures
        match r {
            Some(f) => fragment_of(line@) == Some(f@),
            None => fragment_of(line@) is None,
        },
        (forall|k: int| 0 <= k < MACRO_COUNT ==> !contains_text(line@, #[trigger] macro_name(k)))
            ==> r is None,
{
    let chars = to_chars(line);
    proof {
        lemma_no_name_no_fragment(line@);
    }
    match fragment_bounds(chars.as_slice()) {
        Some((a, b)) => Some(line.substring_char(a, b)),
        None => None,
    }
}

/// A line in which none of the macro names stands holds no logging call.
pub proof fn lemma_no_name_no_fragment(line: Seq<char>)
    ensures
        (forall|k: int| 0 <= k < MACRO_COUNT ==> !contains_text(line, #[trigger] macro_name(k)))
            ==> fragment_of(line) is None,
{
    if forall|k: int| 0 <= k < MACRO_COUNT ==> !contains_text(line, #[trigger] macro_name(k)) {
        assert(!contains_text(line, macro_name(0)));
        assert(!contains_text(line, macro_name(1)));
        assert(!contains_text(line, macro_name(2)));
        assert(!contains_text(line, macro_name(3)));
        assert(!contains_text(line, macro_name(4)));
        reveal_with_fuel(matched_name_from, 6);
    }
}

/// Of several macro names in one line only the first in the order of the
/// places counts: the call is read at the first occurrence of that name,
/// whichever names of later places stand in the line, and wherever.
pub proof fn lemma_first_name_decides(line: Seq<char>, k: int)
    requires
        0 <= k < MACRO_COUNT,
        contains_text(line, macro_name(k)),
        forall|j: int| 0 <= j < k ==> !contains_text(line, #[trigger] macro_name(j)),
    ensures
        matched_name(line) == Some(k),
        first_occurrence(line, macro_name(k), find(line, macro_name(k)).unwrap()),
        fragment_of(line) == fragment_after(line, find(line, macro_name(k)).unwrap()),
{
    lemma_matched_from(line, k, 0);
    lemma_find_some(line, macro_name(k));
}

/// From any place up to `k`, the search for a name arrives at `k` when no
/// earlier name stands in the line.
proof fn lemma_matched_from(line: Seq<char>, k: int, from: int)
    requires
        0 <= from <= k < MACRO_COUNT,
        contains_text(line, macro_name(k)),
        forall|j: int| 0 <= j < k ==> !contains_text(line, #[trigger] macro_name(j)),
    ensures
        matched_name_from(line, from) == Some(k),
    decreases k - from,
{
    if from < k {
        assert(!contains_text(line, macro_name(from)));
        lemma_matched_from(line, k, from + 1);
    }
}

} // verus!
