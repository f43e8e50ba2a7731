//! Scanning a whole text, line by line, for the first logging call whose
//! message breaks a style rule.

use crate::extract::{
    fragment_bounds, fragment_of, lemma_no_name_no_fragment, macro_name, MACRO_COUNT,
};
use crate::report::violation_text;
use crate::text::{contains_text, find_char, lemma_position_some, position, to_chars};
use crate::validate::{check_fragment, violation_of, StyleViolation, ViolationModel};
use vstd::prelude::*;
use vstd::slice::slice_subrange;
use vstd::string::StrSliceExecFns;

verus! {

/// `l` without a carriage return at its end.
pub open spec fn strip_cr(l: Seq<char>) -> Seq<char> {
    if l.len() > 0 && l.last() == '\r' {
        l.drop_last()
    } else {
        l
    }
}

/// The first line of `s`: the text before the first line feed, without a
/// carriage return directly before that line feed; all of `s` where it holds
/// no line feed.
pub open spec fn first_line(s: Seq<char>) -> Seq<char> {
    match position(s, '\n') {
        Some(p) => strip_cr(s.take(p)),
        None => s,
    }
}

/// What follows the first line of `s` and its line feed.
pub open spec fn after_first_line(s: Seq<char>) -> Seq<char> {
    match position(s, '\n') {
        Some(p) => s.skip(p + 1),
        None => Seq::empty(),
    }
}

/// The lines of `s`. A line ends with a line feed, or with a carriage return
/// and a line feed, which are not part of it; the last line may end with the
/// text. The empty text has no line.
pub open spec fn lines(s: Seq<char>) -> Seq<Seq<char>>
    decreases s.len(),
{
    if s.len() == 0 {
        Seq::empty()
    } else {
        proof {
            lemma_position_some(s, '\n');
        }
        seq![first_line(s)] + lines(after_first_line(s))
    }
}

/// What is reported for `line`, the line with number `num`: nothing where it
/// holds no logging call, or one whose message keeps the rules.
pub open spec fn line_outcome(line: Seq<char>, num: nat) -> Option<ViolationModel> {
    match fragment_of(line) {
        Some(fragment) => violation_of(fragment, num),
        None => None,
    }
}

/// Nothing is reported for the first `count` of the lines `ls`, numbered
/// from one.
pub open spec fn clean_before(ls: Seq<Seq<char>>, count: int) -> bool {
    forall|j: int| 0 <= j < count ==> (#[trigger] line_outcome(ls[j], (j + 1) as nat)) is None
}

/// `v` is what is reported for the first line of `content` for which
/// anything is.
pub open spec fn first_violation(content: Seq<char>, v: ViolationModel) -> bool {
    let ls = lines(content);
    exists|i: int|
        0 <= i < ls.len() && clean_before(ls, i) && #[trigger] line_outcome(ls[i], (i + 1) as nat)
            == Some(v)
}

/// Nothing is reported for any line of `content`.
pub open spec fn no_violation(content: Seq<char>) -> bool {
    let ls = lines(content);
    clean_before(ls, ls.len() as int)
}

/// `r` is the outcome of the scan of `content`: the report for the first
/// offending line, or success where there is none.
pub open spec fn scan_outcome(content: Seq<char>, r: Option<ViolationModel>) -> bool {
    match r {
        None => no_violation(content),
        Some(v) => first_violation(content, v),
    }
}

/// The end of the line that starts at `pos`, and the start of the next one.
pub fn line_bounds(chars: &[char], pos: usize) -> (r: (usize, usize))
    requires
        pos < chars@.len(),
    ensures
        pos <= r.0 <= r.1 <= chars@.len(),
        pos < r.1,
        chars@.subrange(pos as int, r.0 as int) == first_line(chars@.skip(pos as int)),
        chars@.skip(r.1 as int) == after_first_line(chars@.skip(pos as int)),
{
    let n: usize = chars.len();
    let rest = slice_subrange(chars, pos, n);
    match find_char(rest, '\n') {
        Some(p) => {
            let feed: usize = pos + p;
            assert(rest@.skip(p + 1) =~= chars@.skip(feed + 1));
            assert(rest@.take(p as int) =~= chars@.subrange(pos as int, feed as int));
            if p > 0 && chars[feed - 1] == '\r' {
                assert(rest@.take(p as int).drop_last() =~= chars@.subrange(
                    pos as int,
                    feed - 1,
                ));
                (feed - 1, feed + 1)
            } else {
                (feed, feed + 1)
            }
        },
        None => {
            assert(chars@.skip(n as int) =~= Seq::<char>::empty());
            (n, n)
        },
    }
}

/// Scans `content` line by line and reports the first logging call whose
/// message breaks a style rule. Lines are numbered from one; nothing after
/// the reported line is looked at.
pub fn check_for_logging(content: &str) -> (r: Result<(), StyleViolation>)
    ensures
        scan_outcome(
            content@,
            match r {
                Ok(_) => None,
                Err(v) => Some(v@),
            },
        ),
{
    let chars = to_chars(content);
    let n: usize = chars.len();
    let mut pos: usize = 0;
    let mut done: usize = 0;
    assert(chars@.skip(0) =~= chars@);
    assert(lines(chars@).skip(0) =~= lines(chars@));
    while pos < n
        invariant
            chars@ == content@,
            n == chars@.len(),
            pos <= n,
            done <= pos,
            done <= lines(chars@).len(),
            lines(chars@).skip(done as int) == lines(chars@.skip(pos as int)),
            clean_before(lines(chars@), done as int),
        decreases n - pos,
    {
        let (end, next) = line_bounds(chars.as_slice(), pos);
        let ghost all = lines(chars@);
        let ghost rest = chars@.skip(pos as int);
        proof {
            assert(all.skip(done as int) == seq![first_line(rest)] + lines(after_first_line(rest)));
            assert(all.skip(done as int).len() > 0);
            assert(all[done as int] == all.skip(done as int)[0]);
            assert(all.skip(done + 1) =~= all.skip(done as int).skip(1));
            assert(all.skip(done as int).skip(1) =~= lines(after_first_line(rest)));
        }
        let line = slice_subrange(chars.as_slice(), pos, end);
        match fragment_bounds(line) {
            Some((fa, fb)) => {
                let fragment = slice_subrange(line, fa, fb);
                match check_fragment(fragment) {
                    Some((rule, ta, tb)) => {
                        let from: usize = pos + fa;
                        assert(fragment@.subrange(ta as int, tb as int) =~= chars@.subrange(
                            from + ta,
                            from + tb,
                        ));
                        let message = content.substring_char(from + ta, from + tb).to_owned();
                        let v = StyleViolation { line: done + 1, rule, message };
                        assert(line_outcome(all[done as int], (done + 1) as nat) == Some(v@));
                        return Err(v);
                    },
                    None => {},
                }
            },
            None => {},
        }
        assert(line_outcome(all[done as int], (done + 1) as nat) is None);
        pos = next;
        done = done + 1;
    }
    proof {
        assert(chars@.skip(n as int).len() == 0);
        assert(lines(chars@).skip(done as int).len() == 0);
    }
    Ok(())
}

/// A line in which none of the macro names stands is never held to the
/// rules: nothing is reported for it, whatever its number.
pub proof fn lemma_line_without_name_is_clean(line: Seq<char>, num: nat)
    requires
        forall|k: int| 0 <= k < MACRO_COUNT ==> !contains_text(line, #[trigger] macro_name(k)),
    ensures
        fragment_of(line) is None,
        line_outcome(line, num) is None,
{
    lemma_no_name_no_fragment(line);
}

/// The outcome of a scan depends on the text alone: two scans of one text
/// end alike, with the same report where they fail.
pub proof fn lemma_scan_is_determined(
    content: Seq<char>,
    a: Option<ViolationModel>,
    b: Option<ViolationModel>,
)
    requires
        scan_outcome(content, a),
        scan_outcome(content, b),
    ensures
        a == b,
        a is Some ==> violation_text(a.unwrap()) == violation_text(b.unwrap()),
{
    let ls = lines(content);
    match a {
        None => {
            match b {
                None => {},
                Some(w) => {
                    lemma_reported_line_offends(content, w);
                },
            }
        },
        Some(v) => {
            lemma_reported_line_offends(content, v);
            match b {
                None => {},
                Some(w) => {
                    let i = reported_index(content, v);
                    let j = reported_index(content, w);
                    lemma_reported_line_offends(content, w);
                    if i < j {
                        assert(line_outcome(ls[i], (i + 1) as nat) is None);
                    }
                    if j < i {
                        assert(line_outcome(ls[j], (j + 1) as nat) is None);
                    }
                },
            }
        },
    }
}

/// The index, among the lines of `content`, of the line for which `v` is
/// reported.
pub open spec fn reported_index(content: Seq<char>, v: ViolationModel) -> int {
    let ls = lines(content);
    choose|i: int|
        0 <= i < ls.len() && clean_before(ls, i) && #[trigger] line_outcome(ls[i], (i + 1) as nat)
            == Some(v)
}

/// A reported violation belongs to a line of the text, the first that
/// offends, and so the text has an offending line.
pub proof fn lemma_reported_line_offends(content: Seq<char>, v: ViolationModel)
    requires
        first_violation(content, v),
    ensures
        0 <= reported_index(content, v) < lines(content).len(),
        clean_before(lines(content), reported_index(content, v)),
        line_outcome(
            lines(content)[reported_index(content, v)],
            (reported_index(content, v) + 1) as nat,
        ) == Some(v),
        !no_violation(content),
{
    let ls = lines(content);
    let i = reported_index(content, v);
    assert(line_outcome(ls[i], (i + 1) as nat) is Some);
}

} // verus!
