//! The style rules for the message of a logging call.
//!
//! The message is the first argument of the call. Three rules are tried in a
//! fixed order, and the first one that the message breaks is reported.

use crate::text::{
    char_is_uppercase, find_char, is_uppercase, position, to_chars, trim, trim_bounds, CharClass,
};
use vstd::prelude::*;
use vstd::slice::slice_subrange;
use vstd::string::{StrSliceExecFns, StringExecFns};

verus! {

/// A style rule for log messages.
#[derive(Clone, Copy, Debug, PartialEq, Eq, Structural)]
pub enum Rule {
    /// The message starts with an uppercase letter.
    Capitalization,
    /// The message does not end with a period.
    TrailingPeriod,
    /// A message with a colon comes with a structured field (a `%` somewhere
    /// in the call).
    InlineInterpolation,
}

/// A broken style rule, as contracts speak of it.
pub ghost struct ViolationModel {
    pub line: nat,
    pub rule: Rule,
    pub message: Seq<char>,
}

/// A broken style rule: the line of the call, counted from one, the rule, and
/// the message that breaks it.
#[derive(Clone, Debug, PartialEq, Eq)]
pub struct StyleViolation {
    pub line: usize,
    pub rule: Rule,
    pub message: String,
}

impl View for StyleViolation {
    type V = ViolationModel;

    open spec fn view(&self) -> ViolationModel {
        ViolationModel { line: self.line as nat, rule: self.rule, message: self.message@ }
    }
}

/// `s` up to its first `c`, or all of `s` where it holds no `c`.
pub open spec fn before_first(s: Seq<char>, c: char) -> Seq<char> {
    match position(s, c) {
        Some(p) => s.take(p),
        None => s,
    }
}

/// The message of a call with the argument text `fragment`: the text before
/// the first comma, without the quote characters at its two ends.
pub open spec fn message_token(fragment: Seq<char>) -> Seq<char> {
    trim(before_first(fragment, ','), CharClass::Quote)
}

/// The first rule, in the order capitalization, trailing period, inline
/// interpolation, that the message `token` breaks, given whether its first
/// character is an uppercase letter and whether the call has a structured
/// field. An empty message breaks none.
pub open spec fn rule_broken_by(token: Seq<char>, starts_uppercase: bool, has_field: bool)
    -> Option<Rule> {
    if token.len() == 0 {
        None
    } else if !starts_uppercase {
        Some(Rule::Capitalization)
    } else if token.last() == '.' {
        Some(Rule::TrailingPeriod)
    } else if token.contains(':') && !has_field {
        Some(Rule::InlineInterpolation)
    } else {
        None
    }
}

/// The first rule that the message of `fragment` breaks. A `%` anywhere in
/// `fragment` counts as a structured field.
pub open spec fn broken_rule(fragment: Seq<char>) -> Option<Rule> {
    let token = message_token(fragment);
    rule_broken_by(
        token,
        token.len() > 0 && char_is_uppercase(token.first()),
        fragment.contains('%'),
    )
}

/// What is reported for a call with the argument text `fragment` in line
/// `line`: nothing where its message keeps the rules.
pub open spec fn violation_of(fragment: Seq<char>, line: nat) -> Option<ViolationModel> {
    match broken_rule(fragment) {
        Some(rule) => Some(ViolationModel { line, rule, message: message_token(fragment) }),
        None => None,
    }
}

/// The bounds in `fragment` of the message of the call.
pub fn token_bounds(fragment: &[char]) -> (r: (usize, usize))
    ensures
        r.0 <= r.1 <= fragment@.len(),
        fragment@.subrange(r.0 as int, r.1 as int) == message_token(fragment@),
{
    let end: usize = match find_char(fragment, ',') {
        Some(p) => p,
        None => fragment.len(),
    };
    let region = slice_subrange(fragment, 0, end);
    assert(region@ =~= before_first(fragment@, ','));
    let (a, b) = trim_bounds(region, CharClass::Quote);
    assert(region@.subrange(a as int, b as int) =~= fragment@.subrange(a as int, b as int));
    (a, b)
}

/// The first rule that the message of the call breaks, with the bounds of the
/// message in `fragment`.
pub fn check_fragment(fragment: &[char]) -> (r: Option<(Rule, usize, usize)>)
    ensures
        match r {
            Some((rule, a, b)) => {
                &&& broken_rule(fragment@) == Some(rule)
                &&& a <= b <= fragment@.len()
                &&& fragment@.subrange(a as int, b as int) == message_token(fragment@)
            },
            None => broken_rule(fragment@) is None,
        },
{
    let (a, b) = token_bounds(fragment);
    let token = slice_subrange(fragment, a, b);
    let starts_uppercase = a < b && is_uppercase(token[0]);
    let has_field = find_char(fragment, '%').is_some();
    match first_broken_rule(token, starts_uppercase, has_field) {
        Some(rule) => Some((rule, a, b)),
        None => None,
    }
}

/// The first rule that the message `token` breaks, given whether its first
/// character is an uppercase letter and whether the call has a structured
/// field.
pub fn first_broken_rule(token: &[char], starts_uppercase: bool, has_field: bool) -> (r: Option<
    Rule,
>)
    ensures
        r == rule_broken_by(token@, starts_uppercase, has_field),
{
    let n: usize = token.len();
    if n == 0 {
        None
    } else if !starts_uppercase {
        Some(Rule::Capitalization)
    } else if token[n - 1] == '.' {
        Some(Rule::TrailingPeriod)
    } else if !has_field && find_char(token, ':').is_some() {
        Some(Rule::InlineInterpolation)
    } else {
        None
    }
}

/// Holds the message of a logging call to the style rules. `log_call` is the
/// argument text of the call and `line_num` the number of its line.
pub fn validate_log_message(log_call: &str, line_num: usize) -> (r: Result<(), StyleViolation>)
    ensures
        match r {
            Ok(()) => violation_of(log_call@, line_num as nat) is None,
            Err(v) => violation_of(log_call@, line_num as nat) == Some(v@),
        },
{
    let chars = to_chars(log_call);
    match check_fragment(chars.as_slice()) {
        Some((rule, a, b)) => {
            let message = log_call.substring_char(a, b).to_owned();
            Err(StyleViolation { line: line_num, rule, message })
        },
        None => Ok(()),
    }
}

} // verus!
