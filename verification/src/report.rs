//! The text in which a broken style rule is reported.

use crate::validate::{Rule, StyleViolation, ViolationModel};
use vstd::prelude::*;
use vstd::string::StringExecFns;

verus! {

/// The decimal digit for `d`.
pub open spec fn digit_char(d: nat) -> char {
    if d == 0 {
        '0'
    } else if d == 1 {
        '1'
    } else if d == 2 {
        '2'
    } else if d == 3 {
        '3'
    } else if d == 4 {
        '4'
    } else if d == 5 {
        '5'
    } else if d == 6 {
        '6'
    } else if d == 7 {
        '7'
    } else if d == 8 {
        '8'
    } else {
        '9'
    }
}

/// `n` in decimal digits, without leading zeros.
pub open spec fn decimal(n: nat) -> Seq<char>
    decreases n,
{
    if n < 10 {
        seq![digit_char(n)]
    } else {
        decimal(n / 10).push(digit_char(n % 10))
    }
}

/// What a report says of the rule that was broken.
pub open spec fn rule_text(rule: Rule) -> Seq<char> {
    match rule {
        Rule::Capitalization => "Log message does not start with a capital letter"@,
        Rule::TrailingPeriod => "Log message ends with a period"@,
        Rule::InlineInterpolation =>
            "Consider using structured fields instead of inline interpolation"@,
    }
}

/// The report of `v`: the line number, what the rule asks, and the message.
pub open spec fn violation_text(v: ViolationModel) -> Seq<char> {
    "Line "@ + decimal(v.line) + ": "@ + rule_text(v.rule) + ": "@ + v.message
}

/// The decimal digit for `d`, as a text of one character.
pub fn digit_str(d: usize) -> (s: &'static str)
    requires
        d < 10,
    ensures
        s@ == seq![digit_char(d as nat)],
{
    proof {
        reveal_strlit("0");
        reveal_strlit("1");
        reveal_strlit("2");
        reveal_strlit("3");
        reveal_strlit("4");
        reveal_strlit("5");
        reveal_strlit("6");
        reveal_strlit("7");
        reveal_strlit("8");
        reveal_strlit("9");
    }
    let s: &'static str = if d == 0 {
        "0"
    } else if d == 1 {
        "1"
    } else if d == 2 {
        "2"
    } else if d == 3 {
        "3"
    } else if d == 4 {
        "4"
    } else if d == 5 {
        "5"
    } else if d == 6 {
        "6"
    } else if d == 7 {
        "7"
    } else if d == 8 {
        "8"
    } else {
        "9"
    };
    assert(s@ =~= seq![digit_char(d as nat)]);
    s
}

/// Writes `n` in decimal digits at the end of `out`.
pub fn push_decimal(out: &mut String, n: usize)
    ensures
        final(out)@ == old(out)@ + decimal(n as nat),
    decreases n,
{
    if n >= 10 {
        push_decimal(out, n / 10);
    }
    out.append(digit_str(n % 10));
    assert(final(out)@ =~= old(out)@ + decimal(n as nat));
}

impl Rule {
    /// What a report says of the rule.
    pub fn text(self) -> (s: &'static str)
        ensures
            s@ == rule_text(self),
    {
        match self {
            Rule::Capitalization => "Log message does not start with a capital letter",
            Rule::TrailingPeriod => "Log message ends with a period",
            Rule::InlineInterpolation =>
                "Consider using structured fields instead of inline interpolation",
        }
    }
}

impl StyleViolation {
    /// The report of the violation, as it is shown to the user.
    pub fn describe(&self) -> (s: String)
        ensures
            s@ == violation_text(self@),
    {
        let mut out = String::new();
        out.append("Line ");
        push_decimal(&mut out, self.line);
        out.append(": ");
        out.append(self.rule.text());
        out.append(": ");
        out.append(self.message.as_str());
        assert(out@ =~= violation_text(self@));
        out
    }
}

} // verus!
