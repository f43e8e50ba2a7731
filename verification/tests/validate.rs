use log_style::extract::extract_log_call;
use log_style::validate::{
    check_fragment, first_broken_rule, token_bounds, validate_log_message, Rule, StyleViolation,
};

fn chars(s: &str) -> Vec<char> {
    s.chars().collect()
}

fn violation(line: usize, rule: Rule, message: &str) -> StyleViolation {
    StyleViolation { line, rule, message: message.to_string() }
}

fn validate_line(line: &str, num: usize) -> Result<(), StyleViolation> {
    match extract_log_call(line) {
        Some(fragment) => validate_log_message(fragment, num),
        None => Ok(()),
    }
}

#[test]
fn hello_world_is_valid() {
    assert_eq!(validate_line("info!(\"Hello world\")", 1), Ok(()));
    assert_eq!(validate_log_message("\"Hello world\")", 1), Ok(()));
}

#[test]
fn colon_without_field_breaks_interpolation_rule() {
    assert_eq!(
        validate_line("error!(\"Failed: retry\")", 4),
        Err(violation(4, Rule::InlineInterpolation, "Failed: retry\")"))
    );
}

#[test]
fn capitalization_is_tried_before_colon() {
    assert_eq!(
        validate_line("error!(\"failed: retry\")", 4),
        Err(violation(4, Rule::Capitalization, "failed: retry\")"))
    );
}

#[test]
fn percent_anywhere_suppresses_interpolation_rule() {
    assert_eq!(validate_line("warn!(\"Bad value\", value = %v)", 1), Ok(()));
    assert_eq!(validate_line("warn!(\"Bad: value\", value = %v)", 1), Ok(()));
    assert_eq!(validate_log_message("\"Rate: 5%\"", 1), Ok(()));
    assert_eq!(
        validate_line("warn!(\"Bad: value\", value = v)", 2),
        Err(violation(2, Rule::InlineInterpolation, "Bad: value"))
    );
}

#[test]
fn lowercase_message_with_field_breaks_capitalization() {
    assert_eq!(
        validate_line("warn!(\"bad value\", value = %v)", 8),
        Err(violation(8, Rule::Capitalization, "bad value"))
    );
}

#[test]
fn lowercase_start_breaks_capitalization() {
    assert_eq!(
        validate_line("debug!(\"lowercase start\")", 12),
        Err(violation(12, Rule::Capitalization, "lowercase start\")"))
    );
}

#[test]
fn period_before_comma_breaks_trailing_period_rule() {
    assert_eq!(
        validate_line("trace!(\"Ends with period.\", n)", 3),
        Err(violation(3, Rule::TrailingPeriod, "Ends with period."))
    );
    assert_eq!(
        validate_log_message("\"Ends with period.\"", 3),
        Err(violation(3, Rule::TrailingPeriod, "Ends with period."))
    );
}

#[test]
fn closing_parenthesis_hides_trailing_period() {
    // without a comma the message runs to the end of the line, parenthesis included
    assert_eq!(validate_line("trace!(\"Ends with period.\")", 3), Ok(()));
}

#[test]
fn trailing_period_is_tried_before_colon() {
    assert_eq!(
        validate_log_message("\"A: b.\", x", 1),
        Err(violation(1, Rule::TrailingPeriod, "A: b."))
    );
}

#[test]
fn empty_message_is_valid() {
    assert_eq!(validate_log_message("", 1), Ok(()));
    assert_eq!(validate_log_message("\"\", x", 1), Ok(()));
    assert_eq!(validate_log_message(", x", 1), Ok(()));
    assert_eq!(validate_log_message("\"'`", 1), Ok(()));
    assert_eq!(validate_line("info!(", 1), Ok(()));
}

#[test]
fn all_three_quote_characters_are_stripped() {
    assert_eq!(
        validate_log_message("`'\"quoted\"'`, x", 5),
        Err(violation(5, Rule::Capitalization, "quoted"))
    );
    // quotes inside the message stay
    assert_eq!(
        validate_log_message("\"it's\", x", 5),
        Err(violation(5, Rule::Capitalization, "it's"))
    );
}

#[test]
fn non_letter_start_breaks_capitalization() {
    assert_eq!(
        validate_log_message("\"1 item\", x", 2),
        Err(violation(2, Rule::Capitalization, "1 item"))
    );
    assert_eq!(
        validate_log_message(")", 2),
        Err(violation(2, Rule::Capitalization, ")"))
    );
}

#[test]
fn uppercase_is_unicode_aware() {
    assert_eq!(validate_log_message("\"Élan\", x", 1), Ok(()));
    assert_eq!(validate_log_message("\"Δelta\", x", 1), Ok(()));
    assert_eq!(
        validate_log_message("\"élan\", x", 1),
        Err(violation(1, Rule::Capitalization, "élan"))
    );
}

#[test]
fn line_number_is_reported_as_given() {
    assert_eq!(
        validate_log_message("\"x\"", usize::MAX),
        Err(violation(usize::MAX, Rule::Capitalization, "x"))
    );
    assert_eq!(
        validate_log_message("\"x\"", 0),
        Err(violation(0, Rule::Capitalization, "x"))
    );
}

#[test]
fn token_bounds_index_characters() {
    assert_eq!(token_bounds(&chars("\"ab\",c")), (1, 3));
    assert_eq!(token_bounds(&chars("\"ab\")")), (1, 5));
    assert_eq!(token_bounds(&chars("\"\"")), (2, 2));
    assert_eq!(token_bounds(&chars("")), (0, 0));
    assert_eq!(token_bounds(&chars("é\"ö\",")), (0, 3));
}

#[test]
fn check_fragment_gives_rule_and_bounds() {
    assert_eq!(
        check_fragment(&chars("\"Done.\", x")),
        Some((Rule::TrailingPeriod, 1, 6))
    );
    assert_eq!(check_fragment(&chars("\"Done\", x")), None);
    assert_eq!(
        check_fragment(&chars("\"A: b\"")),
        Some((Rule::InlineInterpolation, 1, 5))
    );
    assert_eq!(check_fragment(&chars("\"A: b\", %x")), None);
}

#[test]
fn first_broken_rule_by_order() {
    assert_eq!(first_broken_rule(&chars(""), false, false), None);
    assert_eq!(
        first_broken_rule(&chars("a: b."), false, false),
        Some(Rule::Capitalization)
    );
    assert_eq!(
        first_broken_rule(&chars("A: b."), true, false),
        Some(Rule::TrailingPeriod)
    );
    assert_eq!(
        first_broken_rule(&chars("A: b"), true, false),
        Some(Rule::InlineInterpolation)
    );
    assert_eq!(first_broken_rule(&chars("A: b"), true, true), None);
    assert_eq!(first_broken_rule(&chars("A b"), true, false), None);
}
