//! The text normalizer and the two key parsers on concrete inputs.

use irs_1094b_error_parser::digits::parse_usize_or_zero;
use irs_1094b_error_parser::digits::usize_to_string;
use irs_1094b_error_parser::record_error::parse_record_id;
use irs_1094b_error_parser::remove_excess_whitespace;
use irs_1094b_error_parser::text::str_eq;

#[test]
fn normalize_whitespace_scenario() {
    // a single leading and trailing whitespace run each stays as one space
    assert_eq!(remove_excess_whitespace("  Smith \n Jones "), " Smith Jones ");
}

#[test]
fn normalize_collapses_tabs_and_newlines() {
    assert_eq!(remove_excess_whitespace("a\t\t b\n\r\nc"), "a b c");
}

#[test]
fn normalize_keeps_plain_text() {
    assert_eq!(remove_excess_whitespace("Smith"), "Smith");
    assert_eq!(remove_excess_whitespace(""), "");
}

#[test]
fn normalize_is_idempotent_on_samples() {
    let samples = ["  a  b  ", "\t\n", "x", "", " mixed \u{a0} runs \u{2003} here "];
    for s in samples {
        let once = remove_excess_whitespace(s);
        let twice = remove_excess_whitespace(&once);
        assert_eq!(once, twice);
    }
}

#[test]
fn normalize_leaves_no_adjacent_whitespace() {
    let samples = ["  a  b  ", "\t \n x \r\n y ", "\u{2000}\u{2001}z"];
    for s in samples {
        let out = remove_excess_whitespace(s);
        let chars: Vec<char> = out.chars().collect();
        for w in chars.windows(2) {
            assert!(!(w[0].is_whitespace() && w[1].is_whitespace()));
        }
    }
}

#[test]
fn whole_text_key_parses_plain_integers() {
    assert_eq!(parse_usize_or_zero("123"), 123);
    assert_eq!(parse_usize_or_zero("0"), 0);
    assert_eq!(parse_usize_or_zero("+7"), 7);
}

#[test]
fn whole_text_key_falls_back_to_zero() {
    assert_eq!(parse_usize_or_zero(""), 0);
    assert_eq!(parse_usize_or_zero("12a"), 0);
    assert_eq!(parse_usize_or_zero(" 5"), 0);
    assert_eq!(parse_usize_or_zero("-5"), 0);
    assert_eq!(parse_usize_or_zero("99999999999999999999999999999999"), 0);
}

#[test]
fn key_renders_back_to_decimal() {
    assert_eq!(usize_to_string(0), "0");
    assert_eq!(usize_to_string(42), "42");
    assert_eq!(usize_to_string(1094), "1094");
    assert_eq!(usize_to_string(usize::MAX), usize::MAX.to_string());
}

#[test]
fn pipe_key_simple_match() {
    assert_eq!(parse_record_id("|prefix| 123"), 123);
    assert_eq!(parse_record_id("|AIRB950|42 more text"), 42);
}

#[test]
fn pipe_key_takes_rightmost_closing_pipe() {
    // the delimited segment is greedy: it spans across inner pipes
    assert_eq!(parse_record_id("junk |p| 1 and |q| 2"), 2);
    assert_eq!(parse_record_id("|a|b|99"), 99);
}

#[test]
fn pipe_key_whitespace_before_digits() {
    assert_eq!(parse_record_id("|x|\t\n  7"), 7);
    assert_eq!(parse_record_id("|x|7"), 7);
}

#[test]
fn pipe_key_fallback_to_zero() {
    // key-parse fallback: an unmatched blob yields zero, not a failure
    assert_eq!(parse_record_id("no pipes at all"), 0);
    assert_eq!(parse_record_id("|only one pipe"), 0);
    assert_eq!(parse_record_id("|a|b"), 0);
    assert_eq!(parse_record_id("|a| stop 5"), 0);
    assert_eq!(parse_record_id(""), 0);
}

#[test]
fn pipe_key_overflowing_digits_yield_zero() {
    assert_eq!(parse_record_id("|x| 99999999999999999999999999999999"), 0);
}

#[test]
fn pipe_key_segment_cannot_span_a_line_feed() {
    // the first pipe pair is split by a line feed; the later pair matches
    assert_eq!(parse_record_id("|a\nb| 1 |c| 2"), 2);
}

#[test]
fn str_eq_compares_contents() {
    assert!(str_eq("RecordId", "RecordId"));
    assert!(!str_eq("RecordId", "recordid"));
    assert!(!str_eq("a", "ab"));
    assert!(str_eq("", ""));
}
