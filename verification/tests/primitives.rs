use nomlite::outcome::IResult;
use nomlite::parser::Parser;
use nomlite::primitive::{digit, multispace, Digit, IsDigit, IsSpace, Multispace, Tag, TakeUntil,
    TakeWhile1};

#[test]
fn multispace_fails_on_empty() {
    assert_eq!(multispace(""), IResult::Error);
}

#[test]
fn multispace_takes_maximal_run() {
    assert_eq!(multispace("  \t\nX"), IResult::Done("X", "  \t\n"));
}

#[test]
fn multispace_fails_without_leading_space() {
    assert_eq!(multispace("X "), IResult::Error);
}

#[test]
fn multispace_consumes_everything_when_all_spaces() {
    assert_eq!(multispace(" \r\n\t"), IResult::Done("", " \r\n\t"));
}

#[test]
fn digit_takes_maximal_run() {
    assert_eq!(digit("123abc"), IResult::Done("abc", "123"));
}

#[test]
fn digit_fails_without_leading_digit() {
    assert_eq!(digit("abc"), IResult::Error);
}

#[test]
fn digit_fails_on_empty() {
    assert_eq!(digit(""), IResult::Error);
}

#[test]
fn digit_consumes_everything_when_all_digits() {
    assert_eq!(digit("0987654321"), IResult::Done("", "0987654321"));
}

#[test]
fn parser_structs_agree_with_functions() {
    assert_eq!(Multispace.parse(" x"), IResult::Done("x", " "));
    assert_eq!(Digit.parse("5"), IResult::Done("", "5"));
    let spaces = TakeWhile1 { pred: IsSpace };
    assert_eq!(spaces.parse("\t\t."), IResult::Done(".", "\t\t"));
    let digits = TakeWhile1 { pred: IsDigit };
    assert_eq!(digits.parse("77z"), IResult::Done("z", "77"));
    assert_eq!(digits.parse("z"), IResult::Error);
}

#[test]
fn tag_matches_exact_prefix() {
    let get = Tag { expected: "GET" };
    assert_eq!(get.parse("GET /x"), IResult::Done(" /x", "GET"));
}

#[test]
fn tag_fails_on_other_prefix() {
    let get = Tag { expected: "GET" };
    assert_eq!(get.parse("PUT /x"), IResult::Error);
}

#[test]
fn tag_fails_when_input_is_shorter() {
    let get = Tag { expected: "GET" };
    assert_eq!(get.parse("GE"), IResult::Error);
}

#[test]
fn tag_empty_literal_is_zero_width() {
    let nothing = Tag { expected: "" };
    assert_eq!(nothing.parse("abc"), IResult::Done("abc", ""));
}

#[test]
fn tag_compares_characters_not_bytes() {
    let accent = Tag { expected: "é" };
    assert_eq!(accent.parse("éclair"), IResult::Done("clair", "é"));
    assert_eq!(accent.parse("e"), IResult::Error);
}

#[test]
fn take_until_stops_before_needle() {
    let until = TakeUntil { needle: "stop" };
    assert_eq!(until.parse("foostopbar"), IResult::Done("stopbar", "foo"));
}

#[test]
fn take_until_finds_first_occurrence() {
    let until = TakeUntil { needle: "stop" };
    assert_eq!(until.parse("nostophere"), IResult::Done("stophere", "no"));
}

#[test]
fn take_until_fails_when_needle_absent() {
    let until = TakeUntil { needle: "stop" };
    assert_eq!(until.parse("absent"), IResult::Error);
}

#[test]
fn take_until_fails_when_needle_longer_than_input() {
    let until = TakeUntil { needle: "stop" };
    assert_eq!(until.parse("sto"), IResult::Error);
}

#[test]
fn take_until_needle_at_start_is_zero_width() {
    let until = TakeUntil { needle: "stop" };
    assert_eq!(until.parse("stopgo"), IResult::Done("stopgo", ""));
}

#[test]
fn take_until_empty_needle() {
    let until = TakeUntil { needle: "" };
    assert_eq!(until.parse("ab"), IResult::Done("ab", ""));
    assert_eq!(until.parse(""), IResult::Error);
}

#[test]
fn take_until_matches_characters_not_bytes() {
    let until = TakeUntil { needle: "é" };
    assert_eq!(until.parse("caf é"), IResult::Done("é", "caf "));
}
