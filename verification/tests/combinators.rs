use nomlite::branch::{Alt, Switch};
use nomlite::lookahead::{Cond, Not, Peek};
use nomlite::outcome::IResult;
use nomlite::parser::Parser;
use nomlite::primitive::{Digit, Multispace, Tag};
use nomlite::repeat::{Many0, SeparatedList, SeparatedNonemptyList};
use nomlite::sequence::{Delimited, Pair, Preceded, Terminated, Triple};
use nomlite::transform::{CharCount, DecimalU64, MapRes, Mapped, ValueOf};

#[test]
fn pair_chains_left_to_right() {
    let p = Pair { first: Digit, second: Tag { expected: "x" } };
    assert_eq!(p.parse("1x!"), IResult::Done("!", ("1", "x")));
    assert_eq!(p.parse("x1"), IResult::Error);
    assert_eq!(p.parse("1y"), IResult::Error);
}

#[test]
fn triple_collects_all_three_values() {
    let p = Triple { first: Digit, second: Multispace, third: Digit };
    assert_eq!(p.parse("1 2"), IResult::Done("", ("1", " ", "2")));
    assert_eq!(p.parse("1 x"), IResult::Error);
}

#[test]
fn preceded_keeps_only_the_body() {
    let p = Preceded { prefix: Multispace, body: Digit };
    assert_eq!(p.parse("  42rest"), IResult::Done("rest", "42"));
    assert_eq!(p.parse("42"), IResult::Error);
}

#[test]
fn terminated_keeps_only_the_body() {
    let p = Terminated { body: Digit, suffix: Multispace };
    assert_eq!(p.parse("42 rest"), IResult::Done("rest", "42"));
    assert_eq!(p.parse("42rest"), IResult::Error);
}

#[test]
fn delimited_keeps_only_the_middle() {
    let p = Delimited {
        open_with: Tag { expected: "(" },
        body: Digit,
        close_with: Tag { expected: ")" },
    };
    assert_eq!(p.parse("(42)x"), IResult::Done("x", "42"));
    assert_eq!(p.parse("(42x"), IResult::Error);
    assert_eq!(p.parse("42)"), IResult::Error);
}

#[test]
fn mapped_applies_the_function() {
    let p = Mapped { inner: Digit, func: CharCount };
    assert_eq!(p.parse("123ab"), IResult::Done("ab", 3));
    assert_eq!(p.parse("ab"), IResult::Error);
}

#[test]
fn map_res_reads_a_number() {
    let p = MapRes { inner: Digit, func: DecimalU64 };
    assert_eq!(p.parse("42x"), IResult::Done("x", 42u64));
    assert_eq!(p.parse("18446744073709551615"), IResult::Done("", u64::MAX));
}

#[test]
fn map_res_turns_transform_error_into_failure() {
    let p = MapRes { inner: Digit, func: DecimalU64 };
    assert_eq!(p.parse("99999999999999999999"), IResult::Error);
}

#[test]
fn value_of_injects_a_constant() {
    let p = ValueOf { constant: 7u64 };
    assert_eq!(p.parse("abc"), IResult::Done("abc", 7u64));
    assert_eq!(p.parse(""), IResult::Done("", 7u64));
}

#[test]
fn many0_collects_in_parse_order() {
    let p = Many0 { element: Digit };
    assert_eq!(p.parse("12a34"), IResult::Done("a34", vec!["12"]));
    assert_eq!(p.parse("123"), IResult::Done("", vec!["123"]));
}

#[test]
fn many0_on_empty_input_is_an_empty_list() {
    let p = Many0 { element: Digit };
    assert_eq!(p.parse(""), IResult::Done("", vec![]));
}

#[test]
fn many0_failing_element_stops_gracefully() {
    let p = Many0 { element: Digit };
    assert_eq!(p.parse("abc"), IResult::Done("abc", vec![]));
}

#[test]
fn many0_zero_width_element_fails_the_aggregate() {
    let p = Many0 { element: ValueOf { constant: 0u64 } };
    assert_eq!(p.parse("x"), IResult::Error);
    assert_eq!(p.parse(""), IResult::Done("", vec![]));
}

#[test]
fn separated_list_collects_all_elements() {
    let p = SeparatedList { separator: Tag { expected: "," }, element: Digit };
    assert_eq!(p.parse("1,2,3"), IResult::Done("", vec!["1", "2", "3"]));
}

#[test]
fn separated_list_is_gracefully_empty() {
    let p = SeparatedList { separator: Tag { expected: "," }, element: Digit };
    assert_eq!(p.parse("x"), IResult::Done("x", vec![]));
}

#[test]
fn separated_list_leaves_a_trailing_separator() {
    let p = SeparatedList { separator: Tag { expected: "," }, element: Digit };
    assert_eq!(p.parse("1,2,"), IResult::Done(",", vec!["1", "2"]));
    assert_eq!(p.parse("1,2,x"), IResult::Done(",x", vec!["1", "2"]));
}

#[test]
fn separated_list_zero_width_first_element_fails() {
    let p = SeparatedList { separator: Tag { expected: "," }, element: Tag { expected: "" } };
    assert_eq!(p.parse("x"), IResult::Error);
}

#[test]
fn separated_list_zero_width_separator_stops_the_loop() {
    let p = SeparatedList { separator: Tag { expected: "" }, element: Tag { expected: "a" } };
    assert_eq!(p.parse("aaa"), IResult::Done("aa", vec!["a"]));
}

#[test]
fn separated_list_zero_width_tail_element_stops_the_loop() {
    let p = SeparatedList {
        separator: Tag { expected: "," },
        element: Alt { first: Tag { expected: "1" }, second: Tag { expected: "" } },
    };
    assert_eq!(p.parse("1,x"), IResult::Done(",x", vec!["1"]));
}

#[test]
fn separated_nonempty_list_needs_a_first_element() {
    let p = SeparatedNonemptyList { separator: Tag { expected: "," }, element: Digit };
    assert_eq!(p.parse("x"), IResult::Error);
}

#[test]
fn separated_nonempty_list_collects_all_elements() {
    let p = SeparatedNonemptyList { separator: Tag { expected: "," }, element: Digit };
    assert_eq!(p.parse("1,2"), IResult::Done("", vec!["1", "2"]));
    assert_eq!(p.parse("7end"), IResult::Done("end", vec!["7"]));
}

#[test]
fn alt_returns_the_first_success() {
    let p = Alt { first: Tag { expected: "a" }, second: Tag { expected: "b" } };
    assert_eq!(p.parse("b"), IResult::Done("", "b"));
    assert_eq!(p.parse("a"), IResult::Done("", "a"));
}

#[test]
fn alt_fails_when_every_branch_fails() {
    let p = Alt { first: Tag { expected: "a" }, second: Tag { expected: "b" } };
    assert_eq!(p.parse("c"), IResult::Error);
}

#[test]
fn alt_is_ordered_choice_from_the_original_input() {
    let p = Alt { first: Tag { expected: "a" }, second: Tag { expected: "ab" } };
    assert_eq!(p.parse("ab"), IResult::Done("b", "a"));
    let q = Alt { first: Tag { expected: "ab" }, second: Tag { expected: "a" } };
    assert_eq!(q.parse("ab"), IResult::Done("", "ab"));
}

#[test]
fn peek_returns_the_value_without_consuming() {
    let p = Peek { inner: Tag { expected: "GET" } };
    assert_eq!(p.parse("GET /x"), IResult::Done("GET /x", "GET"));
}

#[test]
fn peek_propagates_failure() {
    let p = Peek { inner: Tag { expected: "GET" } };
    assert_eq!(p.parse("PUT /x"), IResult::Error);
}

#[test]
fn not_succeeds_exactly_when_inner_fails() {
    let p = Not { inner: Digit };
    assert_eq!(p.parse("abc"), IResult::Done("abc", ""));
    assert_eq!(p.parse("1"), IResult::Error);
}

#[test]
fn cond_never_fails() {
    let off = Cond { active: false, inner: Digit };
    assert_eq!(off.parse("1x"), IResult::Done("1x", None));
    let on = Cond { active: true, inner: Digit };
    assert_eq!(on.parse("1x"), IResult::Done("x", Some("1")));
    assert_eq!(on.parse("yz"), IResult::Done("yz", None));
}

#[test]
fn switch_dispatches_on_the_selected_value() {
    let p = Switch {
        selector: Alt { first: Tag { expected: "a" }, second: Tag { expected: "b" } },
        arms: vec![("a", Tag { expected: "1" }), ("b", Tag { expected: "2" })],
        otherwise: None,
    };
    assert_eq!(p.parse("a1rest"), IResult::Done("rest", "1"));
    assert_eq!(p.parse("b2x"), IResult::Done("x", "2"));
}

#[test]
fn switch_fails_when_the_selector_fails() {
    let p = Switch {
        selector: Tag { expected: "a" },
        arms: vec![("a", Tag { expected: "1" })],
        otherwise: None,
    };
    assert_eq!(p.parse("z"), IResult::Error);
}

#[test]
fn switch_fails_without_a_matching_arm() {
    let p = Switch {
        selector: Alt { first: Tag { expected: "a" }, second: Tag { expected: "c" } },
        arms: vec![("a", Tag { expected: "1" })],
        otherwise: None,
    };
    assert_eq!(p.parse("c1"), IResult::Error);
}

#[test]
fn switch_fails_when_the_chosen_arm_fails() {
    let p = Switch {
        selector: Tag { expected: "a" },
        arms: vec![("a", Tag { expected: "1" })],
        otherwise: None,
    };
    assert_eq!(p.parse("a2"), IResult::Error);
}

#[test]
fn switch_runs_the_explicit_wildcard_arm() {
    let p = Switch {
        selector: Alt { first: Tag { expected: "a" }, second: Tag { expected: "b" } },
        arms: vec![("a", Tag { expected: "1" })],
        otherwise: Some(Tag { expected: "9" }),
    };
    assert_eq!(p.parse("a1x"), IResult::Done("x", "1"));
    assert_eq!(p.parse("b9y"), IResult::Done("y", "9"));
    assert_eq!(p.parse("b1"), IResult::Error);
}

#[test]
fn a_small_grammar_composes() {
    // A comma-separated list of numbers inside parentheses, with optional
    // leading whitespace, e.g. "  (1,22,333)tail".
    let p = Preceded {
        prefix: Cond { active: true, inner: Multispace },
        body: Delimited {
            open_with: Tag { expected: "(" },
            body: SeparatedNonemptyList {
                separator: Tag { expected: "," },
                element: MapRes { inner: Digit, func: DecimalU64 },
            },
            close_with: Tag { expected: ")" },
        },
    };
    assert_eq!(p.parse("  (1,22,333)tail"), IResult::Done("tail", vec![1u64, 22, 333]));
    assert_eq!(p.parse("(4)"), IResult::Done("", vec![4u64]));
    assert_eq!(p.parse("()"), IResult::Error);
}
