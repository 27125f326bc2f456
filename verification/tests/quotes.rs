use rttr::{starts_and_ends_with_one_of, strip_from_start_and_end};

const QUOTES: [char; 2] = ['"', '\''];

#[test]
fn strips_a_pair_of_single_quotes() {
    assert_eq!("abc", strip_from_start_and_end("'abc'", &QUOTES));
}

#[test]
fn strips_a_pair_of_double_quotes() {
    assert_eq!("def", strip_from_start_and_end("\"def\"", &QUOTES));
}

#[test]
fn leaves_a_single_leading_quote() {
    assert_eq!("'abc", strip_from_start_and_end("'abc", &QUOTES));
}

#[test]
fn leaves_a_single_trailing_quote() {
    assert_eq!("def\"", strip_from_start_and_end("def\"", &QUOTES));
}

#[test]
fn leaves_quotes_that_do_not_match() {
    assert_eq!("'abc\"", strip_from_start_and_end("'abc\"", &QUOTES));
    assert_eq!("\"abc'", strip_from_start_and_end("\"abc'", &QUOTES));
}

#[test]
fn leaves_an_unquoted_string() {
    assert_eq!("abc", strip_from_start_and_end("abc", &QUOTES));
    assert_eq!("", strip_from_start_and_end("", &QUOTES));
}

#[test]
fn stripping_what_was_stripped_changes_nothing_more() {
    let once = strip_from_start_and_end("'abc'", &QUOTES);
    let twice = strip_from_start_and_end(&once, &QUOTES);
    assert_eq!("abc", once);
    assert_eq!(once, twice);
}

#[test]
fn a_lone_quote_is_no_pair() {
    assert_eq!("'", strip_from_start_and_end("'", &QUOTES));
    assert!(!starts_and_ends_with_one_of("'", &QUOTES));
}

#[test]
fn two_quotes_leave_nothing() {
    assert_eq!("", strip_from_start_and_end("''", &QUOTES));
    assert_eq!("", strip_from_start_and_end("\"\"", &QUOTES));
}

#[test]
fn same_ends_that_are_no_quotes_stay() {
    assert_eq!("aba", strip_from_start_and_end("aba", &QUOTES));
    assert!(!starts_and_ends_with_one_of("aba", &QUOTES));
}

#[test]
fn strips_with_other_marks() {
    assert_eq!("b", strip_from_start_and_end("aba", &['a']));
    assert_eq!("'b'", strip_from_start_and_end("'b'", &['a']));
    assert_eq!("'b'", strip_from_start_and_end("'b'", &[]));
}

#[test]
fn strips_around_characters_of_several_bytes() {
    assert_eq!("äöü", strip_from_start_and_end("'äöü'", &QUOTES));
    assert_eq!("é", strip_from_start_and_end("é", &QUOTES));
    assert_eq!("b", strip_from_start_and_end("ébé", &['é']));
}

#[test]
fn recognises_wrapped_strings() {
    assert!(starts_and_ends_with_one_of("'abc'", &QUOTES));
    assert!(starts_and_ends_with_one_of("\"\"", &QUOTES));
    assert!(!starts_and_ends_with_one_of("'abc", &QUOTES));
    assert!(!starts_and_ends_with_one_of("abc'", &QUOTES));
    assert!(!starts_and_ends_with_one_of("'abc\"", &QUOTES));
    assert!(!starts_and_ends_with_one_of("", &QUOTES));
}
