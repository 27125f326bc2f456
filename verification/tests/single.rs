use rttr::replace_single_single;

#[test]
fn replace_single_search_character_with_single_replacement_character() {
    let input = "abcdefghijklmnopqrstuvwxyz";
    let search_character = 'k';
    let replace_character = '_';

    let result = replace_single_single(input, search_character, replace_character);

    assert_eq!(
        "abcdefghij_lmnopqrstuvwxyz", result,
        "Replace single character if marked for deletion"
    );
}

#[test]
fn replace_nothing_empty_string() {
    let input = "";
    let search_character = 'k';
    let replace_character = '_';

    let result = replace_single_single(input, search_character, replace_character);

    assert_eq!(input, result, "Do not replace in empty string");
}

#[test]
fn replace_multiple_single() {
    let input = "abc";
    let search_character = "ab";
    let replace_character = 'x';

    let result = rttr::replace_multiple_single(input, search_character, replace_character);

    assert_eq!(
        "xxc", result,
        "Replace multiple different characters with only character in `replace string`"
    );
}

#[test]
fn replace_single_replaces_every_occurrence() {
    assert_eq!("b_n_n_", replace_single_single("banana", 'a', '_'));
}

#[test]
fn replace_single_without_occurrence_changes_nothing() {
    assert_eq!("banana", replace_single_single("banana", 'x', '_'));
}

#[test]
fn replace_single_by_itself_changes_nothing() {
    assert_eq!("banana", replace_single_single("banana", 'a', 'a'));
}

#[test]
fn replace_multiple_single_with_empty_search_changes_nothing() {
    assert_eq!("abc", rttr::replace_multiple_single("abc", "", 'x'));
}

#[test]
fn replace_multiple_single_with_repeated_search_characters() {
    assert_eq!("xxc", rttr::replace_multiple_single("abc", "abab", 'x'));
}

#[test]
fn replace_multiple_single_in_empty_input() {
    assert_eq!("", rttr::replace_multiple_single("", "ab", 'x'));
}

#[test]
fn replace_multiple_single_agrees_with_one_character_replacement() {
    let input = "abcdefghijklmnopqrstuvwxyz";
    assert_eq!(
        rttr::replace_multiple_multiple(input, "akz", "_").unwrap(),
        rttr::replace_multiple_single(input, "akz", '_')
    );
    assert_eq!(
        rttr::replace_multiple_single(input, "k", '_'),
        replace_single_single(input, 'k', '_')
    );
}
