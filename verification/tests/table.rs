use rttr::{create_character_mapping_table, normalize_char_arrays, translate, MappingTable};

#[test]
fn generate_character_mapping_table_for_shorter_search_string() {
    let search_character = "a";
    let replace_character = "xyz";

    let (search_character, replace_character) =
        normalize_char_arrays(&search_character, &replace_character).unwrap();
    let table = create_character_mapping_table(&search_character, &replace_character);

    assert_eq!(
        table.get(&'a'),
        Some(&'x'),
        "Map first character in `search string` to first character of `replace string`"
    );
    assert_eq!(
        1,
        table.len(),
        "Table length should be length of unique entries in `search string`"
    );
}

#[test]
fn generate_character_mapping_table_for_shorter_replacement_string() {
    let search_character = "abcd";
    let replace_character = "xy";

    let (search_character, replace_character) =
        normalize_char_arrays(&search_character, &replace_character).unwrap();
    let table = create_character_mapping_table(&search_character, &replace_character);

    assert_eq!(
        table.get(&'a'),
        Some(&'x'),
        "Map first character in `search string` to first character of `replace string`"
    );
    assert_eq!(
        table.get(&'b'),
        Some(&'y'),
        "Map second character in `search string` to second character of `replace string`"
    );
    assert_eq!(
        table.get(&'c'),
        Some(&'y'),
        "Map third character in `search string` to second character of `replace string` if length of `replace string` is two"
    );
    assert_eq!(
        table.get(&'d'),
        Some(&'y'),
        "Map fourth character in `search string` to second character of `replace string` if length of `replace string` is two"
    );
    assert_eq!(
        4,
        table.len(),
        "Table length should be length of unique entries in `search string`"
    );
}

#[test]
fn generate_character_mapping_table_for_duplicate_characters_in_search_string() {
    let search_character = "abac";
    let replace_character = "xyz";

    let (search_character, replace_character) =
        normalize_char_arrays(&search_character, &replace_character).unwrap();
    let table = create_character_mapping_table(&search_character, &replace_character);

    assert_eq!(
        table.get(&'a'),
        Some(&'z'),
        "Map first character in `search string` not to first character of `replace string` if it appears more often in `search string`"
    );
    assert_eq!(
        table.get(&'b'),
        Some(&'y'),
        "Map second character in `search string` to second character of `replace string` if both appear only once"
    );
    assert_eq!(
        table.get(&'c'),
        Some(&'z'),
        "Map fourth character in `search string` to third character of `replace string` if length of `replace string` is three"
    );
    assert_eq!(
        3,
        table.len(),
        "Table length should be length of unique entries in `search string`"
    );
}

#[test]
fn table_of_empty_sequences_is_empty() {
    let table = create_character_mapping_table("", "");

    assert_eq!(0, table.len());
    assert_eq!(None, table.get(&'a'));
}

#[test]
fn table_has_no_key_outside_search() {
    let table = create_character_mapping_table("abc", "xyz");

    assert_eq!(None, table.get(&'x'));
    assert_eq!(None, table.get(&'d'));
    assert_eq!(None, table.get(&'A'));
}

#[test]
fn last_occurrence_of_a_key_decides() {
    let table = create_character_mapping_table("aaa", "xyz");

    assert_eq!(Some(&'z'), table.get(&'a'));
    assert_eq!(1, table.len());
}

#[test]
fn same_pair_gives_same_table() {
    let first = create_character_mapping_table("abac", "xyzz");
    let second = create_character_mapping_table("abac", "xyzz");

    assert_eq!(first.len(), second.len());
    for key in ['a', 'b', 'c', 'd', 'x', 'y', 'z'] {
        assert_eq!(first.get(&key), second.get(&key));
    }
}

#[test]
fn table_holds_characters_of_several_bytes() {
    let table = create_character_mapping_table("äö", "ae");

    assert_eq!(Some(&'a'), table.get(&'ä'));
    assert_eq!(Some(&'e'), table.get(&'ö'));
    assert_eq!(None, table.get(&'ü'));
    assert_eq!(2, table.len());
}

#[test]
fn new_table_is_empty_and_insert_overwrites() {
    let mut table = MappingTable::new();
    assert_eq!(0, table.len());
    assert_eq!(None, table.get(&'a'));

    table.insert('a', 'x');
    assert_eq!(Some(&'x'), table.get(&'a'));
    assert_eq!(1, table.len());

    table.insert('a', 'y');
    assert_eq!(Some(&'y'), table.get(&'a'));
    assert_eq!(1, table.len());

    table.insert('b', 'y');
    assert_eq!(Some(&'y'), table.get(&'b'));
    assert_eq!(2, table.len());
}

#[test]
fn translate_replaces_keys_and_passes_the_rest() {
    let table = create_character_mapping_table("abac", "xyzz");

    assert_eq!("zyz-d", translate("abc-d", &table));
}

#[test]
fn translate_keeps_the_length() {
    let table = create_character_mapping_table("lo", "01");
    let input = "hello world";

    let output = translate(input, &table);

    assert_eq!("he001 w1r0d", output);
    assert_eq!(input.chars().count(), output.chars().count());
}

#[test]
fn translate_with_empty_table_changes_nothing() {
    let table = MappingTable::new();

    assert_eq!("hello", translate("hello", &table));
}

#[test]
fn translate_maps_once_and_does_not_chain() {
    let table = create_character_mapping_table("ab", "bc");

    assert_eq!("bcc", translate("abc", &table));
}
