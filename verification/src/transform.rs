//! Applying a table, or a set of unwanted characters, to a text.

use vstd::prelude::*;
use crate::config::Config;
use crate::error::RttrError;
use crate::normalize::{normalize_char_arrays, normalized_replacement};
use crate::table::{create_character_mapping_table, mapping_of, MappingTable};
use crate::text::{chars_of, contains_char};

verus! {

/// `input` with every character that is a key of `table` replaced by what the
/// table holds under it, and every other character left as it is.
pub open spec fn translated(input: Seq<char>, table: Map<char, char>) -> Seq<char> {
    input.map_values(
        |c: char|
            if table.contains_key(c) {
                table[c]
            } else {
                c
            },
    )
}

/// The test that a character passes when it is not one of `unwanted`.
pub open spec fn is_kept(unwanted: Seq<char>) -> spec_fn(char) -> bool {
    |c: char| !unwanted.contains(c)
}

/// The characters of `input` that are not among `unwanted`, in their order.
pub open spec fn deleted(input: Seq<char>, unwanted: Seq<char>) -> Seq<char> {
    input.filter(is_kept(unwanted))
}

/// `input` with every occurrence of `search` replaced by `replace`.
pub open spec fn replaced_one(input: Seq<char>, search: char, replace: char) -> Seq<char> {
    input.map_values(
        |c: char|
            if c == search {
                replace
            } else {
                c
            },
    )
}

/// `input` with every character that occurs in `search` replaced by `replace`.
pub open spec fn replaced_any(input: Seq<char>, search: Seq<char>, replace: char) -> Seq<char> {
    input.map_values(
        |c: char|
            if search.contains(c) {
                replace
            } else {
                c
            },
    )
}

/// `input` translated by the table of `search` and of `replace` fitted to the
/// length of `search`.
pub open spec fn translation_of(input: Seq<char>, search: Seq<char>, replace: Seq<char>) -> Seq<
    char,
>
    recommends
        replace.len() > 0,
{
    translated(input, mapping_of(search, normalized_replacement(search, replace)))
}

/// Translation keeps the length of the text.
pub proof fn lemma_translated_len(input: Seq<char>, table: Map<char, char>)
    ensures
        translated(input, table).len() == input.len(),
{
}

/// Translation works position by position: a key gives way to what the table
/// holds under it, and any other character stays.
pub proof fn lemma_translated_at(input: Seq<char>, table: Map<char, char>)
    ensures
        forall|i: int|
            0 <= i < input.len() && !table.contains_key(input[i]) ==> translated(input, table)[i]
                == input[i],
        forall|i: int|
            0 <= i < input.len() && table.contains_key(input[i]) ==> translated(input, table)[i]
                == table[input[i]],
{
}

/// Translation by a table without keys changes nothing.
pub proof fn lemma_translated_by_empty(input: Seq<char>)
    ensures
        translated(input, Map::<char, char>::empty()) == input,
{
    assert(translated(input, Map::<char, char>::empty()) =~= input);
}

/// Deletion never lengthens the text, and keeps its length exactly when no
/// character of the text is among the unwanted ones.
pub proof fn lemma_deleted_len(input: Seq<char>, unwanted: Seq<char>)
    ensures
        deleted(input, unwanted).len() <= input.len(),
        deleted(input, unwanted).len() == input.len() <==> (forall|i: int|
            0 <= i < input.len() ==> !unwanted.contains(#[trigger] input[i])),
    decreases input.len(),
{
    if input.len() == 0 {
        assert(deleted(input, unwanted).len() == 0) by {
            reveal(Seq::filter);
        }
    } else {
        let front = input.drop_last();
        lemma_deleted_len(front, unwanted);
        assert(input =~= front.push(input.last()));
        front.lemma_filter_push(input.last(), is_kept(unwanted));
        if deleted(input, unwanted).len() == input.len() {
            assert(!unwanted.contains(input.last()));
            assert forall|i: int| 0 <= i < input.len() implies !unwanted.contains(
                #[trigger] input[i],
            ) by {
                if i < front.len() {
                    assert(front[i] == input[i]);
                }
            }
        }
        if forall|i: int| 0 <= i < input.len() ==> !unwanted.contains(#[trigger] input[i]) {
            assert(!unwanted.contains(input[input.len() - 1]));
            assert forall|i: int| 0 <= i < front.len() implies !unwanted.contains(
                #[trigger] front[i],
            ) by {
                assert(front[i] == input[i]);
            }
        }
    }
}

/// A text in which no unwanted character occurs is left as it is.
pub proof fn lemma_deleted_nothing(input: Seq<char>, unwanted: Seq<char>)
    requires
        forall|i: int| 0 <= i < input.len() ==> !unwanted.contains(#[trigger] input[i]),
    ensures
        deleted(input, unwanted) == input,
    decreases input.len(),
{
    if input.len() == 0 {
        assert(deleted(input, unwanted) =~= input) by {
            reveal(Seq::filter);
        }
    } else {
        let front = input.drop_last();
        assert forall|i: int| 0 <= i < front.len() implies !unwanted.contains(
            #[trigger] front[i],
        ) by {
            assert(front[i] == input[i]);
        }
        lemma_deleted_nothing(front, unwanted);
        assert(input =~= front.push(input.last()));
        assert(!unwanted.contains(input[input.len() - 1]));
        front.lemma_filter_push(input.last(), is_kept(unwanted));
    }
}

/// What deletion leaves are the characters of the text that are not among the
/// unwanted ones: each of them, and no other.
pub proof fn lemma_deleted_holds_what_is_kept(input: Seq<char>, unwanted: Seq<char>)
    ensures
        forall|c: char| #[trigger]
            deleted(input, unwanted).contains(c) <==> input.contains(c) && !unwanted.contains(c),
    decreases input.len(),
{
    if input.len() == 0 {
        assert(deleted(input, unwanted) =~= input) by {
            reveal(Seq::filter);
        }
    } else {
        let front = input.drop_last();
        let last = input.last();
        lemma_deleted_holds_what_is_kept(front, unwanted);
        assert(input =~= front.push(last));
        front.lemma_filter_push(last, is_kept(unwanted));
        let kept = deleted(front, unwanted);
        assert forall|c: char| #[trigger]
            deleted(input, unwanted).contains(c) <==> input.contains(c) && !unwanted.contains(
                c,
            ) by {
            if deleted(input, unwanted).contains(c) {
                let i = choose|i: int|
                    0 <= i < deleted(input, unwanted).len() && deleted(input, unwanted)[i] == c;
                if i < kept.len() {
                    assert(kept[i] == c);
                    assert(kept.contains(c));
                    let j = choose|j: int| 0 <= j < front.len() && front[j] == c;
                    assert(input[j] == c);
                } else {
                    assert(c == last);
                    assert(input[input.len() - 1] == c);
                }
            }
            if input.contains(c) && !unwanted.contains(c) {
                let j = choose|j: int| 0 <= j < input.len() && input[j] == c;
                if j < front.len() {
                    assert(front[j] == c);
                    assert(kept.contains(c));
                    let i = choose|i: int| 0 <= i < kept.len() && kept[i] == c;
                    assert(deleted(input, unwanted)[i] == c);
                } else {
                    assert(deleted(input, unwanted)[kept.len() as int] == c);
                }
            }
        }
    }
}

/// Deleting the same characters a second time finds nothing left to delete.
pub proof fn lemma_deleted_twice(input: Seq<char>, unwanted: Seq<char>)
    ensures
        deleted(deleted(input, unwanted), unwanted) == deleted(input, unwanted),
{
    let once = deleted(input, unwanted);
    lemma_deleted_holds_what_is_kept(input, unwanted);
    assert forall|i: int| 0 <= i < once.len() implies !unwanted.contains(#[trigger] once[i]) by {
        assert(once.contains(once[i]));
    }
    lemma_deleted_nothing(once, unwanted);
}

/// Applies `table` to `input`, character by character: a character that is a
/// key of the table gives way to what the table holds under it, any other
/// character passes unchanged. Nothing is added and nothing is removed.
pub fn translate(input: &str, table: &MappingTable) -> (output: String)
    ensures
        output@ == translated(input@, table@),
        output@.len() == input@.len(),
{
    let mut output = String::new();
    for c in it: input.chars()
        invariant
            it.seq() == input@,
            output@ == translated(input@.take(it.index() as int), table@),
    {
        let next = match table.get(&c) {
            Some(replacement) => *replacement,
            None => c,
        };
        output.push(next);
        assert(output@ =~= translated(input@.take(it.index() + 1), table@));
    }
    assert(input@.take(input@.len() as int) =~= input@);
    output
}

/// Removes from `input` every character that occurs in `chars_for_deletion`.
/// Characters are compared exactly, so upper and lower case differ.
pub fn delete(input: &str, chars_for_deletion: &str) -> (output: String)
    ensures
        output@ == deleted(input@, chars_for_deletion@),
        output@.len() <= input@.len(),
        output@.len() == input@.len() <==> (forall|i: int|
            0 <= i < input@.len() ==> !chars_for_deletion@.contains(#[trigger] input@[i])),
{
    let unwanted = chars_of(chars_for_deletion);
    let mut output = String::new();
    assert(output@ =~= deleted(input@.take(0), unwanted@)) by {
        reveal(Seq::filter);
    }
    for c in it: input.chars()
        invariant
            it.seq() == input@,
            unwanted@ == chars_for_deletion@,
            output@ == deleted(input@.take(it.index() as int), unwanted@),
    {
        proof {
            let seen = input@.take(it.index() as int);
            seen.lemma_filter_push(c, is_kept(unwanted@));
            assert(input@.take(it.index() + 1) =~= seen.push(c));
        }
        if !contains_char(unwanted.as_slice(), c) {
            output.push(c);
        }
    }
    proof {
        assert(input@.take(input@.len() as int) =~= input@);
        lemma_deleted_len(input@, chars_for_deletion@);
    }
    output
}

/// Replaces every occurrence of `search_character` in `input` by
/// `replace_character`.
pub fn replace_single_single(input: &str, search_character: char, replace_character: char) -> (output:
    String)
    ensures
        output@ == replaced_one(input@, search_character, replace_character),
        output@.len() == input@.len(),
{
    let mut output = String::new();
    for c in it: input.chars()
        invariant
            it.seq() == input@,
            output@ == replaced_one(
                input@.take(it.index() as int),
                search_character,
                replace_character,
            ),
    {
        let next = if c == search_character {
            replace_character
        } else {
            c
        };
        output.push(next);
        assert(output@ =~= replaced_one(
            input@.take(it.index() + 1),
            search_character,
            replace_character,
        ));
    }
    assert(input@.take(input@.len() as int) =~= input@);
    output
}

/// Replaces every character of `input` that occurs in `search_characters` by
/// `replace_character`.
pub fn replace_multiple_single(input: &str, search_characters: &str, replace_character: char) -> (output:
    String)
    ensures
        output@ == replaced_any(input@, search_characters@, replace_character),
        output@.len() == input@.len(),
{
    let search = chars_of(search_characters);
    let mut output = String::new();
    for c in it: input.chars()
        invariant
            it.seq() == input@,
            search@ == search_characters@,
            output@ == replaced_any(input@.take(it.index() as int), search@, replace_character),
    {
        let next = if contains_char(search.as_slice(), c) {
            replace_character
        } else {
            c
        };
        output.push(next);
        assert(output@ =~= replaced_any(
            input@.take(it.index() + 1),
            search@,
            replace_character,
        ));
    }
    assert(input@.take(input@.len() as int) =~= input@);
    output
}

/// Replacing every character of `search` by the one character `replace` is
/// the translation with `replace` as the whole replacement sequence.
pub proof fn lemma_replaced_any_is_translation(input: Seq<char>, search: Seq<char>, replace: char)
    ensures
        replaced_any(input, search, replace) == translation_of(input, search, seq![replace]),
{
    let fitted = normalized_replacement(search, seq![replace]);
    let table = mapping_of(search, fitted);
    assert forall|i: int| 0 <= i < input.len() implies replaced_any(input, search, replace)[i]
        == translation_of(input, search, seq![replace])[i] by {
        let c = input[i];
        if search.contains(c) {
            search.index_of_last_ensures(c);
            assert(table[c] == replace);
        }
    }
    assert(replaced_any(input, search, replace) =~= translation_of(
        input,
        search,
        seq![replace],
    ));
}

/// Replacing one character is replacing every character of a search sequence
/// that holds that character alone.
pub proof fn lemma_replaced_one_is_replaced_any(input: Seq<char>, search: char, replace: char)
    ensures
        replaced_one(input, search, replace) == replaced_any(input, seq![search], replace),
{
    assert forall|i: int| 0 <= i < input.len() implies replaced_one(input, search, replace)[i]
        == replaced_any(input, seq![search], replace)[i] by {
        let c = input[i];
        if c == search {
            assert(seq![search][0] == c);
        }
    }
    assert(replaced_one(input, search, replace) =~= replaced_any(input, seq![search], replace));
}

/// Translates `input` by the table that `search_chars` and `replace_chars`
/// stand for, once `replace_chars` has been fitted to the length of
/// `search_chars`. An empty `replace_chars` is refused with
/// `RttrError::InvalidInput`; an empty `search_chars` gives a table without
/// keys, and `input` comes back unchanged.
pub fn replace_multiple_multiple(input: &str, search_chars: &str, replace_chars: &str) -> (result:
    Result<String, RttrError>)
    ensures
        replace_chars@.len() == 0 ==> result == Err::<String, RttrError>(RttrError::InvalidInput),
        replace_chars@.len() > 0 ==> (result matches Ok(output) && output@ == translation_of(
            input@,
            search_chars@,
            replace_chars@,
        ) && output@.len() == input@.len()),
        replace_chars@.len() > 0 && search_chars@.len() == 0 ==> (result matches Ok(output)
            && output@ == input@),
{
    match normalize_char_arrays(search_chars, replace_chars) {
        Err(refusal) => Err(refusal),
        Ok((search, replace)) => {
            let table = create_character_mapping_table(search.as_str(), replace.as_str());
            let output = translate(input, &table);
            proof {
                if search_chars@.len() == 0 {
                    assert(table@ =~= Map::<char, char>::empty());
                    lemma_translated_by_empty(input@);
                }
            }
            Ok(output)
        },
    }
}

/// Carries out what `config` asks for on `input`: in delete mode the search
/// characters are removed and the replacement is not looked at; otherwise the
/// search characters are translated into the replacement characters.
pub fn run(config: &Config, input: &str) -> (result: Result<String, RttrError>)
    ensures
        config.is_delete_mode ==> (result matches Ok(output) && output@ == deleted(
            input@,
            config.search_characters@,
        )),
        !config.is_delete_mode && config.replac_characters@.len() == 0 ==> result == Err::<
            String,
            RttrError,
        >(RttrError::InvalidInput),
        !config.is_delete_mode && config.replac_characters@.len() > 0 ==> (result matches Ok(
            output,
        ) && output@ == translation_of(
            input@,
            config.search_characters@,
            config.replac_characters@,
        )),
{
    if config.is_delete_mode {
        Ok(delete(input, config.search_characters.as_str()))
    } else {
        replace_multiple_multiple(
            input,
            config.search_characters.as_str(),
            config.replac_characters.as_str(),
        )
    }
}

} // verus!
