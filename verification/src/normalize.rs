//! Bringing a replacement sequence to the length of its search sequence.

use vstd::prelude::*;
use crate::error::RttrError;
use crate::text::chars_of;

verus! {

/// The replacement sequence fitted to `search`: as long as `search`, holding
/// the characters of `replace` position by position, and the last character of
/// `replace` at every position that `replace` does not reach.
pub open spec fn normalized_replacement(search: Seq<char>, replace: Seq<char>) -> Seq<char>
    recommends
        replace.len() > 0,
{
    Seq::new(
        search.len(),
        |i: int|
            if i < replace.len() {
                replace[i]
            } else {
                replace.last()
            },
    )
}

/// Fits `replace_characters` to the length of `search_characters`, counted in
/// characters: a longer replacement loses its tail, a shorter one is filled up
/// with its own last character. The search sequence is handed back unchanged.
///
/// An empty replacement has no last character and is refused with
/// `RttrError::InvalidInput`, whatever the search sequence holds.
pub fn normalize_char_arrays(search_characters: &str, replace_characters: &str) -> (result: Result<
    (String, String),
    RttrError,
>)
    ensures
        replace_characters@.len() == 0 ==> result == Err::<(String, String), RttrError>(
            RttrError::InvalidInput,
        ),
        replace_characters@.len() > 0 ==> (result matches Ok(pair) && pair.0@
            == search_characters@ && pair.1@ == normalized_replacement(
            search_characters@,
            replace_characters@,
        ) && pair.1@.len() == search_characters@.len()),
{
    let replace = chars_of(replace_characters);
    if replace.len() == 0 {
        return Err(RttrError::InvalidInput);
    }
    let last = replace[replace.len() - 1];
    let wanted: usize = search_characters.unicode_len();
    let mut fitted = String::new();
    for i in 0..wanted
        invariant
            replace@ == replace_characters@,
            replace@.len() > 0,
            last == replace@.last(),
            wanted == search_characters@.len(),
            fitted@ == normalized_replacement(search_characters@.take(i as int), replace@),
    {
        let next = if i < replace.len() {
            replace[i]
        } else {
            last
        };
        fitted.push(next);
        assert(fitted@ =~= normalized_replacement(
            search_characters@.take(i + 1),
            replace@,
        ));
    }
    assert(search_characters@.take(wanted as int) =~= search_characters@);
    Ok((search_characters.to_owned(), fitted))
}

/// The fitted replacement is as long as the search sequence.
pub proof fn lemma_normalized_len(search: Seq<char>, replace: Seq<char>)
    requires
        replace.len() > 0,
    ensures
        normalized_replacement(search, replace).len() == search.len(),
{
}

/// A replacement at least as long as the search sequence is cut to its first
/// `search.len()` characters.
pub proof fn lemma_normalized_truncates(search: Seq<char>, replace: Seq<char>)
    requires
        replace.len() >= search.len(),
    ensures
        normalized_replacement(search, replace) == replace.take(search.len() as int),
{
    assert(normalized_replacement(search, replace) =~= replace.take(search.len() as int));
}

/// A replacement shorter than the search sequence is kept whole and followed
/// by copies of its last character.
pub proof fn lemma_normalized_pads(search: Seq<char>, replace: Seq<char>)
    requires
        0 < replace.len() <= search.len(),
    ensures
        normalized_replacement(search, replace) == replace + Seq::new(
            (search.len() - replace.len()) as nat,
            |i: int| replace.last(),
        ),
{
    assert(normalized_replacement(search, replace) =~= replace + Seq::new(
        (search.len() - replace.len()) as nat,
        |i: int| replace.last(),
    ));
}

} // verus!
