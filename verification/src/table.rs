//! The table from character to character that a search sequence and a
//! replacement sequence of the same length stand for.

use std::collections::HashMap;
use vstd::prelude::*;
use vstd::set_lib::lemma_map_size;
use crate::text::chars_of;

verus! {

/// The table of `search` and `replace`: its keys are the characters that occur
/// in `search`, and each key maps to the character that `replace` holds at the
/// key's last position in `search`. Where a character occurs more than once in
/// `search`, its last occurrence decides.
pub open spec fn mapping_of(search: Seq<char>, replace: Seq<char>) -> Map<char, char>
    recommends
        search.len() == replace.len(),
{
    Map::new(
        |c: char| search.contains(c),
        |c: char| replace[search.index_of_last(c).unwrap()],
    )
}

/// Position `i` holds the last occurrence of its character in `search`.
pub open spec fn is_last_occurrence(search: Seq<char>, i: int) -> bool {
    &&& 0 <= i < search.len()
    &&& forall|j: int| i < j < search.len() ==> search[j] != search[i]
}

/// What is asked of a table for `search` and `replace`: a key for each
/// character of `search` and no other, and under each key the replacement at
/// the key's last position.
pub open spec fn is_table_of(table: Map<char, char>, search: Seq<char>, replace: Seq<char>) -> bool {
    &&& forall|c: char| table.contains_key(c) <==> search.contains(c)
    &&& forall|i: int| #[trigger] is_last_occurrence(search, i) ==> table[search[i]] == replace[i]
}

/// A table from character to character, held under the characters' codes.
#[derive(Debug)]
pub struct MappingTable {
    by_code: HashMap<u32, char>,
}

/// The code under which a character is held.
spec fn code_of(c: char) -> u32 {
    c as u32
}

/// The character that a code stands for.
spec fn char_of(code: u32) -> char {
    code as char
}

/// A character is found again from its code, so two characters with the same
/// code are the same character.
proof fn lemma_code_names_one_char(a: char, b: char)
    ensures
        char_of(code_of(a)) == a,
        code_of(a) == code_of(b) ==> a == b,
{
}

impl View for MappingTable {
    type V = Map<char, char>;

    closed spec fn view(&self) -> Map<char, char> {
        Map::new(
            |c: char| self.by_code@.contains_key(code_of(c)),
            |c: char| self.by_code@[code_of(c)],
        )
    }
}

impl MappingTable {
    /// Every key that is held is the code of a character.
    #[verifier::type_invariant]
    spec fn keys_are_codes(&self) -> bool {
        forall|k: u32| self.by_code@.contains_key(k) ==> code_of(#[trigger] char_of(k)) == k
    }

    /// The table without entries.
    pub fn new() -> (table: Self)
        ensures
            table@ == Map::<char, char>::empty(),
    {
        let table = MappingTable { by_code: HashMap::new() };
        assert(table@ =~= Map::<char, char>::empty());
        table
    }

    /// Puts `value` under `key`, in place of what `key` had before.
    pub fn insert(&mut self, key: char, value: char)
        ensures
            final(self)@ == old(self)@.insert(key, value),
    {
        proof {
            use_type_invariant(&*self);
        }
        // The map is taken out while it changes, so that the table holds a
        // map of character codes at every moment.
        let mut by_code: HashMap<u32, char> = HashMap::new();
        std::mem::swap(&mut self.by_code, &mut by_code);
        by_code.insert(key as u32, value);
        self.by_code = by_code;
        proof {
            let before = old(self)@;
            assert forall|c: char| self@.contains_key(c) <==> before.insert(
                key,
                value,
            ).contains_key(c) by {
                lemma_code_names_one_char(c, key);
            }
            assert forall|c: char| self@.contains_key(c) implies self@[c] == before.insert(
                key,
                value,
            )[c] by {
                lemma_code_names_one_char(c, key);
            }
            assert(self@ =~= before.insert(key, value));
        }
    }

    /// The character under `key`, if `key` is in the table.
    pub fn get(&self, key: &char) -> (value: Option<&char>)
        ensures
            value == (if self@.contains_key(*key) {
                Some(&self@[*key])
            } else {
                None
            }),
    {
        let code: u32 = *key as u32;
        self.by_code.get(&code)
    }

    /// The number of keys.
    pub fn len(&self) -> (n: usize)
        ensures
            self@.dom().finite(),
            n == self@.len(),
    {
        proof {
            use_type_invariant(self);
            let codes = self.by_code@.dom();
            let to_char = |k: u32| char_of(k);
            assert forall|c: char| self@.dom().contains(c) implies codes.map(to_char).contains(
                c,
            ) by {
                lemma_code_names_one_char(c, c);
                assert(codes.contains(code_of(c)) && to_char(code_of(c)) == c);
            }
            assert(codes.map(to_char) =~= self@.dom());
            assert(vstd::relations::injective_on(to_char, codes));
            lemma_map_size(codes, self@.dom(), to_char);
        }
        self.by_code.len()
    }
}

/// Appending a pair to `search` and `replace` puts that pair into their table,
/// in place of what the key had before.
pub proof fn lemma_mapping_of_push(search: Seq<char>, replace: Seq<char>, key: char, value: char)
    requires
        search.len() == replace.len(),
    ensures
        mapping_of(search.push(key), replace.push(value)) == mapping_of(search, replace).insert(
            key,
            value,
        ),
{
    let longer = search.push(key);
    let before = mapping_of(search, replace);
    let after = mapping_of(longer, replace.push(value));
    assert forall|c: char| after.contains_key(c) <==> before.insert(key, value).contains_key(
        c,
    ) by {
        if search.contains(c) {
            let i = choose|i: int| 0 <= i < search.len() && search[i] == c;
            assert(longer[i] == c);
        }
        if c == key {
            assert(longer[search.len() as int] == c);
        }
    }
    assert forall|c: char| after.contains_key(c) implies after[c] == before.insert(key, value)[c] by {
        longer.index_of_last_ensures(c);
        let i = longer.index_of_last(c).unwrap();
        if c == key {
            assert(longer[search.len() as int] == c);
        } else {
            search.index_of_last_ensures(c);
            let j = search.index_of_last(c).unwrap();
            assert(longer[j] == c);
            assert(i < search.len());
            assert(search[i] == c);
        }
    }
    assert(after =~= before.insert(key, value));
}

/// The table of `search` and `replace` is a table for them.
pub proof fn lemma_mapping_of_is_table(search: Seq<char>, replace: Seq<char>)
    ensures
        is_table_of(mapping_of(search, replace), search, replace),
{
    let table = mapping_of(search, replace);
    assert forall|i: int| #[trigger] is_last_occurrence(search, i) implies table[search[i]]
        == replace[i] by {
        search.index_of_last_ensures(search[i]);
    }
}

/// A search sequence and a replacement sequence have one table and no other:
/// two tables for the same pair are the same table.
pub proof fn lemma_table_is_determined(
    search: Seq<char>,
    replace: Seq<char>,
    first: Map<char, char>,
    second: Map<char, char>,
)
    requires
        is_table_of(first, search, replace),
        is_table_of(second, search, replace),
    ensures
        first == second,
{
    assert forall|c: char| first.contains_key(c) implies first[c] == second[c] by {
        search.index_of_last_ensures(c);
        let i = search.index_of_last(c).unwrap();
        assert(is_last_occurrence(search, i));
    }
    assert forall|c: char| first.contains_key(c) <==> second.contains_key(c) by {
        assert(first.contains_key(c) <==> search.contains(c));
    }
    assert(first =~= second);
}

/// The table that a pass from the last position to the first builds when it
/// enters a pair only where the key is not yet held, so that the first entry
/// under a key stays.
pub open spec fn mapping_by_reverse_pass(search: Seq<char>, replace: Seq<char>) -> Map<char, char>
    recommends
        search.len() == replace.len(),
    decreases search.len(),
{
    if search.len() == 0 {
        Map::empty()
    } else {
        let later = mapping_by_reverse_pass(search.drop_first(), replace.drop_first());
        if later.contains_key(search.first()) {
            later
        } else {
            later.insert(search.first(), replace.first())
        }
    }
}

/// Putting a pair in front of `search` and `replace` adds it to their table
/// only where the key does not occur in `search`.
proof fn lemma_mapping_of_prepend(search: Seq<char>, replace: Seq<char>, key: char, value: char)
    requires
        search.len() == replace.len(),
    ensures
        mapping_of(seq![key] + search, seq![value] + replace) == (if search.contains(key) {
            mapping_of(search, replace)
        } else {
            mapping_of(search, replace).insert(key, value)
        }),
{
    let longer = seq![key] + search;
    let before = mapping_of(search, replace);
    let after = mapping_of(longer, seq![value] + replace);
    let expected = if search.contains(key) {
        before
    } else {
        before.insert(key, value)
    };
    assert forall|c: char| after.contains_key(c) <==> expected.contains_key(c) by {
        if search.contains(c) {
            let i = choose|i: int| 0 <= i < search.len() && search[i] == c;
            assert(longer[i + 1] == c);
        }
        if c == key {
            assert(longer[0] == c);
        }
        if longer.contains(c) {
            let i = choose|i: int| 0 <= i < longer.len() && longer[i] == c;
            if i > 0 {
                assert(search[i - 1] == c);
            }
        }
    }
    assert forall|c: char| after.contains_key(c) implies after[c] == expected[c] by {
        longer.index_of_last_ensures(c);
        let i = longer.index_of_last(c).unwrap();
        if search.contains(c) {
            search.index_of_last_ensures(c);
            let j = search.index_of_last(c).unwrap();
            assert(longer[j + 1] == c);
            if i > 0 {
                assert(search[i - 1] == c);
            }
            assert(i == j + 1);
        } else {
            if i > 0 {
                assert(search[i - 1] == c);
            }
            assert(i == 0);
        }
    }
    assert(after =~= expected);
}

/// The pass from the back that keeps the first entry under each key builds the
/// same table as the pass from the front that lets the last entry stand.
pub proof fn lemma_reverse_pass_is_mapping_of(search: Seq<char>, replace: Seq<char>)
    requires
        search.len() == replace.len(),
    ensures
        mapping_by_reverse_pass(search, replace) == mapping_of(search, replace),
    decreases search.len(),
{
    if search.len() == 0 {
        assert(mapping_of(search, replace) =~= Map::<char, char>::empty());
    } else {
        let later_search = search.drop_first();
        let later_replace = replace.drop_first();
        lemma_reverse_pass_is_mapping_of(later_search, later_replace);
        lemma_mapping_of_prepend(later_search, later_replace, search.first(), replace.first());
        assert(search =~= seq![search.first()] + later_search);
        assert(replace =~= seq![replace.first()] + later_replace);
    }
}

/// The table has as many keys as `search` has distinct characters.
pub proof fn lemma_mapping_of_keys(search: Seq<char>, replace: Seq<char>)
    ensures
        mapping_of(search, replace).dom() == search.to_set(),
        mapping_of(search, replace).dom().finite(),
        mapping_of(search, replace).len() == search.to_set().len(),
        mapping_of(search, replace).len() <= search.len(),
{
    assert(mapping_of(search, replace).dom() =~= search.to_set());
    vstd::seq_lib::seq_to_set_is_finite(search);
    search.lemma_cardinality_of_set();
}

/// Builds the table of `search_chars` and `replace_chars`, which must have the
/// same number of characters: each character of `search_chars` becomes a key,
/// with the character at the same position of `replace_chars` under it. A
/// character that occurs several times in `search_chars` keeps what its last
/// occurrence gave it.
pub fn create_character_mapping_table(search_chars: &str, replace_chars: &str) -> (table:
    MappingTable)
    requires
        search_chars@.len() == replace_chars@.len(),
    ensures
        table@ == mapping_of(search_chars@, replace_chars@),
        is_table_of(table@, search_chars@, replace_chars@),
        table@.dom() == search_chars@.to_set(),
        table@.len() == search_chars@.to_set().len(),
{
    let replace = chars_of(replace_chars);
    let mut table = MappingTable::new();
    let available: usize = replace.len();
    let mut i: usize = 0;
    assert(table@ =~= mapping_of(search_chars@.take(0), replace@.take(0)));
    for c in it: search_chars.chars()
        invariant
            it.seq() == search_chars@,
            replace@ == replace_chars@,
            search_chars@.len() == replace@.len(),
            available == replace@.len(),
            i == it.index(),
            table@ == mapping_of(search_chars@.take(i as int), replace@.take(i as int)),
    {
        proof {
            lemma_mapping_of_push(
                search_chars@.take(i as int),
                replace@.take(i as int),
                c,
                replace@[i as int],
            );
            assert(search_chars@.take(i + 1) =~= search_chars@.take(i as int).push(c));
            assert(replace@.take(i + 1) =~= replace@.take(i as int).push(replace@[i as int]));
        }
        table.insert(c, replace[i]);
        i += 1;
    }
    proof {
        assert(search_chars@.take(i as int) =~= search_chars@);
        assert(replace@.take(i as int) =~= replace@);
        lemma_mapping_of_keys(search_chars@, replace_chars@);
        lemma_mapping_of_is_table(search_chars@, replace_chars@);
    }
    table
}

} // verus!
