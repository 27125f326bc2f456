//! Removal of one pair of surrounding quote characters.

use vstd::prelude::*;
use crate::text::contains_char;

verus! {

/// A sequence is wrapped when it has at least two characters, begins and ends
/// with the same character, and that character is one of `marks`.
pub open spec fn is_wrapped(s: Seq<char>, marks: Seq<char>) -> bool {
    &&& s.len() >= 2
    &&& s.first() == s.last()
    &&& marks.contains(s.first())
}

/// A wrapped sequence without its first and last character; any other
/// sequence as it is.
pub open spec fn stripped(s: Seq<char>, marks: Seq<char>) -> Seq<char> {
    if is_wrapped(s, marks) {
        s.subrange(1, s.len() - 1)
    } else {
        s
    }
}

/// Whether `input` begins and ends with the same character out of `chars`.
pub fn starts_and_ends_with_one_of(input: &str, chars: &[char]) -> (wrapped: bool)
    ensures
        wrapped == is_wrapped(input@, chars@),
{
    let n: usize = input.unicode_len();
    if n < 2 {
        return false;
    }
    let first = input.get_char(0);
    let last = input.get_char(n - 1);
    if first != last {
        return false;
    }
    contains_char(chars, first)
}

/// Removes the first and the last character of `input` where both are the same
/// character out of `chars`, and returns `input` unchanged otherwise. One pair
/// is removed at most: what lies inside it is not looked at again.
pub fn strip_from_start_and_end(input: &str, chars: &[char]) -> (result: String)
    ensures
        result@ == stripped(input@, chars@),
        !is_wrapped(input@, chars@) ==> result@ == input@,
        is_wrapped(input@, chars@) ==> result@.len() == input@.len() - 2,
{
    if starts_and_ends_with_one_of(input, chars) {
        let n: usize = input.unicode_len();
        input.substring_char(1, n - 1).to_owned()
    } else {
        input.to_owned()
    }
}

/// Stripping a sequence that is not wrapped changes nothing.
pub proof fn lemma_strip_unwrapped_is_identity(s: Seq<char>, marks: Seq<char>)
    requires
        !is_wrapped(s, marks),
    ensures
        stripped(s, marks) == s,
{
}

/// Once stripping has left a sequence that is not wrapped, stripping again
/// changes nothing.
pub proof fn lemma_strip_twice(s: Seq<char>, marks: Seq<char>)
    requires
        !is_wrapped(stripped(s, marks), marks),
    ensures
        stripped(stripped(s, marks), marks) == stripped(s, marks),
{
}

} // verus!
