//! Reading the command line into a configuration.

use vstd::prelude::*;
use crate::error::RttrError;
use crate::quotes::{strip_from_start_and_end, stripped};

verus! {

/// What a run is asked to do.
#[derive(Debug)]
pub struct Config {
    /// The characters to look for, in the order that pairs them with the
    /// replacements.
    pub search_characters: String,
    /// The characters to put in their place; empty in delete mode.
    pub replac_characters: String,
    /// Whether the characters looked for are removed instead of replaced.
    pub is_delete_mode: bool,
}

/// The characters of which one matching pair is removed around an argument.
pub open spec fn quote_marks() -> Seq<char> {
    seq!['"', '\'']
}

/// The delete flag `-d` stands at position `i` of `arg`.
pub open spec fn is_flag_at(arg: Seq<char>, i: int) -> bool {
    &&& 0 <= i
    &&& i + 1 < arg.len()
    &&& arg[i] == '-'
    &&& arg[i + 1] == 'd'
}

/// The delete flag `-d` stands somewhere in `arg`.
pub open spec fn has_delete_flag(arg: Seq<char>) -> bool {
    exists|i: int| is_flag_at(arg, i)
}

/// The search sequence that `args` asks for: the stripped argument after the
/// flag in delete mode, the stripped first argument otherwise.
pub open spec fn search_of(args: Seq<String>) -> Seq<char>
    recommends
        args.len() >= 3,
{
    if has_delete_flag(args[1]@) {
        stripped(args[2]@, quote_marks())
    } else {
        stripped(args[1]@, quote_marks())
    }
}

/// The replacement sequence that `args` asks for: none in delete mode, the
/// stripped second argument otherwise.
pub open spec fn replacement_of(args: Seq<String>) -> Seq<char>
    recommends
        args.len() >= 3,
{
    if has_delete_flag(args[1]@) {
        Seq::<char>::empty()
    } else {
        stripped(args[2]@, quote_marks())
    }
}

/// Whether the delete flag `-d` stands somewhere in `arg`.
pub fn contains_delete_flag(arg: &str) -> (found: bool)
    ensures
        found == has_delete_flag(arg@),
{
    let mut found = false;
    let mut after_dash = false;
    for c in it: arg.chars()
        invariant
            it.seq() == arg@,
            found == has_delete_flag(arg@.take(it.index() as int)),
            after_dash == (it.index() > 0 && arg@[it.index() - 1] == '-'),
    {
        let ghost seen = arg@.take(it.index() as int);
        let ghost longer = arg@.take(it.index() + 1);
        if after_dash && c == 'd' {
            found = true;
            assert(is_flag_at(longer, it.index() - 1));
        } else {
            proof {
                if has_delete_flag(seen) {
                    let i = choose|i: int| is_flag_at(seen, i);
                    assert(is_flag_at(longer, i));
                }
                if has_delete_flag(longer) {
                    let i = choose|i: int| is_flag_at(longer, i);
                    assert(is_flag_at(seen, i));
                }
            }
        }
        after_dash = c == '-';
    }
    assert(arg@.take(arg@.len() as int) =~= arg@);
    found
}

/// Reads the command line. `args[0]` names the program and is not looked at.
///
/// Where `args[1]` holds the delete flag `-d`, the run is in delete mode:
/// `args[2]` gives the characters to remove and there is no replacement.
/// Otherwise `args[1]` gives the search sequence and `args[2]` the
/// replacement sequence. One matching pair of quotes around a sequence is
/// removed. Arguments after `args[2]` are not looked at.
///
/// With fewer than three arguments the command line is refused with
/// `RttrError::Configuration`.
pub fn parse_config(args: &[String]) -> (result: Result<Config, RttrError>)
    ensures
        args@.len() < 3 ==> result == Err::<Config, RttrError>(RttrError::Configuration),
        args@.len() >= 3 ==> (result matches Ok(config) && config.is_delete_mode
            == has_delete_flag(args@[1]@) && config.search_characters@ == search_of(args@)
            && config.replac_characters@ == replacement_of(args@)),
{
    if args.len() < 3 {
        return Err(RttrError::Configuration);
    }
    let quotes: [char; 2] = ['"', '\''];
    assert(quotes@ =~= quote_marks());
    if contains_delete_flag(args[1].as_str()) {
        let search = strip_from_start_and_end(args[2].as_str(), quotes.as_slice());
        Ok(Config { search_characters: search, replac_characters: String::new(), is_delete_mode: true })
    } else {
        let search = strip_from_start_and_end(args[1].as_str(), quotes.as_slice());
        let replace = strip_from_start_and_end(args[2].as_str(), quotes.as_slice());
        Ok(Config { search_characters: search, replac_characters: replace, is_delete_mode: false })
    }
}

} // verus!
