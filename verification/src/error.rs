//! The ways in which a request can be refused.

use vstd::prelude::*;

verus! {

/// Why a request was refused before any text was processed.
#[derive(Debug, Clone, Copy, PartialEq, Eq, Structural)]
pub enum RttrError {
    /// A required positional argument is missing from the command line.
    Configuration,
    /// The replacement sequence is empty although characters are to be
    /// translated, so there is no last character to pad with.
    InvalidInput,
}

} // verus!
