//! Spelling correction of queries.

use vstd::prelude::*;
use vstd::string::*;

verus! {

/// Whether queries are corrected, as one value that is handed to whoever
/// needs it.
#[derive(Clone, Copy, Debug, PartialEq, Eq, Structural)]
pub struct Correction {
    /// Whether correction has been switched on.
    pub enabled: bool,
}

impl Correction {
    /// Correction switched off.
    pub fn new() -> (correction: Correction)
        ensures
            !correction.enabled,
    {
        Correction { enabled: false }
    }

    /// Whether correction has been switched on.
    pub fn enabled(&self) -> (enabled: bool)
        ensures
            enabled == self.enabled,
    {
        self.enabled
    }

    /// Switches correction on.
    pub fn enable(&mut self)
        ensures
            final(self).enabled,
    {
        self.enabled = true;
    }
}

/// The corrected form of a query: the first suggestion, or the query
/// itself where there is no suggestion.
pub fn correct_sentence(query: &str, suggestions: Vec<String>) -> (corrected: String)
    ensures
        corrected@ == if suggestions@.len() == 0 {
            query@
        } else {
            suggestions@[0]@
        },
{
    if suggestions.len() == 0 {
        String::from_str(query)
    } else {
        suggestions[0].clone()
    }
}

} // verus!
