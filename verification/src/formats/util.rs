//! Locating pieces of an input within the whole of it.
use vstd::prelude::*;

verus! {

/// Holds the whole input of a parser, so that errors can say where in it they occurred.
#[derive(Debug, Clone, Copy)]
pub struct InputLocator<'a> {
    pub full_input: &'a str,
}

impl<'a> InputLocator<'a> {
    /// A locator for `full_input`.
    pub fn new(full_input: &'a str) -> (r: Self)
        ensures
            r.full_input@ == full_input@,
    {
        Self { full_input }
    }
}

} // verus!
