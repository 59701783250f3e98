//! The two failure kinds of a search call.

use vstd::prelude::*;

verus! {

/// Why a search failed. Both kinds are terminal for the call: no
/// partial result accompanies them.
#[derive(Debug)]
pub enum ArxivError {
    /// The network request could not be completed, or the endpoint
    /// answered with a non-success status.
    Transport(String),
    /// The response body is not a well-formed feed: malformed XML, a
    /// missing required field, or an unparseable timestamp.
    Parse(String),
}

impl ArxivError {
    /// A short description of the underlying cause.
    pub fn message(&self) -> (r: &String)
        ensures
            self matches ArxivError::Transport(m) ==> r == m,
            self matches ArxivError::Parse(m) ==> r == m,
    {
        match self {
            ArxivError::Transport(m) => m,
            ArxivError::Parse(m) => m,
        }
    }
}

} // verus!
