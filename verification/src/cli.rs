//! What the outside argument handling hands the core: one owned text
//! buffer, and either a lookup request (optional dotted path, optional
//! one-based index) or a search request (the literal to look for).

use vstd::prelude::*;

verus! {

/// One run's worth of work.
pub enum Command {
    /// Parse the text, then resolve the optional dotted path and the
    /// optional one-based index.
    Parse(String, Option<String>, Option<usize>),
    /// Parse the text, then search it for the literal.
    Search(String, String),
}

} // verus!
