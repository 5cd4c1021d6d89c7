use vstd::prelude::*;

verus! {

/// What can go wrong in the library's own logic.
#[derive(Debug, Clone, Copy, PartialEq, Eq, Structural)]
pub enum Error {
    /// The caller supplied bounds that describe no range.
    InvalidRange,
    /// A listing link carried no target.
    MissingId,
    /// A listing link's target does not hold a numeric identifier.
    BadId,
    /// A listing's year text is not a signed integer between parentheses.
    BadYear,
}

} // verus!
