use vstd::prelude::*;

verus! {

/// Why an action on the registry was rejected. Each variant carries the name
/// that the caller gave.
#[derive(Debug)]
pub enum Error {
    /// No team of that name is in the registry.
    TeamNotFound(String),
    /// The team is in the registry but has been eliminated.
    TeamNotActive(String),
}

} // verus!
