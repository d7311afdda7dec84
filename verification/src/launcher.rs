//! How launches start, stop, and are inspected.
use vstd::prelude::*;

pub mod docker;

verus! {

/// A rendered command, for the client to inspect before committing.
#[derive(Debug, Clone, PartialEq, Eq)]
pub struct Preview {
    /// The command, quoted for display.
    pub command: String,
    /// Recipe settings this agent version does not understand.
    pub unapplied: Vec<String>,
}

/// A launch that started.
#[derive(Debug, Clone, PartialEq, Eq)]
pub struct Started {
    /// The container's name.
    pub container: String,
    /// Where the model is served, when it serves.
    pub endpoint: Option<String>,
}

/// A launch that is running.
#[derive(Debug, Clone, PartialEq, Eq)]
pub struct RunningLaunch {
    pub container: String,
    /// The recipe, where the container's name tells it.
    pub recipe: Option<String>,
    pub status: String,
}

} // verus!
