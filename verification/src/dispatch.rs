//! How a sink that blocks is called.
use vstd::prelude::*;

verus! {

/// Where the methods of a blocking sink run.
#[derive(Debug, Clone, Copy, PartialEq, Eq, Structural)]
pub enum Dispatch {
    /// On the worker that delivers. It is for sinks that return at once.
    Inline,
    /// On a thread that may block.
    SpawnBlocking,
}

} // verus!
