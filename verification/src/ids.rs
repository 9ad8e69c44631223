//! Identities that the parts of the engine share.
use vstd::prelude::*;

verus! {

/// A pipeline: one document on one script thread.
#[derive(Clone, Copy, Debug, PartialEq, Eq, PartialOrd, Ord, Hash, Structural)]
pub struct PipelineId(pub u64);

/// A web view of the embedder.
#[derive(Clone, Copy, Debug, PartialEq, Eq, PartialOrd, Ord, Hash, Structural)]
pub struct WebViewId(pub u64);

/// A script event loop.
#[derive(Clone, Copy, Debug, PartialEq, Eq, PartialOrd, Ord, Hash, Structural)]
pub struct ScriptEventLoopId(pub u64);

/// A generation of rendered content.
#[derive(Clone, Copy, Debug, PartialEq, Eq, PartialOrd, Ord, Hash, Structural)]
pub struct Epoch(pub u32);

/// A DOM node, by its address.
#[derive(Clone, Copy, Debug, PartialEq, Eq, PartialOrd, Ord, Hash, Structural)]
pub struct NodeId(pub usize);

impl Default for Epoch {
    fn default() -> (epoch: Self)
        ensures
            epoch == Epoch(0),
    {
        Epoch(0)
    }
}

} // verus!
