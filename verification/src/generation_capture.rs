//! Preparing the capture of one exact generation of a document: what may still change it, what has
//! been quiet for long enough, and what a capture is bound to.
pub mod blockers;
pub mod fence;
pub mod protocol;
pub mod snapshot;
pub mod source_laws;
pub mod sources;
pub mod surface;
