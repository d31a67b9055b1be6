//! The generator protocol: the one capability every node of a synthesis
//! graph implements.

use crate::chunk::Chunk;
use vstd::prelude::*;

verus! {

/// A node of a synthesis graph.
///
/// `synthesize` must be a pure function of its arguments and the node's own
/// immutable configuration: the same `elapsed` counter always reproduces the
/// same chunk, so generation is repeatable and seekable. Implementations
/// state their exact output in their own stronger `ensures`.
pub trait Wave {
    /// Produces the chunk for the tick starting at `elapsed`.
    ///
    /// `interval` is the number of elapsed-time units one chunk spans, and
    /// `vars` are read-only control patterns visible to every node of the
    /// graph for this call; both are forwarded unchanged through wrapping
    /// nodes.
    fn synthesize(&self, elapsed: u64, interval: u64, vars: &Vec<u32>) -> (c: Chunk)
        ensures
            c.wf(),
    ;
}

} // verus!
