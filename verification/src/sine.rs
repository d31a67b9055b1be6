//! Combinators: generator nodes that wrap exactly one child generator and
//! transform the chunk it produces.

use vstd::prelude::*;

verus! {

/// Sine-shaping combinator.
///
/// Wraps a child generator that emits a phase-domain chunk (each element a
/// normalized phase in [-1, 1], one full cycle spanning 2 units) and turns
/// it into an amplitude-domain sine-shaped chunk by the elementwise map
/// `x -> -cos(pi * x)`: scale by pi, take the cosine, negate. The scale and
/// the cosine are floating-point arithmetic, so they run on the float view
/// of the chunk where the graph is driven; the final negation is the exact
/// sign flip `Chunk::invert`. The combinator owns nothing but its child,
/// forwards `elapsed`, `interval` and `vars` unchanged, and never reorders
/// or resizes the child's chunk.
pub struct Sine<I>(pub I);

} // verus!
