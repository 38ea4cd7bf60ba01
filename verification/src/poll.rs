//! The three-way outcome of one cooperative step of a stream operation.

use vstd::prelude::*;

verus! {

/// Opaque failure reported by a byte source. The combinator never manufactures
/// one of its own; it only passes them through, unmodified.
#[derive(Clone, Copy, PartialEq, Eq, Structural, Debug)]
pub struct IoError {
    /// Implementation-defined cause, carried through verbatim.
    pub code: u64,
}

/// Outcome of one cooperative step: the operation finished with a value,
/// finished with a failure, or is not yet ready and must be driven again
/// later with the same arguments.
#[derive(Debug)]
pub enum Poll<A> {
    Ready(A),
    Failed(IoError),
    Pending,
}

} // verus!
