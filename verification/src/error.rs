//! What can go wrong inside the planner.

use vstd::prelude::*;

verus! {

/// A request that the planner turns down before any work is done.
#[derive(Debug, Clone, Copy, PartialEq, Eq, Structural)]
pub enum RushError {
    /// A piece count or a piece size of zero was asked for.
    InvalidArgument,
    /// A bit depth or a file extension that no codec here handles.
    UnsupportedFormat,
}

} // verus!
