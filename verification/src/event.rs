//! Diagnostic events of the sampling subsystem.
use vstd::prelude::*;

verus! {

/// Something a sampler met that a caller may want to know of.
#[derive(Debug, Clone, Copy, PartialEq, Eq, Structural)]
pub enum SamplerEvent {
    /// The channel schema was built anew: the number of channels before and
    /// after.
    SchemaChanged { previous: usize, current: usize },
    /// The difference between two snapshots was missing.
    NullDelta,
}

} // verus!
