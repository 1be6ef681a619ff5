//! The partitioning policy: the threshold below which the map runs inline,
//! and the maximum number of elements handed to one worker.

use vstd::prelude::*;

verus! {

/// Default input-length cutoff: inputs of at most this many elements are
/// mapped inline, with no workers dispatched.
pub const DEFAULT_THRESHOLD: usize = 15;

/// Default maximum number of elements per chunk on the parallel path.
pub const DEFAULT_CHUNK_SIZE: usize = 8;

/// The two policy knobs of the map: `threshold` decides when to fan out,
/// `chunk_size` bounds how many elements one worker receives.
#[derive(Clone, Copy, Debug, PartialEq, Eq, Structural)]
pub struct Policy {
    /// Inputs of length at most `threshold` are mapped inline.
    pub threshold: usize,
    /// Maximum elements per dispatched chunk; at least 1.
    pub chunk_size: usize,
}

impl Policy {
    /// A policy is well formed when a chunk can hold at least one element.
    pub open spec fn wf(self) -> bool {
        self.chunk_size >= 1
    }

    /// Builds a policy from explicit knobs.
    pub fn new(threshold: usize, chunk_size: usize) -> (p: Policy)
        requires
            chunk_size >= 1,
        ensures
            p.threshold == threshold,
            p.chunk_size == chunk_size,
            p.wf(),
    {
        Policy { threshold, chunk_size }
    }
}

impl Default for Policy {
    /// The reference policy: threshold 15, chunks of 8.
    fn default() -> (p: Policy)
        ensures
            p.threshold == DEFAULT_THRESHOLD,
            p.chunk_size == DEFAULT_CHUNK_SIZE,
            p.wf(),
    {
        Policy { threshold: DEFAULT_THRESHOLD, chunk_size: DEFAULT_CHUNK_SIZE }
    }
}

/// True exactly when an input of length `n` takes the parallel path under `p`.
pub open spec fn spec_takes_parallel_path(n: nat, p: Policy) -> bool {
    n > p.threshold
}

/// The run-time threshold decision: fan out exactly when the input is
/// strictly longer than the policy threshold.
pub fn takes_parallel_path(n: usize, p: &Policy) -> (b: bool)
    ensures
        b == spec_takes_parallel_path(n as nat, *p),
{
    n > p.threshold
}

/// An input of exactly the threshold length stays sequential; one element
/// more takes the parallel path.
pub proof fn lemma_threshold_boundary(p: Policy)
    ensures
        !spec_takes_parallel_path(p.threshold as nat, p),
        spec_takes_parallel_path(p.threshold as nat + 1, p),
{
}

/// The empty input never takes the parallel path, whatever the policy:
/// no worker is ever dispatched for it.
pub proof fn lemma_empty_input_is_sequential(p: Policy)
    ensures
        !spec_takes_parallel_path(0, p),
{
}

} // verus!
