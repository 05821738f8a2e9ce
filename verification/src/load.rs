//! How busy an agent is.

use vstd::prelude::*;

verus! {

/// How busy an agent is, coarsely.
#[derive(Debug, Clone, Copy, PartialEq, Eq, Structural)]
pub enum LoadBucket {
    /// Nothing to do.
    Free,
    /// At work, with room for more.
    Busy,
    /// At its ceiling.
    Full,
}

/// The bucket for a number of tasks under way and a ceiling.
pub open spec fn bucket_of(queue_depth: u32, max_concurrent: u32) -> LoadBucket {
    if queue_depth >= max_concurrent {
        LoadBucket::Full
    } else if queue_depth == 0 {
        LoadBucket::Free
    } else {
        LoadBucket::Busy
    }
}

impl LoadBucket {
    /// The bucket for a number of tasks under way and a ceiling.
    pub fn from_load(queue_depth: u32, max_concurrent: u32) -> (res: LoadBucket)
        ensures
            res == bucket_of(queue_depth, max_concurrent),
    {
        if queue_depth >= max_concurrent {
            LoadBucket::Full
        } else if queue_depth == 0 {
            LoadBucket::Free
        } else {
            LoadBucket::Busy
        }
    }
}

/// What an agent tells trusted peers about its load.
#[derive(Debug, Clone, Copy, PartialEq, Eq, Structural)]
pub struct LoadStatus {
    pub bucket: LoadBucket,
    pub queue_depth: u32,
    pub max_concurrent: u32,
    pub avg_latency_ms: u64,
}

} // verus!
