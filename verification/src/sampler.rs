//! Rate limiting over a bucketed timeline.

use vstd::prelude::*;

verus! {

/// Splits time into buckets of `duration_ms` milliseconds and reports at
/// most one sample per bucket.
#[derive(Debug, Clone)]
pub struct DurationSampler {
    duration_ms: u64,
    last_sample_slot: u64,
}

impl DurationSampler {
    pub closed spec fn duration(self) -> u64 {
        self.duration_ms
    }

    pub closed spec fn last_slot(self) -> u64 {
        self.last_sample_slot
    }

    /// The bucket width is never zero; `new` establishes this and every
    /// method keeps it.
    pub closed spec fn wf(self) -> bool {
        self.duration_ms > 0
    }

    pub fn new(duration_ms: u64, first_sampled_t: u64) -> (s: Self)
        requires
            duration_ms > 0,
        ensures
            s.wf(),
            s.duration() == duration_ms,
            s.last_slot() == first_sampled_t / duration_ms,
    {
        let first_slot = first_sampled_t / duration_ms;
        Self { duration_ms, last_sample_slot: first_slot }
    }

    /// True exactly when `t` falls into a later bucket than every time seen
    /// before; the bucket is then marked as seen.
    pub fn sampled(&mut self, t: u64) -> (r: bool)
        requires
            old(self).wf(),
        ensures
            final(self).wf(),
            r == (t / old(self).duration() > old(self).last_slot()),
            final(self).duration() == old(self).duration(),
            final(self).last_slot() == if r {
                t / old(self).duration()
            } else {
                old(self).last_slot()
            },
    {
        let t_slot = t / self.duration_ms;
        if t_slot > self.last_sample_slot {
            self.last_sample_slot = t_slot;
            true
        } else {
            false
        }
    }
}

} // verus!
