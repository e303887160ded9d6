//! Samples that were thrown away before anyone saw them.
use vstd::prelude::*;

verus! {

/// Why a sample was thrown away.
#[derive(Debug, Clone, Copy, PartialEq, Eq, Structural)]
pub enum DiscardReason {
    /// The fragments do not fit together.
    InvalidFragchain,
    /// There are fewer bytes than announced.
    CdrAssemblyFailed,
}

/// How many samples were thrown away, by reason.
#[derive(Debug, Clone, Copy, PartialEq, Eq, Structural)]
pub struct DiscardedSamples {
    pub invalid_fragchain: u64,
    pub cdr_assembly_failed: u64,
}

impl Default for DiscardedSamples {
    fn default() -> (r: Self)
        ensures
            r.invalid_fragchain == 0,
            r.cdr_assembly_failed == 0,
    {
        DiscardedSamples { invalid_fragchain: 0, cdr_assembly_failed: 0 }
    }
}

/// The number after `n`; a counter starts again behind its greatest value.
pub open spec fn next_count(n: u64) -> u64 {
    if n == u64::MAX {
        0
    } else {
        (n + 1) as u64
    }
}

impl DiscardedSamples {
    /// The counts after one more sample was thrown away.
    pub open spec fn counted(self, reason: DiscardReason) -> Self {
        match reason {
            DiscardReason::InvalidFragchain => DiscardedSamples {
                invalid_fragchain: next_count(self.invalid_fragchain),
                ..self
            },
            DiscardReason::CdrAssemblyFailed => DiscardedSamples {
                cdr_assembly_failed: next_count(self.cdr_assembly_failed),
                ..self
            },
        }
    }

    /// How many samples were thrown away, for any reason.
    pub fn total(&self) -> (r: u64)
        requires
            self.invalid_fragchain + self.cdr_assembly_failed <= u64::MAX,
        ensures
            r == self.invalid_fragchain + self.cdr_assembly_failed,
    {
        self.invalid_fragchain + self.cdr_assembly_failed
    }
}

/// Counts a sample that was thrown away.
pub fn count_discarded_sample(counters: &mut DiscardedSamples, reason: DiscardReason)
    ensures
        *final(counters) == old(counters).counted(reason),
{
    match reason {
        DiscardReason::InvalidFragchain => {
            counters.invalid_fragchain = counters.invalid_fragchain.wrapping_add(1);
        },
        DiscardReason::CdrAssemblyFailed => {
            counters.cdr_assembly_failed = counters.cdr_assembly_failed.wrapping_add(1);
        },
    }
}

/// The counts at this moment.
pub fn discarded_samples(counters: &DiscardedSamples) -> (r: DiscardedSamples)
    ensures
        r == *counters,
{
    *counters
}

/// One more sample that was thrown away adds one to the count of its reason, and
/// the other count stays. A full count starts again.
pub proof fn law_each_discarded_sample_counts_once(counters: DiscardedSamples)
    ensures
        ({
            let invalid = counters.counted(DiscardReason::InvalidFragchain);
            let failed = counters.counted(DiscardReason::CdrAssemblyFailed);
            &&& invalid.cdr_assembly_failed == counters.cdr_assembly_failed
            &&& failed.invalid_fragchain == counters.invalid_fragchain
            &&& counters.invalid_fragchain < u64::MAX ==> invalid.invalid_fragchain
                == counters.invalid_fragchain + 1
            &&& counters.invalid_fragchain == u64::MAX ==> invalid.invalid_fragchain == 0
            &&& counters.cdr_assembly_failed < u64::MAX ==> failed.cdr_assembly_failed
                == counters.cdr_assembly_failed + 1
            &&& counters.cdr_assembly_failed == u64::MAX ==> failed.cdr_assembly_failed == 0
        }),
{
}

} // verus!
