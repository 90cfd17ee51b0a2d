//! Virtual and wall-clock time sources.
//!
//! Timestamps throughout the crate are nanoseconds since a fixed epoch,
//! carried as plain `u64` values.

use vstd::prelude::*;

use std::sync::atomic::AtomicU64;
use std::sync::atomic::Ordering;
use std::sync::Arc;

verus! {

pub const NANOS_PER_MILLI: u64 = 1000000;

/// Highest millisecond timestamp that fits the nanosecond clock.
pub const MAX_TIME_MS: u64 = u64::MAX / NANOS_PER_MILLI;

/// A source of "now", in nanoseconds since the epoch.
pub trait TimeProvider {
    fn time(&self) -> u64;
}

/// Reads the machine's wall clock.
#[derive(Debug, Default)]
pub struct SystemTimeProvider {}

/// Relies on std::time::SystemTime::now for the wall-clock reading; the
/// result depends on the environment, so nothing is promised of it.
#[verifier::external_body]
fn wall_clock_nanos() -> u64 {
    match std::time::SystemTime::now().duration_since(std::time::UNIX_EPOCH) {
        Ok(d) => d.as_nanos() as u64,
        Err(_) => 0,
    }
}

impl TimeProvider for SystemTimeProvider {
    fn time(&self) -> u64 {
        wall_clock_nanos()
    }
}

/// The virtual clock. Clones share one cell, so every module holding a
/// handle observes the value most recently stored by the scheduler.
/// The scheduler itself proves monotonicity over its own plain counter;
/// this shared cell only mirrors that counter out to observers, and no
/// contract is stated about the value read back.
#[derive(Debug, Clone, Default)]
pub struct SimulationTime {
    nanos_since_epoch: Arc<AtomicU64>,
}

impl TimeProvider for SimulationTime {
    fn time(&self) -> u64 {
        self.nanos_since_epoch.load(Ordering::Acquire)
    }
}

impl SimulationTime {
    /// A fresh clock at the epoch.
    pub fn new() -> SimulationTime {
        SimulationTime { nanos_since_epoch: Arc::new(AtomicU64::new(0)) }
    }

    pub fn set_time(&self, t: u64) {
        self.nanos_since_epoch.store(t, Ordering::Release);
    }
}

} // verus!
