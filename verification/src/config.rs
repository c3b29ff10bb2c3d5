//! Configuration of a queue, and the snapshot `queue_info` reports.

use vstd::prelude::*;

verus! {

/// Verifier settings.
#[derive(Clone, Copy, PartialEq, Eq, Structural, Debug)]
pub struct VerifierSettings {
    /// Whether to scale the number of active workers with the load.
    pub scale_verifiers: bool,
    /// Beginning number of active workers; clamped to the machine's CPUs and
    /// to at least one.
    pub num_verifiers: usize,
}

impl Default for VerifierSettings {
    /// Scaling off, one worker per logical CPU.
    fn default() -> (r: Self)
        ensures
            !r.scale_verifiers,
            r.num_verifiers >= 1,
    {
        VerifierSettings { scale_verifiers: false, num_verifiers: crate::logical_cpus() }
    }
}

/// Verification queue configuration.
#[derive(Clone, Copy, PartialEq, Eq, Structural, Debug)]
pub struct Config {
    /// Maximum number of items to keep in the unverified stage.  When the
    /// limit is reached, `is_full` returns true.
    pub max_queue_size: usize,
    /// Maximum heap memory to use.  When the limit is reached, `is_full`
    /// returns true.
    pub max_mem_use: usize,
    /// Settings for the number of workers and the adaptation strategy.
    pub verifier_settings: VerifierSettings,
}

impl Default for Config {
    fn default() -> (r: Self)
        ensures
            r.max_queue_size == 30000,
            r.max_mem_use == 50 * 1024 * 1024,
            !r.verifier_settings.scale_verifiers,
            r.verifier_settings.num_verifiers >= 1,
    {
        Config {
            max_queue_size: 30000,
            max_mem_use: 50 * 1024 * 1024,
            verifier_settings: VerifierSettings::default(),
        }
    }
}

/// A snapshot of the queue's occupancy.
#[derive(Clone, Copy, PartialEq, Eq, Structural, Debug)]
pub struct QueueInfo {
    /// Items in the unverified stage.
    pub unverified_queue_size: usize,
    /// Items in the verifying stage.
    pub verifying_queue_size: usize,
    /// Items in the verified stage.
    pub verified_queue_size: usize,
    /// The configured item limit, clamped at construction.
    pub max_queue_size: usize,
    /// The configured byte limit, clamped at construction.
    pub max_mem_use: usize,
    /// Bytes held across the three stages.
    pub mem_used: usize,
}

impl QueueInfo {
    /// The queue asks its producers to back off: the unverified stage has
    /// reached the item limit, or the stages together the byte limit.
    pub fn is_full(&self) -> (r: bool)
        ensures
            r == (self.unverified_queue_size >= self.max_queue_size || self.mem_used
                >= self.max_mem_use),
    {
        self.unverified_queue_size >= self.max_queue_size || self.mem_used >= self.max_mem_use
    }

    /// Nothing is anywhere in the pipeline.
    pub fn is_empty(&self) -> (r: bool)
        ensures
            r == (self.unverified_queue_size == 0 && self.verifying_queue_size == 0
                && self.verified_queue_size == 0),
    {
        self.unverified_queue_size == 0 && self.verifying_queue_size == 0
            && self.verified_queue_size == 0
    }
}

} // verus!
