//! The items that travel through the queue, and the verdicts attached to
//! them.
//!
//! The queue itself is agnostic about what an item is: parsing and the
//! CPU-heavy verification step belong to a pluggable kind adapter (consensus
//! engine, block decoder) that sits outside this crate.  Because the adapter
//! judges an item deterministically, its two verdicts are modelled as data
//! carried by the item: `parse` says how parsing goes, `valid` says whether
//! the heavy verification succeeds.  The queue's logic — ordering, the bad
//! set, difficulty accounting, backpressure — is all here and all verified.

use vstd::prelude::*;

verus! {

/// How the kind adapter judges a raw input when asked to parse it.
#[derive(Clone, Copy, PartialEq, Eq, Structural, Debug)]
pub enum ParseOutcome {
    /// The input parses into an unverified item.
    Accepted,
    /// Rejected, but not condemned (for example a future-dated item).
    TemporarilyInvalid,
    /// The body is malformed though the header may be fine: only the raw
    /// (pre-canonicalisation) hash is condemned.
    MalformedBody,
    /// Any other parse failure: the canonical hash is condemned.
    Invalid,
}

/// Raw input handed to `import`: identity fields plus the adapter verdicts.
#[derive(Clone, Copy, PartialEq, Eq, Structural, Debug)]
pub struct Input {
    /// Canonical content address.
    pub hash: u64,
    /// Hash of the bytes before canonicalisation; used only to flag
    /// malformed-body cases.
    pub raw_hash: u64,
    /// Content address of the parent item.
    pub parent_hash: u64,
    /// Difficulty contributed while the item is in flight.
    pub difficulty: u128,
    /// Heap footprint charged against the memory limit.
    pub size: usize,
    /// The adapter's parse verdict.
    pub parse: ParseOutcome,
    /// The adapter's verdict for the heavy verification step.
    pub valid: bool,
}

/// A parsed but unchecked item.
#[derive(Clone, Copy, PartialEq, Eq, Structural, Debug)]
pub struct Unverified {
    pub hash: u64,
    pub parent_hash: u64,
    pub difficulty: u128,
    pub size: usize,
    /// The adapter's verdict for the heavy verification step.
    pub valid: bool,
}

/// A fully checked item, ready to leave for the chain.
#[derive(Clone, Copy, PartialEq, Eq, Structural, Debug)]
pub struct Verified {
    pub hash: u64,
    pub parent_hash: u64,
    pub difficulty: u128,
    pub size: usize,
}

/// An item which is in the process of being verified.
///
/// The placeholder records the commit slot, not the work: it is pushed when
/// the item leaves the unverified stage, so head-of-line order is fixed at
/// work-start even though verification may complete out of order.
#[derive(Clone, Copy, Debug)]
pub struct Verifying {
    pub hash: u64,
    pub output: Option<Verified>,
}

/// Status of an item with respect to the queue.
#[derive(Clone, Copy, PartialEq, Eq, Structural, Debug)]
pub enum Status {
    /// Currently queued.
    Queued,
    /// Known to be bad.
    Bad,
    /// Unknown.
    Unknown,
}

/// Why `import` rejected an input.
#[derive(Clone, Copy, PartialEq, Eq, Structural, Debug)]
pub enum ImportError {
    /// The hash is already in the processing set.
    AlreadyQueued,
    /// The hash, raw hash or parent hash is in the bad set.
    KnownBad,
    /// Parsing rejected the item without condemning it.
    TemporarilyInvalid,
    /// The body is malformed; the raw hash has been condemned.
    MalformedBody,
    /// Any other parse failure; the hash has been condemned.
    Invalid,
}

/// The unverified item an accepted input parses into.
pub open spec fn spec_unverified_of(x: Input) -> Unverified {
    Unverified {
        hash: x.hash,
        parent_hash: x.parent_hash,
        difficulty: x.difficulty,
        size: x.size,
        valid: x.valid,
    }
}

/// The verified item a successful verification yields.
pub open spec fn spec_verified_of(it: Unverified) -> Verified {
    Verified {
        hash: it.hash,
        parent_hash: it.parent_hash,
        difficulty: it.difficulty,
        size: it.size,
    }
}

/// What the heavy verification step yields for an item: its checked form if
/// the adapter accepts it, nothing otherwise.
pub open spec fn spec_verify_outcome(it: Unverified) -> Option<Verified> {
    if it.valid {
        Some(spec_verified_of(it))
    } else {
        None
    }
}

} // verus!
