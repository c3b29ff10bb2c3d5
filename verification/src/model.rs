//! The mathematical model of the queue.
//!
//! `QueueModel` mirrors every field of the executable queue with its
//! mathematical view, and each public operation of the queue has a spec
//! transition function here.  The executable methods promise that they step
//! the view exactly as the transition says, so laws about sequences of
//! operations can be proved once, over the model.

use vstd::prelude::*;

use crate::item::{
    spec_unverified_of, spec_verify_outcome, ImportError, Input, ParseOutcome, Status,
    Unverified, Verified, Verifying,
};

verus! {

/// Limits below these floors are clamped up at construction.
pub const MIN_QUEUE_LIMIT: usize = 512;

/// Limits below these floors are clamped up at construction.
pub const MIN_MEM_LIMIT: usize = 16384;

/// Number of scheduler ticks averaged over before the worker count is
/// readjusted.
pub const READJUSTMENT_PERIOD: usize = 12;

/// Items with fewer than this many entries waiting keep the pool at one
/// active worker.
pub const SCALE_IDLE_THRESHOLD: usize = 20;

/// An entry of the processing table: an in-flight item's difficulty and
/// parent, keyed by its hash.
#[derive(Clone, Copy, PartialEq, Eq, Structural, Debug)]
pub struct ProcEntry {
    pub hash: u64,
    pub difficulty: u128,
    pub parent: u64,
}

/// An entry of the processing-parents table: how many in-flight items name
/// this hash as their parent.
#[derive(Clone, Copy, PartialEq, Eq, Structural, Debug)]
pub struct ParentCount {
    pub hash: u64,
    pub count: usize,
}

/// The queue state, field for field, as mathematics.
#[verifier::ext_equal]
pub struct QueueModel {
    /// Imported items that no worker has claimed yet, oldest first.
    pub unverified: Seq<Unverified>,
    /// Commit slots for claimed items, in the order the items left the
    /// unverified stage.
    pub verifying: Seq<Verifying>,
    /// Checked items ready to drain, oldest first.
    pub verified: Seq<Verified>,
    /// Hashes condemned permanently.
    pub bad: Seq<u64>,
    /// One entry per in-flight or drained-but-unacknowledged item.
    pub processing: Seq<ProcEntry>,
    /// Per-parent counts of in-flight children; zero-valued entries absent.
    pub parents: Seq<ParentCount>,
    /// Sum of the difficulties in `processing`.
    pub total_difficulty: u128,
    /// Byte counters per stage.
    pub size_unverified: usize,
    pub size_verifying: usize,
    pub size_verified: usize,
    /// Whether the downstream consumer has been signalled this drain epoch.
    pub signalled: bool,
    /// Whether the queue is shutting down; the signal then stays quiet.
    pub deleting: bool,
    /// Number of workers currently awake.
    pub active: usize,
    /// Number of worker slots allocated at construction.
    pub pool: usize,
    /// Ticks since the worker count was last readjusted.
    pub ticks: usize,
    /// Configured limits, clamped at construction.
    pub max_queue_size: usize,
    pub max_mem_use: usize,
    /// Whether periodic readjustment of the worker count is enabled.
    pub scale_verifiers: bool,
}

// ---------------------------------------------------------------------------
// Weighted sums over the tables.

/// Sum of a weight over a sequence.
pub open spec fn sum_by<T>(s: Seq<T>, f: spec_fn(T) -> int) -> int
    decreases s.len(),
{
    if s.len() == 0 {
        0
    } else {
        f(s[0]) + sum_by(s.drop_first(), f)
    }
}

pub open spec fn w_difficulty() -> spec_fn(ProcEntry) -> int {
    |e: ProcEntry| e.difficulty as int
}

pub open spec fn w_child(p: u64) -> spec_fn(ProcEntry) -> int {
    |e: ProcEntry|
        if e.parent == p {
            1
        } else {
            0
        }
}

pub open spec fn w_unverified_size() -> spec_fn(Unverified) -> int {
    |it: Unverified| it.size as int
}

pub open spec fn w_verifying_size() -> spec_fn(Verifying) -> int {
    |v: Verifying|
        match v.output {
            Some(out) => out.size as int,
            None => 0,
        }
}

pub open spec fn w_verified_size() -> spec_fn(Verified) -> int {
    |v: Verified| v.size as int
}

/// Total difficulty owed by a processing table.
pub open spec fn sum_difficulty(s: Seq<ProcEntry>) -> int {
    sum_by(s, w_difficulty())
}

/// How many entries of the processing table name `p` as their parent.
pub open spec fn count_children(s: Seq<ProcEntry>, p: u64) -> int {
    sum_by(s, w_child(p))
}

pub open spec fn sum_unverified_sizes(s: Seq<Unverified>) -> int {
    sum_by(s, w_unverified_size())
}

/// Placeholders without an output occupy no verified bytes yet.
pub open spec fn sum_verifying_sizes(s: Seq<Verifying>) -> int {
    sum_by(s, w_verifying_size())
}

pub open spec fn sum_verified_sizes(s: Seq<Verified>) -> int {
    sum_by(s, w_verified_size())
}

// ---------------------------------------------------------------------------
// Lookups.

pub open spec fn proc_contains(s: Seq<ProcEntry>, h: u64) -> bool {
    exists|i: int| 0 <= i < s.len() && s[i].hash == h
}

pub open spec fn proc_unique(s: Seq<ProcEntry>) -> bool {
    forall|i: int, j: int| 0 <= i < j < s.len() ==> s[i].hash != s[j].hash
}

/// The index of the entry for `h`; meaningful only when `proc_contains`.
pub open spec fn proc_idx(s: Seq<ProcEntry>, h: u64) -> int {
    choose|i: int| 0 <= i < s.len() && s[i].hash == h
}

pub open spec fn parents_has(s: Seq<ParentCount>, p: u64) -> bool {
    exists|i: int| 0 <= i < s.len() && s[i].hash == p
}

pub open spec fn parents_unique(s: Seq<ParentCount>) -> bool {
    forall|i: int, j: int| 0 <= i < j < s.len() ==> s[i].hash != s[j].hash
}

/// The index of the entry for `p`; meaningful only when `parents_has`.
pub open spec fn parents_idx(s: Seq<ParentCount>, p: u64) -> int {
    choose|i: int| 0 <= i < s.len() && s[i].hash == p
}

/// The recorded number of children of `p`, zero when absent.
pub open spec fn parents_lookup(s: Seq<ParentCount>, p: u64) -> int {
    if parents_has(s, p) {
        s[parents_idx(s, p)].count as int
    } else {
        0
    }
}

/// Insert into a sequence treated as a set: keep it when present.
pub open spec fn bad_insert(s: Seq<u64>, h: u64) -> Seq<u64> {
    if s.contains(h) {
        s
    } else {
        s.push(h)
    }
}

// ---------------------------------------------------------------------------
// Well-formedness: what always holds of a queue between operations.

pub open spec fn wf_parents(m: QueueModel) -> bool {
    &&& parents_unique(m.parents)
    &&& forall|k: int|
        0 <= k < m.parents.len() ==> (#[trigger] m.parents[k]).count > 0
    &&& forall|p: u64|
        #[trigger] parents_lookup(m.parents, p) == count_children(m.processing, p)
}

pub open spec fn wf_sizes(m: QueueModel) -> bool {
    &&& m.size_unverified as int == sum_unverified_sizes(m.unverified)
    &&& m.size_verifying as int == sum_verifying_sizes(m.verifying)
    &&& m.size_verified as int == sum_verified_sizes(m.verified)
    &&& m.size_unverified as int + m.size_verifying as int + m.size_verified as int
        <= usize::MAX as int
}

/// A placeholder's output, once present, is the checked form of the
/// placeholder's own item.
pub open spec fn wf_outputs(m: QueueModel) -> bool {
    forall|k: int|
        0 <= k < m.verifying.len() ==> match (#[trigger] m.verifying[k]).output {
            Some(v) => v.hash == m.verifying[k].hash,
            None => true,
        }
}

pub open spec fn wf(m: QueueModel) -> bool {
    &&& proc_unique(m.processing)
    &&& wf_outputs(m)
    &&& m.total_difficulty as int == sum_difficulty(m.processing)
    &&& wf_parents(m)
    &&& wf_sizes(m)
    &&& 1 <= m.active <= m.pool
    &&& m.ticks < READJUSTMENT_PERIOD
    &&& m.max_queue_size >= MIN_QUEUE_LIMIT
    &&& m.max_mem_use >= MIN_MEM_LIMIT
}

// ---------------------------------------------------------------------------
// Small state updates shared by several transitions.

/// Bump the child count of `p`, creating the entry at one when absent.
pub open spec fn parents_bump(s: Seq<ParentCount>, p: u64) -> Seq<ParentCount> {
    if parents_has(s, p) {
        let i = parents_idx(s, p);
        s.update(i, ParentCount { hash: p, count: (s[i].count + 1) as usize })
    } else {
        s.push(ParentCount { hash: p, count: 1 })
    }
}

/// Drop one child of `p`, removing the entry when the count reaches zero.
pub open spec fn parents_drop(s: Seq<ParentCount>, p: u64) -> Seq<ParentCount> {
    if parents_has(s, p) {
        let i = parents_idx(s, p);
        if s[i].count == 1 {
            s.remove(i)
        } else {
            s.update(i, ParentCount { hash: p, count: (s[i].count - 1) as usize })
        }
    } else {
        s
    }
}

/// Forget one hash: remove it from processing, subtract its difficulty and
/// release its parent's child count.  Used by acknowledgement and by
/// condemnation; a hash with no entry changes nothing.
pub open spec fn spec_forget(m: QueueModel, h: u64) -> QueueModel {
    if proc_contains(m.processing, h) {
        let i = proc_idx(m.processing, h);
        let e = m.processing[i];
        QueueModel {
            processing: m.processing.remove(i),
            total_difficulty: (m.total_difficulty - e.difficulty) as u128,
            parents: parents_drop(m.parents, e.parent),
            ..m
        }
    } else {
        m
    }
}

// ---------------------------------------------------------------------------
// The transitions.

pub open spec fn spec_status(m: QueueModel, h: u64) -> Status {
    if proc_contains(m.processing, h) {
        Status::Queued
    } else if m.bad.contains(h) {
        Status::Bad
    } else {
        Status::Unknown
    }
}

/// The state change of a successful import.
pub open spec fn spec_admit(m: QueueModel, x: Input) -> QueueModel {
    QueueModel {
        processing: m.processing.push(
            ProcEntry { hash: x.hash, difficulty: x.difficulty, parent: x.parent_hash },
        ),
        total_difficulty: (m.total_difficulty + x.difficulty) as u128,
        parents: parents_bump(m.parents, x.parent_hash),
        unverified: m.unverified.push(spec_unverified_of(x)),
        size_unverified: (m.size_unverified + x.size) as usize,
        ..m
    }
}

/// Machine limits an import must respect: the difficulty accumulator and the
/// byte counters must not overflow.
pub open spec fn import_fits(m: QueueModel, x: Input) -> bool {
    &&& m.total_difficulty as int + x.difficulty as int <= u128::MAX as int
    &&& m.size_unverified as int + m.size_verifying as int + m.size_verified as int
        + x.size as int <= usize::MAX as int
    &&& m.processing.len() < usize::MAX
    &&& m.unverified.len() < usize::MAX
    &&& m.parents.len() < usize::MAX
}

pub open spec fn spec_import(m: QueueModel, x: Input) -> (QueueModel, Result<u64, ImportError>) {
    if proc_contains(m.processing, x.hash) {
        (m, Err(ImportError::AlreadyQueued))
    } else if m.bad.contains(x.hash) || m.bad.contains(x.raw_hash) {
        (m, Err(ImportError::KnownBad))
    } else if m.bad.contains(x.parent_hash) {
        (QueueModel { bad: bad_insert(m.bad, x.hash), ..m }, Err(ImportError::KnownBad))
    } else {
        match x.parse {
            ParseOutcome::Accepted => (spec_admit(m, x), Ok(x.hash)),
            ParseOutcome::TemporarilyInvalid => (m, Err(ImportError::TemporarilyInvalid)),
            ParseOutcome::MalformedBody => (
                QueueModel { bad: bad_insert(m.bad, x.raw_hash), ..m },
                Err(ImportError::MalformedBody),
            ),
            ParseOutcome::Invalid => (
                QueueModel { bad: bad_insert(m.bad, x.hash), ..m },
                Err(ImportError::Invalid),
            ),
        }
    }
}

/// A worker claims the oldest unverified item: the item leaves the stage and
/// a placeholder records its commit slot.
pub open spec fn spec_start(m: QueueModel) -> (QueueModel, Option<Unverified>) {
    if m.unverified.len() == 0 {
        (m, None)
    } else {
        let it = m.unverified[0];
        (
            QueueModel {
                unverified: m.unverified.drop_first(),
                size_unverified: (m.size_unverified - it.size) as usize,
                verifying: m.verifying.push(Verifying { hash: it.hash, output: None }),
                ..m
            },
            Some(it),
        )
    }
}

/// Move every contiguous completed placeholder at the head of the verifying
/// stage: a completed item whose parent is bad is condemned and dropped, any
/// other joins the verified stage.
pub open spec fn spec_drain_verifying(m: QueueModel) -> QueueModel
    decreases m.verifying.len(),
{
    if m.verifying.len() == 0 {
        m
    } else {
        match m.verifying[0].output {
            None => m,
            Some(out) => {
                let m1 = QueueModel {
                    verifying: m.verifying.drop_first(),
                    size_verifying: (m.size_verifying - out.size) as usize,
                    ..m
                };
                if m.bad.contains(out.parent_hash) {
                    spec_drain_verifying(
                        QueueModel { bad: bad_insert(m1.bad, out.hash), ..m1 },
                    )
                } else {
                    spec_drain_verifying(
                        QueueModel {
                            verified: m1.verified.push(out),
                            size_verified: (m1.size_verified + out.size) as usize,
                            ..m1
                        },
                    )
                }
            },
        }
    }
}

/// The one-shot signal: at most one notification per drain epoch, none while
/// shutting down.  Returns the state and whether to notify now.
pub open spec fn spec_signal_set(m: QueueModel) -> (QueueModel, bool) {
    if m.deleting || m.signalled {
        (m, false)
    } else {
        (QueueModel { signalled: true, ..m }, true)
    }
}

/// The first placeholder carrying `h`, if any.
pub open spec fn verifying_has(s: Seq<Verifying>, h: u64) -> bool {
    exists|i: int| 0 <= i < s.len() && s[i].hash == h
}

pub open spec fn verifying_first_idx(s: Seq<Verifying>, h: u64) -> int
    decreases s.len(),
{
    if s.len() == 0 {
        0
    } else if s[0].hash == h {
        0
    } else {
        1 + verifying_first_idx(s.drop_first(), h)
    }
}

/// Placeholders that do not carry `h`, in order.
pub open spec fn verifying_without(s: Seq<Verifying>, h: u64) -> Seq<Verifying>
    decreases s.len(),
{
    if s.len() == 0 {
        Seq::empty()
    } else if s[0].hash == h {
        verifying_without(s.drop_first(), h)
    } else {
        seq![s[0]] + verifying_without(s.drop_first(), h)
    }
}

/// Machine limit a commit must respect: the claimed item's bytes went
/// uncounted while it was being verified, and now re-enter the counters.
pub open spec fn finish_fits(m: QueueModel, it: Unverified) -> bool {
    m.size_unverified as int + m.size_verifying as int + m.size_verified as int
        + it.size as int <= usize::MAX as int
}

/// A worker commits the outcome of one verification.  On success the item's
/// placeholder gains its output; on failure the hash is condemned and the
/// placeholder withdrawn.  Either way, if the head of the verifying stage is
/// now complete the contiguous prefix moves on and the consumer is
/// signalled.  Returns the state and whether to notify the consumer now.
pub open spec fn spec_finish(m: QueueModel, it: Unverified) -> (QueueModel, bool) {
    match spec_verify_outcome(it) {
        Some(out) => {
            if verifying_has(m.verifying, it.hash) {
                let i = verifying_first_idx(m.verifying, it.hash);
                let m1 = QueueModel {
                    verifying: m.verifying.update(
                        i,
                        Verifying { hash: it.hash, output: Some(out) },
                    ),
                    size_verifying: (m.size_verifying + out.size) as usize,
                    ..m
                };
                if i == 0 {
                    spec_signal_set(spec_drain_verifying(m1))
                } else {
                    (m1, false)
                }
            } else {
                (m, false)
            }
        },
        None => {
            let m1 = QueueModel {
                bad: bad_insert(m.bad, it.hash),
                verifying: verifying_without(m.verifying, it.hash),
                ..m
            };
            if m1.verifying.len() > 0 && m1.verifying[0].output is Some {
                spec_signal_set(spec_drain_verifying(m1))
            } else {
                (m1, false)
            }
        },
    }
}

/// Moving the completed head prefix on touches nothing outside the
/// verifying and verified stages, the bad set and their byte counters.
pub proof fn lemma_drain_verifying_stable(m: QueueModel)
    ensures
        spec_drain_verifying(m).unverified == m.unverified,
        spec_drain_verifying(m).processing == m.processing,
        spec_drain_verifying(m).parents == m.parents,
        spec_drain_verifying(m).total_difficulty == m.total_difficulty,
        spec_drain_verifying(m).size_unverified == m.size_unverified,
        spec_drain_verifying(m).signalled == m.signalled,
        spec_drain_verifying(m).deleting == m.deleting,
        spec_drain_verifying(m).active == m.active,
        spec_drain_verifying(m).pool == m.pool,
        spec_drain_verifying(m).ticks == m.ticks,
        spec_drain_verifying(m).max_queue_size == m.max_queue_size,
        spec_drain_verifying(m).max_mem_use == m.max_mem_use,
        spec_drain_verifying(m).scale_verifiers == m.scale_verifiers,
    decreases m.verifying.len(),
{
    if m.verifying.len() != 0 {
        match m.verifying[0].output {
            None => {},
            Some(out) => {
                let m1 = QueueModel {
                    verifying: m.verifying.drop_first(),
                    size_verifying: (m.size_verifying - out.size) as usize,
                    ..m
                };
                if m.bad.contains(out.parent_hash) {
                    lemma_drain_verifying_stable(
                        QueueModel { bad: bad_insert(m1.bad, out.hash), ..m1 },
                    );
                } else {
                    lemma_drain_verifying_stable(
                        QueueModel {
                            verified: m1.verified.push(out),
                            size_verified: (m1.size_verified + out.size) as usize,
                            ..m1
                        },
                    );
                }
            },
        }
    }
}

/// Committing an outcome never touches the unverified stage.
pub proof fn lemma_finish_stable(m: QueueModel, it: Unverified)
    ensures
        spec_finish(m, it).0.unverified == m.unverified,
        spec_finish(m, it).0.size_unverified == m.size_unverified,
{
    match spec_verify_outcome(it) {
        Some(out) => {
            if verifying_has(m.verifying, it.hash) {
                let i = verifying_first_idx(m.verifying, it.hash);
                let m1 = QueueModel {
                    verifying: m.verifying.update(
                        i,
                        Verifying { hash: it.hash, output: Some(out) },
                    ),
                    size_verifying: (m.size_verifying + out.size) as usize,
                    ..m
                };
                if i == 0 {
                    lemma_drain_verifying_stable(m1);
                }
            }
        },
        None => {
            let m1 = QueueModel {
                bad: bad_insert(m.bad, it.hash),
                verifying: verifying_without(m.verifying, it.hash),
                ..m
            };
            if m1.verifying.len() > 0 && m1.verifying[0].output is Some {
                lemma_drain_verifying_stable(m1);
            }
        },
    }
}

/// Process everything that is waiting: claim and commit each unverified item
/// in order, then move the completed head prefix on.
pub open spec fn spec_flush(m: QueueModel) -> QueueModel
    decreases m.unverified.len(),
    via spec_flush_decreases
{
    if m.unverified.len() == 0 {
        spec_drain_verifying(m)
    } else {
        let (m1, it) = spec_start(m);
        let (m2, _) = spec_finish(m1, it->Some_0);
        spec_flush(m2)
    }
}

#[via_fn]
proof fn spec_flush_decreases(m: QueueModel) {
    if m.unverified.len() != 0 {
        let (m1, it) = spec_start(m);
        lemma_finish_stable(m1, it->Some_0);
    }
}

/// Hand up to `max` verified items to the consumer, oldest first; clear the
/// signal and re-arm it when items remain.
pub open spec fn spec_drain(m: QueueModel, max: usize) -> (QueueModel, Seq<Verified>) {
    let count = if max < m.verified.len() {
        max as int
    } else {
        m.verified.len() as int
    };
    let out = m.verified.take(count);
    let rest = m.verified.skip(count);
    (
        QueueModel {
            verified: rest,
            size_verified: (m.size_verified - sum_verified_sizes(out)) as usize,
            signalled: !m.deleting && rest.len() > 0,
            ..m
        },
        out,
    )
}

/// Acknowledge hashes the chain has accepted.
pub open spec fn spec_mark_good_loop(m: QueueModel, hs: Seq<u64>) -> QueueModel
    decreases hs.len(),
{
    if hs.len() == 0 {
        m
    } else {
        spec_mark_good_loop(spec_forget(m, hs[0]), hs.drop_first())
    }
}

pub open spec fn spec_mark_good(m: QueueModel, hs: Seq<u64>) -> (QueueModel, bool) {
    if hs.len() == 0 {
        (m, m.processing.len() == 0)
    } else {
        let m1 = spec_mark_good_loop(m, hs);
        (m1, m1.processing.len() == 0)
    }
}

/// Condemn one hash outright: into the bad set and out of processing.
pub open spec fn spec_condemn(m: QueueModel, h: u64) -> QueueModel {
    spec_forget(QueueModel { bad: bad_insert(m.bad, h), ..m }, h)
}

pub open spec fn spec_condemn_loop(m: QueueModel, hs: Seq<u64>) -> QueueModel
    decreases hs.len(),
{
    if hs.len() == 0 {
        m
    } else {
        spec_condemn_loop(spec_condemn(m, hs[0]), hs.drop_first())
    }
}

/// One pass over the verified stage, front to back: an item whose parent is
/// by now bad is condemned and dropped; the rest keep their order.  Because
/// the stage is in import order, a descendant never precedes its ancestor,
/// so one pass closes the set transitively.
pub open spec fn spec_purge_verified(m: QueueModel) -> QueueModel
    decreases m.verified.len(),
{
    if m.verified.len() == 0 {
        m
    } else {
        let v = m.verified[0];
        let m1 = QueueModel {
            verified: m.verified.drop_first(),
            size_verified: (m.size_verified - v.size) as usize,
            ..m
        };
        if m.bad.contains(v.parent_hash) {
            spec_purge_verified(spec_condemn(m1, v.hash))
        } else {
            let m2 = spec_purge_verified(m1);
            QueueModel {
                verified: seq![v] + m2.verified,
                size_verified: (m2.size_verified + v.size) as usize,
                ..m2
            }
        }
    }
}

/// How one item of the verified stage grows the bad set: an item whose
/// parent is condemned is condemned itself.
pub open spec fn bad_step(b: Seq<u64>, v: Verified) -> Seq<u64> {
    if b.contains(v.parent_hash) {
        bad_insert(b, v.hash)
    } else {
        b
    }
}

/// The bad set after walking the first `n` items of the verified stage, in
/// stage order, starting from `bad0`.  An item at index `j` descends from
/// the bad set — its parent chain within the stage meets it — exactly when
/// `bad_after(s, bad0, j)` contains its parent: because the stage is in
/// import order, an ancestor can only stand earlier.
pub open spec fn bad_after(s: Seq<Verified>, bad0: Seq<u64>, n: int) -> Seq<u64>
    decreases n,
{
    if n <= 0 {
        bad0
    } else {
        bad_step(bad_after(s, bad0, n - 1), s[n - 1])
    }
}

/// Condemn the given hashes and retroactively every verified item whose
/// ancestry meets them.
pub open spec fn spec_mark_bad(m: QueueModel, hs: Seq<u64>) -> QueueModel {
    if hs.len() == 0 {
        m
    } else {
        spec_purge_verified(spec_condemn_loop(m, hs))
    }
}

/// Empty every stage and both tables; the bad set and the signal survive.
pub open spec fn spec_clear(m: QueueModel) -> QueueModel {
    QueueModel {
        unverified: Seq::empty(),
        verifying: Seq::empty(),
        verified: Seq::empty(),
        processing: Seq::empty(),
        parents: Seq::empty(),
        total_difficulty: 0,
        size_unverified: 0,
        size_verifying: 0,
        size_verified: 0,
        ..m
    }
}

/// The observable part of shutdown: the queue empties and the signal goes
/// permanently quiet.
pub open spec fn spec_close(m: QueueModel) -> QueueModel {
    QueueModel { deleting: true, ..spec_clear(m) }
}

/// Wake or park workers to approach `target`, never leaving `[1, pool]`.
pub open spec fn spec_scale(m: QueueModel, target: int) -> QueueModel {
    let clamped_high = if target > m.pool as int {
        m.pool as int
    } else {
        target
    };
    let clamped = if clamped_high < 1 {
        1
    } else {
        clamped_high
    };
    QueueModel { active: clamped as usize, ..m }
}

/// The worker-count target the periodic readjustment aims for.
pub open spec fn spec_scale_target(m: QueueModel) -> int {
    let u = m.unverified.len() as int;
    let v = m.verified.len() as int;
    let diff = if v >= u {
        v - u
    } else {
        u - v
    };
    if u < SCALE_IDLE_THRESHOLD as int {
        1
    } else if diff <= (v + u) / 10 {
        m.active as int
    } else if v > u {
        m.active - 1
    } else {
        m.active + 1
    }
}

/// The periodic housekeeping step: backing storage is shrunk (invisible to
/// the model), and every `READJUSTMENT_PERIOD` calls the worker count is
/// readjusted to the load.
pub open spec fn spec_collect_garbage(m: QueueModel) -> QueueModel {
    if !m.scale_verifiers {
        m
    } else if m.ticks + 1 >= READJUSTMENT_PERIOD {
        spec_scale(QueueModel { ticks: 0, ..m }, spec_scale_target(m))
    } else {
        QueueModel { ticks: (m.ticks + 1) as usize, ..m }
    }
}

// ---------------------------------------------------------------------------
// The import-order view: P1's subject.

pub open spec fn unv_hashes(s: Seq<Unverified>) -> Seq<u64> {
    s.map_values(|it: Unverified| it.hash)
}

pub open spec fn vfy_hashes(s: Seq<Verifying>) -> Seq<u64> {
    s.map_values(|v: Verifying| v.hash)
}

pub open spec fn vfd_hashes(s: Seq<Verified>) -> Seq<u64> {
    s.map_values(|v: Verified| v.hash)
}

/// Every accepted hash still inside the three stages, in import order: the
/// verified stage holds the oldest items, the unverified stage the newest.
pub open spec fn stage_order(m: QueueModel) -> Seq<u64> {
    vfd_hashes(m.verified) + vfy_hashes(m.verifying) + unv_hashes(m.unverified)
}

/// `a` is `b` with zero or more elements left out, order kept.
pub open spec fn subseq_of(a: Seq<u64>, b: Seq<u64>) -> bool
    decreases b.len(), a.len(),
{
    if a.len() == 0 {
        true
    } else if b.len() == 0 {
        false
    } else {
        (a[0] == b[0] && subseq_of(a.drop_first(), b.drop_first())) || subseq_of(
            a,
            b.drop_first(),
        )
    }
}

} // verus!
