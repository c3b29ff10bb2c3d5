//! The verification queue: a pipeline that accepts items in arbitrary order
//! and releases their checked forms in exactly the order of acceptance,
//! minus the items that proved invalid.
//!
//! Every method's effect on the queue is pinned to a transition function of
//! the model in `crate::model`, and `wf` — the conjunction of the queue's
//! invariants: the difficulty accumulator equals the sum over the processing
//! table, the parent counts equal the numbers of in-flight children, the
//! byte counters equal the stages' contents — is preserved throughout.

use std::collections::VecDeque;

use vstd::pervasive::VecAdditionalExecFns;
use vstd::prelude::*;

use crate::config::{Config, QueueInfo};
use crate::item::{ImportError, Input, ParseOutcome, Status, Unverified, Verified, Verifying};
use crate::lemmas::{
    lemma_admit_wf, lemma_clear_wf, lemma_count_children_bounds, lemma_flush_step,
    lemma_forget_wf, lemma_parents_idx, lemma_proc_idx, lemma_purge_wf, lemma_sum_by_at_least,
    lemma_sum_by_nonneg, lemma_sum_by_push, lemma_sum_by_split, lemma_sum_by_update,
    lemma_verifying_first_idx, lemma_verifying_without,
};
use crate::model::{
    bad_insert, count_children, finish_fits, import_fits, parents_has, parents_idx,
    parents_lookup, proc_contains, proc_idx, spec_admit, spec_clear, spec_close,
    spec_collect_garbage, spec_condemn, spec_condemn_loop, spec_drain, spec_drain_verifying,
    spec_finish, spec_flush, spec_forget, spec_import, spec_mark_bad, spec_mark_good,
    spec_mark_good_loop, spec_purge_verified, spec_scale, spec_scale_target, spec_signal_set,
    spec_start, spec_status, sum_by, sum_difficulty, sum_unverified_sizes, sum_verified_sizes,
    sum_verifying_sizes, verifying_first_idx, verifying_has, verifying_without,
    w_difficulty, w_unverified_size, w_verified_size, w_verifying_size, wf, ParentCount,
    ProcEntry, QueueModel, MIN_MEM_LIMIT, MIN_QUEUE_LIMIT, READJUSTMENT_PERIOD,
    SCALE_IDLE_THRESHOLD,
};
use crate::item::spec_verify_outcome;

verus! {

// ---------------------------------------------------------------------------
// Small verified table operations.

/// Linear membership test on a vector of hashes.
fn hashes_contain(v: &Vec<u64>, h: u64) -> (r: bool)
    ensures
        r == v@.contains(h),
{
    let n = v.len();
    let mut i: usize = 0;
    while i < n
        invariant
            i <= n,
            n == v@.len(),
            forall|k: int| 0 <= k < i ==> v@[k] != h,
        decreases n - i,
    {
        if v[i] == h {
            assert(v@[i as int] == h);
            return true;
        }
        i = i + 1;
    }
    false
}

/// Insert a hash unless it is already there.
fn hashes_insert(v: &mut Vec<u64>, h: u64)
    ensures
        final(v)@ == bad_insert(old(v)@, h),
{
    if !hashes_contain(v, h) {
        v.push(h);
    }
}

/// Find the entry of `h` in the processing table.
fn proc_find(s: &Vec<ProcEntry>, h: u64) -> (r: Option<usize>)
    ensures
        match r {
            Some(i) => i < s@.len() && s@[i as int].hash == h,
            None => !proc_contains(s@, h),
        },
{
    let n = s.len();
    let mut i: usize = 0;
    while i < n
        invariant
            i <= n,
            n == s@.len(),
            forall|k: int| 0 <= k < i ==> (#[trigger] s@[k]).hash != h,
        decreases n - i,
    {
        if s[i].hash == h {
            return Some(i);
        }
        i = i + 1;
    }
    assert(!proc_contains(s@, h));
    None
}

/// Find the entry of `p` in the processing-parents table.
fn parents_find(s: &Vec<ParentCount>, p: u64) -> (r: Option<usize>)
    ensures
        match r {
            Some(i) => i < s@.len() && s@[i as int].hash == p,
            None => !parents_has(s@, p),
        },
{
    let n = s.len();
    let mut i: usize = 0;
    while i < n
        invariant
            i <= n,
            n == s@.len(),
            forall|k: int| 0 <= k < i ==> (#[trigger] s@[k]).hash != p,
        decreases n - i,
    {
        if s[i].hash == p {
            return Some(i);
        }
        i = i + 1;
    }
    None
}

/// Linear membership test on a borrowed slice of hashes.
fn slice_contains(v: &[u64], h: u64) -> (r: bool)
    ensures
        r == v@.contains(h),
{
    let n = v.len();
    let mut i: usize = 0;
    while i < n
        invariant
            i <= n,
            n == v@.len(),
            forall|k: int| 0 <= k < i ==> v@[k] != h,
        decreases n - i,
    {
        if v[i] == h {
            assert(v@[i as int] == h);
            return true;
        }
        i = i + 1;
    }
    false
}

/// Relies on `VecDeque::shrink_to_fit`: drops excess capacity; the contents
/// are untouched.
#[verifier::external_body]
fn shrink_deque<T>(q: &mut VecDeque<T>)
    ensures
        final(q)@ == old(q)@,
{
    q.shrink_to_fit()
}

/// Relies on `Vec::shrink_to_fit`: drops excess capacity; the contents are
/// untouched.
#[verifier::external_body]
fn shrink_vec<T>(v: &mut Vec<T>)
    ensures
        final(v)@ == old(v)@,
{
    v.shrink_to_fit()
}

/// Find the first placeholder carrying `h`.
fn verifying_find(s: &VecDeque<Verifying>, h: u64) -> (r: Option<usize>)
    ensures
        match r {
            Some(i) => i < s@.len() && s@[i as int].hash == h && (forall|k: int|
                0 <= k < i ==> (#[trigger] s@[k]).hash != h),
            None => !verifying_has(s@, h),
        },
{
    let n = s.len();
    let mut i: usize = 0;
    while i < n
        invariant
            i <= n,
            n == s@.len(),
            forall|k: int| 0 <= k < i ==> (#[trigger] s@[k]).hash != h,
        decreases n - i,
    {
        if s[i].hash == h {
            return Some(i);
        }
        i = i + 1;
    }
    None
}

/// Withdraw every placeholder carrying `h`, keeping the order of the rest.
fn verifying_retain(q: &mut VecDeque<Verifying>, h: u64)
    ensures
        final(q)@ == verifying_without(old(q)@, h),
{
    let ghost s0 = q@;
    let mut kept: VecDeque<Verifying> = VecDeque::new();
    loop
        invariant
            verifying_without(s0, h) == kept@ + verifying_without(q@, h),
        ensures
            q@.len() == 0,
            verifying_without(s0, h) == kept@ + verifying_without(q@, h),
        decreases q@.len(),
    {
        let ghost before = q@;
        match q.pop_front() {
            None => {
                break ;
            },
            Some(ph) => {
                if ph.hash != h {
                    let ghost k0 = kept@;
                    kept.push_back(ph);
                    proof {
                        assert(verifying_without(before, h) == seq![ph] + verifying_without(
                            q@,
                            h,
                        ));
                        assert(k0 + (seq![ph] + verifying_without(q@, h)) =~= kept@
                            + verifying_without(q@, h));
                    }
                } else {
                    proof {
                        assert(verifying_without(before, h) == verifying_without(q@, h));
                    }
                }
            },
        }
    }
    proof {
        assert(verifying_without(q@, h) == Seq::<Verifying>::empty());
        assert(verifying_without(s0, h) =~= kept@);
    }
    *q = kept;
}

// ---------------------------------------------------------------------------
// The queue.

/// A queue of items to be verified.  Sits between the ingress and the chain;
/// keeps items in the order they were accepted, minus invalid ones.
pub struct VerificationQueue {
    unverified: VecDeque<Unverified>,
    verifying: VecDeque<Verifying>,
    verified: VecDeque<Verified>,
    bad: Vec<u64>,
    processing: Vec<ProcEntry>,
    parents: Vec<ParentCount>,
    total_difficulty: u128,
    size_unverified: usize,
    size_verifying: usize,
    size_verified: usize,
    signalled: bool,
    deleting: bool,
    active: usize,
    pool: usize,
    ticks: usize,
    max_queue_size: usize,
    max_mem_use: usize,
    scale_verifiers: bool,
}

impl View for VerificationQueue {
    type V = QueueModel;

    closed spec fn view(&self) -> QueueModel {
        QueueModel {
            unverified: self.unverified@,
            verifying: self.verifying@,
            verified: self.verified@,
            bad: self.bad@,
            processing: self.processing@,
            parents: self.parents@,
            total_difficulty: self.total_difficulty,
            size_unverified: self.size_unverified,
            size_verifying: self.size_verifying,
            size_verified: self.size_verified,
            signalled: self.signalled,
            deleting: self.deleting,
            active: self.active,
            pool: self.pool,
            ticks: self.ticks,
            max_queue_size: self.max_queue_size,
            max_mem_use: self.max_mem_use,
            scale_verifiers: self.scale_verifiers,
        }
    }
}

impl VerificationQueue {
    /// Creates a new queue instance.
    ///
    /// The pool holds one worker slot per logical CPU when scaling is
    /// enabled, else exactly the clamped configured count; the initially
    /// active count is the configured count clamped to `[1, CPUs]`.
    pub fn new(config: Config) -> (q: Self)
        ensures
            wf(q@),
            q@.unverified.len() == 0,
            q@.verifying.len() == 0,
            q@.verified.len() == 0,
            q@.bad.len() == 0,
            q@.processing.len() == 0,
            q@.parents.len() == 0,
            q@.total_difficulty == 0,
            !q@.signalled,
            !q@.deleting,
            q@.ticks == 0,
            q@.max_queue_size == if config.max_queue_size > MIN_QUEUE_LIMIT {
                config.max_queue_size
            } else {
                MIN_QUEUE_LIMIT
            },
            q@.max_mem_use == if config.max_mem_use > MIN_MEM_LIMIT {
                config.max_mem_use
            } else {
                MIN_MEM_LIMIT
            },
            q@.scale_verifiers == config.verifier_settings.scale_verifiers,
            config.verifier_settings.num_verifiers == 0 ==> q@.active == 1,
            config.verifier_settings.num_verifiers >= 1 ==> q@.active
                <= config.verifier_settings.num_verifiers,
            !config.verifier_settings.scale_verifiers ==> q@.pool == q@.active,
    {
        let cpus = crate::logical_cpus();
        let configured = config.verifier_settings.num_verifiers;
        let clamped = if configured < cpus {
            configured
        } else {
            cpus
        };
        let default_amount = if clamped < 1 {
            1
        } else {
            clamped
        };
        let pool = if config.verifier_settings.scale_verifiers {
            cpus
        } else {
            default_amount
        };
        let q = VerificationQueue {
            unverified: VecDeque::new(),
            verifying: VecDeque::new(),
            verified: VecDeque::new(),
            bad: Vec::new(),
            processing: Vec::new(),
            parents: Vec::new(),
            total_difficulty: 0,
            size_unverified: 0,
            size_verifying: 0,
            size_verified: 0,
            signalled: false,
            deleting: false,
            active: default_amount,
            pool,
            ticks: 0,
            max_queue_size: if config.max_queue_size > MIN_QUEUE_LIMIT {
                config.max_queue_size
            } else {
                MIN_QUEUE_LIMIT
            },
            max_mem_use: if config.max_mem_use > MIN_MEM_LIMIT {
                config.max_mem_use
            } else {
                MIN_MEM_LIMIT
            },
            scale_verifiers: config.verifier_settings.scale_verifiers,
        };
        proof {
            assert(sum_by(Seq::<ProcEntry>::empty(), w_difficulty()) == 0);
            assert forall|p: u64|
                #[trigger] parents_lookup(q@.parents, p) == count_children(q@.processing, p) by {
                assert(!parents_has(q@.parents, p));
            }
        }
        q
    }

    /// Check how the queue regards a hash: queued, condemned, or never seen.
    /// The three answers are mutually exclusive: processing wins over bad,
    /// bad over unknown.
    pub fn status(&self, hash: u64) -> (r: Status)
        ensures
            r == spec_status(self@, hash),
            r is Queued <==> proc_contains(self@.processing, hash),
            r is Bad <==> (!proc_contains(self@.processing, hash) && self@.bad.contains(hash)),
    {
        if proc_find(&self.processing, hash).is_some() {
            assert(proc_contains(self@.processing, hash));
            Status::Queued
        } else if hashes_contain(&self.bad, hash) {
            Status::Bad
        } else {
            Status::Unknown
        }
    }

    /// The total difficulty of everything in flight: always exactly the sum
    /// of the difficulties recorded in the processing table.
    pub fn total_difficulty(&self) -> (r: u128)
        requires
            wf(self@),
        ensures
            r == self@.total_difficulty,
            r as int == sum_difficulty(self@.processing),
    {
        self.total_difficulty
    }

    /// The current number of working verifiers, always within `[1, pool]`.
    pub fn num_verifiers(&self) -> (r: usize)
        requires
            wf(self@),
        ensures
            r == self@.active,
            1 <= r <= self@.pool,
    {
        self.active
    }

    /// True if there is nothing currently in the queue.
    pub fn is_empty(&self) -> (r: bool)
        ensures
            r == (self@.unverified.len() == 0 && self@.verifying.len() == 0
                && self@.verified.len() == 0),
    {
        self.unverified.len() == 0 && self.verifying.len() == 0 && self.verified.len() == 0
    }

    /// Get queue status: per-stage counts, the byte estimate and the limits.
    pub fn queue_info(&self) -> (info: QueueInfo)
        requires
            wf(self@),
        ensures
            info.unverified_queue_size == self@.unverified.len(),
            info.verifying_queue_size == self@.verifying.len(),
            info.verified_queue_size == self@.verified.len(),
            info.max_queue_size == self@.max_queue_size,
            info.max_mem_use == self@.max_mem_use,
            info.mem_used == self@.size_unverified + self@.size_verifying + self@.size_verified,
    {
        QueueInfo {
            unverified_queue_size: self.unverified.len(),
            verifying_queue_size: self.verifying.len(),
            verified_queue_size: self.verified.len(),
            max_queue_size: self.max_queue_size,
            max_mem_use: self.max_mem_use,
            mem_used: self.size_unverified + self.size_verifying + self.size_verified,
        }
    }

    /// Wake up or park verifiers to get as close to `target` as possible,
    /// never going over the pool size or below one.
    pub fn scale_verifiers(&mut self, target: usize)
        requires
            wf(old(self)@),
        ensures
            wf(final(self)@),
            final(self)@ == spec_scale(old(self)@, target as int),
    {
        let capped = if target > self.pool {
            self.pool
        } else {
            target
        };
        let clamped = if capped < 1 {
            1
        } else {
            capped
        };
        self.active = clamped;
        proof {
            assert(final(self)@ =~= spec_scale(old(self)@, target as int));
        }
    }

    /// Add an item to the queue.
    ///
    /// A hash already in flight is rejected as `AlreadyQueued`; a condemned
    /// hash, raw hash or parent as `KnownBad` (a condemned parent condemns
    /// the item itself first).  Then the adapter's parse verdict decides:
    /// an accepted item enters the unverified stage and the processing
    /// table; a temporarily invalid one is rejected without condemnation; a
    /// malformed body condemns the raw hash, any other failure the hash.
    /// Every rejection hands the input back to the caller.
    pub fn import(&mut self, input: Input) -> (r: Result<u64, (ImportError, Option<Input>)>)
        requires
            wf(old(self)@),
            import_fits(old(self)@, input),
        ensures
            wf(final(self)@),
            final(self)@ == spec_import(old(self)@, input).0,
            match r {
                Ok(h) => spec_import(old(self)@, input).1 == Ok::<u64, ImportError>(h),
                Err(e) => spec_import(old(self)@, input).1 == Err::<u64, ImportError>(e.0) && e.1
                    == Some(input),
            },
    {
        let ghost m0 = self@;
        match proc_find(&self.processing, input.hash) {
            Some(i) => {
                proof {
                    assert(proc_contains(m0.processing, input.hash));
                }
                return Err((ImportError::AlreadyQueued, Some(input)));
            },
            None => {},
        }
        if hashes_contain(&self.bad, input.hash) || hashes_contain(&self.bad, input.raw_hash) {
            return Err((ImportError::KnownBad, Some(input)));
        }
        if hashes_contain(&self.bad, input.parent_hash) {
            hashes_insert(&mut self.bad, input.hash);
            proof {
                assert(self@ =~= spec_import(m0, input).0);
            }
            return Err((ImportError::KnownBad, Some(input)));
        }
        match input.parse {
            ParseOutcome::Accepted => {
                let entry = ProcEntry {
                    hash: input.hash,
                    difficulty: input.difficulty,
                    parent: input.parent_hash,
                };
                self.processing.push(entry);
                self.total_difficulty = self.total_difficulty + input.difficulty;
                match parents_find(&self.parents, input.parent_hash) {
                    Some(i) => {
                        proof {
                            assert(parents_has(m0.parents, input.parent_hash));
                            lemma_parents_idx(m0.parents, input.parent_hash);
                            assert(i as int == parents_idx(m0.parents, input.parent_hash));
                            lemma_count_children_bounds(m0.processing, input.parent_hash);
                            assert(parents_lookup(m0.parents, input.parent_hash)
                                == count_children(m0.processing, input.parent_hash));
                            assert(m0.parents[i as int].count as int == count_children(
                                m0.processing,
                                input.parent_hash,
                            ));
                        }
                        let c = self.parents[i].count;
                        self.parents.set(
                            i,
                            ParentCount { hash: input.parent_hash, count: c + 1 },
                        );
                    },
                    None => {
                        self.parents.push(ParentCount { hash: input.parent_hash, count: 1 });
                    },
                }
                self.unverified.push_back(
                    Unverified {
                        hash: input.hash,
                        parent_hash: input.parent_hash,
                        difficulty: input.difficulty,
                        size: input.size,
                        valid: input.valid,
                    },
                );
                self.size_unverified = self.size_unverified + input.size;
                proof {
                    assert(self@ =~= spec_admit(m0, input));
                    lemma_admit_wf(m0, input);
                }
                Ok(input.hash)
            },
            ParseOutcome::TemporarilyInvalid => {
                Err((ImportError::TemporarilyInvalid, Some(input)))
            },
            ParseOutcome::MalformedBody => {
                hashes_insert(&mut self.bad, input.raw_hash);
                proof {
                    assert(self@ =~= spec_import(m0, input).0);
                }
                Err((ImportError::MalformedBody, Some(input)))
            },
            ParseOutcome::Invalid => {
                hashes_insert(&mut self.bad, input.hash);
                proof {
                    assert(self@ =~= spec_import(m0, input).0);
                }
                Err((ImportError::Invalid, Some(input)))
            },
        }
    }

    /// Forget one hash: its entry leaves the processing table, its
    /// difficulty the accumulator, and its parent loses a child.  A hash
    /// with no entry changes nothing.
    fn forget(&mut self, h: u64)
        requires
            wf(old(self)@),
        ensures
            wf(final(self)@),
            final(self)@ == spec_forget(old(self)@, h),
    {
        let ghost m0 = self@;
        match proc_find(&self.processing, h) {
            None => {},
            Some(i) => {
                proof {
                    assert(proc_contains(m0.processing, h));
                    lemma_proc_idx(m0.processing, h);
                    assert(i as int == proc_idx(m0.processing, h));
                    lemma_sum_by_at_least(m0.processing, w_difficulty(), i as int);
                }
                let e = self.processing[i];
                self.processing.remove(i);
                self.total_difficulty = self.total_difficulty - e.difficulty;
                match parents_find(&self.parents, e.parent) {
                    Some(j) => {
                        proof {
                            assert(parents_has(m0.parents, e.parent));
                            lemma_parents_idx(m0.parents, e.parent);
                            assert(j as int == parents_idx(m0.parents, e.parent));
                        }
                        let c = self.parents[j].count;
                        if c == 1 {
                            self.parents.remove(j);
                        } else {
                            self.parents.set(j, ParentCount { hash: e.parent, count: c - 1 });
                        }
                    },
                    None => {},
                }
                proof {
                    assert(self@ =~= spec_forget(m0, h));
                    lemma_forget_wf(m0, h);
                }
            },
        }
    }

    /// The one-shot signal: arm it and report whether the downstream
    /// consumer must be notified now.  Quiet while already armed or shutting
    /// down, so at most one notification goes out per drain epoch.
    fn signal_set(&mut self) -> (notify: bool)
        requires
            wf(old(self)@),
        ensures
            wf(final(self)@),
            final(self)@ == spec_signal_set(old(self)@).0,
            notify == spec_signal_set(old(self)@).1,
    {
        if self.deleting || self.signalled {
            false
        } else {
            self.signalled = true;
            proof {
                assert(final(self)@ =~= spec_signal_set(old(self)@).0);
            }
            true
        }
    }

    /// Whether the consumer has been signalled since the last drain.
    pub fn is_signalled(&self) -> (r: bool)
        ensures
            r == self@.signalled,
    {
        self.signalled
    }

    /// Claim the oldest unverified item.  The item leaves its stage and a
    /// placeholder with an empty output takes the tail of the verifying
    /// stage, so the commit order is fixed at work-start.  The caller runs
    /// the heavy verification off the queue and hands the item back through
    /// `finish_verifying`.
    pub fn start_verifying(&mut self) -> (r: Option<Unverified>)
        requires
            wf(old(self)@),
        ensures
            wf(final(self)@),
            final(self)@ == spec_start(old(self)@).0,
            r == spec_start(old(self)@).1,
    {
        let ghost m0 = self@;
        match self.unverified.pop_front() {
            None => None,
            Some(it) => {
                proof {
                    assert(sum_unverified_sizes(m0.unverified) == it.size as int
                        + sum_unverified_sizes(m0.unverified.drop_first()));
                    lemma_sum_by_nonneg(m0.unverified.drop_first(), w_unverified_size());
                    lemma_sum_by_push(
                        m0.verifying,
                        w_verifying_size(),
                        Verifying { hash: it.hash, output: None },
                    );
                }
                self.size_unverified = self.size_unverified - it.size;
                self.verifying.push_back(Verifying { hash: it.hash, output: None });
                proof {
                    assert(self@ =~= spec_start(m0).0);
                }
                Some(it)
            },
        }
    }

    /// Head-of-line commit: while the head placeholder carries its output,
    /// pop it; a completed item whose parent is by now bad is condemned and
    /// dropped, any other joins the verified stage.
    fn drain_verifying(&mut self)
        requires
            wf(old(self)@),
        ensures
            wf(final(self)@),
            final(self)@ == spec_drain_verifying(old(self)@),
    {
        let ghost m0 = self@;
        loop
            invariant
                wf(self@),
                spec_drain_verifying(self@) == spec_drain_verifying(m0),
            ensures
                wf(self@),
                spec_drain_verifying(self@) == spec_drain_verifying(m0),
                self@.verifying.len() == 0 || self@.verifying[0].output is None,
            decreases self@.verifying.len(),
        {
            if self.verifying.len() == 0 {
                break ;
            }
            let head_ready = self.verifying[0].output.is_some();
            if !head_ready {
                break ;
            }
            let ghost before = self@;
            let ph = self.verifying.pop_front().unwrap();
            let out = ph.output.unwrap();
            proof {
                assert(before.verifying[0].output == Some(out));
                assert(sum_verifying_sizes(before.verifying) == out.size as int
                    + sum_verifying_sizes(before.verifying.drop_first()));
                lemma_sum_by_nonneg(before.verifying.drop_first(), w_verifying_size());
            }
            self.size_verifying = self.size_verifying - out.size;
            let ghost md = QueueModel {
                verifying: before.verifying.drop_first(),
                size_verifying: (before.size_verifying - out.size) as usize,
                ..before
            };
            proof {
                assert(self@ =~= md);
            }
            if hashes_contain(&self.bad, out.parent_hash) {
                hashes_insert(&mut self.bad, out.hash);
                proof {
                    let ghost mb = QueueModel { bad: bad_insert(md.bad, out.hash), ..md };
                    assert(self@ =~= mb);
                    assert(spec_drain_verifying(before) == spec_drain_verifying(mb));
                }
            } else {
                proof {
                    lemma_sum_by_push(self@.verified, w_verified_size(), out);
                }
                self.verified.push_back(out);
                self.size_verified = self.size_verified + out.size;
                proof {
                    let ghost mk = QueueModel {
                        verified: md.verified.push(out),
                        size_verified: (md.size_verified + out.size) as usize,
                        ..md
                    };
                    assert(self@ =~= mk);
                    assert(spec_drain_verifying(before) == spec_drain_verifying(mk));
                }
            }
        }
        proof {
            assert(spec_drain_verifying(self@) == self@);
        }
    }

    /// Commit the outcome of one verification.  On success the item's
    /// placeholder gains its output, and if it stood at the head the whole
    /// completed prefix moves on; on failure the hash is condemned and the
    /// placeholder withdrawn, which may likewise free the head.  Returns
    /// whether the downstream consumer must be notified now (the head
    /// moved and the signal was not yet armed).
    ///
    /// Call it once per claim, after `start_verifying` handed the item out;
    /// no placeholder for this hash may already carry an output.
    pub fn finish_verifying(&mut self, it: Unverified) -> (notify: bool)
        requires
            wf(old(self)@),
            finish_fits(old(self)@, it),
            forall|k: int|
                0 <= k < old(self)@.verifying.len() && (#[trigger] old(
                    self,
                )@.verifying[k]).hash == it.hash ==> old(self)@.verifying[k].output is None,
        ensures
            wf(final(self)@),
            final(self)@ == spec_finish(old(self)@, it).0,
            notify == spec_finish(old(self)@, it).1,
    {
        let ghost m0 = self@;
        if it.valid {
            let out = Verified {
                hash: it.hash,
                parent_hash: it.parent_hash,
                difficulty: it.difficulty,
                size: it.size,
            };
            proof {
                assert(spec_verify_outcome(it) == Some(out));
            }
            match verifying_find(&self.verifying, it.hash) {
                None => {
                    proof {
                        assert(self@ =~= spec_finish(m0, it).0);
                    }
                    false
                },
                Some(i) => {
                    let ph = Verifying { hash: it.hash, output: Some(out) };
                    proof {
                        assert(verifying_has(m0.verifying, it.hash)) by {
                            assert(m0.verifying[i as int].hash == it.hash);
                        }
                        lemma_verifying_first_idx(m0.verifying, it.hash);
                        assert(i as int == verifying_first_idx(m0.verifying, it.hash)) by {
                            let v = verifying_first_idx(m0.verifying, it.hash);
                            assert(m0.verifying[v].hash == it.hash);
                            assert(m0.verifying[i as int].hash == it.hash);
                        }
                        assert(m0.verifying[i as int].output is None);
                        lemma_sum_by_update(m0.verifying, w_verifying_size(), i as int, ph);
                    }
                    self.verifying.remove(i);
                    self.verifying.insert(i, ph);
                    self.size_verifying = self.size_verifying + out.size;
                    proof {
                        assert(self@.verifying =~= m0.verifying.update(i as int, ph));
                        assert(self@ =~= QueueModel {
                            verifying: m0.verifying.update(i as int, ph),
                            size_verifying: (m0.size_verifying + out.size) as usize,
                            ..m0
                        });
                        assert(wf(self@));
                    }
                    if i == 0 {
                        self.drain_verifying();
                        let notify = self.signal_set();
                        notify
                    } else {
                        false
                    }
                },
            }
        } else {
            proof {
                assert(spec_verify_outcome(it) is None);
                lemma_verifying_without(m0.verifying, it.hash);
            }
            hashes_insert(&mut self.bad, it.hash);
            verifying_retain(&mut self.verifying, it.hash);
            proof {
                assert(self@ =~= QueueModel {
                    bad: bad_insert(m0.bad, it.hash),
                    verifying: verifying_without(m0.verifying, it.hash),
                    ..m0
                });
                assert(wf(self@));
            }
            let head_ready = self.verifying.len() > 0 && self.verifying[0].output.is_some();
            if head_ready {
                self.drain_verifying();
                let notify = self.signal_set();
                notify
            } else {
                false
            }
        }
    }

    /// Process everything that is waiting, in order: the sequential
    /// equivalent of blocking until the unverified and verifying stages are
    /// both empty.  Call it with no claim outstanding (the verifying stage
    /// empty); each waiting item is then claimed, judged and committed in
    /// turn.
    pub fn flush(&mut self)
        requires
            wf(old(self)@),
            old(self)@.verifying.len() == 0,
        ensures
            wf(final(self)@),
            final(self)@ == spec_flush(old(self)@),
            final(self)@.unverified.len() == 0,
            final(self)@.verifying.len() == 0,
    {
        let ghost m0 = self@;
        loop
            invariant
                wf(self@),
                self@.verifying.len() == 0,
                spec_flush(self@) == spec_flush(m0),
            ensures
                wf(self@),
                self@.unverified.len() == 0,
                self@.verifying.len() == 0,
                spec_flush(self@) == spec_flush(m0),
            decreases self@.unverified.len(),
        {
            if self.unverified.len() == 0 {
                break ;
            }
            let ghost before = self@;
            proof {
                lemma_flush_step(before);
            }
            let claimed = self.start_verifying();
            let it = claimed.unwrap();
            let _ = self.finish_verifying(it);
            proof {
                assert(spec_flush(before) == spec_flush(self@));
            }
        }
        proof {
            assert(spec_flush(self@) == spec_drain_verifying(self@));
            assert(spec_drain_verifying(self@) == self@);
        }
    }

    /// Removes up to `max` verified items from the head of the queue, in
    /// the order they were accepted.  The signal is cleared, and re-armed
    /// when verified items remain (unless shutting down), so the consumer
    /// is woken again for the rest.  `drain(0)` takes nothing; draining an
    /// empty verified stage returns nothing and leaves the signal cleared.
    pub fn drain(&mut self, max: usize) -> (out: Vec<Verified>)
        requires
            wf(old(self)@),
        ensures
            wf(final(self)@),
            final(self)@ == spec_drain(old(self)@, max).0,
            out@ == spec_drain(old(self)@, max).1,
    {
        let ghost m0 = self@;
        let count = if max < self.verified.len() {
            max
        } else {
            self.verified.len()
        };
        let mut out: Vec<Verified> = Vec::new();
        let mut i: usize = 0;
        proof {
            assert(m0.verified.take(0) =~= Seq::<Verified>::empty());
            assert(m0.verified.skip(0) =~= m0.verified);
        }
        while i < count
            invariant
                i <= count,
                count as int == (if (max as int) < m0.verified.len() {
                    max as int
                } else {
                    m0.verified.len() as int
                }),
                wf(self@),
                out@ == m0.verified.take(i as int),
                self@ == (QueueModel {
                    verified: m0.verified.skip(i as int),
                    size_verified: self@.size_verified,
                    ..m0
                }),
            decreases count - i,
        {
            let ghost before = self@;
            let popped = self.verified.pop_front();
            let v = popped.unwrap();
            proof {
                assert(v == m0.verified[i as int]);
                assert(sum_verified_sizes(before.verified) == v.size as int + sum_verified_sizes(
                    before.verified.drop_first(),
                ));
                lemma_sum_by_nonneg(before.verified.drop_first(), w_verified_size());
                assert(m0.verified.take(i as int + 1) =~= m0.verified.take(i as int).push(v));
                lemma_sum_by_push(m0.verified.take(i as int), w_verified_size(), v);
                assert(m0.verified.skip(i as int).drop_first() =~= m0.verified.skip(i as int + 1));
            }
            self.size_verified = self.size_verified - v.size;
            out.push(v);
            proof {
                assert(out@ =~= m0.verified.take(i as int + 1));
                assert(self@ =~= (QueueModel {
                    verified: m0.verified.skip(i as int + 1),
                    size_verified: self@.size_verified,
                    ..m0
                }));
            }
            i = i + 1;
        }
        proof {
            lemma_sum_by_split(m0.verified, w_verified_size(), count as int);
            lemma_sum_by_nonneg(m0.verified.take(count as int), w_verified_size());
            lemma_sum_by_nonneg(m0.verified.skip(count as int), w_verified_size());
            assert(self@.size_verified as int == sum_verified_sizes(m0.verified.skip(count as int)));
            assert(self@.size_verified == (m0.size_verified - sum_verified_sizes(
                m0.verified.take(count as int),
            )) as usize);
        }
        self.signalled = false;
        if self.verified.len() > 0 {
            let _ = self.signal_set();
        }
        proof {
            assert(out@ =~= spec_drain(m0, max).1);
            assert(self@ =~= spec_drain(m0, max).0);
        }
        out
    }

    /// Clear the queue: all three stages and both accounting tables empty,
    /// the byte counters and the difficulty accumulator zero.  The bad set
    /// and the signal survive.
    pub fn clear(&mut self)
        requires
            wf(old(self)@),
        ensures
            wf(final(self)@),
            final(self)@ == spec_clear(old(self)@),
    {
        let ghost m0 = self@;
        self.unverified.clear();
        self.verifying.clear();
        self.verified.clear();
        self.processing.clear();
        self.parents.clear();
        self.total_difficulty = 0;
        self.size_unverified = 0;
        self.size_verifying = 0;
        self.size_verified = 0;
        proof {
            assert(self@ =~= spec_clear(m0));
            lemma_clear_wf(m0);
        }
    }

    /// The orderly part of shutdown: clear the queue and silence the signal
    /// for good.  Parking and joining the workers is the embedding's
    /// concern.
    pub fn close(&mut self)
        requires
            wf(old(self)@),
        ensures
            wf(final(self)@),
            final(self)@ == spec_close(old(self)@),
    {
        self.clear();
        self.deleting = true;
        proof {
            assert(self@ =~= spec_close(old(self)@));
        }
    }

    /// Mark the given items, and every verified item whose ancestry meets
    /// them, as bad: the hashes enter the bad set and leave the processing
    /// table, and one pass over the verified stage drops every item whose
    /// parent is by then condemned.  Because that stage is in import order
    /// a descendant never precedes its ancestor, so the one pass closes the
    /// set transitively.  An empty input changes nothing.
    pub fn mark_as_bad(&mut self, hashes: &[u64])
        requires
            wf(old(self)@),
        ensures
            wf(final(self)@),
            final(self)@ == spec_mark_bad(old(self)@, hashes@),
    {
        let ghost m0 = self@;
        let n = hashes.len();
        if n == 0 {
            return ;
        }
        let mut i: usize = 0;
        proof {
            assert(hashes@.skip(0) =~= hashes@);
        }
        while i < n
            invariant
                i <= n,
                n == hashes@.len(),
                wf(self@),
                spec_condemn_loop(self@, hashes@.skip(i as int)) == spec_condemn_loop(
                    m0,
                    hashes@,
                ),
            decreases n - i,
        {
            let ghost before = self@;
            proof {
                assert(hashes@.skip(i as int)[0] == hashes@[i as int]);
                assert(hashes@.skip(i as int).drop_first() =~= hashes@.skip(i as int + 1));
            }
            let h = hashes[i];
            hashes_insert(&mut self.bad, h);
            proof {
                assert(wf(self@));
            }
            self.forget(h);
            proof {
                assert(self@ == spec_condemn(before, h));
                assert(spec_condemn_loop(before, hashes@.skip(i as int)) == spec_condemn_loop(
                    self@,
                    hashes@.skip(i as int + 1),
                ));
            }
            i = i + 1;
        }
        proof {
            assert(hashes@.skip(n as int) =~= Seq::<u64>::empty());
        }
        let ghost m1 = self@;
        let mut kept: VecDeque<Verified> = VecDeque::new();
        let mut kept_size: usize = 0;
        proof {
            assert(kept@ + spec_purge_verified(m1).verified =~= spec_purge_verified(m1).verified);
        }
        loop
            invariant
                wf(self@),
                kept_size as int == sum_verified_sizes(kept@),
                kept_size as int + self@.size_verified as int <= m1.size_verified as int,
                spec_purge_verified(m1) == (QueueModel {
                    verified: kept@ + spec_purge_verified(self@).verified,
                    size_verified: (spec_purge_verified(self@).size_verified as int
                        + kept_size as int) as usize,
                    ..spec_purge_verified(self@)
                }),
            ensures
                wf(self@),
                self@.verified.len() == 0,
                kept_size as int == sum_verified_sizes(kept@),
                kept_size as int + self@.size_verified as int <= m1.size_verified as int,
                spec_purge_verified(m1) == (QueueModel {
                    verified: kept@ + spec_purge_verified(self@).verified,
                    size_verified: (spec_purge_verified(self@).size_verified as int
                        + kept_size as int) as usize,
                    ..spec_purge_verified(self@)
                }),
            decreases self@.verified.len(),
        {
            let ghost before = self@;
            let popped = self.verified.pop_front();
            match popped {
                None => {
                    break ;
                },
                Some(v) => {
                    proof {
                        assert(sum_verified_sizes(before.verified) == v.size as int
                            + sum_verified_sizes(before.verified.drop_first()));
                        lemma_sum_by_nonneg(before.verified.drop_first(), w_verified_size());
                    }
                    self.size_verified = self.size_verified - v.size;
                    let ghost mdrop = QueueModel {
                        verified: before.verified.drop_first(),
                        size_verified: (before.size_verified - v.size) as usize,
                        ..before
                    };
                    proof {
                        assert(self@ =~= mdrop);
                        assert(wf(mdrop));
                    }
                    if hashes_contain(&self.bad, v.parent_hash) {
                        hashes_insert(&mut self.bad, v.hash);
                        proof {
                            assert(wf(self@));
                        }
                        self.forget(v.hash);
                        proof {
                            assert(self@ == spec_condemn(mdrop, v.hash));
                            assert(spec_purge_verified(before) == spec_purge_verified(self@));
                        }
                    } else {
                        let ghost k0 = kept@;
                        kept.push_back(v);
                        kept_size = kept_size + v.size;
                        proof {
                            lemma_sum_by_push(k0, w_verified_size(), v);
                            lemma_purge_wf(mdrop);
                            let m2 = spec_purge_verified(mdrop);
                            assert(spec_purge_verified(before) == QueueModel {
                                verified: seq![v] + m2.verified,
                                size_verified: (m2.size_verified + v.size) as usize,
                                ..m2
                            });
                            assert(k0 + (seq![v] + m2.verified) =~= kept@ + m2.verified);
                        }
                    }
                },
            }
        }
        proof {
            assert(spec_purge_verified(self@) == self@);
        }
        self.verified = kept;
        self.size_verified = kept_size;
        proof {
            assert(self@ =~= spec_purge_verified(m1));
            lemma_purge_wf(m1);
            assert(final(self)@ == spec_mark_bad(m0, hashes@));
        }
    }

    /// Optimise the memory footprint of the stages and the processing
    /// table, and adjust the number of active workers to the load.  The
    /// readjustment runs once every `READJUSTMENT_PERIOD` calls, and only
    /// with scaling enabled: an almost idle queue keeps one worker, a
    /// verified surplus parks one, an unverified surplus wakes one more,
    /// and within a ten-percent band the count stays.
    pub fn collect_garbage(&mut self)
        requires
            wf(old(self)@),
        ensures
            wf(final(self)@),
            final(self)@ == spec_collect_garbage(old(self)@),
    {
        let ghost m0 = self@;
        shrink_deque(&mut self.unverified);
        shrink_deque(&mut self.verifying);
        shrink_deque(&mut self.verified);
        shrink_vec(&mut self.processing);
        proof {
            assert(self@ =~= m0);
        }
        if !self.scale_verifiers {
            return ;
        }
        if self.ticks + 1 >= READJUSTMENT_PERIOD {
            self.ticks = 0;
            let ghost mt = self@;
            let u_len = self.unverified.len();
            let v_len = self.verified.len();
            let current = self.active;
            let diff = if v_len >= u_len {
                v_len - u_len
            } else {
                u_len - v_len
            };
            let total = v_len as u128 + u_len as u128;
            let target = if u_len < SCALE_IDLE_THRESHOLD {
                1
            } else if diff as u128 <= total / 10 {
                current
            } else if v_len > u_len {
                current - 1
            } else {
                if current >= self.pool {
                    self.pool
                } else {
                    current + 1
                }
            };
            self.scale_verifiers(target);
            proof {
                assert(final(self)@ =~= spec_scale(mt, spec_scale_target(m0)));
            }
        } else {
            self.ticks = self.ticks + 1;
            proof {
                assert(final(self)@ =~= spec_collect_garbage(m0));
            }
        }
    }

    /// The hashes that in-flight items name as parents, in table order.
    /// The embedding asks the chain about each of them to answer
    /// `is_processing_fork`.
    pub fn parent_hashes(&self) -> (r: Vec<u64>)
        ensures
            r@.len() == self@.parents.len(),
            forall|k: int| 0 <= k < r@.len() ==> r@[k] == self@.parents[k].hash,
    {
        let n = self.parents.len();
        let mut r: Vec<u64> = Vec::new();
        let mut i: usize = 0;
        while i < n
            invariant
                i <= n,
                n == self@.parents.len(),
                r@.len() == i,
                forall|k: int| 0 <= k < i ==> r@[k] == self@.parents[k].hash,
            decreases n - i,
        {
            r.push(self.parents[i].hash);
            i = i + 1;
        }
        r
    }

    /// True iff no in-flight item descends from the current best block.
    /// `reachable` lists the parents for which the chain knows a route to
    /// the best block; the caller obtains it by asking the chain about each
    /// hash of `parent_hashes`.  May be a false negative for longer queues.
    pub fn is_processing_fork(&self, reachable: &[u64]) -> (r: bool)
        ensures
            r == (forall|k: int|
                0 <= k < self@.parents.len() ==> !reachable@.contains(
                    (#[trigger] self@.parents[k]).hash,
                )),
    {
        let n = self.parents.len();
        let mut i: usize = 0;
        while i < n
            invariant
                i <= n,
                n == self@.parents.len(),
                forall|k: int|
                    0 <= k < i ==> !reachable@.contains((#[trigger] self@.parents[k]).hash),
            decreases n - i,
        {
            if slice_contains(reachable, self.parents[i].hash) {
                return false;
            }
            i = i + 1;
        }
        true
    }

    /// Mark given items as processed: the chain has taken them, so they
    /// leave the processing table and release their difficulty and their
    /// parents' child counts.  Returns true iff the processing table is
    /// empty afterwards; an empty input reports emptiness without any state
    /// change.
    pub fn mark_as_good(&mut self, hashes: &[u64]) -> (r: bool)
        requires
            wf(old(self)@),
        ensures
            wf(final(self)@),
            final(self)@ == spec_mark_good(old(self)@, hashes@).0,
            r == spec_mark_good(old(self)@, hashes@).1,
    {
        let ghost m0 = self@;
        let n = hashes.len();
        if n == 0 {
            return self.processing.len() == 0;
        }
        let mut i: usize = 0;
        proof {
            assert(hashes@.skip(0) =~= hashes@);
        }
        while i < n
            invariant
                i <= n,
                n == hashes@.len(),
                wf(self@),
                spec_mark_good_loop(self@, hashes@.skip(i as int)) == spec_mark_good_loop(
                    m0,
                    hashes@,
                ),
            decreases n - i,
        {
            proof {
                assert(hashes@.skip(i as int)[0] == hashes@[i as int]);
                assert(hashes@.skip(i as int).drop_first() =~= hashes@.skip(i as int + 1));
            }
            let ghost before = self@;
            self.forget(hashes[i]);
            proof {
                assert(spec_mark_good_loop(before, hashes@.skip(i as int))
                    == spec_mark_good_loop(self@, hashes@.skip(i as int + 1)));
            }
            i = i + 1;
        }
        proof {
            assert(hashes@.skip(n as int) =~= Seq::<u64>::empty());
        }
        self.processing.len() == 0
    }
}

} // verus!
