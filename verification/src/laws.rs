//! The queue's laws: properties that relate several operations, proved once
//! over the model's transition functions.

use vstd::prelude::*;

use crate::item::{spec_unverified_of, spec_verified_of, spec_verify_outcome, Input, Verified, Verifying};
use crate::lemmas::{
    lemma_admit_wf, lemma_condemn_loop_wf, lemma_condemn_wf, lemma_flush_step,
    lemma_parents_idx, lemma_start_wf, lemma_sum_by_nonneg,
};
use crate::model::{
    bad_after, bad_insert, bad_step, count_children, import_fits, parents_has,
    parents_lookup, proc_contains, proc_idx, spec_admit, spec_clear, spec_condemn,
    spec_condemn_loop, spec_drain, spec_drain_verifying, spec_finish, spec_flush, spec_forget,
    spec_import, spec_mark_bad, spec_mark_good, spec_purge_verified, spec_start, spec_status,
    sum_difficulty, sum_verified_sizes, verifying_without, w_verified_size, wf, QueueModel,
};

verus! {

/// Law: the difficulty accumulator is exactly the sum of the difficulties
/// over the processing table — an invariant every operation maintains.
pub proof fn lemma_total_difficulty_is_sum(m: QueueModel)
    requires
        wf(m),
    ensures
        m.total_difficulty as int == sum_difficulty(m.processing),
{
}

/// Law: the parents table records, for every hash, exactly the number of
/// in-flight items that name it as parent — and holds no zero-count entry,
/// so a recorded parent always has a child.
pub proof fn lemma_parents_table_exact(m: QueueModel, p: u64)
    requires
        wf(m),
    ensures
        parents_lookup(m.parents, p) == count_children(m.processing, p),
        parents_has(m.parents, p) ==> count_children(m.processing, p) > 0,
{
    if parents_has(m.parents, p) {
        lemma_parents_idx(m.parents, p);
    }
}

/// Law: at any instant a hash has exactly one status — queued while in
/// processing, else bad while condemned, else unknown.
pub proof fn lemma_status_exclusive(m: QueueModel, h: u64)
    ensures
        (spec_status(m, h) is Queued) <==> proc_contains(m.processing, h),
        (spec_status(m, h) is Bad) <==> (!proc_contains(m.processing, h) && m.bad.contains(h)),
        (spec_status(m, h) is Unknown) <==> (!proc_contains(m.processing, h) && !m.bad.contains(
            h,
        )),
{
}

/// Law: the number of active workers never leaves `[1, pool]`.
pub proof fn lemma_active_workers_bounded(m: QueueModel)
    requires
        wf(m),
    ensures
        1 <= m.active <= m.pool,
{
}

/// Law: acknowledging an empty batch reports whether the processing table
/// is empty and changes no state.
pub proof fn lemma_mark_good_empty(m: QueueModel)
    ensures
        spec_mark_good(m, Seq::<u64>::empty()).0 == m,
        spec_mark_good(m, Seq::<u64>::empty()).1 == (m.processing.len() == 0),
{
}

/// Law: clearing is idempotent, and afterwards all three stages and both
/// tables are empty, the byte counters and the total difficulty zero.
pub proof fn lemma_clear_idempotent(m: QueueModel)
    ensures
        spec_clear(spec_clear(m)) == spec_clear(m),
        spec_clear(m).unverified.len() == 0,
        spec_clear(m).verifying.len() == 0,
        spec_clear(m).verified.len() == 0,
        spec_clear(m).processing.len() == 0,
        spec_clear(m).parents.len() == 0,
        spec_clear(m).total_difficulty == 0,
        spec_clear(m).size_unverified == 0,
        spec_clear(m).size_verifying == 0,
        spec_clear(m).size_verified == 0,
{
    assert(spec_clear(spec_clear(m)) =~= spec_clear(m));
}

/// Law: draining at most zero items yields nothing; draining an empty
/// verified stage yields nothing and leaves the signal cleared.
pub proof fn lemma_drain_trivial(m: QueueModel, max: usize)
    ensures
        spec_drain(m, 0).1 == Seq::<Verified>::empty(),
        m.verified.len() == 0 ==> spec_drain(m, max).1 == Seq::<Verified>::empty(),
        m.verified.len() == 0 ==> !spec_drain(m, max).0.signalled,
        m.verified.len() == 0 ==> spec_drain(m, max).0 == (QueueModel {
            signalled: false,
            ..m
        }),
{
    assert(m.verified.take(0) =~= Seq::<Verified>::empty());
    if m.verified.len() == 0 {
        assert(m.verified.take(0) =~= m.verified);
        assert(m.verified.skip(0) =~= m.verified);
        assert(spec_drain(m, max).0 =~= (QueueModel { signalled: false, ..m }));
    }
}

/// Membership in the bad set after an insertion.
proof fn lemma_bad_insert_contains(b: Seq<u64>, h: u64, g: u64)
    ensures
        bad_insert(b, h).contains(g) == (b.contains(g) || g == h),
{
    if b.contains(h) {
        if g == h {
        }
    } else {
        if b.contains(g) {
            let k = choose|k: int| 0 <= k < b.len() && b[k] == g;
            assert(b.push(h)[k] == g);
        }
        if g == h {
            assert(b.push(h)[b.len() as int] == g);
        }
        if b.push(h).contains(g) {
            let k = choose|k: int| 0 <= k < b.push(h).len() && b.push(h)[k] == g;
            if k < b.len() {
                assert(b[k] == g);
            }
        }
    }
}

/// Walking the stage cares only about what the starting bad set contains,
/// not how it is written down.
proof fn lemma_bad_after_congruent(s: Seq<Verified>, b0: Seq<u64>, b1: Seq<u64>, n: int, g: u64)
    requires
        forall|x: u64| #[trigger] b0.contains(x) == b1.contains(x),
    ensures
        bad_after(s, b0, n).contains(g) == bad_after(s, b1, n).contains(g),
    decreases n,
{
    if n > 0 {
        let a0 = bad_after(s, b0, n - 1);
        let a1 = bad_after(s, b1, n - 1);
        assert(forall|x: u64| #[trigger] a0.contains(x) == a1.contains(x)) by {
            assert forall|x: u64| #[trigger] a0.contains(x) == a1.contains(x) by {
                lemma_bad_after_congruent(s, b0, b1, n - 1, x);
            }
        }
        lemma_bad_insert_contains(a0, s[n - 1].hash, g);
        lemma_bad_insert_contains(a1, s[n - 1].hash, g);
    }
}

/// Cutting the head off the stage: the walk from `bad0` over `n` items is
/// the walk over the tail from the head's step.
proof fn lemma_bad_after_shift(s: Seq<Verified>, bad0: Seq<u64>, n: int)
    requires
        1 <= n <= s.len(),
    ensures
        bad_after(s, bad0, n) == bad_after(s.drop_first(), bad_step(bad0, s[0]), n - 1),
    decreases n,
{
    let t = s.drop_first();
    if n == 1 {
        assert(bad_after(s, bad0, 0) == bad0);
        assert(bad_after(t, bad_step(bad0, s[0]), 0) == bad_step(bad0, s[0]));
    } else {
        lemma_bad_after_shift(s, bad0, n - 1);
        assert(t[n - 2] == s[n - 1]);
        assert(bad_after(t, bad_step(bad0, s[0]), n - 1) == bad_step(
            bad_after(t, bad_step(bad0, s[0]), n - 2),
            t[n - 2],
        ));
    }
}

/// The purge only ever grows the bad set.
proof fn lemma_purge_bad_monotone(m: QueueModel, g: u64)
    requires
        m.bad.contains(g),
    ensures
        spec_purge_verified(m).bad.contains(g),
    decreases m.verified.len(),
{
    if m.verified.len() != 0 {
        let v = m.verified[0];
        let m1 = QueueModel {
            verified: m.verified.drop_first(),
            size_verified: (m.size_verified - v.size) as usize,
            ..m
        };
        if m.bad.contains(v.parent_hash) {
            let mc = spec_condemn(m1, v.hash);
            lemma_bad_insert_contains(m1.bad, v.hash, g);
            lemma_purge_bad_monotone(mc, g);
        } else {
            lemma_purge_bad_monotone(m1, g);
        }
    }
}

/// The purge only ever shrinks the processing table.
proof fn lemma_forget_proc_monotone(m: QueueModel, h: u64, g: u64)
    requires
        proc_contains(spec_forget(m, h).processing, g),
    ensures
        proc_contains(m.processing, g),
{
    if proc_contains(m.processing, h) {
        let i = proc_idx(m.processing, h);
        let s2 = m.processing.remove(i);
        let k = choose|k: int| 0 <= k < s2.len() && s2[k].hash == g;
        if k < i {
            assert(m.processing[k].hash == g);
        } else {
            assert(m.processing[k + 1].hash == g);
        }
    }
}

proof fn lemma_purge_proc_monotone(m: QueueModel, g: u64)
    requires
        proc_contains(spec_purge_verified(m).processing, g),
    ensures
        proc_contains(m.processing, g),
    decreases m.verified.len(),
{
    if m.verified.len() != 0 {
        let v = m.verified[0];
        let m1 = QueueModel {
            verified: m.verified.drop_first(),
            size_verified: (m.size_verified - v.size) as usize,
            ..m
        };
        if m.bad.contains(v.parent_hash) {
            let mc = spec_condemn(m1, v.hash);
            lemma_purge_proc_monotone(mc, g);
            lemma_forget_proc_monotone(
                QueueModel { bad: bad_insert(m1.bad, v.hash), ..m1 },
                v.hash,
                g,
            );
        } else {
            lemma_purge_proc_monotone(m1, g);
        }
    }
}

/// The heart of the condemnation law: the one purge pass condemns every
/// item that descends from the bad set and strikes it from the processing
/// table.
proof fn lemma_purge_condemns(m: QueueModel, j: int)
    requires
        wf(m),
        0 <= j < m.verified.len(),
        bad_after(m.verified, m.bad, j).contains(m.verified[j].parent_hash),
    ensures
        spec_purge_verified(m).bad.contains(m.verified[j].hash),
        !proc_contains(spec_purge_verified(m).processing, m.verified[j].hash),
    decreases m.verified.len(),
{
    let v = m.verified[0];
    assert(sum_verified_sizes(m.verified) == v.size as int + sum_verified_sizes(
        m.verified.drop_first(),
    ));
    lemma_sum_by_nonneg(m.verified.drop_first(), w_verified_size());
    let m1 = QueueModel {
        verified: m.verified.drop_first(),
        size_verified: (m.size_verified - v.size) as usize,
        ..m
    };
    assert(wf(m1));
    if m.bad.contains(v.parent_hash) {
        let mc = spec_condemn(m1, v.hash);
        lemma_condemn_wf(m1, v.hash);
        assert(mc.bad == bad_insert(m1.bad, v.hash));
        assert(mc.bad.contains(v.hash)) by {
            lemma_bad_insert_contains(m1.bad, v.hash, v.hash);
        }
        if j == 0 {
            lemma_purge_bad_monotone(mc, v.hash);
            if proc_contains(spec_purge_verified(mc).processing, v.hash) {
                lemma_purge_proc_monotone(mc, v.hash);
            }
        } else {
            lemma_bad_after_shift(m.verified, m.bad, j);
            assert(bad_step(m.bad, v) == mc.bad);
            assert(mc.verified == m.verified.drop_first());
            assert(mc.verified[j - 1] == m.verified[j]);
            lemma_purge_condemns(mc, j - 1);
        }
    } else {
        assert(bad_after(m.verified, m.bad, 0) == m.bad);
        assert(j != 0);
        lemma_bad_after_shift(m.verified, m.bad, j);
        assert(bad_step(m.bad, v) == m.bad);
        assert(m1.verified[j - 1] == m.verified[j]);
        lemma_purge_condemns(m1, j - 1);
        let m2 = spec_purge_verified(m1);
        assert(spec_purge_verified(m).bad == m2.bad);
        assert(spec_purge_verified(m).processing == m2.processing);
    }
}

/// Condemning a batch puts every argument, and keeps every older condemned
/// hash, in the bad set — and nothing else enters it.
proof fn lemma_condemn_loop_bad(m: QueueModel, hs: Seq<u64>, g: u64)
    ensures
        spec_condemn_loop(m, hs).bad.contains(g) == (m.bad.contains(g) || hs.contains(g)),
    decreases hs.len(),
{
    if hs.len() == 0 {
        if hs.contains(g) {
            let k = choose|k: int| 0 <= k < hs.len() && hs[k] == g;
        }
    } else {
        let mc = spec_condemn(m, hs[0]);
        assert(mc.bad == bad_insert(m.bad, hs[0]));
        lemma_bad_insert_contains(m.bad, hs[0], g);
        lemma_condemn_loop_bad(mc, hs.drop_first(), g);
        assert(spec_condemn_loop(m, hs) == spec_condemn_loop(mc, hs.drop_first()));
        assert(hs.contains(g) == (g == hs[0] || hs.drop_first().contains(g))) by {
            if hs.contains(g) {
                let k = choose|k: int| 0 <= k < hs.len() && hs[k] == g;
                if k > 0 {
                    assert(hs.drop_first()[k - 1] == g);
                }
            }
            if hs.drop_first().contains(g) {
                let k = choose|k: int|
                    0 <= k < hs.drop_first().len() && hs.drop_first()[k] == g;
                assert(hs[k + 1] == g);
            }
        }
    }
}

/// Law: after `mark_as_bad`, every item that stood in the verified stage
/// and whose parent chain, within the stage and in stage order, meets the
/// condemned hashes (or the older bad set) has its hash in the bad set and
/// out of the processing table.
pub proof fn lemma_mark_bad_condemns_descendants(m: QueueModel, hs: Seq<u64>, j: int)
    requires
        wf(m),
        hs.len() > 0,
        0 <= j < m.verified.len(),
        bad_after(m.verified, m.bad + hs, j).contains(m.verified[j].parent_hash),
    ensures
        spec_mark_bad(m, hs).bad.contains(m.verified[j].hash),
        !proc_contains(spec_mark_bad(m, hs).processing, m.verified[j].hash),
{
    let m1 = spec_condemn_loop(m, hs);
    lemma_condemn_loop_wf(m, hs);
    assert(forall|x: u64| #[trigger] (m.bad + hs).contains(x) == m1.bad.contains(x)) by {
        assert forall|x: u64| #[trigger] (m.bad + hs).contains(x) == m1.bad.contains(x) by {
            lemma_condemn_loop_bad(m, hs, x);
            assert((m.bad + hs).contains(x) == (m.bad.contains(x) || hs.contains(x))) by {
                if (m.bad + hs).contains(x) {
                    let k = choose|k: int|
                        0 <= k < (m.bad + hs).len() && (m.bad + hs)[k] == x;
                    if k < m.bad.len() {
                        assert(m.bad[k] == x);
                    } else {
                        assert(hs[k - m.bad.len()] == x);
                    }
                }
                if m.bad.contains(x) {
                    let k = choose|k: int| 0 <= k < m.bad.len() && m.bad[k] == x;
                    assert((m.bad + hs)[k] == x);
                }
                if hs.contains(x) {
                    let k = choose|k: int| 0 <= k < hs.len() && hs[k] == x;
                    assert((m.bad + hs)[k + m.bad.len()] == x);
                }
            }
        }
    }
    lemma_bad_after_congruent(
        m.verified,
        m.bad + hs,
        m1.bad,
        j,
        m.verified[j].parent_hash,
    );
    lemma_purge_condemns(m1, j);
}

/// Law: importing one item into an otherwise empty queue, flushing, and
/// draining yields exactly that item — precisely when the queue accepts it
/// and the heavy verification succeeds; on any rejection or verification
/// failure the drain yields nothing.
pub proof fn lemma_single_item_round_trip(m: QueueModel, x: Input, max: usize)
    requires
        wf(m),
        m.unverified.len() == 0,
        m.verifying.len() == 0,
        m.verified.len() == 0,
        import_fits(m, x),
        max >= 1,
    ensures
        ({
            let (m1, r) = spec_import(m, x);
            let (m3, out) = spec_drain(spec_flush(m1), max);
            out == if r is Ok && x.valid {
                seq![spec_verified_of(spec_unverified_of(x))]
            } else {
                Seq::<Verified>::empty()
            }
        }),
{
    let (m1, r) = spec_import(m, x);
    if r is Ok {
        // The queue accepted: exactly one item waits, nothing is in flight,
        // and the parent is not condemned (import would have rejected).
        assert(m1 == spec_admit(m, x));
        lemma_admit_wf(m, x);
        let ux = spec_unverified_of(x);
        assert(m1.unverified =~= seq![ux]);
        lemma_flush_step(m1);
        let (ms, it) = spec_start(m1);
        assert(it == Some(ux));
        lemma_start_wf(m1);
        assert(ms.verifying =~= seq![Verifying { hash: ux.hash, output: None }]);
        let (mf, _) = spec_finish(ms, ux);
        assert(mf.unverified =~= Seq::<crate::item::Unverified>::empty());
        assert(spec_flush(mf) == spec_drain_verifying(mf));
        assert(spec_drain_verifying(mf) == mf);
        assert(spec_flush(m1) == mf);
        if x.valid {
            let out = spec_verified_of(ux);
            assert(spec_verify_outcome(ux) == Some(out));
            let ph = Verifying { hash: ux.hash, output: Some(out) };
            let mu = QueueModel {
                verifying: ms.verifying.update(0, ph),
                size_verifying: (ms.size_verifying + out.size) as usize,
                ..ms
            };
            assert(mu.verifying =~= seq![ph]);
            let md = QueueModel {
                verifying: mu.verifying.drop_first(),
                size_verifying: (mu.size_verifying - out.size) as usize,
                ..mu
            };
            assert(md.verifying =~= Seq::<Verifying>::empty());
            assert(!mu.bad.contains(out.parent_hash));
            let mk = QueueModel {
                verified: md.verified.push(out),
                size_verified: (md.size_verified + out.size) as usize,
                ..md
            };
            assert(mk.verifying.len() == 0);
            assert(spec_drain_verifying(mk) == mk);
            assert(spec_drain_verifying(mu) == mk);
            assert(mf.verified =~= seq![out]);
            let (m3, outs) = spec_drain(mf, max);
            assert(mf.verified.take(1) =~= seq![out]);
            assert(outs =~= seq![out]);
        } else {
            assert(spec_verify_outcome(ux) is None);
            assert(ms.verifying.drop_first() =~= Seq::<Verifying>::empty());
            assert(verifying_without(Seq::<Verifying>::empty(), ux.hash)
                == Seq::<Verifying>::empty());
            assert(verifying_without(ms.verifying, ux.hash) =~= Seq::<Verifying>::empty());
            assert(mf.verified =~= Seq::<Verified>::empty());
            let (m3, outs) = spec_drain(mf, max);
            assert(mf.verified.take(0) =~= Seq::<Verified>::empty());
            assert(outs =~= Seq::<Verified>::empty());
        }
    } else {
        // Rejected: nothing entered the stages, so the flush finds nothing
        // and the drain yields nothing.
        assert(m1.unverified.len() == 0);
        assert(m1.verifying.len() == 0);
        assert(m1.verified.len() == 0);
        assert(spec_flush(m1) == spec_drain_verifying(m1));
        assert(spec_drain_verifying(m1) == m1);
        let (m3, outs) = spec_drain(m1, max);
        assert(m1.verified.take(0) =~= Seq::<Verified>::empty());
        assert(outs =~= Seq::<Verified>::empty());
    }
}

} // verus!
