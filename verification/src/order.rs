//! The pipeline's central contract: items leave in the order they were
//! accepted, minus the invalid ones.
//!
//! `stage_order` lists every accepted hash still inside the queue, oldest
//! first.  The laws here say how each operation moves that sequence: an
//! accepted import appends to it, claiming keeps it, committing and
//! condemning only strike elements out, and a drain takes an exact prefix.
//! Chained with `lemma_subseq_trans`, they give that the concatenation of
//! all drained batches is a subsequence of the accepted imports.

use vstd::prelude::*;

use crate::item::{spec_verify_outcome, Input, Unverified, Verifying};
use crate::lemmas::{lemma_condemn_loop_wf, lemma_finish_outputs};
use crate::model::{
    spec_admit, spec_clear, spec_condemn, spec_condemn_loop, spec_drain, spec_drain_verifying,
    spec_finish, spec_flush, spec_forget, spec_mark_bad, spec_mark_good, spec_mark_good_loop,
    spec_purge_verified, spec_signal_set, spec_start, stage_order, subseq_of, unv_hashes,
    verifying_first_idx, verifying_has, verifying_without, vfd_hashes, vfy_hashes, QueueModel,
};

verus! {

// ---------------------------------------------------------------------------
// Subsequences.

pub proof fn lemma_subseq_refl(a: Seq<u64>)
    ensures
        subseq_of(a, a),
    decreases a.len(),
{
    if a.len() != 0 {
        lemma_subseq_refl(a.drop_first());
    }
}

/// Anything is a subsequence of itself with a prefix put in front.
pub proof fn lemma_subseq_prepend(x: Seq<u64>, a: Seq<u64>)
    ensures
        subseq_of(a, x + a),
    decreases x.len(),
{
    if x.len() == 0 {
        assert(x + a =~= a);
        lemma_subseq_refl(a);
    } else {
        lemma_subseq_prepend(x.drop_first(), a);
        assert((x + a).drop_first() =~= x.drop_first() + a);
        if a.len() != 0 {
            assert(subseq_of(a, x + a));
        }
    }
}

pub proof fn lemma_subseq_trans(a: Seq<u64>, b: Seq<u64>, c: Seq<u64>)
    requires
        subseq_of(a, b),
        subseq_of(b, c),
    ensures
        subseq_of(a, c),
    decreases c.len(), b.len(),
{
    if a.len() == 0 || b.len() == 0 || c.len() == 0 {
    } else {
        if b[0] == c[0] && subseq_of(b.drop_first(), c.drop_first()) {
            if a[0] == b[0] && subseq_of(a.drop_first(), b.drop_first()) {
                lemma_subseq_trans(a.drop_first(), b.drop_first(), c.drop_first());
            } else {
                assert(subseq_of(a, b.drop_first()));
                lemma_subseq_trans(a, b.drop_first(), c.drop_first());
            }
        } else {
            assert(subseq_of(b, c.drop_first()));
            lemma_subseq_trans(a, b, c.drop_first());
        }
    }
}

/// Striking elements out on the left keeps a subsequence when a common
/// suffix follows.
pub proof fn lemma_subseq_concat_right(a: Seq<u64>, b: Seq<u64>, y: Seq<u64>)
    requires
        subseq_of(a, b),
    ensures
        subseq_of(a + y, b + y),
    decreases b.len(),
{
    if a.len() == 0 {
        assert(a + y =~= y);
        lemma_subseq_prepend(b, y);
    } else {
        if a[0] == b[0] && subseq_of(a.drop_first(), b.drop_first()) {
            lemma_subseq_concat_right(a.drop_first(), b.drop_first(), y);
            assert((a + y).drop_first() =~= a.drop_first() + y);
            assert((b + y).drop_first() =~= b.drop_first() + y);
            assert(subseq_of(a + y, b + y));
        } else {
            assert(subseq_of(a, b.drop_first()));
            lemma_subseq_concat_right(a, b.drop_first(), y);
            assert((b + y).drop_first() =~= b.drop_first() + y);
            assert((a + y).len() != 0);
            assert(subseq_of(a + y, b + y));
        }
    }
}

/// A common prefix in front keeps a subsequence.
pub proof fn lemma_subseq_concat_left(x: Seq<u64>, a: Seq<u64>, b: Seq<u64>)
    requires
        subseq_of(a, b),
    ensures
        subseq_of(x + a, x + b),
    decreases x.len(),
{
    if x.len() == 0 {
        assert(x + a =~= a);
        assert(x + b =~= b);
    } else {
        lemma_subseq_concat_left(x.drop_first(), a, b);
        assert((x + a).drop_first() =~= x.drop_first() + a);
        assert((x + b).drop_first() =~= x.drop_first() + b);
        assert((x + a)[0] == (x + b)[0]);
        assert(subseq_of(x + a, x + b));
    }
}

/// Withdrawing the placeholders of one hash strikes elements out in place.
proof fn lemma_subseq_without(s: Seq<Verifying>, h: u64)
    ensures
        subseq_of(vfy_hashes(verifying_without(s, h)), vfy_hashes(s)),
    decreases s.len(),
{
    if s.len() == 0 {
        assert(verifying_without(s, h) =~= Seq::<Verifying>::empty());
        assert(vfy_hashes(Seq::<Verifying>::empty()) =~= Seq::<u64>::empty());
    } else {
        lemma_subseq_without(s.drop_first(), h);
        let w = verifying_without(s.drop_first(), h);
        assert(vfy_hashes(s).drop_first() =~= vfy_hashes(s.drop_first()));
        if s[0].hash == h {
            if vfy_hashes(w).len() != 0 {
                assert(subseq_of(vfy_hashes(w), vfy_hashes(s)));
            }
        } else {
            assert(vfy_hashes(seq![s[0]] + w) =~= seq![s[0].hash] + vfy_hashes(w));
            assert((seq![s[0].hash] + vfy_hashes(w)).drop_first() =~= vfy_hashes(w));
            assert((seq![s[0].hash] + vfy_hashes(w))[0] == vfy_hashes(s)[0]);
            assert(subseq_of(seq![s[0].hash] + vfy_hashes(w), vfy_hashes(s)));
        }
    }
}

// ---------------------------------------------------------------------------
// How each operation moves the accepted order.

/// Law: an accepted import appends the new hash to the order; rejections
/// leave it alone.
pub proof fn lemma_order_admit(m: QueueModel, x: Input)
    ensures
        stage_order(spec_admit(m, x)) == stage_order(m).push(x.hash),
{
    assert(stage_order(spec_admit(m, x)) =~= stage_order(m).push(x.hash));
}

/// Law: claiming an item moves its hash across a stage boundary and keeps
/// the order.
pub proof fn lemma_order_start(m: QueueModel)
    ensures
        stage_order(spec_start(m).0) == stage_order(m),
{
    if m.unverified.len() != 0 {
        assert(stage_order(spec_start(m).0) =~= stage_order(m));
    }
}

/// Law: the head-of-line commit only strikes condemned hashes out.
pub proof fn lemma_order_drain_verifying(m: QueueModel)
    requires
        crate::model::wf_outputs(m),
    ensures
        subseq_of(stage_order(spec_drain_verifying(m)), stage_order(m)),
    decreases m.verifying.len(),
{
    if m.verifying.len() == 0 || m.verifying[0].output is None {
        lemma_subseq_refl(stage_order(m));
    } else {
        let out = m.verifying[0].output->Some_0;
        let m1 = QueueModel {
            verifying: m.verifying.drop_first(),
            size_verifying: (m.size_verifying - out.size) as usize,
            ..m
        };
        let tail = vfy_hashes(m.verifying.drop_first()) + unv_hashes(m.unverified);
        assert(crate::model::wf_outputs(m1)) by {
            assert(forall|k: int|
                0 <= k < m1.verifying.len() ==> m1.verifying[k] == m.verifying[k + 1]);
        }
        if m.bad.contains(out.parent_hash) {
            let mb = QueueModel { bad: crate::model::bad_insert(m1.bad, out.hash), ..m1 };
            lemma_order_drain_verifying(mb);
            assert(stage_order(mb) =~= vfd_hashes(m.verified) + tail);
            assert(stage_order(m) =~= vfd_hashes(m.verified) + (seq![
                m.verifying[0].hash,
            ] + tail));
            lemma_subseq_prepend(seq![m.verifying[0].hash], tail);
            lemma_subseq_concat_left(vfd_hashes(m.verified), tail, seq![
                m.verifying[0].hash,
            ] + tail);
            lemma_subseq_trans(
                stage_order(spec_drain_verifying(m)),
                stage_order(mb),
                stage_order(m),
            );
        } else {
            let mk = QueueModel {
                verified: m1.verified.push(out),
                size_verified: (m1.size_verified + out.size) as usize,
                ..m1
            };
            lemma_order_drain_verifying(mk);
            assert(out.hash == m.verifying[0].hash);
            assert(stage_order(mk) =~= stage_order(m));
            assert(spec_drain_verifying(m) == spec_drain_verifying(mk));
        }
    }
}

/// Law: committing an outcome only strikes hashes out of the order — the
/// verified form keeps its place, a failure withdraws its placeholder.
pub proof fn lemma_order_finish(m: QueueModel, it: Unverified)
    requires
        crate::model::wf_outputs(m),
    ensures
        subseq_of(stage_order(spec_finish(m, it).0), stage_order(m)),
{
    match spec_verify_outcome(it) {
        Some(out) => {
            if verifying_has(m.verifying, it.hash) {
                let i = verifying_first_idx(m.verifying, it.hash);
                crate::lemmas::lemma_verifying_first_idx(m.verifying, it.hash);
                let ph = Verifying { hash: it.hash, output: Some(out) };
                let m1 = QueueModel {
                    verifying: m.verifying.update(i, ph),
                    size_verifying: (m.size_verifying + out.size) as usize,
                    ..m
                };
                assert(stage_order(m1) =~= stage_order(m)) by {
                    assert(vfy_hashes(m.verifying.update(i, ph)) =~= vfy_hashes(m.verifying));
                }
                assert(crate::model::wf_outputs(m1));
                if i == 0 {
                    lemma_order_drain_verifying(m1);
                    let m2 = spec_drain_verifying(m1);
                    assert(spec_finish(m, it).0 == spec_signal_set(m2).0);
                    assert(stage_order(spec_signal_set(m2).0) == stage_order(m2));
                } else {
                    lemma_subseq_refl(stage_order(m));
                }
            } else {
                lemma_subseq_refl(stage_order(m));
            }
        },
        None => {
            let m1 = QueueModel {
                bad: crate::model::bad_insert(m.bad, it.hash),
                verifying: verifying_without(m.verifying, it.hash),
                ..m
            };
            lemma_subseq_without(m.verifying, it.hash);
            lemma_subseq_concat_right(
                vfy_hashes(verifying_without(m.verifying, it.hash)),
                vfy_hashes(m.verifying),
                unv_hashes(m.unverified),
            );
            lemma_subseq_concat_left(
                vfd_hashes(m.verified),
                vfy_hashes(verifying_without(m.verifying, it.hash)) + unv_hashes(m.unverified),
                vfy_hashes(m.verifying) + unv_hashes(m.unverified),
            );
            assert(stage_order(m1) =~= vfd_hashes(m.verified) + (vfy_hashes(
                verifying_without(m.verifying, it.hash),
            ) + unv_hashes(m.unverified)));
            assert(stage_order(m) =~= vfd_hashes(m.verified) + (vfy_hashes(m.verifying)
                + unv_hashes(m.unverified)));
            assert(subseq_of(stage_order(m1), stage_order(m)));
            if m1.verifying.len() > 0 && m1.verifying[0].output is Some {
                assert(crate::model::wf_outputs(m1)) by {
                    crate::lemmas::lemma_verifying_without_membership(m.verifying, it.hash);
                    assert forall|k: int|
                        0 <= k < m1.verifying.len() implies match (#[trigger] m1.verifying[k]).output {
                        Some(v) => v.hash == m1.verifying[k].hash,
                        None => true,
                    } by {
                        let j = choose|j: int|
                            0 <= j < m.verifying.len() && m1.verifying[k] == m.verifying[j];
                        assert(match m.verifying[j].output {
                            Some(v) => v.hash == m.verifying[j].hash,
                            None => true,
                        });
                    }
                }
                lemma_order_drain_verifying(m1);
                let m2 = spec_drain_verifying(m1);
                assert(stage_order(spec_signal_set(m2).0) == stage_order(m2));
                lemma_subseq_trans(stage_order(m2), stage_order(m1), stage_order(m));
            }
        },
    }
}

/// Law: a flush only strikes condemned hashes out of the order.
pub proof fn lemma_order_flush(m: QueueModel)
    requires
        crate::model::wf_outputs(m),
    ensures
        subseq_of(stage_order(spec_flush(m)), stage_order(m)),
    decreases m.unverified.len(),
{
    if m.unverified.len() == 0 {
        lemma_order_drain_verifying(m);
    } else {
        let (m1, it) = spec_start(m);
        let (m2, _) = spec_finish(m1, it->Some_0);
        lemma_order_start(m);
        assert(crate::model::wf_outputs(m1)) by {
            assert(forall|k: int|
                0 <= k < m.verifying.len() ==> m1.verifying[k] == m.verifying[k]);
        }
        lemma_order_finish(m1, it->Some_0);
        lemma_finish_outputs(m1, it->Some_0);
        crate::model::lemma_finish_stable(m1, it->Some_0);
        lemma_order_flush(m2);
        lemma_subseq_trans(stage_order(spec_flush(m2)), stage_order(m2), stage_order(m1));
    }
}

/// Law: a drain hands out exactly a prefix of the order and keeps the rest.
pub proof fn lemma_order_drain(m: QueueModel, max: usize)
    ensures
        vfd_hashes(spec_drain(m, max).1) + stage_order(spec_drain(m, max).0) == stage_order(m),
{
    let count = if (max as int) < m.verified.len() {
        max as int
    } else {
        m.verified.len() as int
    };
    assert(vfd_hashes(spec_drain(m, max).1) + stage_order(spec_drain(m, max).0) =~= stage_order(
        m,
    )) by {
        assert(m.verified.take(count) + m.verified.skip(count) =~= m.verified);
    }
}

/// Law: acknowledging hashes leaves the order untouched — the stages do not
/// change.
pub proof fn lemma_order_mark_good(m: QueueModel, hs: Seq<u64>)
    ensures
        stage_order(spec_mark_good(m, hs).0) == stage_order(m),
{
    lemma_order_mark_good_loop(m, hs);
}

proof fn lemma_order_mark_good_loop(m: QueueModel, hs: Seq<u64>)
    ensures
        spec_mark_good_loop(m, hs).unverified == m.unverified,
        spec_mark_good_loop(m, hs).verifying == m.verifying,
        spec_mark_good_loop(m, hs).verified == m.verified,
        stage_order(spec_mark_good_loop(m, hs)) == stage_order(m),
    decreases hs.len(),
{
    if hs.len() != 0 {
        lemma_order_mark_good_loop(spec_forget(m, hs[0]), hs.drop_first());
    }
}

/// Law: condemnation only strikes hashes out of the order.
pub proof fn lemma_order_mark_bad(m: QueueModel, hs: Seq<u64>)
    requires
        crate::model::wf(m),
    ensures
        subseq_of(stage_order(spec_mark_bad(m, hs)), stage_order(m)),
{
    if hs.len() == 0 {
        lemma_subseq_refl(stage_order(m));
    } else {
        let m1 = spec_condemn_loop(m, hs);
        lemma_condemn_loop_wf(m, hs);
        assert(stage_order(m1) == stage_order(m));
        lemma_order_purge(m1);
    }
}

proof fn lemma_order_purge(m: QueueModel)
    ensures
        subseq_of(stage_order(spec_purge_verified(m)), stage_order(m)),
    decreases m.verified.len(),
{
    if m.verified.len() == 0 {
        lemma_subseq_refl(stage_order(m));
    } else {
        let v = m.verified[0];
        let m1 = QueueModel {
            verified: m.verified.drop_first(),
            size_verified: (m.size_verified - v.size) as usize,
            ..m
        };
        let tail = vfy_hashes(m.verifying) + unv_hashes(m.unverified);
        assert(stage_order(m) =~= seq![v.hash] + (vfd_hashes(m.verified.drop_first()) + tail));
        if m.bad.contains(v.parent_hash) {
            let mc = spec_condemn(m1, v.hash);
            lemma_order_purge(mc);
            assert(stage_order(mc) =~= vfd_hashes(m.verified.drop_first()) + tail);
            lemma_subseq_prepend(seq![v.hash], vfd_hashes(m.verified.drop_first()) + tail);
            lemma_subseq_trans(
                stage_order(spec_purge_verified(mc)),
                stage_order(mc),
                stage_order(m),
            );
        } else {
            lemma_order_purge(m1);
            let m2 = spec_purge_verified(m1);
            let mk = QueueModel {
                verified: seq![v] + m2.verified,
                size_verified: (m2.size_verified + v.size) as usize,
                ..m2
            };
            assert(stage_order(m1) =~= vfd_hashes(m.verified.drop_first()) + tail);
            assert(stage_order(mk) =~= seq![v.hash] + stage_order(m2)) by {
                assert(vfd_hashes(seq![v] + m2.verified) =~= seq![v.hash] + vfd_hashes(
                    m2.verified,
                ));
            }
            assert(subseq_of(stage_order(m2), stage_order(m1)));
            lemma_subseq_concat_left(seq![v.hash], stage_order(m2), stage_order(m1));
            assert(seq![v.hash] + stage_order(m1) =~= stage_order(m));
            assert(subseq_of(stage_order(mk), stage_order(m)));
        }
    }
}

/// Law: clearing empties the order.
pub proof fn lemma_order_clear(m: QueueModel)
    ensures
        stage_order(spec_clear(m)) == Seq::<u64>::empty(),
{
    assert(stage_order(spec_clear(m)) =~= Seq::<u64>::empty());
}

} // verus!
