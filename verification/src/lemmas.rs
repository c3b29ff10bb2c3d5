//! Proof library: how the weighted sums and the lookup tables behave under
//! the sequence operations the queue performs, and that every transition of
//! the model preserves well-formedness.

use vstd::prelude::*;

use crate::item::{spec_unverified_of, spec_verify_outcome, Input, Unverified, Verifying};
use crate::model::{
    bad_insert, count_children, finish_fits, import_fits, parents_bump, parents_drop,
    parents_has, parents_idx, parents_lookup, parents_unique, proc_contains, proc_idx,
    proc_unique, spec_admit, spec_clear, spec_condemn, spec_condemn_loop, spec_drain_verifying,
    spec_finish, spec_flush, spec_forget, spec_purge_verified, spec_start,
    sum_by, sum_difficulty, sum_unverified_sizes, sum_verified_sizes, sum_verifying_sizes,
    verifying_first_idx, verifying_has, verifying_without, w_child, w_difficulty,
    w_unverified_size, w_verified_size, w_verifying_size, wf, wf_outputs, ParentCount,
    ProcEntry, QueueModel,
};

verus! {

// ---------------------------------------------------------------------------
// Weighted sums under sequence operations.

pub proof fn lemma_sum_by_push<T>(s: Seq<T>, f: spec_fn(T) -> int, x: T)
    ensures
        sum_by(s.push(x), f) == sum_by(s, f) + f(x),
    decreases s.len(),
{
    if s.len() == 0 {
        assert(s.push(x)[0] == x);
        assert(s.push(x).drop_first() =~= Seq::<T>::empty());
        assert(sum_by(Seq::<T>::empty(), f) == 0);
    } else {
        assert(s.push(x)[0] == s[0]);
        assert(s.push(x).drop_first() =~= s.drop_first().push(x));
        lemma_sum_by_push(s.drop_first(), f, x);
    }
}

pub proof fn lemma_sum_by_remove<T>(s: Seq<T>, f: spec_fn(T) -> int, i: int)
    requires
        0 <= i < s.len(),
    ensures
        sum_by(s.remove(i), f) == sum_by(s, f) - f(s[i]),
    decreases s.len(),
{
    if i == 0 {
        assert(s.remove(0) =~= s.drop_first());
    } else {
        assert(s.remove(i).drop_first() =~= s.drop_first().remove(i - 1));
        lemma_sum_by_remove(s.drop_first(), f, i - 1);
    }
}

pub proof fn lemma_sum_by_update<T>(s: Seq<T>, f: spec_fn(T) -> int, i: int, x: T)
    requires
        0 <= i < s.len(),
    ensures
        sum_by(s.update(i, x), f) == sum_by(s, f) - f(s[i]) + f(x),
    decreases s.len(),
{
    if i == 0 {
        assert(s.update(0, x)[0] == x);
        assert(s.update(0, x).drop_first() =~= s.drop_first());
    } else {
        assert(s.update(i, x)[0] == s[0]);
        assert(s.update(i, x).drop_first() =~= s.drop_first().update(i - 1, x));
        lemma_sum_by_update(s.drop_first(), f, i - 1, x);
    }
}

pub proof fn lemma_sum_by_nonneg<T>(s: Seq<T>, f: spec_fn(T) -> int)
    requires
        forall|t: T| #[trigger] f(t) >= 0,
    ensures
        sum_by(s, f) >= 0,
    decreases s.len(),
{
    if s.len() != 0 {
        lemma_sum_by_nonneg(s.drop_first(), f);
    }
}

pub proof fn lemma_sum_by_le_len<T>(s: Seq<T>, f: spec_fn(T) -> int)
    requires
        forall|t: T| #[trigger] f(t) <= 1,
    ensures
        sum_by(s, f) <= s.len(),
    decreases s.len(),
{
    if s.len() != 0 {
        lemma_sum_by_le_len(s.drop_first(), f);
    }
}

/// Split a sum at an index: prefix, the element, and the rest.
pub proof fn lemma_sum_by_split<T>(s: Seq<T>, f: spec_fn(T) -> int, i: int)
    requires
        0 <= i <= s.len(),
    ensures
        sum_by(s, f) == sum_by(s.take(i), f) + sum_by(s.skip(i), f),
    decreases i,
{
    if i == 0 {
        assert(s.take(0) =~= Seq::<T>::empty());
        assert(s.skip(0) =~= s);
    } else {
        assert(s.take(i)[0] == s[0]);
        assert(s.take(i).drop_first() =~= s.drop_first().take(i - 1));
        assert(s.skip(i) =~= s.drop_first().skip(i - 1));
        lemma_sum_by_split(s.drop_first(), f, i - 1);
    }
}

/// A single element bounds the sum from below when weights are nonnegative.
pub proof fn lemma_sum_by_at_least<T>(s: Seq<T>, f: spec_fn(T) -> int, i: int)
    requires
        forall|t: T| #[trigger] f(t) >= 0,
        0 <= i < s.len(),
    ensures
        sum_by(s, f) >= f(s[i]),
{
    lemma_sum_by_split(s, f, i);
    lemma_sum_by_nonneg(s.take(i), f);
    lemma_sum_by_nonneg(s.skip(i).drop_first(), f);
    assert(s.skip(i)[0] == s[i]);
}

pub proof fn lemma_sum_by_singleton<T>(x: T, f: spec_fn(T) -> int)
    ensures
        sum_by(seq![x], f) == f(x),
{
    assert(seq![x][0] == x);
    assert(seq![x].drop_first() =~= Seq::<T>::empty());
    assert(sum_by(Seq::<T>::empty(), f) == 0);
}

pub proof fn lemma_sum_by_concat<T>(a: Seq<T>, b: Seq<T>, f: spec_fn(T) -> int)
    ensures
        sum_by(a + b, f) == sum_by(a, f) + sum_by(b, f),
{
    lemma_sum_by_split(a + b, f, a.len() as int);
    assert((a + b).take(a.len() as int) =~= a);
    assert((a + b).skip(a.len() as int) =~= b);
}

// ---------------------------------------------------------------------------
// Derived bounds the queue relies on.

/// A parent's child count never exceeds the processing table's length.
pub proof fn lemma_count_children_bounds(s: Seq<ProcEntry>, p: u64)
    ensures
        0 <= count_children(s, p) <= s.len(),
{
    lemma_sum_by_nonneg(s, w_child(p));
    lemma_sum_by_le_len(s, w_child(p));
}

pub proof fn lemma_sum_difficulty_nonneg(s: Seq<ProcEntry>)
    ensures
        sum_difficulty(s) >= 0,
{
    lemma_sum_by_nonneg(s, w_difficulty());
}


// ---------------------------------------------------------------------------
// The lookup tables: a unique key pins its index.

pub proof fn lemma_parents_idx(s: Seq<ParentCount>, p: u64)
    requires
        parents_unique(s),
        parents_has(s, p),
    ensures
        0 <= parents_idx(s, p) < s.len(),
        s[parents_idx(s, p)].hash == p,
        forall|k: int| 0 <= k < s.len() && s[k].hash == p ==> k == parents_idx(s, p),
{
    let i = choose|i: int| 0 <= i < s.len() && s[i].hash == p;
    assert(0 <= i < s.len() && s[i].hash == p);
}

pub proof fn lemma_proc_idx(s: Seq<ProcEntry>, h: u64)
    requires
        proc_unique(s),
        proc_contains(s, h),
    ensures
        0 <= proc_idx(s, h) < s.len(),
        s[proc_idx(s, h)].hash == h,
        forall|k: int| 0 <= k < s.len() && s[k].hash == h ==> k == proc_idx(s, h),
{
    let i = choose|i: int| 0 <= i < s.len() && s[i].hash == h;
    assert(0 <= i < s.len() && s[i].hash == h);
}

/// Bumping a parent raises exactly its recorded count by one.
pub proof fn lemma_parents_bump(s: Seq<ParentCount>, p: u64)
    requires
        parents_unique(s),
        forall|k: int| 0 <= k < s.len() ==> (#[trigger] s[k]).count > 0,
        parents_has(s, p) ==> s[parents_idx(s, p)].count < usize::MAX,
    ensures
        parents_unique(parents_bump(s, p)),
        forall|k: int|
            0 <= k < parents_bump(s, p).len() ==> (#[trigger] parents_bump(s, p)[k]).count > 0,
        forall|q: u64|
            #[trigger] parents_lookup(parents_bump(s, p), q) == parents_lookup(s, q) + (
            if q == p {
                1int
            } else {
                0int
            }),
{
    let s2 = parents_bump(s, p);
    if parents_has(s, p) {
        lemma_parents_idx(s, p);
        let i = parents_idx(s, p);
        assert(forall|k: int| 0 <= k < s.len() ==> s2[k].hash == s[k].hash);
        assert(parents_unique(s2));
        assert forall|q: u64|
            #[trigger] parents_lookup(s2, q) == parents_lookup(s, q) + (
            if q == p {
                1int
            } else {
                0int
            }) by {
            if q == p {
                assert(parents_has(s2, q)) by { assert(s2[i].hash == q) }
                lemma_parents_idx(s2, q);
                assert(parents_idx(s2, q) == i);
            } else {
                if parents_has(s, q) {
                    lemma_parents_idx(s, q);
                    let j = parents_idx(s, q);
                    assert(s2[j].hash == q);
                    lemma_parents_idx(s2, q);
                    assert(parents_idx(s2, q) == j);
                    assert(s2[j] == s[j]);
                } else {
                    assert(!parents_has(s2, q));
                }
            }
        }
    } else {
        let n = s.len() as int;
        assert(forall|k: int| 0 <= k < n ==> (#[trigger] s[k]).hash != p);
        assert(forall|k: int| 0 <= k < n ==> s2[k] == s[k]);
        assert(s2[n] == ParentCount { hash: p, count: 1 });
        assert(parents_unique(s2));
        assert forall|q: u64|
            #[trigger] parents_lookup(s2, q) == parents_lookup(s, q) + (
            if q == p {
                1int
            } else {
                0int
            }) by {
            if q == p {
                assert(parents_has(s2, q)) by { assert(s2[n].hash == q) }
                lemma_parents_idx(s2, q);
                assert(parents_idx(s2, q) == n);
            } else {
                if parents_has(s, q) {
                    lemma_parents_idx(s, q);
                    let j = parents_idx(s, q);
                    assert(s2[j].hash == q);
                    lemma_parents_idx(s2, q);
                    assert(parents_idx(s2, q) == j);
                } else {
                    assert(!parents_has(s2, q));
                }
            }
        }
    }
}

/// Dropping a child of a present parent lowers exactly its count by one.
pub proof fn lemma_parents_drop(s: Seq<ParentCount>, p: u64)
    requires
        parents_unique(s),
        forall|k: int| 0 <= k < s.len() ==> (#[trigger] s[k]).count > 0,
    ensures
        parents_unique(parents_drop(s, p)),
        forall|k: int|
            0 <= k < parents_drop(s, p).len() ==> (#[trigger] parents_drop(s, p)[k]).count > 0,
        forall|q: u64|
            #[trigger] parents_lookup(parents_drop(s, p), q) == parents_lookup(s, q) - (
            if q == p && parents_has(s, p) {
                1int
            } else {
                0int
            }),
{
    let s2 = parents_drop(s, p);
    if parents_has(s, p) {
        lemma_parents_idx(s, p);
        let i = parents_idx(s, p);
        if s[i].count == 1 {
            assert(forall|k: int| 0 <= k < i ==> s2[k] == s[k]);
            assert(forall|k: int| i <= k < s2.len() ==> s2[k] == s[k + 1]);
            assert(parents_unique(s2));
            assert forall|q: u64|
                #[trigger] parents_lookup(s2, q) == parents_lookup(s, q) - (
                if q == p && parents_has(s, p) {
                    1int
                } else {
                    0int
                }) by {
                if q == p {
                    assert(!parents_has(s2, q)) by {
                        if parents_has(s2, q) {
                            let k = choose|k: int| 0 <= k < s2.len() && s2[k].hash == q;
                            if k < i {
                                assert(s[k].hash == q);
                            } else {
                                assert(s[k + 1].hash == q);
                            }
                        }
                    }
                    assert(parents_lookup(s, q) == s[i].count as int);
                } else {
                    if parents_has(s, q) {
                        lemma_parents_idx(s, q);
                        let j = parents_idx(s, q);
                        let j2 = if j < i {
                            j
                        } else {
                            j - 1
                        };
                        assert(s2[j2].hash == q);
                        lemma_parents_idx(s2, q);
                        assert(parents_idx(s2, q) == j2);
                        assert(s2[j2] == s[j]);
                    } else {
                        assert(!parents_has(s2, q)) by {
                            if parents_has(s2, q) {
                                let k = choose|k: int| 0 <= k < s2.len() && s2[k].hash == q;
                                if k < i {
                                    assert(s[k].hash == q);
                                } else {
                                    assert(s[k + 1].hash == q);
                                }
                            }
                        }
                    }
                }
            }
        } else {
            assert(forall|k: int| 0 <= k < s.len() ==> s2[k].hash == s[k].hash);
            assert(parents_unique(s2));
            assert forall|q: u64|
                #[trigger] parents_lookup(s2, q) == parents_lookup(s, q) - (
                if q == p && parents_has(s, p) {
                    1int
                } else {
                    0int
                }) by {
                if q == p {
                    assert(parents_has(s2, q)) by { assert(s2[i].hash == q) }
                    lemma_parents_idx(s2, q);
                    assert(parents_idx(s2, q) == i);
                } else {
                    if parents_has(s, q) {
                        lemma_parents_idx(s, q);
                        let j = parents_idx(s, q);
                        assert(s2[j].hash == q);
                        lemma_parents_idx(s2, q);
                        assert(parents_idx(s2, q) == j);
                        assert(s2[j] == s[j]);
                    } else {
                        assert(!parents_has(s2, q));
                    }
                }
            }
        }
    }
}

// ---------------------------------------------------------------------------
// The verifying stage's first-match lookup and withdrawal.

pub proof fn lemma_verifying_first_idx(s: Seq<Verifying>, h: u64)
    requires
        verifying_has(s, h),
    ensures
        0 <= verifying_first_idx(s, h) < s.len(),
        s[verifying_first_idx(s, h)].hash == h,
        forall|k: int| 0 <= k < verifying_first_idx(s, h) ==> s[k].hash != h,
    decreases s.len(),
{
    if s[0].hash != h {
        assert(verifying_has(s.drop_first(), h)) by {
            let k = choose|k: int| 0 <= k < s.len() && s[k].hash == h;
            assert(s.drop_first()[k - 1].hash == h);
        }
        lemma_verifying_first_idx(s.drop_first(), h);
        let i = verifying_first_idx(s, h);
        assert(s[i] == s.drop_first()[i - 1]);
        assert forall|k: int| 0 <= k < i implies s[k].hash != h by {
            if k > 0 {
                assert(s[k] == s.drop_first()[k - 1]);
            }
        }
    }
}

/// Withdrawing the placeholders of `h` leaves the byte counter alone when
/// none of them carries an output yet.
pub proof fn lemma_verifying_without(s: Seq<Verifying>, h: u64)
    requires
        forall|k: int|
            0 <= k < s.len() && (#[trigger] s[k]).hash == h ==> s[k].output is None,
    ensures
        sum_verifying_sizes(verifying_without(s, h)) == sum_verifying_sizes(s),
        verifying_without(s, h).len() <= s.len(),
        forall|k: int|
            0 <= k < verifying_without(s, h).len() ==> (#[trigger] verifying_without(s, h)[k]).hash
                != h,
        forall|k: int|
            0 <= k < verifying_without(s, h).len() ==> exists|j: int|
                0 <= j < s.len() && #[trigger] verifying_without(s, h)[k] == s[j],
    decreases s.len(),
{
    if s.len() != 0 {
        assert(forall|k: int|
            0 <= k < s.drop_first().len() && (#[trigger] s.drop_first()[k]).hash == h
                ==> s.drop_first()[k].output is None);
        lemma_verifying_without(s.drop_first(), h);
        let rest = verifying_without(s.drop_first(), h);
        if s[0].hash == h {
            assert(s[0].output is None);
            assert forall|k: int| 0 <= k < verifying_without(s, h).len() implies exists|j: int|
                0 <= j < s.len() && #[trigger] verifying_without(s, h)[k] == s[j] by {
                assert(rest[k] == verifying_without(s, h)[k]);
                let j = choose|j: int| 0 <= j < s.drop_first().len() && rest[k] == s.drop_first()[j];
                assert(verifying_without(s, h)[k] == s[j + 1]);
            }
        } else {
            lemma_sum_by_concat(seq![s[0]], rest, w_verifying_size());
            lemma_sum_by_singleton(s[0], w_verifying_size());
            assert(forall|k: int|
                0 <= k < (seq![s[0]] + rest).len() ==> (#[trigger] (seq![s[0]] + rest)[k]).hash
                    != h);
            assert forall|k: int| 0 <= k < verifying_without(s, h).len() implies exists|j: int|
                0 <= j < s.len() && #[trigger] verifying_without(s, h)[k] == s[j] by {
                if k == 0 {
                    assert(verifying_without(s, h)[0] == s[0]);
                } else {
                    assert(verifying_without(s, h)[k] == rest[k - 1]);
                    let j = choose|j: int|
                        0 <= j < s.drop_first().len() && rest[k - 1] == s.drop_first()[j];
                    assert(verifying_without(s, h)[k] == s[j + 1]);
                }
            }
        }
    }
}

// ---------------------------------------------------------------------------
// Every transition preserves well-formedness.

pub proof fn lemma_admit_wf(m: QueueModel, x: Input)
    requires
        wf(m),
        import_fits(m, x),
        !proc_contains(m.processing, x.hash),
    ensures
        wf(spec_admit(m, x)),
{
    let e = ProcEntry { hash: x.hash, difficulty: x.difficulty, parent: x.parent_hash };
    let m2 = spec_admit(m, x);
    let n = m.processing.len() as int;
    assert(forall|k: int| 0 <= k < n ==> (#[trigger] m.processing[k]).hash != x.hash);
    assert(forall|k: int| 0 <= k < n ==> m2.processing[k] == m.processing[k]);
    assert(m2.processing[n] == e);
    assert(proc_unique(m2.processing));
    lemma_sum_by_push(m.processing, w_difficulty(), e);
    lemma_sum_by_push(m.unverified, w_unverified_size(), spec_unverified_of(x));
    if parents_has(m.parents, x.parent_hash) {
        lemma_parents_idx(m.parents, x.parent_hash);
        assert(parents_lookup(m.parents, x.parent_hash) == count_children(
            m.processing,
            x.parent_hash,
        ));
        lemma_count_children_bounds(m.processing, x.parent_hash);
    }
    lemma_parents_bump(m.parents, x.parent_hash);
    assert forall|p: u64|
        #[trigger] parents_lookup(m2.parents, p) == count_children(m2.processing, p) by {
        lemma_sum_by_push(m.processing, w_child(p), e);
        assert(parents_lookup(m.parents, p) == count_children(m.processing, p));
        assert(parents_lookup(m2.parents, p) == parents_lookup(m.parents, p) + (
        if p == x.parent_hash {
            1int
        } else {
            0int
        }));
    }
}

pub proof fn lemma_forget_wf(m: QueueModel, h: u64)
    requires
        wf(m),
    ensures
        wf(spec_forget(m, h)),
        !proc_contains(spec_forget(m, h).processing, h),
        forall|g: u64|
            g != h ==> #[trigger] proc_contains(spec_forget(m, h).processing, g)
                == proc_contains(m.processing, g),
        spec_forget(m, h).processing.len() == m.processing.len() - (
        if proc_contains(m.processing, h) {
            1int
        } else {
            0int
        }),
{
    if proc_contains(m.processing, h) {
        lemma_proc_idx(m.processing, h);
        let i = proc_idx(m.processing, h);
        let e = m.processing[i];
        let s2 = m.processing.remove(i);
        assert(forall|k: int| 0 <= k < i ==> s2[k] == m.processing[k]);
        assert(forall|k: int| i <= k < s2.len() ==> s2[k] == m.processing[k + 1]);
        assert(proc_unique(s2));
        assert(!proc_contains(s2, h)) by {
            if proc_contains(s2, h) {
                let k = choose|k: int| 0 <= k < s2.len() && s2[k].hash == h;
                if k < i {
                    assert(m.processing[k].hash == h);
                } else {
                    assert(m.processing[k + 1].hash == h);
                }
            }
        }
        assert forall|g: u64| g != h implies #[trigger] proc_contains(s2, g) == proc_contains(
            m.processing,
            g,
        ) by {
            if proc_contains(m.processing, g) {
                let k = choose|k: int| 0 <= k < m.processing.len() && m.processing[k].hash == g;
                assert(k != i);
                if k < i {
                    assert(s2[k].hash == g);
                } else {
                    assert(s2[k - 1].hash == g);
                }
            }
            if proc_contains(s2, g) {
                let k = choose|k: int| 0 <= k < s2.len() && s2[k].hash == g;
                if k < i {
                    assert(m.processing[k].hash == g);
                } else {
                    assert(m.processing[k + 1].hash == g);
                }
            }
        }
        lemma_sum_by_remove(m.processing, w_difficulty(), i);
        lemma_sum_difficulty_nonneg(s2);
        lemma_sum_by_at_least(m.processing, w_child(e.parent), i);
        assert(parents_lookup(m.parents, e.parent) == count_children(m.processing, e.parent));
        assert(parents_has(m.parents, e.parent));
        lemma_parents_drop(m.parents, e.parent);
        assert forall|p: u64|
            #[trigger] parents_lookup(spec_forget(m, h).parents, p) == count_children(s2, p) by {
            lemma_sum_by_remove(m.processing, w_child(p), i);
            assert(parents_lookup(m.parents, p) == count_children(m.processing, p));
        }
    }
}

pub proof fn lemma_condemn_wf(m: QueueModel, h: u64)
    requires
        wf(m),
    ensures
        wf(spec_condemn(m, h)),
        !proc_contains(spec_condemn(m, h).processing, h),
        spec_condemn(m, h).bad == bad_insert(m.bad, h),
{
    lemma_forget_wf(QueueModel { bad: bad_insert(m.bad, h), ..m }, h);
}

pub proof fn lemma_start_wf(m: QueueModel)
    requires
        wf(m),
    ensures
        wf(spec_start(m).0),
{
    if m.unverified.len() != 0 {
        let it = m.unverified[0];
        assert(sum_unverified_sizes(m.unverified) == it.size + sum_unverified_sizes(
            m.unverified.drop_first(),
        ));
        lemma_sum_by_nonneg(m.unverified.drop_first(), w_unverified_size());
        lemma_sum_by_push(m.verifying, w_verifying_size(), Verifying { hash: it.hash, output: None });
    }
}

pub proof fn lemma_drain_verifying_wf(m: QueueModel)
    requires
        wf(m),
    ensures
        wf(spec_drain_verifying(m)),
    decreases m.verifying.len(),
{
    if m.verifying.len() != 0 {
        match m.verifying[0].output {
            None => {},
            Some(out) => {
                assert(sum_verifying_sizes(m.verifying) == out.size + sum_verifying_sizes(
                    m.verifying.drop_first(),
                ));
                lemma_sum_by_nonneg(m.verifying.drop_first(), w_verifying_size());
                let m1 = QueueModel {
                    verifying: m.verifying.drop_first(),
                    size_verifying: (m.size_verifying - out.size) as usize,
                    ..m
                };
                if m.bad.contains(out.parent_hash) {
                    lemma_drain_verifying_wf(QueueModel { bad: bad_insert(m1.bad, out.hash), ..m1 });
                } else {
                    lemma_sum_by_push(m1.verified, w_verified_size(), out);
                    lemma_drain_verifying_wf(
                        QueueModel {
                            verified: m1.verified.push(out),
                            size_verified: (m1.size_verified + out.size) as usize,
                            ..m1
                        },
                    );
                }
            },
        }
    }
}

pub proof fn lemma_finish_wf(m: QueueModel, it: Unverified)
    requires
        wf(m),
        finish_fits(m, it),
        forall|k: int|
            0 <= k < m.verifying.len() && (#[trigger] m.verifying[k]).hash == it.hash
                ==> m.verifying[k].output is None,
    ensures
        wf(spec_finish(m, it).0),
{
    match spec_verify_outcome(it) {
        Some(out) => {
            if verifying_has(m.verifying, it.hash) {
                lemma_verifying_first_idx(m.verifying, it.hash);
                let i = verifying_first_idx(m.verifying, it.hash);
                assert(m.verifying[i].output is None);
                lemma_sum_by_update(
                    m.verifying,
                    w_verifying_size(),
                    i,
                    Verifying { hash: it.hash, output: Some(out) },
                );
                let m1 = QueueModel {
                    verifying: m.verifying.update(
                        i,
                        Verifying { hash: it.hash, output: Some(out) },
                    ),
                    size_verifying: (m.size_verifying + out.size) as usize,
                    ..m
                };
                assert(wf(m1));
                if i == 0 {
                    lemma_drain_verifying_wf(m1);
                }
            }
        },
        None => {
            lemma_verifying_without(m.verifying, it.hash);
            let m1 = QueueModel {
                bad: bad_insert(m.bad, it.hash),
                verifying: verifying_without(m.verifying, it.hash),
                ..m
            };
            assert(wf(m1));
            if m1.verifying.len() > 0 && m1.verifying[0].output is Some {
                lemma_drain_verifying_wf(m1);
            }
        },
    }
}

pub proof fn lemma_purge_wf(m: QueueModel)
    requires
        wf(m),
    ensures
        wf(spec_purge_verified(m)),
        spec_purge_verified(m).unverified == m.unverified,
        spec_purge_verified(m).verifying == m.verifying,
        spec_purge_verified(m).size_unverified == m.size_unverified,
        spec_purge_verified(m).size_verifying == m.size_verifying,
        spec_purge_verified(m).size_verified as int <= m.size_verified as int,
        spec_purge_verified(m).signalled == m.signalled,
        spec_purge_verified(m).deleting == m.deleting,
        spec_purge_verified(m).active == m.active,
        spec_purge_verified(m).pool == m.pool,
        spec_purge_verified(m).ticks == m.ticks,
        spec_purge_verified(m).max_queue_size == m.max_queue_size,
        spec_purge_verified(m).max_mem_use == m.max_mem_use,
        spec_purge_verified(m).scale_verifiers == m.scale_verifiers,
    decreases m.verified.len(),
{
    if m.verified.len() != 0 {
        let v = m.verified[0];
        assert(sum_verified_sizes(m.verified) == v.size + sum_verified_sizes(
            m.verified.drop_first(),
        ));
        lemma_sum_by_nonneg(m.verified.drop_first(), w_verified_size());
        let m1 = QueueModel {
            verified: m.verified.drop_first(),
            size_verified: (m.size_verified - v.size) as usize,
            ..m
        };
        assert(wf(m1));
        if m.bad.contains(v.parent_hash) {
            lemma_condemn_wf(m1, v.hash);
            lemma_purge_wf(spec_condemn(m1, v.hash));
        } else {
            lemma_purge_wf(m1);
            let m2 = spec_purge_verified(m1);
            lemma_sum_by_concat(seq![v], m2.verified, w_verified_size());
            lemma_sum_by_singleton(v, w_verified_size());
        }
    }
}

pub proof fn lemma_clear_wf(m: QueueModel)
    requires
        wf(m),
    ensures
        wf(spec_clear(m)),
{
    let m2 = spec_clear(m);
    assert forall|p: u64|
        #[trigger] parents_lookup(m2.parents, p) == count_children(m2.processing, p) by {
        assert(!parents_has(m2.parents, p));
    }
}



pub proof fn lemma_condemn_loop_wf(m: QueueModel, hs: Seq<u64>)
    requires
        wf(m),
    ensures
        wf(spec_condemn_loop(m, hs)),
        spec_condemn_loop(m, hs).unverified == m.unverified,
        spec_condemn_loop(m, hs).verifying == m.verifying,
        spec_condemn_loop(m, hs).verified == m.verified,
        spec_condemn_loop(m, hs).size_unverified == m.size_unverified,
        spec_condemn_loop(m, hs).size_verifying == m.size_verifying,
        spec_condemn_loop(m, hs).size_verified == m.size_verified,
        spec_condemn_loop(m, hs).signalled == m.signalled,
        spec_condemn_loop(m, hs).deleting == m.deleting,
        spec_condemn_loop(m, hs).active == m.active,
        spec_condemn_loop(m, hs).pool == m.pool,
        spec_condemn_loop(m, hs).ticks == m.ticks,
        spec_condemn_loop(m, hs).max_queue_size == m.max_queue_size,
        spec_condemn_loop(m, hs).max_mem_use == m.max_mem_use,
        spec_condemn_loop(m, hs).scale_verifiers == m.scale_verifiers,
    decreases hs.len(),
{
    if hs.len() != 0 {
        lemma_condemn_wf(m, hs[0]);
        lemma_condemn_loop_wf(spec_condemn(m, hs[0]), hs.drop_first());
    }
}

/// Every placeholder that survives a withdrawal was there before it.
pub proof fn lemma_verifying_without_membership(s: Seq<Verifying>, h: u64)
    ensures
        forall|k: int|
            0 <= k < verifying_without(s, h).len() ==> exists|j: int|
                0 <= j < s.len() && #[trigger] verifying_without(s, h)[k] == s[j],
    decreases s.len(),
{
    if s.len() != 0 {
        lemma_verifying_without_membership(s.drop_first(), h);
        let rest = verifying_without(s.drop_first(), h);
        if s[0].hash == h {
            assert forall|k: int| 0 <= k < verifying_without(s, h).len() implies exists|j: int|
                0 <= j < s.len() && #[trigger] verifying_without(s, h)[k] == s[j] by {
                assert(rest[k] == verifying_without(s, h)[k]);
                let j = choose|j: int| 0 <= j < s.drop_first().len() && rest[k] == s.drop_first()[j];
                assert(verifying_without(s, h)[k] == s[j + 1]);
            }
        } else {
            assert forall|k: int| 0 <= k < verifying_without(s, h).len() implies exists|j: int|
                0 <= j < s.len() && #[trigger] verifying_without(s, h)[k] == s[j] by {
                if k == 0 {
                    assert(verifying_without(s, h)[0] == s[0]);
                } else {
                    assert(verifying_without(s, h)[k] == rest[k - 1]);
                    let j = choose|j: int|
                        0 <= j < s.drop_first().len() && rest[k - 1] == s.drop_first()[j];
                    assert(verifying_without(s, h)[k] == s[j + 1]);
                }
            }
        }
    }
}

/// The head-of-line commit keeps the placeholder-output agreement.
pub proof fn lemma_drain_verifying_outputs(m: QueueModel)
    requires
        wf_outputs(m),
    ensures
        wf_outputs(spec_drain_verifying(m)),
    decreases m.verifying.len(),
{
    if m.verifying.len() != 0 && m.verifying[0].output is Some {
        let out = m.verifying[0].output->Some_0;
        let m1 = QueueModel {
            verifying: m.verifying.drop_first(),
            size_verifying: (m.size_verifying - out.size) as usize,
            ..m
        };
        assert(wf_outputs(m1)) by {
            assert(forall|k: int|
                0 <= k < m1.verifying.len() ==> m1.verifying[k] == m.verifying[k + 1]);
        }
        if m.bad.contains(out.parent_hash) {
            lemma_drain_verifying_outputs(QueueModel { bad: bad_insert(m1.bad, out.hash), ..m1 });
        } else {
            lemma_drain_verifying_outputs(
                QueueModel {
                    verified: m1.verified.push(out),
                    size_verified: (m1.size_verified + out.size) as usize,
                    ..m1
                },
            );
        }
    }
}

/// Committing an outcome keeps the placeholder-output agreement.
pub proof fn lemma_finish_outputs(m: QueueModel, it: Unverified)
    requires
        wf_outputs(m),
    ensures
        wf_outputs(spec_finish(m, it).0),
{
    match spec_verify_outcome(it) {
        Some(out) => {
            if verifying_has(m.verifying, it.hash) {
                let i = verifying_first_idx(m.verifying, it.hash);
                lemma_verifying_first_idx(m.verifying, it.hash);
                let ph = Verifying { hash: it.hash, output: Some(out) };
                let m1 = QueueModel {
                    verifying: m.verifying.update(i, ph),
                    size_verifying: (m.size_verifying + out.size) as usize,
                    ..m
                };
                assert(wf_outputs(m1));
                if i == 0 {
                    lemma_drain_verifying_outputs(m1);
                }
            }
        },
        None => {
            lemma_verifying_without_membership(m.verifying, it.hash);
            let w = verifying_without(m.verifying, it.hash);
            let m1 = QueueModel { bad: bad_insert(m.bad, it.hash), verifying: w, ..m };
            assert(wf_outputs(m1)) by {
                assert forall|k: int| 0 <= k < w.len() implies match (#[trigger] w[k]).output {
                    Some(v) => v.hash == w[k].hash,
                    None => true,
                } by {
                    let j = choose|j: int| 0 <= j < m.verifying.len() && w[k] == m.verifying[j];
                    assert(match m.verifying[j].output {
                        Some(v) => v.hash == m.verifying[j].hash,
                        None => true,
                    });
                }
            }
            if m1.verifying.len() > 0 && m1.verifying[0].output is Some {
                lemma_drain_verifying_outputs(m1);
            }
        },
    }
}

/// One step of a flush on a queue with no claim outstanding: claiming the
/// oldest item and committing it immediately leaves the verifying stage
/// empty again, keeps well-formedness, and makes no difference to where the
/// flush ends up.
pub proof fn lemma_flush_step(m: QueueModel)
    requires
        wf(m),
        m.verifying.len() == 0,
        m.unverified.len() > 0,
    ensures
        ({
            let (m1, it) = spec_start(m);
            &&& it == Some(m.unverified[0])
            &&& wf(m1)
            &&& finish_fits(m1, m.unverified[0])
            &&& forall|k: int|
                0 <= k < m1.verifying.len() && (#[trigger] m1.verifying[k]).hash
                    == m.unverified[0].hash ==> m1.verifying[k].output is None
            &&& wf(spec_finish(m1, m.unverified[0]).0)
            &&& spec_finish(m1, m.unverified[0]).0.verifying.len() == 0
            &&& spec_finish(m1, m.unverified[0]).0.unverified == m.unverified.drop_first()
            &&& spec_flush(spec_finish(m1, m.unverified[0]).0) == spec_flush(m)
        }),
{
    let it = m.unverified[0];
    let (m1, r) = spec_start(m);
    lemma_start_wf(m);
    assert(m1.verifying =~= seq![Verifying { hash: it.hash, output: None }]);
    lemma_finish_wf(m1, it);
    let (m2, _) = spec_finish(m1, it);
    match spec_verify_outcome(it) {
        Some(out) => {
            assert(verifying_has(m1.verifying, it.hash)) by {
                assert(m1.verifying[0].hash == it.hash);
            }
            assert(verifying_first_idx(m1.verifying, it.hash) == 0);
            let ph = Verifying { hash: it.hash, output: Some(out) };
            let mu = QueueModel {
                verifying: m1.verifying.update(0, ph),
                size_verifying: (m1.size_verifying + out.size) as usize,
                ..m1
            };
            assert(mu.verifying =~= seq![ph]);
            let md = QueueModel {
                verifying: mu.verifying.drop_first(),
                size_verifying: (mu.size_verifying - out.size) as usize,
                ..mu
            };
            assert(md.verifying =~= Seq::<Verifying>::empty());
            if mu.bad.contains(out.parent_hash) {
                let mb = QueueModel { bad: bad_insert(md.bad, out.hash), ..md };
                assert(mb.verifying.len() == 0);
                assert(spec_drain_verifying(mb) == mb);
                assert(spec_drain_verifying(mu) == mb);
            } else {
                let mk = QueueModel {
                    verified: md.verified.push(out),
                    size_verified: (md.size_verified + out.size) as usize,
                    ..md
                };
                assert(mk.verifying.len() == 0);
                assert(spec_drain_verifying(mk) == mk);
                assert(spec_drain_verifying(mu) == mk);
            }
            assert(m2.verifying.len() == 0);
        },
        None => {
            assert(m1.verifying.drop_first() =~= Seq::<Verifying>::empty());
            assert(verifying_without(Seq::<Verifying>::empty(), it.hash)
                == Seq::<Verifying>::empty());
            assert(verifying_without(m1.verifying, it.hash) =~= Seq::<Verifying>::empty());
            assert(m2.verifying.len() == 0);
        },
    }
}



} // verus!
