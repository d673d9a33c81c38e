//! The determinism guarantees of the parallel reduction protocol, stated and
//! proved over the same specification functions the node's contracts use:
//! how the input is split across parallel partitions does not change the
//! result, for kinds insensitive to grouping and, given the order keys, for
//! the order-sensitive kind as well.

use vstd::prelude::*;
use crate::frame::DataBatch;
use crate::morsel::Morsel;
use crate::port::PortState;
use crate::reduce_node::{
    accum_fold, merged_fold, merged_result, part_result, reported_states, ReduceState,
};
use crate::reducer::{
    accum_combine, accum_finalize, accum_identity, accum_update, lemma_combine_assoc,
    lemma_combine_comm, lemma_combine_identity, lemma_update_factors, wf_accum, Accum, ReduceKind,
};
use crate::selector::{eval_of, eval_ok, Selector};

verus! {

/// The subsequence of morsels a partitioning assigns to partition `j`: those
/// whose owner entry is `j`, in their original relative order.
pub open spec fn part_of(ms: Seq<Morsel<DataBatch>>, owner: Seq<int>, j: int) -> Seq<
    Morsel<DataBatch>,
>
    decreases ms.len(),
{
    if ms.len() == 0 || ms.len() != owner.len() {
        Seq::empty()
    } else {
        let rest = part_of(ms.drop_first(), owner.drop_first(), j);
        if owner[0] == j {
            seq![ms[0]] + rest
        } else {
            rest
        }
    }
}

/// All `n` partitions a partitioning splits the input into.
pub open spec fn partitions_of(ms: Seq<Morsel<DataBatch>>, owner: Seq<int>, n: int) -> Seq<
    Seq<Morsel<DataBatch>>,
> {
    Seq::new(n as nat, |j: int| part_of(ms, owner, j))
}

/// The owner assignment a round-robin split makes: morsel `i` goes to
/// partition `i` modulo the partition count.
pub open spec fn round_robin_owner(len: int, n: int) -> Seq<int> {
    Seq::new(len as nat, |i: int| i % n)
}

/// Appending one morsel to the input appends it to exactly its owner's
/// partition and leaves every other partition unchanged.
pub proof fn lemma_part_of_push(
    ms: Seq<Morsel<DataBatch>>,
    owner: Seq<int>,
    m: Morsel<DataBatch>,
    j0: int,
    j: int,
)
    requires
        ms.len() == owner.len(),
    ensures
        part_of(ms.push(m), owner.push(j0), j) == if j == j0 {
            part_of(ms, owner, j).push(m)
        } else {
            part_of(ms, owner, j)
        },
    decreases ms.len(),
{
    let ms2 = ms.push(m);
    let owner2 = owner.push(j0);
    assert(ms2.len() == ms.len() + 1 && owner2.len() == owner.len() + 1);
    if ms.len() == 0 {
        assert(ms2[0] == m && owner2[0] == j0);
        assert(part_of(ms, owner, j) =~= Seq::<Morsel<DataBatch>>::empty());
        assert(part_of(ms2.drop_first(), owner2.drop_first(), j) =~= Seq::<
            Morsel<DataBatch>,
        >::empty());
        if j == j0 {
            assert(part_of(ms2, owner2, j) =~= part_of(ms, owner, j).push(m));
        }
    } else {
        assert(ms2[0] == ms[0] && owner2[0] == owner[0]);
        assert(ms2.drop_first() =~= ms.drop_first().push(m));
        assert(owner2.drop_first() =~= owner.drop_first().push(j0));
        lemma_part_of_push(ms.drop_first(), owner.drop_first(), m, j0, j);
        if owner[0] == j {
            if j == j0 {
                assert(part_of(ms2, owner2, j) =~= part_of(ms, owner, j).push(m));
            } else {
                assert(part_of(ms2, owner2, j) =~= part_of(ms, owner, j));
            }
        } else {
            if j == j0 {
                assert(part_of(ms2, owner2, j) =~= part_of(ms, owner, j).push(m));
            } else {
                assert(part_of(ms2, owner2, j) =~= part_of(ms, owner, j));
            }
        }
    }
}

/// Split a serial stream of morsels into `n` parallel partitions by round
/// robin: the materialization of a receive port as independent parallel
/// sub-receivers, each handed a disjoint subsequence in its original
/// relative order.
#[verifier::loop_isolation(false)]
pub fn split_round_robin(input: Vec<Morsel<DataBatch>>, n: usize) -> (parts: Vec<
    Vec<Morsel<DataBatch>>,
>)
    requires
        n >= 1,
    ensures
        parts@.len() == n,
        crate::reduce_node::parts_view(parts@) == partitions_of(
            input@,
            round_robin_owner(input@.len() as int, n as int),
            n as int,
        ),
{
    let mut parts: Vec<Vec<Morsel<DataBatch>>> = Vec::new();
    let mut j: usize = 0;
    while j < n
        invariant
            parts@.len() == j <= n,
            forall|k: int| 0 <= k < j ==> (#[trigger] parts@[k])@.len() == 0,
        decreases n - j,
    {
        parts.push(Vec::new());
        j += 1;
    }
    let ghost all = input@;
    let mut i: usize = 0;
    let mut remaining = input;
    proof {
        assert(forall|k: int| 0 <= k < n ==> part_of(
            all.take(0),
            round_robin_owner(0, n as int),
            k,
        ) =~= Seq::<Morsel<DataBatch>>::empty());
        assert(all.take(all.len() as int) =~= all);
        assert(remaining@ =~= all.subrange(0, all.len() as int));
        assert(all.len() == remaining.len());
    }
    while remaining.len() > 0
        invariant
            0 <= i <= all.len(),
            i + remaining@.len() == all.len(),
            remaining@ == all.subrange(i as int, all.len() as int),
            parts@.len() == n,
            forall|k: int| 0 <= k < n ==> (#[trigger] parts@[k])@ == part_of(
                all.take(i as int),
                round_robin_owner(i as int, n as int),
                k,
            ),
        decreases remaining@.len(),
    {
        let ghost owner_pre = round_robin_owner(i as int, n as int);
        let m = remaining.remove(0);
        proof {
            assert(m == all[i as int]);
        }
        let target = i % n;
        proof {
            assert(all.take(i + 1) =~= all.take(i as int).push(all[i as int]));
            assert(round_robin_owner(i + 1, n as int) =~= owner_pre.push(i as int % n as int));
            assert(owner_pre.len() == all.take(i as int).len());
            assert forall|k: int| 0 <= k < n implies part_of(
                all.take(i + 1),
                round_robin_owner(i + 1, n as int),
                k,
            ) == if k == i as int % n as int {
                part_of(all.take(i as int), owner_pre, k).push(all[i as int])
            } else {
                part_of(all.take(i as int), owner_pre, k)
            } by {
                lemma_part_of_push(
                    all.take(i as int),
                    owner_pre,
                    all[i as int],
                    i as int % n as int,
                    k,
                );
            }
        }
        parts[target].push(m);
        i += 1;
        proof {
            assert(remaining@ =~= all.subrange(i as int, all.len() as int));
        }
    }
    proof {
        assert(i == all.len());
        assert(crate::reduce_node::parts_view(parts@) =~= partitions_of(
            all,
            round_robin_owner(all.len() as int, n as int),
            n as int,
        ));
    }
    parts
}

/// Folding preserves the state shape of the kind.
pub proof fn lemma_fold_wf(kind: ReduceKind, sel: Selector, init: Accum, ms: Seq<Morsel<DataBatch>>)
    requires
        wf_accum(kind, init),
    ensures
        wf_accum(kind, accum_fold(kind, sel, init, ms)),
    decreases ms.len(),
{
    if ms.len() > 0 {
        lemma_fold_wf(
            kind,
            sel,
            accum_update(kind, init, eval_of(sel, ms[0].data), ms[0].seq_id.counter),
            ms.drop_first(),
        );
    }
}

/// Merging preserves the state shape of the kind.
pub proof fn lemma_merged_wf(
    kind: ReduceKind,
    sel: Selector,
    init: Accum,
    parts: Seq<Seq<Morsel<DataBatch>>>,
)
    requires
        wf_accum(kind, init),
    ensures
        wf_accum(kind, merged_fold(kind, sel, init, parts)),
    decreases parts.len(),
{
    if parts.len() > 0 {
        lemma_fold_wf(kind, sel, accum_identity(kind), parts[0]);
        lemma_merged_wf(
            kind,
            sel,
            accum_combine(kind, init, part_result(kind, sel, parts[0])),
            parts.drop_first(),
        );
    }
}

/// For kinds insensitive to grouping, a fold from any state factors into a
/// single combine with the fold from the identity.
pub proof fn lemma_fold_factors(
    kind: ReduceKind,
    sel: Selector,
    init: Accum,
    ms: Seq<Morsel<DataBatch>>,
)
    requires
        kind.is_commutative(),
        wf_accum(kind, init),
    ensures
        accum_fold(kind, sel, init, ms) == accum_combine(kind, init, part_result(kind, sel, ms)),
    decreases ms.len(),
{
    if ms.len() == 0 {
        lemma_combine_identity(kind, init);
    } else {
        let col = eval_of(sel, ms[0].data);
        let key = ms[0].seq_id.counter;
        let delta = accum_update(kind, accum_identity(kind), col, key);
        let rest = ms.drop_first();
        lemma_update_factors(kind, init, col, key);
        lemma_fold_factors(kind, sel, accum_update(kind, init, col, key), rest);
        lemma_update_factors(kind, accum_identity(kind), col, key);
        lemma_fold_factors(kind, sel, accum_update(kind, accum_identity(kind), col, key), rest);
        lemma_combine_identity(kind, delta);
        lemma_fold_wf(kind, sel, accum_identity(kind), rest);
        lemma_combine_assoc(kind, init, delta, part_result(kind, sel, rest));
        assert(accum_fold(kind, sel, init, ms) == accum_fold(
            kind,
            sel,
            accum_update(kind, init, col, key),
            rest,
        ));
        assert(part_result(kind, sel, ms) == accum_fold(kind, sel, delta, rest));
    }
}

/// For kinds insensitive to grouping, a merge from any state factors into a
/// single combine with the merge from the identity.
pub proof fn lemma_merged_factors(
    kind: ReduceKind,
    sel: Selector,
    init: Accum,
    parts: Seq<Seq<Morsel<DataBatch>>>,
)
    requires
        kind.is_commutative(),
        wf_accum(kind, init),
    ensures
        merged_fold(kind, sel, init, parts) == accum_combine(
            kind,
            init,
            merged_result(kind, sel, parts),
        ),
    decreases parts.len(),
{
    if parts.len() == 0 {
        lemma_combine_identity(kind, init);
    } else {
        let pr = part_result(kind, sel, parts[0]);
        let rest = parts.drop_first();
        lemma_fold_wf(kind, sel, accum_identity(kind), parts[0]);
        lemma_merged_factors(kind, sel, accum_combine(kind, init, pr), rest);
        lemma_merged_factors(kind, sel, accum_combine(kind, accum_identity(kind), pr), rest);
        lemma_combine_identity(kind, pr);
        lemma_merged_wf(kind, sel, accum_identity(kind), rest);
        lemma_combine_assoc(kind, init, pr, merged_result(kind, sel, rest));
    }
}

/// Merging depends only on each partition's result, not on the partition
/// sequences themselves.
pub proof fn lemma_merged_congruence(
    kind: ReduceKind,
    sel: Selector,
    init: Accum,
    p: Seq<Seq<Morsel<DataBatch>>>,
    q: Seq<Seq<Morsel<DataBatch>>>,
)
    requires
        p.len() == q.len(),
        forall|j: int| 0 <= j < p.len() ==> part_result(kind, sel, #[trigger] p[j]) == part_result(
            kind,
            sel,
            q[j],
        ),
    ensures
        merged_fold(kind, sel, init, p) == merged_fold(kind, sel, init, q),
    decreases p.len(),
{
    if p.len() > 0 {
        assert(forall|j: int| 0 <= j < p.drop_first().len() ==> #[trigger] p.drop_first()[j]
            == p[j + 1] && q.drop_first()[j] == q[j + 1]);
        lemma_merged_congruence(
            kind,
            sel,
            accum_combine(kind, init, part_result(kind, sel, p[0])),
            p.drop_first(),
            q.drop_first(),
        );
    }
}

/// Merging a family of partitions in which exactly one partition's result
/// carries an extra leading contribution `x` equals merging the family
/// without it, combined with `x` — for kinds insensitive to grouping.
proof fn lemma_merged_one_modified(
    kind: ReduceKind,
    sel: Selector,
    init: Accum,
    x: Accum,
    p: Seq<Seq<Morsel<DataBatch>>>,
    q: Seq<Seq<Morsel<DataBatch>>>,
    k: int,
)
    requires
        kind.is_commutative(),
        wf_accum(kind, init),
        wf_accum(kind, x),
        p.len() == q.len(),
        0 <= k < p.len(),
        part_result(kind, sel, p[k]) == accum_combine(kind, x, part_result(kind, sel, q[k])),
        forall|j: int| 0 <= j < p.len() && j != k ==> part_result(kind, sel, #[trigger] p[j])
            == part_result(kind, sel, q[j]),
    ensures
        merged_fold(kind, sel, init, p) == accum_combine(
            kind,
            x,
            merged_fold(kind, sel, init, q),
        ),
    decreases p.len(),
{
    let prq0 = part_result(kind, sel, q[0]);
    lemma_fold_wf(kind, sel, accum_identity(kind), q[0]);
    lemma_fold_wf(kind, sel, accum_identity(kind), p[0]);
    assert(forall|j: int| 0 <= j < p.drop_first().len() ==> #[trigger] p.drop_first()[j] == p[j
        + 1] && q.drop_first()[j] == q[j + 1]);
    if k == 0 {
        // The modified partition is merged first; shuffle `x` out in front.
        let a = accum_combine(kind, init, prq0);
        lemma_combine_assoc(kind, init, x, prq0);
        lemma_combine_comm(kind, init, x);
        lemma_combine_assoc(kind, x, init, prq0);
        assert(accum_combine(kind, init, accum_combine(kind, x, prq0)) == accum_combine(
            kind,
            x,
            a,
        ));
        // Both remainders agree partition by partition.
        lemma_merged_congruence(
            kind,
            sel,
            accum_combine(kind, x, a),
            p.drop_first(),
            q.drop_first(),
        );
        lemma_merged_factors(kind, sel, accum_combine(kind, x, a), q.drop_first());
        lemma_merged_factors(kind, sel, a, q.drop_first());
        let m = merged_result(kind, sel, q.drop_first());
        lemma_merged_wf(kind, sel, accum_identity(kind), q.drop_first());
        lemma_combine_assoc(kind, x, a, m);
    } else {
        lemma_merged_one_modified(
            kind,
            sel,
            accum_combine(kind, init, prq0),
            x,
            p.drop_first(),
            q.drop_first(),
            k - 1,
        );
    }
}

/// How one partition relates to the partitioning of the remaining morsels:
/// the first morsel's partition gains it in front, every other partition is
/// unchanged.
pub proof fn lemma_part_of_unfold(ms: Seq<Morsel<DataBatch>>, owner: Seq<int>, j: int)
    requires
        ms.len() == owner.len(),
        ms.len() > 0,
    ensures
        owner[0] == j ==> part_of(ms, owner, j) == seq![ms[0]] + part_of(
            ms.drop_first(),
            owner.drop_first(),
            j,
        ),
        owner[0] != j ==> part_of(ms, owner, j) == part_of(
            ms.drop_first(),
            owner.drop_first(),
            j,
        ),
{
}

/// Associativity under partitioning: for a reduction kind insensitive to
/// grouping, splitting the input morsels across any number of parallel
/// partitions, in any assignment, and merging the partition results in
/// partition index order yields exactly the state a single partition reaches
/// by processing all morsels in their original order.
pub proof fn theorem_partitioning_agrees(
    kind: ReduceKind,
    sel: Selector,
    ms: Seq<Morsel<DataBatch>>,
    owner: Seq<int>,
    n: int,
)
    requires
        kind.is_commutative(),
        owner.len() == ms.len(),
        n >= 1,
        forall|k: int| 0 <= k < owner.len() ==> 0 <= #[trigger] owner[k] < n,
    ensures
        merged_result(kind, sel, partitions_of(ms, owner, n)) == part_result(kind, sel, ms),
    decreases ms.len(),
{
    let p = partitions_of(ms, owner, n);
    if ms.len() == 0 {
        assert(forall|j: int| 0 <= j < n ==> part_of(ms, owner, j) == Seq::<
            Morsel<DataBatch>,
        >::empty());
        lemma_merged_all_empty(kind, sel, accum_identity(kind), p);
    } else {
        let rest = ms.drop_first();
        let owner_rest = owner.drop_first();
        let q = partitions_of(rest, owner_rest, n);
        let j0 = owner[0];
        let col = eval_of(sel, ms[0].data);
        let key = ms[0].seq_id.counter;
        let delta = accum_update(kind, accum_identity(kind), col, key);
        assert(forall|k: int| 0 <= k < owner_rest.len() ==> 0 <= #[trigger] owner_rest[k] < n);
        theorem_partitioning_agrees(kind, sel, rest, owner_rest, n);
        // Relate every partition of `ms` to the same partition of `rest`.
        assert forall|j: int| 0 <= j < n && j != j0 implies part_result(
            kind,
            sel,
            #[trigger] p[j],
        ) == part_result(kind, sel, q[j]) by {
            lemma_part_of_unfold(ms, owner, j);
        }
        // The first morsel's partition gains exactly one leading update.
        lemma_part_of_unfold(ms, owner, j0);
        assert(p[j0] == seq![ms[0]] + part_of(rest, owner_rest, j0));
        assert((seq![ms[0]] + q[j0]).drop_first() =~= q[j0]);
        assert(part_result(kind, sel, p[j0]) == accum_fold(
            kind,
            sel,
            accum_update(kind, accum_identity(kind), col, key),
            q[j0],
        ));
        lemma_update_factors(kind, accum_identity(kind), col, key);
        lemma_combine_identity(kind, delta);
        lemma_fold_factors(kind, sel, delta, q[j0]);
        assert(part_result(kind, sel, p[j0]) == accum_combine(
            kind,
            delta,
            part_result(kind, sel, q[j0]),
        ));
        // Bubble the extra update out of the merge.
        lemma_merged_one_modified(kind, sel, accum_identity(kind), delta, p, q, j0);
        // And absorb it as the first update of the sequential fold.
        lemma_fold_factors(kind, sel, delta, rest);
        assert(part_result(kind, sel, ms) == accum_fold(kind, sel, delta, rest));
    }
}

/// Morsel sequence numbers strictly increase along the sequence, as they do
/// for any stream numbered monotonically at ingress.
pub open spec fn strictly_increasing(ms: Seq<Morsel<DataBatch>>) -> bool {
    forall|a: int, b: int| 0 <= a < b < ms.len() ==> ms[a].seq_id.counter < ms[b].seq_id.counter
}

/// Every morsel's selected column exists and carries at least one row.
pub open spec fn all_rows_present(sel: Selector, ms: Seq<Morsel<DataBatch>>) -> bool {
    forall|a: int| 0 <= a < ms.len() ==> eval_ok(sel, (#[trigger] ms[a]).data) && eval_of(
        sel,
        ms[a].data,
    ).len() > 0
}

/// An order-sensitive accumulator whose entry, if any, has an order key
/// strictly below the given bound.
pub open spec fn last_entry_below(a: Accum, bound: u64) -> bool {
    &&& a is Last
    &&& (a->entry matches Some(e) ==> e.1 < bound)
}

/// Feeding an order-sensitive accumulator morsels with ascending keys, all
/// at or above its own, leaves it holding the latest value of the last
/// morsel.
pub proof fn lemma_last_fold(sel: Selector, st: Accum, ms: Seq<Morsel<DataBatch>>)
    requires
        st is Last,
        strictly_increasing(ms),
        all_rows_present(sel, ms),
        ms.len() > 0 ==> (st->entry matches Some(e) ==> e.1 <= ms[0].seq_id.counter),
    ensures
        accum_fold(ReduceKind::Last, sel, st, ms) == if ms.len() == 0 {
            st
        } else {
            Accum::Last {
                entry: Some(
                    (eval_of(sel, ms.last().data).last(), ms.last().seq_id.counter),
                ),
            }
        },
    decreases ms.len(),
{
    if ms.len() > 0 {
        let col = eval_of(sel, ms[0].data);
        let key = ms[0].seq_id.counter;
        let st1 = accum_update(ReduceKind::Last, st, col, key);
        assert(st1 == Accum::Last { entry: Some((col.last(), key)) });
        let rest = ms.drop_first();
        assert(forall|a: int| 0 <= a < rest.len() ==> #[trigger] rest[a] == ms[a + 1]);
        lemma_last_fold(sel, st1, rest);
        if rest.len() > 0 {
            assert(ms.last() == rest.last());
        }
    }
}

/// Every morsel of a partition is a morsel of the input that the
/// partitioning assigned to that partition.
pub proof fn lemma_part_of_membership(ms: Seq<Morsel<DataBatch>>, owner: Seq<int>, j: int)
    requires
        ms.len() == owner.len(),
    ensures
        forall|a: int| 0 <= a < part_of(ms, owner, j).len() ==> exists|i: int|
            0 <= i < ms.len() && #[trigger] part_of(ms, owner, j)[a] == ms[i] && owner[i] == j
                && ms[i].seq_id.counter == part_of(ms, owner, j)[a].seq_id.counter,
    decreases ms.len(),
{
    if ms.len() > 0 {
        let rest = ms.drop_first();
        let owner_rest = owner.drop_first();
        lemma_part_of_membership(rest, owner_rest, j);
        let p = part_of(ms, owner, j);
        let pr = part_of(rest, owner_rest, j);
        assert forall|a: int| 0 <= a < p.len() implies exists|i: int|
            0 <= i < ms.len() && #[trigger] p[a] == ms[i] && owner[i] == j
                && ms[i].seq_id.counter == p[a].seq_id.counter by {
            if owner[0] == j {
                assert(p == seq![ms[0]] + pr);
                if a == 0 {
                    assert(p[a] == ms[0] && owner[0] == j);
                } else {
                    assert(p[a] == pr[a - 1]);
                    let i0 = choose|i: int|
                        0 <= i < rest.len() && #[trigger] pr[a - 1] == rest[i] && owner_rest[i]
                            == j && rest[i].seq_id.counter == pr[a - 1].seq_id.counter;
                    assert(rest[i0] == ms[i0 + 1] && owner_rest[i0] == owner[i0 + 1]);
                    assert(p[a] == ms[i0 + 1] && owner[i0 + 1] == j);
                }
            } else {
                assert(p == pr);
                let i0 = choose|i: int|
                    0 <= i < rest.len() && #[trigger] pr[a] == rest[i] && owner_rest[i] == j
                        && rest[i].seq_id.counter == pr[a].seq_id.counter;
                assert(rest[i0] == ms[i0 + 1] && owner_rest[i0] == owner[i0 + 1]);
                assert(p[a] == ms[i0 + 1] && owner[i0 + 1] == j);
            }
        }
    }
}

/// A partition of a strictly ascending input is itself strictly ascending,
/// and never falls below the first input key.
pub proof fn lemma_part_of_sorted(ms: Seq<Morsel<DataBatch>>, owner: Seq<int>, j: int)
    requires
        ms.len() == owner.len(),
        strictly_increasing(ms),
    ensures
        strictly_increasing(part_of(ms, owner, j)),
        part_of(ms, owner, j).len() <= ms.len(),
        ms.len() > 0 ==> forall|a: int| 0 <= a < part_of(ms, owner, j).len() ==> (
        #[trigger] part_of(ms, owner, j)[a]).seq_id.counter >= ms[0].seq_id.counter,
    decreases ms.len(),
{
    if ms.len() > 0 {
        let rest = ms.drop_first();
        let owner_rest = owner.drop_first();
        assert(forall|a: int| 0 <= a < rest.len() ==> #[trigger] rest[a] == ms[a + 1]);
        lemma_part_of_sorted(rest, owner_rest, j);
        let p = part_of(ms, owner, j);
        let pr = part_of(rest, owner_rest, j);
        if owner[0] == j {
            assert(p == seq![ms[0]] + pr);
            assert(p[0] == ms[0]);
            assert(forall|a: int| 1 <= a < p.len() ==> #[trigger] p[a] == pr[a - 1]);
            if rest.len() > 0 {
                assert(ms[0].seq_id.counter < rest[0].seq_id.counter);
            }
        } else {
            assert(p == pr);
        }
    }
}

/// The input's last morsel lands at the end of the partition its owner entry
/// names.
pub proof fn lemma_part_of_carries_last(ms: Seq<Morsel<DataBatch>>, owner: Seq<int>)
    requires
        ms.len() == owner.len(),
        ms.len() > 0,
    ensures
        part_of(ms, owner, owner[ms.len() - 1]).len() > 0,
        part_of(ms, owner, owner[ms.len() - 1]).last() == ms.last(),
    decreases ms.len(),
{
    let j = owner[ms.len() - 1];
    let p = part_of(ms, owner, j);
    if ms.len() == 1 {
        assert(owner[0] == j);
        assert(p == seq![ms[0]] + part_of(ms.drop_first(), owner.drop_first(), j));
        assert(part_of(ms.drop_first(), owner.drop_first(), j) =~= Seq::<
            Morsel<DataBatch>,
        >::empty());
        assert(p.len() == 1 && p[0] == ms[0]);
    } else {
        let rest = ms.drop_first();
        let owner_rest = owner.drop_first();
        assert(owner_rest[rest.len() - 1] == owner[ms.len() - 1]);
        assert(rest.last() == ms.last());
        lemma_part_of_carries_last(rest, owner_rest);
        let pr = part_of(rest, owner_rest, j);
        if owner[0] == j {
            assert(p == seq![ms[0]] + pr);
            assert(p.last() == pr.last());
        } else {
            assert(p == pr);
        }
    }
}

/// Merging partition results that all stay strictly below the held entry's
/// key never displaces that entry.
proof fn lemma_merged_last_stays(
    sel: Selector,
    init: Accum,
    parts: Seq<Seq<Morsel<DataBatch>>>,
    v: u64,
    kmax: u64,
)
    requires
        init == (Accum::Last { entry: Some((v, kmax)) }),
        forall|j: int| 0 <= j < parts.len() ==> last_entry_below(
            part_result(ReduceKind::Last, sel, #[trigger] parts[j]),
            kmax,
        ),
    ensures
        merged_fold(ReduceKind::Last, sel, init, parts) == init,
    decreases parts.len(),
{
    if parts.len() > 0 {
        let r0 = part_result(ReduceKind::Last, sel, parts[0]);
        assert(accum_combine(ReduceKind::Last, init, r0) == init);
        assert(forall|j: int| 0 <= j < parts.drop_first().len() ==> #[trigger] parts.drop_first()[
            j
        ] == parts[j + 1]);
        lemma_merged_last_stays(sel, init, parts.drop_first(), v, kmax);
    }
}

/// Merging partition results in index order, when exactly one partition
/// holds the entry with the greatest order key and every other stays
/// strictly below it, yields exactly that greatest entry.
proof fn lemma_merged_last_max(
    sel: Selector,
    init: Accum,
    parts: Seq<Seq<Morsel<DataBatch>>>,
    pstar: int,
    v: u64,
    kmax: u64,
)
    requires
        last_entry_below(init, kmax),
        0 <= pstar < parts.len(),
        part_result(ReduceKind::Last, sel, parts[pstar]) == (Accum::Last {
            entry: Some((v, kmax)),
        }),
        forall|j: int| 0 <= j < parts.len() && j != pstar ==> last_entry_below(
            part_result(ReduceKind::Last, sel, #[trigger] parts[j]),
            kmax,
        ),
    ensures
        merged_fold(ReduceKind::Last, sel, init, parts) == (Accum::Last {
            entry: Some((v, kmax)),
        }),
    decreases parts.len(),
{
    let r0 = part_result(ReduceKind::Last, sel, parts[0]);
    let init1 = accum_combine(ReduceKind::Last, init, r0);
    assert(forall|j: int| 0 <= j < parts.drop_first().len() ==> #[trigger] parts.drop_first()[j]
        == parts[j + 1]);
    if pstar == 0 {
        assert(init1 == (Accum::Last { entry: Some((v, kmax)) }));
        lemma_merged_last_stays(sel, init1, parts.drop_first(), v, kmax);
    } else {
        assert(last_entry_below(init1, kmax));
        lemma_merged_last_max(sel, init1, parts.drop_first(), pstar - 1, v, kmax);
    }
}

/// Order-key correctness: for the order-sensitive reduction, morsels with
/// strictly increasing sequence numbers split across any number of parallel
/// partitions, in any assignment, always reduce to the value carried by the
/// morsel with the globally greatest sequence number — never a value from a
/// lower-sequence morsel — however the partitions interleaved.
pub proof fn theorem_last_takes_max_key(
    sel: Selector,
    ms: Seq<Morsel<DataBatch>>,
    owner: Seq<int>,
    n: int,
)
    requires
        owner.len() == ms.len(),
        ms.len() > 0,
        n >= 1,
        forall|k: int| 0 <= k < owner.len() ==> 0 <= #[trigger] owner[k] < n,
        strictly_increasing(ms),
        all_rows_present(sel, ms),
    ensures
        // The last input morsel is the one with the greatest sequence number,
        forall|a: int| 0 <= a < ms.len() ==> (#[trigger] ms[a]).seq_id.counter
            <= ms.last().seq_id.counter,
        // and the merged result is exactly its latest value under its key.
        merged_result(ReduceKind::Last, sel, partitions_of(ms, owner, n)) == (Accum::Last {
            entry: Some(
                (eval_of(sel, ms.last().data).last(), ms.last().seq_id.counter),
            ),
        }),
{
    let parts = partitions_of(ms, owner, n);
    let kmax = ms.last().seq_id.counter;
    let v = eval_of(sel, ms.last().data).last();
    let jstar = owner[ms.len() - 1];
    // Each partition is itself an ascending stream of well-evaluating
    // morsels, so its result is its own last morsel's entry.
    assert forall|j: int| 0 <= j < n implies {
        &&& part_result(ReduceKind::Last, sel, #[trigger] parts[j]) is Last
        &&& (parts[j].len() == 0 ==> part_result(ReduceKind::Last, sel, parts[j]) == (
        Accum::Last { entry: None::<(u64, u64)> }))
        &&& (parts[j].len() > 0 ==> part_result(ReduceKind::Last, sel, parts[j]) == (
        Accum::Last {
            entry: Some(
                (
                    eval_of(sel, parts[j].last().data).last(),
                    parts[j].last().seq_id.counter,
                ),
            ),
        }))
    } by {
        let p = part_of(ms, owner, j);
        lemma_part_of_sorted(ms, owner, j);
        lemma_part_of_membership(ms, owner, j);
        assert forall|a: int| 0 <= a < p.len() implies eval_ok(sel, (#[trigger] p[a]).data)
            && eval_of(sel, p[a].data).len() > 0 by {
            let i = choose|i: int|
                0 <= i < ms.len() && #[trigger] p[a] == ms[i] && owner[i] == j
                    && ms[i].seq_id.counter == p[a].seq_id.counter;
            assert(eval_ok(sel, ms[i].data));
        }
        lemma_last_fold(sel, accum_identity(ReduceKind::Last), p);
    }
    // Partitions other than the last morsel's stay strictly below its key.
    assert forall|j: int| 0 <= j < n && j != jstar implies last_entry_below(
        part_result(ReduceKind::Last, sel, #[trigger] parts[j]),
        kmax,
    ) by {
        let p = part_of(ms, owner, j);
        if p.len() > 0 {
            lemma_part_of_membership(ms, owner, j);
            let a = p.len() - 1;
            let i = choose|i: int|
                0 <= i < ms.len() && #[trigger] p[a] == ms[i] && owner[i] == j
                    && ms[i].seq_id.counter == p[a].seq_id.counter;
            assert(i != ms.len() - 1);
            assert(ms[i].seq_id.counter < kmax);
        }
    }
    // The last morsel's own partition ends with it.
    lemma_part_of_carries_last(ms, owner);
    assert(part_result(ReduceKind::Last, sel, parts[jstar]) == (Accum::Last {
        entry: Some((v, kmax)),
    }));
    lemma_merged_last_max(
        sel,
        accum_identity(ReduceKind::Last),
        parts,
        jstar,
        v,
        kmax,
    );
}

/// Merging any number of empty partitions leaves the initial state alone: an
/// input of zero morsels still finalizes, into the reduction's identity.
pub proof fn lemma_merged_all_empty(
    kind: ReduceKind,
    sel: Selector,
    init: Accum,
    parts: Seq<Seq<Morsel<DataBatch>>>,
)
    requires
        wf_accum(kind, init),
        forall|j: int| 0 <= j < parts.len() ==> (#[trigger] parts[j]).len() == 0,
    ensures
        merged_fold(kind, sel, init, parts) == init,
    decreases parts.len(),
{
    if parts.len() > 0 {
        assert(part_result(kind, sel, parts[0]) == accum_identity(kind));
        lemma_combine_identity(kind, init);
        assert(forall|j: int| 0 <= j < parts.drop_first().len() ==> (#[trigger] parts.drop_first()[
            j
        ]).len() == 0);
        lemma_merged_all_empty(kind, sel, init, parts.drop_first());
    }
}

/// Empty input still produces a value: with zero morsels in every partition,
/// the whole sink phase leaves the node at the reduction's identity, which
/// finalizes to the kind's defined empty-state value — zero for the sum,
/// null for the others — rather than failing.
pub proof fn theorem_empty_input_identity(
    kind: ReduceKind,
    sel: Selector,
    parts: Seq<Seq<Morsel<DataBatch>>>,
)
    requires
        forall|j: int| 0 <= j < parts.len() ==> (#[trigger] parts[j]).len() == 0,
    ensures
        merged_result(kind, sel, parts) == accum_identity(kind),
        accum_finalize(accum_identity(kind)) == match kind {
            ReduceKind::Sum => Some(0u64),
            ReduceKind::Min => None::<u64>,
            ReduceKind::Last => None::<u64>,
        },
{
    lemma_merged_all_empty(kind, sel, accum_identity(kind), parts);
}

/// The full barrier, as the state projection shows it: a node still
/// consuming input always reports its send side `Blocked` and its receive
/// side `Ready`, so no output morsel can be observed before the upstream
/// side has finished. The transition rules keep the node in `Sink` on every
/// step on which the receive port has not yet reported `Done`, so the send
/// side stays `Blocked` throughout.
pub proof fn lemma_full_barrier(s: ReduceState)
    ensures
        s is Sink ==> reported_states(s) == (PortState::Ready, PortState::Blocked),
{
}

/// Once short-circuited, the closure is observable on both sides: a done
/// node reports `Done` on its receive port too, which closes the upstream
/// channel and lets upstream tasks drain cooperatively instead of
/// deadlocking.
pub proof fn lemma_short_circuit_observed(s: ReduceState)
    ensures
        s is Done ==> reported_states(s) == (PortState::Done, PortState::Done),
{
}

} // verus!
