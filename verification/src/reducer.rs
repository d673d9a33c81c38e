//! Grouped reductions: the accumulator collections a reduction node owns.
//! Each instance holds one accumulator per integer group id and supports
//! incremental update with an order key, cross-instance combination, and
//! finalization into one possibly-null value per group.
//!
//! Trait-object reducer collections become a closed set of reduction kinds
//! dispatched by pattern match, so every kind's arithmetic is verified.

use vstd::prelude::*;
use vstd::wrapping::u64_specs;
use crate::EngineError;
use crate::frame::Column;

verus! {

/// The supported reduction kinds.
#[derive(Clone, Copy, PartialEq, Eq, Structural, Debug)]
pub enum ReduceKind {
    /// Wrapping sum of all cells; the empty sum is zero.
    Sum,
    /// Minimum of all cells; null on empty input.
    Min,
    /// The cell with the greatest order key, taking the later update on equal
    /// keys; null on empty input.
    Last,
}

impl ReduceKind {
    /// Whether the reduction is insensitive to how its input is grouped and
    /// interleaved: its combine operation is commutative and associative, and
    /// every update factors through combine.
    pub open spec fn is_commutative(self) -> bool {
        match self {
            ReduceKind::Sum => true,
            ReduceKind::Min => true,
            ReduceKind::Last => false,
        }
    }
}

/// The accumulator of one group.
#[derive(Clone, Copy, Debug)]
pub enum Accum {
    /// Running wrapping sum.
    Sum { total: u64 },
    /// Least cell seen so far, if any.
    Min { best: Option<u64> },
    /// Latest cell seen so far with its order key, if any.
    Last { entry: Option<(u64, u64)> },
}

/// Addition modulo two to the sixty-fourth, the arithmetic of the sum kind.
pub open spec fn wadd(a: u64, b: u64) -> u64 {
    u64_specs::wrapping_add(a, b)
}

/// The lesser of two possibly-absent values, treating absence as positive
/// infinity.
pub open spec fn omin(a: Option<u64>, b: Option<u64>) -> Option<u64> {
    match (a, b) {
        (Option::None, _) => b,
        (_, Option::None) => a,
        (Option::Some(x), Option::Some(y)) => if x <= y {
            Option::Some(x)
        } else {
            Option::Some(y)
        },
    }
}

/// The wrapping sum of a column's cells.
pub open spec fn col_sum(s: Seq<u64>) -> u64
    decreases s.len(),
{
    if s.len() == 0 {
        0u64
    } else {
        wadd(col_sum(s.drop_last()), s.last())
    }
}

/// The least of a column's cells, if any.
pub open spec fn col_min(s: Seq<u64>) -> Option<u64>
    decreases s.len(),
{
    if s.len() == 0 {
        Option::<u64>::None
    } else {
        omin(col_min(s.drop_last()), Option::Some(s.last()))
    }
}

/// The accumulator a fresh group starts from: the reduction's identity.
pub open spec fn accum_identity(kind: ReduceKind) -> Accum {
    match kind {
        ReduceKind::Sum => Accum::Sum { total: 0u64 },
        ReduceKind::Min => Accum::Min { best: Option::None },
        ReduceKind::Last => Accum::Last { entry: Option::None },
    }
}

/// Whether an accumulator carries the state shape of the given kind.
pub open spec fn wf_accum(kind: ReduceKind, st: Accum) -> bool {
    match kind {
        ReduceKind::Sum => st is Sum,
        ReduceKind::Min => st is Min,
        ReduceKind::Last => st is Last,
    }
}

/// One incremental update: feed a column of cells into an accumulator under
/// one order key. The key decides order-sensitive kinds; a later-or-equal key
/// wins, so within one partition arrival order breaks ties.
pub open spec fn accum_update(kind: ReduceKind, st: Accum, values: Seq<u64>, key: u64) -> Accum {
    match (kind, st) {
        (ReduceKind::Sum, Accum::Sum { total }) => Accum::Sum {
            total: wadd(total, col_sum(values)),
        },
        (ReduceKind::Min, Accum::Min { best }) => Accum::Min { best: omin(best, col_min(values)) },
        (ReduceKind::Last, Accum::Last { entry }) => {
            if values.len() == 0 {
                st
            } else {
                match entry {
                    Option::None => Accum::Last { entry: Option::Some((values.last(), key)) },
                    Option::Some(e) => if key >= e.1 {
                        Accum::Last { entry: Option::Some((values.last(), key)) }
                    } else {
                        st
                    },
                }
            }
        },
        (_, _) => st,
    }
}

/// Merge the state of a second accumulator into a first one. For the
/// order-sensitive kind the entry with the greater order key survives, the
/// second operand winning ties, so a fixed merge order stays deterministic.
pub open spec fn accum_combine(kind: ReduceKind, a: Accum, b: Accum) -> Accum {
    match (kind, a, b) {
        (ReduceKind::Sum, Accum::Sum { total: ta }, Accum::Sum { total: tb }) => Accum::Sum {
            total: wadd(ta, tb),
        },
        (ReduceKind::Min, Accum::Min { best: ba }, Accum::Min { best: bb }) => Accum::Min {
            best: omin(ba, bb),
        },
        (ReduceKind::Last, Accum::Last { entry: ea }, Accum::Last { entry: eb }) => {
            match (ea, eb) {
                (_, Option::None) => a,
                (Option::None, _) => b,
                (Option::Some(x), Option::Some(y)) => if y.1 >= x.1 {
                    b
                } else {
                    a
                },
            }
        },
        (_, _, _) => a,
    }
}

/// The value a group finalizes into.
pub open spec fn accum_finalize(st: Accum) -> Option<u64> {
    match st {
        Accum::Sum { total } => Option::Some(total),
        Accum::Min { best } => best,
        Accum::Last { entry } => match entry {
            Option::Some(e) => Option::Some(e.0),
            Option::None => Option::None,
        },
    }
}

/// The ghost model of an accumulator collection.
pub ghost struct ReductionModel {
    pub kind: ReduceKind,
    pub groups: Seq<Accum>,
}

/// A mutable accumulator collection indexed by integer group id. Owned by
/// exactly one task until it is combined into another instance.
pub struct GroupedReduction {
    kind: ReduceKind,
    groups: Vec<Accum>,
}

impl View for GroupedReduction {
    type V = ReductionModel;

    closed spec fn view(&self) -> ReductionModel {
        ReductionModel { kind: self.kind, groups: self.groups@ }
    }
}

/// The effect of combining chosen source groups into chosen target groups,
/// pair by pair in the order given.
pub open spec fn combine_subset_spec(
    kind: ReduceKind,
    groups: Seq<Accum>,
    other: Seq<Accum>,
    self_ids: Seq<usize>,
    other_ids: Seq<usize>,
) -> Seq<Accum>
    decreases self_ids.len(),
{
    if self_ids.len() == 0 || self_ids.len() != other_ids.len() {
        groups
    } else {
        let prev = combine_subset_spec(
            kind,
            groups,
            other,
            self_ids.drop_last(),
            other_ids.drop_last(),
        );
        let t = self_ids.last() as int;
        let s = other_ids.last() as int;
        if 0 <= t < prev.len() && 0 <= s < other.len() {
            prev.update(t, accum_combine(kind, prev[t], other[s]))
        } else {
            prev
        }
    }
}

impl GroupedReduction {
    /// Every group carries the state shape of this collection's kind.
    pub open spec fn wf(&self) -> bool {
        forall|i: int| 0 <= i < self@.groups.len() ==> wf_accum(self@.kind, #[trigger] self@.groups[i])
    }

    /// An accumulator collection of the given kind with no groups yet.
    pub fn new(kind: ReduceKind) -> (r: Self)
        ensures
            r@.kind == kind,
            r@.groups == Seq::<Accum>::empty(),
            r.wf(),
    {
        GroupedReduction { kind, groups: Vec::new() }
    }

    /// A fresh, empty instance of the same kind, the per-task private copy
    /// each partition starts from.
    pub fn new_empty(&self) -> (r: Self)
        ensures
            r@.kind == self@.kind,
            r@.groups == Seq::<Accum>::empty(),
            r.wf(),
    {
        GroupedReduction { kind: self.kind, groups: Vec::new() }
    }

    /// The reduction kind of this collection.
    pub fn reduce_kind(&self) -> (r: ReduceKind)
        ensures
            r == self@.kind,
    {
        self.kind
    }

    /// The number of groups currently held.
    pub fn num_groups(&self) -> (r: usize)
        ensures
            r == self@.groups.len(),
    {
        self.groups.len()
    }

    /// Resize to hold exactly `n` groups: existing leading groups survive,
    /// new groups start from the identity, trailing groups are dropped.
    pub fn resize(&mut self, n: usize)
        ensures
            final(self)@.kind == old(self)@.kind,
            final(self)@.groups.len() == n,
            forall|i: int| 0 <= i < n && i < old(self)@.groups.len()
                ==> final(self)@.groups[i] == old(self)@.groups[i],
            forall|i: int| old(self)@.groups.len() <= i < n
                ==> final(self)@.groups[i] == accum_identity(old(self)@.kind),
            old(self).wf() ==> final(self).wf(),
    {
        let ghost keep: int = if n <= old(self)@.groups.len() {
            n as int
        } else {
            old(self)@.groups.len() as int
        };
        self.groups.truncate(n);
        while self.groups.len() < n
            invariant
                self@.kind == old(self)@.kind,
                keep == if n <= old(self)@.groups.len() {
                    n as int
                } else {
                    old(self)@.groups.len() as int
                },
                keep <= self@.groups.len() <= n,
                forall|i: int| 0 <= i < keep ==> self@.groups[i] == old(self)@.groups[i],
                forall|i: int| keep <= i < self@.groups.len()
                    ==> self@.groups[i] == accum_identity(old(self)@.kind),
            decreases n - self@.groups.len(),
        {
            let id = match self.kind {
                ReduceKind::Sum => Accum::Sum { total: 0u64 },
                ReduceKind::Min => Accum::Min { best: None },
                ReduceKind::Last => Accum::Last { entry: None },
            };
            assert(id == accum_identity(self@.kind));
            self.groups.push(id);
        }
    }

    /// Feed one column of cells into one group under one order key.
    pub fn update_group(&mut self, values: &Column, group: usize, order_key: u64)
        requires
            group < old(self)@.groups.len(),
        ensures
            final(self)@.kind == old(self)@.kind,
            final(self)@.groups == old(self)@.groups.update(
                group as int,
                accum_update(old(self)@.kind, old(self)@.groups[group as int], values@, order_key),
            ),
            old(self).wf() ==> final(self).wf(),
    {
        let st = self.groups[group];
        let next = match (self.kind, st) {
            (ReduceKind::Sum, Accum::Sum { total }) => {
                let mut acc: u64 = total;
                let mut i: usize = 0;
                while i < values.values.len()
                    invariant
                        0 <= i <= values@.len(),
                        acc == wadd(total, col_sum(values@.take(i as int))),
                    decreases values@.len() - i,
                {
                    proof {
                        assert(values@.take(i + 1).drop_last() =~= values@.take(i as int));
                        assert(values@.take(i + 1).last() == values@[i as int]);
                        lemma_wadd_assoc(total, col_sum(values@.take(i as int)), values@[i as int]);
                    }
                    acc = acc.wrapping_add(values.values[i]);
                    i += 1;
                }
                proof {
                    assert(values@.take(values@.len() as int) =~= values@);
                }
                Accum::Sum { total: acc }
            },
            (ReduceKind::Min, Accum::Min { best }) => {
                let mut acc: Option<u64> = best;
                let mut i: usize = 0;
                while i < values.values.len()
                    invariant
                        0 <= i <= values@.len(),
                        acc == omin(best, col_min(values@.take(i as int))),
                    decreases values@.len() - i,
                {
                    proof {
                        assert(values@.take(i + 1).drop_last() =~= values@.take(i as int));
                        assert(values@.take(i + 1).last() == values@[i as int]);
                    }
                    let v = values.values[i];
                    acc = match acc {
                        None => Some(v),
                        Some(m) => if v < m {
                            Some(v)
                        } else {
                            Some(m)
                        },
                    };
                    i += 1;
                }
                proof {
                    assert(values@.take(values@.len() as int) =~= values@);
                }
                Accum::Min { best: acc }
            },
            (ReduceKind::Last, Accum::Last { entry }) => {
                if values.values.len() == 0 {
                    st
                } else {
                    let v = values.values[values.values.len() - 1];
                    assert(v == values@.last());
                    match entry {
                        None => Accum::Last { entry: Some((v, order_key)) },
                        Some(e) => if order_key >= e.1 {
                            Accum::Last { entry: Some((v, order_key)) }
                        } else {
                            st
                        },
                    }
                }
            },
            (_, _) => st,
        };
        assert(next == accum_update(self@.kind, st, values@, order_key));
        self.groups.set(group, next);
    }

    /// Combine chosen groups of another instance into chosen groups of this
    /// one, pair by pair in the order given. Every referenced group id must
    /// be valid on its side; verified callers prove that, and the checked
    /// [`Self::try_combine_subset`] guards the public boundary.
    pub fn combine_subset(&mut self, other: &GroupedReduction, self_ids: &Vec<usize>, other_ids: &Vec<usize>)
        requires
            old(self)@.kind == other@.kind,
            self_ids@.len() == other_ids@.len(),
            forall|k: int| 0 <= k < self_ids@.len()
                ==> (#[trigger] self_ids@[k]) < old(self)@.groups.len(),
            forall|k: int| 0 <= k < other_ids@.len()
                ==> (#[trigger] other_ids@[k]) < other@.groups.len(),
        ensures
            final(self)@.kind == old(self)@.kind,
            final(self)@.groups == combine_subset_spec(
                old(self)@.kind,
                old(self)@.groups,
                other@.groups,
                self_ids@,
                other_ids@,
            ),
            old(self).wf() && other.wf() ==> final(self).wf(),
    {
        proof {
            lemma_combine_subset_spec_len(
                self@.kind,
                self@.groups,
                other@.groups,
                self_ids@,
                other_ids@,
            );
        }
        let mut k: usize = 0;
        while k < self_ids.len()
            invariant
                self@.kind == old(self)@.kind,
                self_ids@.len() == other_ids@.len(),
                forall|j: int| 0 <= j < self_ids@.len()
                    ==> (#[trigger] self_ids@[j]) < old(self)@.groups.len(),
                forall|j: int| 0 <= j < other_ids@.len()
                    ==> (#[trigger] other_ids@[j]) < other@.groups.len(),
                0 <= k <= self_ids@.len(),
                self@.groups == combine_subset_spec(
                    old(self)@.kind,
                    old(self)@.groups,
                    other@.groups,
                    self_ids@.take(k as int),
                    other_ids@.take(k as int),
                ),
                self@.groups.len() == old(self)@.groups.len(),
            decreases self_ids@.len() - k,
        {
            proof {
                lemma_combine_subset_spec_len(
                    old(self)@.kind,
                    old(self)@.groups,
                    other@.groups,
                    self_ids@.take(k as int),
                    other_ids@.take(k as int),
                );
                assert(self_ids@.take(k + 1).drop_last() =~= self_ids@.take(k as int));
                assert(other_ids@.take(k + 1).drop_last() =~= other_ids@.take(k as int));
            }
            let t = self_ids[k];
            let s = other_ids[k];
            let merged = accum_combine_exec(self.kind, self.groups[t], other.groups[s]);
            self.groups.set(t, merged);
            k += 1;
        }
        proof {
            assert(self_ids@.take(self_ids@.len() as int) =~= self_ids@);
            assert(other_ids@.take(other_ids@.len() as int) =~= other_ids@);
            if old(self).wf() && other.wf() {
                lemma_combine_subset_spec_wf(
                    old(self)@.kind,
                    old(self)@.groups,
                    other@.groups,
                    self_ids@,
                    other_ids@,
                );
            }
        }
    }

    /// The bounds-checked public face of [`Self::combine_subset`]: verifies
    /// that the two collections share a kind and every referenced group id is
    /// valid, and refuses the combine otherwise, leaving this instance
    /// unchanged.
    pub fn try_combine_subset(
        &mut self,
        other: &GroupedReduction,
        self_ids: &Vec<usize>,
        other_ids: &Vec<usize>,
    ) -> (r: Result<(), EngineError>)
        ensures
            r is Ok <==> (old(self)@.kind == other@.kind && self_ids@.len() == other_ids@.len()
                && (forall|k: int| 0 <= k < self_ids@.len()
                    ==> (#[trigger] self_ids@[k]) < old(self)@.groups.len())
                && (forall|k: int| 0 <= k < other_ids@.len()
                    ==> (#[trigger] other_ids@[k]) < other@.groups.len())),
            final(self)@.kind == old(self)@.kind,
            r is Ok ==> final(self)@.groups == combine_subset_spec(
                old(self)@.kind,
                old(self)@.groups,
                other@.groups,
                self_ids@,
                other_ids@,
            ),
            r is Err ==> final(self)@.groups == old(self)@.groups && r == Err::<(), EngineError>(
                EngineError::InvalidCombine,
            ),
            old(self).wf() && other.wf() ==> final(self).wf(),
    {
        if !kind_eq(self.kind, other.kind) || self_ids.len() != other_ids.len() {
            return Err(EngineError::InvalidCombine);
        }
        let mut k: usize = 0;
        while k < self_ids.len()
            invariant
                0 <= k <= self_ids@.len(),
                self_ids@.len() == other_ids@.len(),
                forall|j: int| 0 <= j < k ==> (#[trigger] self_ids@[j]) < self@.groups.len(),
                forall|j: int| 0 <= j < k ==> (#[trigger] other_ids@[j]) < other@.groups.len(),
                self == old(self),
            decreases self_ids@.len() - k,
        {
            if self_ids[k] >= self.groups.len() || other_ids[k] >= other.groups.len() {
                return Err(EngineError::InvalidCombine);
            }
            k += 1;
        }
        self.combine_subset(other, self_ids, other_ids);
        Ok(())
    }

    /// Finalize every group into its reduction value, in group order.
    pub fn finalize(&self) -> (r: Vec<Option<u64>>)
        ensures
            r@.len() == self@.groups.len(),
            forall|i: int| 0 <= i < r@.len() ==> r@[i] == accum_finalize(
                #[trigger] self@.groups[i],
            ),
    {
        let mut out: Vec<Option<u64>> = Vec::new();
        let mut i: usize = 0;
        while i < self.groups.len()
            invariant
                0 <= i <= self@.groups.len(),
                out@.len() == i,
                forall|j: int| 0 <= j < i ==> out@[j] == accum_finalize(
                    #[trigger] self@.groups[j],
                ),
            decreases self@.groups.len() - i,
        {
            let v = match self.groups[i] {
                Accum::Sum { total } => Some(total),
                Accum::Min { best } => best,
                Accum::Last { entry } => match entry {
                    Some(e) => Some(e.0),
                    None => None,
                },
            };
            out.push(v);
            i += 1;
        }
        out
    }
}

/// Exec mirror of [`accum_combine`].
fn accum_combine_exec(kind: ReduceKind, a: Accum, b: Accum) -> (r: Accum)
    ensures
        r == accum_combine(kind, a, b),
{
    match (kind, a, b) {
        (ReduceKind::Sum, Accum::Sum { total: ta }, Accum::Sum { total: tb }) => Accum::Sum {
            total: ta.wrapping_add(tb),
        },
        (ReduceKind::Min, Accum::Min { best: ba }, Accum::Min { best: bb }) => {
            let best = match (ba, bb) {
                (None, _) => bb,
                (_, None) => ba,
                (Some(x), Some(y)) => if x <= y {
                    Some(x)
                } else {
                    Some(y)
                },
            };
            Accum::Min { best }
        },
        (ReduceKind::Last, Accum::Last { entry: ea }, Accum::Last { entry: eb }) => {
            match (ea, eb) {
                (_, None) => a,
                (None, _) => b,
                (Some(x), Some(y)) => if y.1 >= x.1 {
                    b
                } else {
                    a
                },
            }
        },
        (_, _, _) => a,
    }
}

/// Exec equality of two reduction kinds.
fn kind_eq(a: ReduceKind, b: ReduceKind) -> (r: bool)
    ensures
        r == (a == b),
{
    match (a, b) {
        (ReduceKind::Sum, ReduceKind::Sum) => true,
        (ReduceKind::Min, ReduceKind::Min) => true,
        (ReduceKind::Last, ReduceKind::Last) => true,
        (_, _) => false,
    }
}


/// Wrapping addition is associative.
pub proof fn lemma_wadd_assoc(a: u64, b: u64, c: u64)
    ensures
        wadd(wadd(a, b), c) == wadd(a, wadd(b, c)),
{
}


/// [`combine_subset_spec`] keeps the number of groups.
pub proof fn lemma_combine_subset_spec_len(
    kind: ReduceKind,
    groups: Seq<Accum>,
    other: Seq<Accum>,
    self_ids: Seq<usize>,
    other_ids: Seq<usize>,
)
    ensures
        combine_subset_spec(kind, groups, other, self_ids, other_ids).len() == groups.len(),
    decreases self_ids.len(),
{
    if self_ids.len() != 0 && self_ids.len() == other_ids.len() {
        lemma_combine_subset_spec_len(
            kind,
            groups,
            other,
            self_ids.drop_last(),
            other_ids.drop_last(),
        );
    }
}

/// The common single-group case of [`combine_subset_spec`]: merging group
/// zero of another single-group instance into group zero of this one.
pub proof fn lemma_combine_subset_single(kind: ReduceKind, groups: Seq<Accum>, other: Seq<Accum>)
    requires
        groups.len() >= 1,
        other.len() >= 1,
    ensures
        combine_subset_spec(kind, groups, other, seq![0usize], seq![0usize]) == groups.update(
            0,
            accum_combine(kind, groups[0], other[0]),
        ),
{
    let ids = seq![0usize];
    assert(ids.drop_last() =~= Seq::<usize>::empty());
    assert(combine_subset_spec(kind, groups, other, ids.drop_last(), ids.drop_last()) == groups);
}


/// Combine keeps the state shape of the kind.
pub proof fn lemma_combine_preserves_wf(kind: ReduceKind, a: Accum, b: Accum)
    requires
        wf_accum(kind, a),
        wf_accum(kind, b),
    ensures
        wf_accum(kind, accum_combine(kind, a, b)),
{
}

/// [`combine_subset_spec`] keeps well-formed groups well-formed.
pub proof fn lemma_combine_subset_spec_wf(
    kind: ReduceKind,
    groups: Seq<Accum>,
    other: Seq<Accum>,
    self_ids: Seq<usize>,
    other_ids: Seq<usize>,
)
    requires
        forall|i: int| 0 <= i < groups.len() ==> wf_accum(kind, #[trigger] groups[i]),
        forall|i: int| 0 <= i < other.len() ==> wf_accum(kind, #[trigger] other[i]),
    ensures
        forall|i: int| 0 <= i < combine_subset_spec(kind, groups, other, self_ids, other_ids).len()
            ==> wf_accum(
                kind,
                #[trigger] combine_subset_spec(kind, groups, other, self_ids, other_ids)[i],
            ),
    decreases self_ids.len(),
{
    if self_ids.len() != 0 && self_ids.len() == other_ids.len() {
        lemma_combine_subset_spec_wf(
            kind,
            groups,
            other,
            self_ids.drop_last(),
            other_ids.drop_last(),
        );
        let prev = combine_subset_spec(
            kind,
            groups,
            other,
            self_ids.drop_last(),
            other_ids.drop_last(),
        );
        let res = combine_subset_spec(kind, groups, other, self_ids, other_ids);
        let t = self_ids.last() as int;
        let s = other_ids.last() as int;
        assert forall|i: int| 0 <= i < res.len() implies wf_accum(kind, #[trigger] res[i]) by {
            if 0 <= t < prev.len() && 0 <= s < other.len() {
                if i == t {
                    lemma_combine_preserves_wf(kind, prev[t], other[s]);
                } else {
                    assert(res[i] == prev[i]);
                }
            } else {
                assert(res[i] == prev[i]);
            }
        }
    }
}

/// For kinds insensitive to grouping, combine is commutative.
pub proof fn lemma_combine_comm(kind: ReduceKind, a: Accum, b: Accum)
    requires
        kind.is_commutative(),
        wf_accum(kind, a),
        wf_accum(kind, b),
    ensures
        accum_combine(kind, a, b) == accum_combine(kind, b, a),
{
}

/// For kinds insensitive to grouping, combine is associative.
pub proof fn lemma_combine_assoc(kind: ReduceKind, a: Accum, b: Accum, c: Accum)
    requires
        kind.is_commutative(),
        wf_accum(kind, a),
        wf_accum(kind, b),
        wf_accum(kind, c),
    ensures
        accum_combine(kind, accum_combine(kind, a, b), c) == accum_combine(
            kind,
            a,
            accum_combine(kind, b, c),
        ),
{
}

/// The identity accumulator is neutral for combine, on every kind.
pub proof fn lemma_combine_identity(kind: ReduceKind, a: Accum)
    requires
        wf_accum(kind, a),
    ensures
        accum_combine(kind, accum_identity(kind), a) == a,
        accum_combine(kind, a, accum_identity(kind)) == a,
{
}

/// For kinds insensitive to grouping, an update factors through combine with
/// the update applied to the identity.
pub proof fn lemma_update_factors(kind: ReduceKind, st: Accum, values: Seq<u64>, key: u64)
    requires
        kind.is_commutative(),
        wf_accum(kind, st),
    ensures
        accum_update(kind, st, values, key) == accum_combine(
            kind,
            st,
            accum_update(kind, accum_identity(kind), values, key),
        ),
{
}

} // verus!
