//! The buffered parallel reduction node: consumes its whole input, folds it
//! through grouped reductions partition by partition, merges the partitions
//! in a fixed index order, and emits the finalized result as one morsel.

use vstd::prelude::*;
use crate::EngineError;
use crate::frame::{cast_scalar, scalar_fits, DataBatch, ResultBatch, ScalarColumn, Schema};
use crate::morsel::{Morsel, MorselSeq, SourceToken};
use crate::port::{Channel, PortState};
use crate::reducer::{
    accum_combine, accum_finalize, accum_identity, accum_update, lemma_combine_subset_single,
    Accum, GroupedReduction, ReduceKind,
};
use crate::selector::{eval_of, eval_ok, Selector};

verus! {

/// The node-private phase, a one-directional state machine. `Sink` is still
/// consuming input, `Source` holds the produced result until its single
/// emission, `Done` is terminal. Any phase short-circuits to `Done` as soon
/// as the downstream consumer reports `Done`.
pub enum ReduceState {
    /// Consuming input: one selector and one accumulator collection per
    /// output field.
    Sink { selectors: Vec<Selector>, reductions: Vec<GroupedReduction> },
    /// The result batch pending emission; `None` once the single output
    /// morsel has been taken.
    Source(Option<ResultBatch>),
    /// Terminal.
    Done,
}

/// The reduction operator: a compute node with one receive port and one send
/// port.
pub struct ReduceNode {
    pub state: ReduceState,
    pub output_schema: Schema,
}

/// The port states a node in the given phase reports for its (receive, send)
/// ports. The sink phase keeps the send side `Blocked`: that is the full
/// barrier, no output can be observed while input is still being consumed.
pub open spec fn reported_states(s: ReduceState) -> (PortState, PortState) {
    match s {
        ReduceState::Sink { .. } => (PortState::Ready, PortState::Blocked),
        ReduceState::Source(_) => (PortState::Done, PortState::Ready),
        ReduceState::Done => (PortState::Done, PortState::Done),
    }
}

/// The value one accumulator collection finalizes into once resized to a
/// single group: its group zero, or the identity if it never held a group.
pub open spec fn final_scalar(r: GroupedReduction) -> Option<u64> {
    accum_finalize(
        if r@.groups.len() >= 1 {
            r@.groups[0]
        } else {
            accum_identity(r@.kind)
        },
    )
}

/// Whether every finalized value fits its declared output type, so that
/// finalization succeeds.
pub open spec fn finalize_ok(reductions: Seq<GroupedReduction>, schema: Schema) -> bool {
    forall|i: int| 0 <= i < reductions.len() ==> scalar_fits(
        final_scalar(#[trigger] reductions[i]),
        schema.fields@[i].dtype,
    )
}

/// Whether a result batch is exactly the finalization of the given
/// accumulator collections under the given schema: one single-row constant
/// column per field, renamed to the field and cast to its declared type.
pub open spec fn batch_matches(b: ResultBatch, reductions: Seq<GroupedReduction>, schema: Schema) -> bool {
    &&& b.columns@.len() == reductions.len()
    &&& forall|i: int| 0 <= i < reductions.len() ==> {
        &&& (#[trigger] b.columns@[i]).name@ == schema.fields@[i].name@
        &&& b.columns@[i].dtype == schema.fields@[i].dtype
        &&& b.columns@[i].value == final_scalar(reductions[i])
    }
}

impl ReduceNode {
    /// The structural invariant of the node: while sinking, there is one
    /// selector and one accumulator collection per output field.
    pub open spec fn wf(self) -> bool {
        self.state matches ReduceState::Sink { selectors, reductions } ==> {
            &&& selectors@.len() == reductions@.len()
            &&& reductions@.len() == self.output_schema.fields@.len()
            &&& forall|i: int| 0 <= i < reductions@.len() ==> (#[trigger] reductions@[i]).wf()
        }
    }

    /// Construct a reduction node that will consume input through the given
    /// selectors into the given accumulator collections, and emit one batch
    /// under the given schema.
    pub fn new(selectors: Vec<Selector>, reductions: Vec<GroupedReduction>, output_schema: Schema) -> (r: Self)
        requires
            selectors@.len() == reductions@.len(),
            reductions@.len() == output_schema.fields@.len(),
            forall|i: int| 0 <= i < reductions@.len() ==> (#[trigger] reductions@[i]).wf(),
        ensures
            r.state matches ReduceState::Sink { selectors: s, reductions: d } && s == selectors
                && d == reductions,
            r.output_schema == output_schema,
            r.wf(),
    {
        ReduceNode { state: ReduceState::Sink { selectors, reductions }, output_schema }
    }

    /// The operator's name.
    pub fn name(&self) -> (r: &'static str)
        ensures
            r@ == "reduce"@,
    {
        "reduce"
    }

    /// One scheduling step of the node's state machine: derive the next
    /// phase from the current phase and the neighbouring port states, then
    /// report the node's own desired port states. Performs no morsel
    /// exchange; the only work done here is bounded finalization when the
    /// upstream side has finished.
    ///
    /// The transition rules, in priority order: a downstream `Done`
    /// short-circuits any phase straight to `Done`; an upstream `Done` ends
    /// the sink phase by finalizing every reduction into the pending result
    /// batch; a source phase whose batch has been taken becomes `Done`;
    /// anything else holds its phase, so the step is idempotent when nothing
    /// outside changed.
    #[verifier::loop_isolation(false)]
    pub fn update_state(&mut self, recv: &mut Vec<PortState>, send: &mut Vec<PortState>) -> (res: Result<
        (),
        EngineError,
    >)
        requires
            old(recv)@.len() == 1,
            old(send)@.len() == 1,
            old(self).wf(),
        ensures
            final(self).wf(),
            final(self).output_schema == old(self).output_schema,
            final(recv)@.len() == 1,
            final(send)@.len() == 1,
            // A downstream that is done short-circuits everything.
            old(send)@[0] == PortState::Done ==> res is Ok && final(self).state is Done,
            // Upstream done while sinking: finalize into a pending batch.
            old(send)@[0] != PortState::Done && old(recv)@[0] == PortState::Done ==> (old(self).state matches ReduceState::Sink { reductions, .. } ==> {
                if finalize_ok(reductions@, old(self).output_schema) {
                    &&& res is Ok
                    &&& final(self).state matches ReduceState::Source(b)
                    &&& b matches Some(batch)
                    &&& batch_matches(batch, reductions@, old(self).output_schema)
                } else {
                    &&& res == Err::<(), EngineError>(EngineError::InvalidCast)
                    &&& *final(self) == *old(self)
                    &&& final(recv)@ == old(recv)@
                    &&& final(send)@ == old(send)@
                }
            }),
            // Still sinking while upstream has more input: hold the phase.
            old(send)@[0] != PortState::Done && old(recv)@[0] != PortState::Done
                && old(self).state is Sink ==> res is Ok && final(self).state == old(self).state,
            // The single emission has been taken: the node is done.
            old(send)@[0] != PortState::Done ==> ((old(self).state matches ReduceState::Source(b)
                && b is None) ==> res is Ok && final(self).state is Done),
            // Result still pending emission: hold the phase.
            old(send)@[0] != PortState::Done ==> ((old(self).state matches ReduceState::Source(b)
                && b is Some) ==> res is Ok && final(self).state == old(self).state),
            old(send)@[0] != PortState::Done && old(self).state is Done ==> res is Ok
                && final(self).state is Done,
            // On success the reported port states are a projection of the
            // node's own phase, never a promise it will not keep.
            res is Ok ==> (final(recv)@[0], final(send)@[0]) == reported_states(final(self).state),
    {
        let send0 = send[0];
        let recv0 = recv[0];
        if send0 == PortState::Done {
            // The output does not want any more data.
            self.state = ReduceState::Done;
        } else {
            let next: Option<ReduceState> = match &self.state {
                ReduceState::Sink { selectors: _, reductions } => {
                    if recv0 == PortState::Done {
                        // Input is done: finalize each reduction under its
                        // schema field and assemble the pending result batch.
                        let mut columns: Vec<ScalarColumn> = Vec::new();
                        let mut i: usize = 0;
                        while i < reductions.len()
                            invariant
                                0 <= i <= reductions@.len(),
                                columns@.len() == i,
                                forall|j: int| 0 <= j < i ==> {
                                    &&& (#[trigger] columns@[j]).name@
                                        == self.output_schema.fields@[j].name@
                                    &&& columns@[j].dtype == self.output_schema.fields@[j].dtype
                                    &&& columns@[j].value == final_scalar(reductions@[j])
                                },
                                forall|j: int| 0 <= j < i ==> scalar_fits(
                                    final_scalar(#[trigger] reductions@[j]),
                                    self.output_schema.fields@[j].dtype,
                                ),
                            decreases reductions@.len() - i,
                        {
                            let v = final_scalar_exec(&reductions[i]);
                            let dtype = self.output_schema.fields[i].dtype;
                            match cast_scalar(v, dtype) {
                                Ok(w) => {
                                    let name = self.output_schema.fields[i].name.clone();
                                    columns.push(ScalarColumn { name, dtype, value: w });
                                },
                                Err(e) => {
                                    return Err(e);
                                },
                            }
                            i += 1;
                        }
                        Some(ReduceState::Source(Some(ResultBatch { columns })))
                    } else {
                        None
                    }
                },
                ReduceState::Source(b) => {
                    if b.is_none() {
                        // The single result morsel has been sent.
                        Some(ReduceState::Done)
                    } else {
                        None
                    }
                },
                ReduceState::Done => None,
            };
            match next {
                Some(s) => {
                    self.state = s;
                },
                None => {},
            }
        }
        // Communicate the phase as port readiness.
        let reported: (PortState, PortState) = match &self.state {
            ReduceState::Sink { .. } => (PortState::Ready, PortState::Blocked),
            ReduceState::Source(_) => (PortState::Done, PortState::Ready),
            ReduceState::Done => (PortState::Done, PortState::Done),
        };
        recv.set(0, reported.0);
        send.set(0, reported.1);
        Ok(())
    }
}

/// The accumulator an initial state grows into after feeding it every morsel
/// of a partition in arrival order, each update keyed by the morsel's
/// sequence number.
pub open spec fn accum_fold(
    kind: ReduceKind,
    sel: Selector,
    init: Accum,
    ms: Seq<Morsel<DataBatch>>,
) -> Accum
    decreases ms.len(),
{
    if ms.len() == 0 {
        init
    } else {
        accum_fold(
            kind,
            sel,
            accum_update(kind, init, eval_of(sel, ms[0].data), ms[0].seq_id.counter),
            ms.drop_first(),
        )
    }
}

/// The single-group state one partition's private reducer reaches: the fold
/// of all its morsels over the identity.
pub open spec fn part_result(kind: ReduceKind, sel: Selector, ms: Seq<Morsel<DataBatch>>) -> Accum {
    accum_fold(kind, sel, accum_identity(kind), ms)
}

/// Whether a selector evaluates successfully against every morsel of a
/// partition.
pub open spec fn all_evals_ok(sel: Selector, ms: Seq<Morsel<DataBatch>>) -> bool {
    forall|j: int| 0 <= j < ms.len() ==> eval_ok(sel, (#[trigger] ms[j]).data)
}

/// Whether every selector evaluates successfully against every morsel of
/// every partition, so that the whole sink phase succeeds.
pub open spec fn sink_ok(selectors: Seq<Selector>, parts: Seq<Seq<Morsel<DataBatch>>>) -> bool {
    forall|p: int, i: int| 0 <= p < parts.len() && 0 <= i < selectors.len() ==> all_evals_ok(
        #[trigger] selectors[i],
        #[trigger] parts[p],
    )
}

/// The accumulator an initial state grows into after merging in every
/// partition's result, in partition index order. The merge order is fixed,
/// never completion order: that is what makes the final value deterministic.
pub open spec fn merged_fold(
    kind: ReduceKind,
    sel: Selector,
    init: Accum,
    parts: Seq<Seq<Morsel<DataBatch>>>,
) -> Accum
    decreases parts.len(),
{
    if parts.len() == 0 {
        init
    } else {
        merged_fold(
            kind,
            sel,
            accum_combine(kind, init, part_result(kind, sel, parts[0])),
            parts.drop_first(),
        )
    }
}

/// The node-level accumulator after the whole sink phase: every partition's
/// private result merged into the identity in partition index order.
pub open spec fn merged_result(kind: ReduceKind, sel: Selector, parts: Seq<Seq<Morsel<DataBatch>>>) -> Accum {
    merged_fold(kind, sel, accum_identity(kind), parts)
}

/// The per-partition morsel sequences carried by a vector of partitions.
pub open spec fn parts_view(parts: Seq<Vec<Morsel<DataBatch>>>) -> Seq<Seq<Morsel<DataBatch>>> {
    parts.map_values(|p: Vec<Morsel<DataBatch>>| p@)
}

/// Folding one more morsel applies one more update.
pub proof fn lemma_accum_fold_push(
    kind: ReduceKind,
    sel: Selector,
    init: Accum,
    ms: Seq<Morsel<DataBatch>>,
    m: Morsel<DataBatch>,
)
    ensures
        accum_fold(kind, sel, init, ms.push(m)) == accum_update(
            kind,
            accum_fold(kind, sel, init, ms),
            eval_of(sel, m.data),
            m.seq_id.counter,
        ),
    decreases ms.len(),
{
    let s = ms.push(m);
    assert(s.len() == ms.len() + 1);
    assert(s[0] == if ms.len() == 0 { m } else { ms[0] });
    assert(accum_fold(kind, sel, init, s) == accum_fold(
        kind,
        sel,
        accum_update(kind, init, eval_of(sel, s[0].data), s[0].seq_id.counter),
        s.drop_first(),
    ));
    if ms.len() == 0 {
        assert(s.drop_first() =~= Seq::<Morsel<DataBatch>>::empty());
    } else {
        assert(s.drop_first() =~= ms.drop_first().push(m));
        lemma_accum_fold_push(
            kind,
            sel,
            accum_update(kind, init, eval_of(sel, ms[0].data), ms[0].seq_id.counter),
            ms.drop_first(),
            m,
        );
    }
}

/// Merging one more partition applies one more combine.
pub proof fn lemma_merged_fold_push(
    kind: ReduceKind,
    sel: Selector,
    init: Accum,
    parts: Seq<Seq<Morsel<DataBatch>>>,
    p: Seq<Morsel<DataBatch>>,
)
    ensures
        merged_fold(kind, sel, init, parts.push(p)) == accum_combine(
            kind,
            merged_fold(kind, sel, init, parts),
            part_result(kind, sel, p),
        ),
    decreases parts.len(),
{
    let s = parts.push(p);
    assert(s.len() == parts.len() + 1);
    assert(s[0] == if parts.len() == 0 { p } else { parts[0] });
    assert(merged_fold(kind, sel, init, s) == merged_fold(
        kind,
        sel,
        accum_combine(kind, init, part_result(kind, sel, s[0])),
        s.drop_first(),
    ));
    if parts.len() == 0 {
        assert(s.drop_first() =~= Seq::<Seq<Morsel<DataBatch>>>::empty());
    } else {
        assert(s.drop_first() =~= parts.drop_first().push(p));
        lemma_merged_fold_push(
            kind,
            sel,
            accum_combine(kind, init, part_result(kind, sel, parts[0])),
            parts.drop_first(),
            p,
        );
    }
}

impl ReduceNode {
    /// The sink phase's work: what the parallel partition tasks and the
    /// coordinating merge task compute between them during one sink step.
    ///
    /// Each partition owns a private array of fresh single-group reducers and
    /// folds its own morsels into them in arrival order, keyed by morsel
    /// sequence number; no state is shared while partitions run. The merge
    /// then combines every partition's single group into the node-level
    /// reducers in partition index order. A selector failure on any morsel
    /// fails the whole phase and leaves the node-level reducers untouched.
    #[verifier::loop_isolation(false)]
    pub fn sink_phase(
        selectors: &Vec<Selector>,
        reductions: &mut Vec<GroupedReduction>,
        partition_inputs: &Vec<Vec<Morsel<DataBatch>>>,
    ) -> (res: Result<(), EngineError>)
        requires
            selectors@.len() == old(reductions)@.len(),
            partition_inputs@.len() >= 1,
            forall|i: int| 0 <= i < old(reductions)@.len() ==> (#[trigger] old(reductions)@[i]).wf(),
            forall|i: int| 0 <= i < old(reductions)@.len() ==> (#[trigger] old(reductions)@[i])@.groups.len() == 0,
        ensures
            final(reductions)@.len() == old(reductions)@.len(),
            forall|i: int| 0 <= i < final(reductions)@.len() ==> (#[trigger] final(reductions)@[i])@.kind == old(reductions)@[i]@.kind,
            forall|i: int| 0 <= i < final(reductions)@.len() ==> (#[trigger] final(reductions)@[i]).wf(),
            res is Ok <==> sink_ok(selectors@, parts_view(partition_inputs@)),
            res is Ok ==> forall|i: int| 0 <= i < final(reductions)@.len() ==> (#[trigger] final(reductions)@[i])@.groups =~= seq![
                merged_result(
                    old(reductions)@[i]@.kind,
                    selectors@[i],
                    parts_view(partition_inputs@),
                ),
            ],
            res is Err ==> final(reductions)@ == old(reductions)@ && res == Err::<(), EngineError>(
                EngineError::Evaluation,
            ),
    {
        let nsel = selectors.len();
        let ghost parts = parts_view(partition_inputs@);
        proof {
            assert(parts.len() == partition_inputs@.len());
            assert(forall|q: int| 0 <= q < parts.len() ==> parts[q] == (
            #[trigger] partition_inputs@[q])@);
        }
        // The partition tasks: each partition folds its morsels into its own
        // private single-group reducers.
        let mut locals_all: Vec<Vec<GroupedReduction>> = Vec::new();
        let mut p: usize = 0;
        while p < partition_inputs.len()
            invariant
                0 <= p <= partition_inputs@.len(),
                locals_all@.len() == p,
                forall|q: int| 0 <= q < p ==> (#[trigger] locals_all@[q])@.len() == nsel,
                forall|q: int, i: int| 0 <= q < p && 0 <= i < nsel ==> {
                    &&& (#[trigger] locals_all@[q]@[i])@.kind == reductions@[i]@.kind
                    &&& locals_all@[q]@[i].wf()
                    &&& locals_all@[q]@[i]@.groups =~= seq![
                        part_result(reductions@[i]@.kind, selectors@[i], parts[q]),
                    ]
                },
                forall|q: int, i: int| 0 <= q < p && 0 <= i < nsel ==> all_evals_ok(
                    #[trigger] selectors@[i],
                    #[trigger] parts[q],
                ),
            decreases partition_inputs@.len() - p,
        {
            // Fresh private reducers for this partition, one group each.
            let mut locals: Vec<GroupedReduction> = Vec::new();
            let mut i: usize = 0;
            while i < nsel
                invariant
                    0 <= i <= nsel,
                    locals@.len() == i,
                    forall|k: int| 0 <= k < i ==> {
                        &&& (#[trigger] locals@[k])@.kind == reductions@[k]@.kind
                        &&& locals@[k].wf()
                        &&& locals@[k]@.groups =~= seq![accum_identity(reductions@[k]@.kind)]
                    },
                decreases nsel - i,
            {
                let mut fresh = reductions[i].new_empty();
                fresh.resize(1);
                proof {
                    assert(fresh@.groups =~= seq![accum_identity(reductions@[i as int]@.kind)]);
                }
                locals.push(fresh);
                i += 1;
            }
            // Fold this partition's morsels, in arrival order.
            let morsels = &partition_inputs[p];
            let mut m: usize = 0;
            while m < morsels.len()
                invariant
                    0 <= m <= morsels@.len(),
                    morsels@ == parts[p as int],
                    locals@.len() == nsel,
                    forall|k: int| 0 <= k < nsel ==> {
                        &&& (#[trigger] locals@[k])@.kind == reductions@[k]@.kind
                        &&& locals@[k].wf()
                        &&& locals@[k]@.groups =~= seq![
                            accum_fold(
                                reductions@[k]@.kind,
                                selectors@[k],
                                accum_identity(reductions@[k]@.kind),
                                morsels@.take(m as int),
                            ),
                        ]
                    },
                    forall|j: int, k: int| 0 <= j < m && 0 <= k < nsel ==> eval_ok(
                        #[trigger] selectors@[k],
                        (#[trigger] morsels@[j]).data,
                    ),
                decreases morsels@.len() - m,
            {
                let morsel = &morsels[m];
                let order_key = morsel.seq_id.counter;
                let mut i: usize = 0;
                while i < nsel
                    invariant
                        0 <= i <= nsel,
                        0 <= m < morsels@.len(),
                        morsels@ == parts[p as int],
                        locals@.len() == nsel,
                        morsel == &morsels@[m as int],
                        order_key == morsels@[m as int].seq_id.counter,
                        forall|k: int| 0 <= k < nsel ==> {
                            &&& (#[trigger] locals@[k])@.kind == reductions@[k]@.kind
                            &&& locals@[k].wf()
                        },
                        forall|k: int| 0 <= k < i ==> (#[trigger] locals@[k])@.groups =~= seq![
                            accum_fold(
                                reductions@[k]@.kind,
                                selectors@[k],
                                accum_identity(reductions@[k]@.kind),
                                morsels@.take(m + 1),
                            ),
                        ],
                        forall|k: int| i <= k < nsel ==> (#[trigger] locals@[k])@.groups =~= seq![
                            accum_fold(
                                reductions@[k]@.kind,
                                selectors@[k],
                                accum_identity(reductions@[k]@.kind),
                                morsels@.take(m as int),
                            ),
                        ],
                        forall|k: int| 0 <= k < i ==> eval_ok(
                            #[trigger] selectors@[k],
                            morsels@[m as int].data,
                        ),
                    decreases nsel - i,
                {
                    let column = match selectors[i].evaluate(&morsel.data) {
                        Ok(c) => c,
                        Err(e) => {
                            proof {
                                assert(!eval_ok(
                                    selectors@[i as int],
                                    parts[p as int][m as int].data,
                                ));
                                assert(!all_evals_ok(selectors@[i as int], parts[p as int]));
                                assert(!sink_ok(selectors@, parts));
                            }
                            return Err(e);
                        },
                    };
                    proof {
                        assert(morsels@.take(m + 1) =~= morsels@.take(m as int).push(
                            morsels@[m as int],
                        ));
                        lemma_accum_fold_push(
                            reductions@[i as int]@.kind,
                            selectors@[i as int],
                            accum_identity(reductions@[i as int]@.kind),
                            morsels@.take(m as int),
                            morsels@[m as int],
                        );
                    }
                    locals[i].update_group(&column, 0, order_key);
                    i += 1;
                }
                m += 1;
            }
            proof {
                assert(morsels@.take(morsels@.len() as int) =~= morsels@);
            }
            locals_all.push(locals);
            p += 1;
        }
        // The coordinating merge: fold every partition's single group into
        // the node-level reducers, in fixed partition index order.
        let target_ids: Vec<usize> = vec![0];
        let source_ids: Vec<usize> = vec![0];
        let mut p: usize = 0;
        while p < locals_all.len()
            invariant
                0 <= p <= locals_all@.len(),
                locals_all@.len() == partition_inputs@.len(),
                forall|q: int| 0 <= q < locals_all@.len() ==> (#[trigger] locals_all@[q])@.len()
                    == nsel,
                forall|q: int, i: int| 0 <= q < locals_all@.len() && 0 <= i < nsel ==> {
                    &&& (#[trigger] locals_all@[q]@[i])@.kind == old(reductions)@[i]@.kind
                    &&& locals_all@[q]@[i].wf()
                    &&& locals_all@[q]@[i]@.groups =~= seq![
                        part_result(old(reductions)@[i]@.kind, selectors@[i], parts[q]),
                    ]
                },
                target_ids@ =~= seq![0usize],
                source_ids@ =~= seq![0usize],
                reductions@.len() == old(reductions)@.len(),
                forall|i: int| 0 <= i < nsel ==> {
                    &&& (#[trigger] reductions@[i])@.kind == old(reductions)@[i]@.kind
                    &&& reductions@[i].wf()
                    &&& reductions@[i]@.groups =~= (if p == 0 {
                        Seq::<Accum>::empty()
                    } else {
                        seq![
                            merged_fold(
                                old(reductions)@[i]@.kind,
                                selectors@[i],
                                accum_identity(old(reductions)@[i]@.kind),
                                parts.take(p as int),
                            ),
                        ]
                    })
                },
            decreases locals_all@.len() - p,
        {
            let mut i: usize = 0;
            while i < nsel
                invariant
                    0 <= i <= nsel,
                    0 <= p < locals_all@.len(),
                    locals_all@.len() == partition_inputs@.len(),
                    forall|q: int| 0 <= q < locals_all@.len() ==> (#[trigger] locals_all@[
                        q
                    ])@.len() == nsel,
                    forall|q: int, k: int| 0 <= q < locals_all@.len() && 0 <= k < nsel ==> {
                        &&& (#[trigger] locals_all@[q]@[k])@.kind == old(reductions)@[k]@.kind
                        &&& locals_all@[q]@[k].wf()
                        &&& locals_all@[q]@[k]@.groups =~= seq![
                            part_result(old(reductions)@[k]@.kind, selectors@[k], parts[q]),
                        ]
                    },
                    target_ids@ =~= seq![0usize],
                    source_ids@ =~= seq![0usize],
                    reductions@.len() == old(reductions)@.len(),
                    forall|k: int| 0 <= k < nsel ==> (#[trigger] reductions@[k])@.kind == old(reductions)@[k]@.kind && reductions@[k].wf(),
                    forall|k: int| i <= k < nsel ==> (#[trigger] reductions@[k])@.groups =~= (
                    if p == 0 {
                        Seq::<Accum>::empty()
                    } else {
                        seq![
                            merged_fold(
                                old(reductions)@[k]@.kind,
                                selectors@[k],
                                accum_identity(old(reductions)@[k]@.kind),
                                parts.take(p as int),
                            ),
                        ]
                    }),
                    forall|k: int| 0 <= k < i ==> (#[trigger] reductions@[k])@.groups =~= seq![
                        merged_fold(
                            old(reductions)@[k]@.kind,
                            selectors@[k],
                            accum_identity(old(reductions)@[k]@.kind),
                            parts.take(p + 1),
                        ),
                    ],
                decreases nsel - i,
            {
                proof {
                    assert(parts.take(p + 1) =~= parts.take(p as int).push(parts[p as int]));
                    if p == 0 {
                        assert(parts.take(0) =~= Seq::<Seq<Morsel<DataBatch>>>::empty());
                    }
                    lemma_merged_fold_push(
                        old(reductions)@[i as int]@.kind,
                        selectors@[i as int],
                        accum_identity(old(reductions)@[i as int]@.kind),
                        parts.take(p as int),
                        parts[p as int],
                    );
                }
                let ghost kind_i = old(reductions)@[i as int]@.kind;
                reductions[i].resize(1);
                let ghost g1 = reductions@[i as int]@.groups;
                let partition_locals = &locals_all[p];
                let ghost o = partition_locals@[i as int]@.groups;
                reductions[i].combine_subset(&partition_locals[i], &target_ids, &source_ids);
                proof {
                    assert(g1 =~= seq![
                        if p == 0 {
                            accum_identity(kind_i)
                        } else {
                            merged_fold(
                                kind_i,
                                selectors@[i as int],
                                accum_identity(kind_i),
                                parts.take(p as int),
                            )
                        },
                    ]);
                    lemma_combine_subset_single(kind_i, g1, o);
                    assert(reductions@[i as int]@.groups =~= seq![
                        accum_combine(kind_i, g1[0], o[0]),
                    ]);
                }
                i += 1;
            }
            p += 1;
        }
        proof {
            assert(parts.take(parts.len() as int) =~= parts);
        }
        Ok(())
    }

    /// The source phase's task: wrap the held result batch into one fresh
    /// morsel and send it exactly once. The result is a brand-new top-level
    /// value, so its sequence number restarts at zero under a fresh
    /// cancellation token. A send into a closed channel is silently dropped,
    /// as backpressure-driven shutdown demands.
    pub fn source_phase(pending: &mut Option<ResultBatch>, send: &mut Channel<Morsel<ResultBatch>>)
        requires
            (*old(pending)) is Some,
        ensures
            *final(pending) == Option::<ResultBatch>::None,
            final(send)@.closed == old(send)@.closed,
            old(send)@.closed ==> final(send)@.items == old(send)@.items,
            (*old(pending)) matches Some(batch) ==> (!old(send)@.closed ==> final(send)@.items == old(send)@.items.push(
                Morsel {
                    data: batch,
                    seq_id: MorselSeq { counter: 0 },
                    token: SourceToken { stop_requested: false },
                },
            )),
    {
        let batch = pending.take();
        match batch {
            Some(b) => {
                let morsel = Morsel::new(b, MorselSeq::new(0), SourceToken::new());
                let _ = send.send(morsel);
            },
            None => {},
        }
    }

    /// Run the tasks of the current step: the parallel partition fold plus
    /// the coordinating merge while sinking, or the single emission while
    /// sourcing. The scheduler must not call this once the node is `Done`,
    /// nor after the source phase's one morsel has already been taken.
    pub fn spawn(
        &mut self,
        partition_inputs: &Vec<Vec<Morsel<DataBatch>>>,
        send: &mut Channel<Morsel<ResultBatch>>,
    ) -> (res: Result<(), EngineError>)
        requires
            old(self).wf(),
            !(old(self).state is Done),
            old(self).state matches ReduceState::Source(b) ==> b is Some,
            old(self).state is Sink ==> partition_inputs@.len() >= 1,
            old(self).state matches ReduceState::Sink { reductions, .. } ==> forall|i: int|
                0 <= i < reductions@.len() ==> (#[trigger] reductions@[i])@.groups.len() == 0,
        ensures
            final(self).wf(),
            final(self).output_schema == old(self).output_schema,
            // The sink step consumes input and produces nothing.
            old(self).state matches ReduceState::Sink { selectors, reductions } ==> {
                &&& final(send)@ == old(send)@
                &&& final(self).state matches ReduceState::Sink {
                    selectors: s2,
                    reductions: d2,
                }
                &&& s2 == selectors
                &&& d2@.len() == reductions@.len()
                &&& forall|i: int| 0 <= i < d2@.len() ==> (#[trigger] d2@[i])@.kind
                    == reductions@[i]@.kind
                &&& (res is Ok <==> sink_ok(selectors@, parts_view(partition_inputs@)))
                &&& res is Ok ==> forall|i: int| 0 <= i < d2@.len() ==> (#[trigger] d2@[
                    i
                ])@.groups =~= seq![
                    merged_result(
                        reductions@[i]@.kind,
                        selectors@[i],
                        parts_view(partition_inputs@),
                    ),
                ]
                &&& res is Err ==> d2@ == reductions@ && res == Err::<(), EngineError>(
                    EngineError::Evaluation,
                )
            },
            // The source step emits the pending batch exactly once.
            old(self).state matches ReduceState::Source(b) ==> {
                &&& res is Ok
                &&& final(self).state == ReduceState::Source(Option::<ResultBatch>::None)
                &&& final(send)@.closed == old(send)@.closed
                &&& old(send)@.closed ==> final(send)@.items == old(send)@.items
                &&& (b matches Some(batch) ==> (!old(send)@.closed ==> final(send)@.items == old(send)@.items.push(
                    Morsel {
                        data: batch,
                        seq_id: MorselSeq { counter: 0 },
                        token: SourceToken { stop_requested: false },
                    },
                )))
            },
    {
        match &mut self.state {
            ReduceState::Sink { selectors, reductions } => {
                Self::sink_phase(selectors, reductions, partition_inputs)
            },
            ReduceState::Source(pending) => {
                Self::source_phase(pending, send);
                Ok(())
            },
            ReduceState::Done => Ok(()),
        }
    }
}

/// Exec mirror of [`final_scalar`]: finalize a collection as a single group.
fn final_scalar_exec(r: &GroupedReduction) -> (v: Option<u64>)
    ensures
        v == final_scalar(*r),
{
    let vals = r.finalize();
    if vals.len() > 0 {
        vals[0]
    } else {
        match r.reduce_kind() {
            ReduceKind::Sum => Some(0),
            ReduceKind::Min => None,
            ReduceKind::Last => None,
        }
    }
}

} // verus!
