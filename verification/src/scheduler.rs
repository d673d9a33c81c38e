//! The scheduler glue for one reduction node: drive the node's state machine
//! step by step — ask for its state, run the tasks the state calls for, join
//! them, repeat — until the node reaches `Done` or a task fails.
//!
//! Tasks here run to completion within their step, which is exactly the
//! structured-concurrency guarantee of the engine: every task spawned during
//! a step is joined before the next state update, and none outlives its
//! step.

use vstd::prelude::*;
use crate::EngineError;
use crate::frame::{scalar_fits, DataBatch, ResultBatch, Schema};
use crate::morsel::Morsel;
use crate::port::{Channel, PortState};
use crate::reduce_node::{
    batch_matches, finalize_ok, merged_result, parts_view, sink_ok, ReduceNode, ReduceState,
};
use crate::reducer::{accum_finalize, GroupedReduction};
use crate::selector::Selector;

verus! {

/// Whether every merged reduction value will fit its declared output type,
/// so that finalization succeeds once the sink phase is over.
pub open spec fn merged_fits(
    selectors: Seq<Selector>,
    reductions: Seq<GroupedReduction>,
    schema: Schema,
    parts: Seq<Seq<Morsel<DataBatch>>>,
) -> bool {
    forall|i: int| 0 <= i < reductions.len() ==> scalar_fits(
        accum_finalize(merged_result((#[trigger] reductions[i])@.kind, selectors[i], parts)),
        schema.fields@[i].dtype,
    )
}

/// Whether a result batch is exactly the reduction of the given partitioned
/// input: per field, the finalized value of the partition results merged in
/// partition index order, under the field's name and declared type.
pub open spec fn reduced_batch_matches(
    b: ResultBatch,
    selectors: Seq<Selector>,
    reductions: Seq<GroupedReduction>,
    schema: Schema,
    parts: Seq<Seq<Morsel<DataBatch>>>,
) -> bool {
    &&& b.columns@.len() == reductions.len()
    &&& forall|i: int| 0 <= i < reductions.len() ==> {
        &&& (#[trigger] b.columns@[i]).name@ == schema.fields@[i].name@
        &&& b.columns@[i].dtype == schema.fields@[i].dtype
        &&& b.columns@[i].value == accum_finalize(
            merged_result(reductions[i]@.kind, selectors[i], parts),
        )
    }
}

/// Run a freshly constructed reduction node to completion against the given
/// partitioned input, emitting into the given downstream channel.
///
/// The schedule a reduction node follows is fixed: one sink step that
/// consumes all input across the parallel partitions, one finalization step
/// once the upstream side reports done, one emission step, and retirement —
/// unless the downstream channel is already closed, in which case the node
/// short-circuits to `Done` without producing anything, or a task fails, in
/// which case the failure is fatal and nothing is ever emitted.
pub fn run_reduce(
    node: &mut ReduceNode,
    partition_inputs: &Vec<Vec<Morsel<DataBatch>>>,
    send: &mut Channel<Morsel<ResultBatch>>,
) -> (res: Result<(), EngineError>)
    requires
        old(node).wf(),
        old(node).state is Sink,
        partition_inputs@.len() >= 1,
        old(node).state matches ReduceState::Sink { reductions, .. } ==> forall|i: int|
            0 <= i < reductions@.len() ==> (#[trigger] reductions@[i])@.groups.len() == 0,
    ensures
        final(node).output_schema == old(node).output_schema,
        final(send)@.closed == old(send)@.closed,
        old(node).state matches ReduceState::Sink { selectors, reductions } ==> {
            // A downstream already done short-circuits the whole node:
            // nothing is computed and nothing is emitted.
            &&& old(send)@.closed ==> (res is Ok && final(node).state is Done
                && final(send)@.items == old(send)@.items)
            // A selector failure is fatal: no result is ever emitted.
            &&& (!old(send)@.closed && !sink_ok(selectors@, parts_view(partition_inputs@)))
                ==> (res == Err::<(), EngineError>(EngineError::Evaluation) && final(send)@.items
                == old(send)@.items)
            // A finalized value outside its declared type is fatal too.
            &&& (!old(send)@.closed && sink_ok(selectors@, parts_view(partition_inputs@))
                && !merged_fits(
                selectors@,
                reductions@,
                old(node).output_schema,
                parts_view(partition_inputs@),
            )) ==> (res == Err::<(), EngineError>(EngineError::InvalidCast) && final(send)@.items
                == old(send)@.items)
            // Otherwise exactly one morsel is emitted — the reduction of the
            // whole input — and the node retires.
            &&& (!old(send)@.closed && sink_ok(selectors@, parts_view(partition_inputs@))
                && merged_fits(
                selectors@,
                reductions@,
                old(node).output_schema,
                parts_view(partition_inputs@),
            )) ==> {
                &&& res is Ok
                &&& final(node).state is Done
                &&& final(send)@.items.len() == old(send)@.items.len() + 1
                &&& final(send)@.items.take(old(send)@.items.len() as int) =~= old(send)@.items
                &&& final(send)@.items.last().seq_id.counter == 0
                &&& !final(send)@.items.last().token.stop_requested
                &&& reduced_batch_matches(
                    final(send)@.items.last().data,
                    selectors@,
                    reductions@,
                    old(node).output_schema,
                    parts_view(partition_inputs@),
                )
            }
        },
{
    let ghost parts = parts_view(partition_inputs@);
    // Step one: every node updates its state. A sink node holds its phase
    // while input remains, or short-circuits if downstream is done.
    let mut recv_ports: Vec<PortState> = vec![PortState::Ready];
    let mut send_ports: Vec<PortState> = vec![
        if send.is_closed() {
            PortState::Done
        } else {
            PortState::Ready
        },
    ];
    match node.update_state(&mut recv_ports, &mut send_ports) {
        Ok(()) => {},
        Err(e) => {
            return Err(e);
        },
    }
    match &node.state {
        ReduceState::Done => {
            // Downstream asked for nothing more; upstream will observe the
            // closed receive side and drain cooperatively.
            return Ok(());
        },
        _ => {},
    }
    // Step two: the sink tasks consume the whole input.
    match node.spawn(partition_inputs, send) {
        Ok(()) => {},
        Err(e) => {
            return Err(e);
        },
    }
    proof {
        let sels0 = old(node).state->selectors;
        let reds0 = old(node).state->reductions;
        let d2 = node.state->reductions;
        assert forall|i: int| 0 <= i < d2@.len() implies crate::reduce_node::final_scalar(
            #[trigger] d2@[i],
        ) == accum_finalize(merged_result(reds0@[i]@.kind, sels0@[i], parts)) by {
            assert(d2@[i]@.groups =~= seq![
                merged_result(reds0@[i]@.kind, sels0@[i], parts),
            ]);
            assert(d2@[i]@.groups.len() == 1);
        }
        assert(d2@.len() == reds0@.len());
        assert(node.output_schema == old(node).output_schema);
        if finalize_ok(d2@, node.output_schema) {
            assert forall|i: int| 0 <= i < reds0@.len() implies scalar_fits(
                accum_finalize(merged_result((#[trigger] reds0@[i])@.kind, sels0@[i], parts)),
                old(node).output_schema.fields@[i].dtype,
            ) by {
                assert(scalar_fits(
                    crate::reduce_node::final_scalar(d2@[i]),
                    node.output_schema.fields@[i].dtype,
                ));
            }
            assert(merged_fits(sels0@, reds0@, old(node).output_schema, parts));
        }
        if merged_fits(sels0@, reds0@, old(node).output_schema, parts) {
            assert forall|i: int| 0 <= i < d2@.len() implies scalar_fits(
                crate::reduce_node::final_scalar(#[trigger] d2@[i]),
                node.output_schema.fields@[i].dtype,
            ) by {
                assert(scalar_fits(
                    accum_finalize(merged_result(reds0@[i]@.kind, sels0@[i], parts)),
                    old(node).output_schema.fields@[i].dtype,
                ));
            }
            assert(finalize_ok(d2@, node.output_schema));
        }
    }
    // Step three: upstream reports done; the node finalizes its reductions
    // into the pending result batch.
    let mut recv_ports2: Vec<PortState> = vec![PortState::Done];
    let mut send_ports2: Vec<PortState> = vec![
        if send.is_closed() {
            PortState::Done
        } else {
            PortState::Ready
        },
    ];
    match node.update_state(&mut recv_ports2, &mut send_ports2) {
        Ok(()) => {},
        Err(e) => {
            return Err(e);
        },
    }
    proof {
        let sels0 = old(node).state->selectors;
        let reds0 = old(node).state->reductions;
        let pending = node.state->Source_0;
        assert(pending matches Some(batch) ==> reduced_batch_matches(
            batch,
            sels0@,
            reds0@,
            old(node).output_schema,
            parts,
        ));
    }
    let ghost items_before = send@.items;
    // Step four: the source task emits the single result morsel.
    match node.spawn(partition_inputs, send) {
        Ok(()) => {},
        Err(e) => {
            return Err(e);
        },
    }
    proof {
        assert(send@.items.len() == items_before.len() + 1);
        assert(send@.items.take(items_before.len() as int) =~= items_before);
    }
    // Step five: the emission has been taken; the node retires.
    let mut recv_ports3: Vec<PortState> = vec![PortState::Done];
    let mut send_ports3: Vec<PortState> = vec![
        if send.is_closed() {
            PortState::Done
        } else {
            PortState::Ready
        },
    ];
    match node.update_state(&mut recv_ports3, &mut send_ports3) {
        Ok(()) => {},
        Err(e) => {
            return Err(e);
        },
    }
    Ok(())
}

} // verus!
