use morsel_engine::frame::{Column, DataBatch, DType, Field, ResultBatch, Schema};
use morsel_engine::laws::split_round_robin;
use morsel_engine::morsel::{Morsel, MorselSeq, SourceToken};
use morsel_engine::port::{Channel, PortState, RecvAttempt};
use morsel_engine::reduce_node::{ReduceNode, ReduceState};
use morsel_engine::reducer::{GroupedReduction, ReduceKind};
use morsel_engine::scheduler::run_reduce;
use morsel_engine::selector::Selector;
use morsel_engine::EngineError;

fn one_column_batch(values: Vec<u64>) -> DataBatch {
    DataBatch { columns: vec![Column { values }] }
}

fn morsel(values: Vec<u64>, seq: u64) -> Morsel<DataBatch> {
    Morsel::new(one_column_batch(values), MorselSeq::new(seq), SourceToken::new())
}

fn sum_node(dtype: DType) -> ReduceNode {
    ReduceNode::new(
        vec![Selector::new(0)],
        vec![GroupedReduction::new(ReduceKind::Sum)],
        Schema { fields: vec![Field { name: String::from("total"), dtype }] },
    )
}

fn take_result(send: &mut Channel<Morsel<ResultBatch>>) -> Morsel<ResultBatch> {
    match send.try_recv() {
        RecvAttempt::Received(m) => m,
        _ => panic!("expected an emitted morsel"),
    }
}

#[test]
fn sum_four_partitions_of_25_morsels_of_10_rows() {
    // 4 parallel partitions, 25 morsels each, 10 rows per morsel.
    let mut partitions: Vec<Vec<Morsel<DataBatch>>> = Vec::new();
    let mut expected: u64 = 0;
    let mut seq: u64 = 0;
    let mut value: u64 = 1;
    for _ in 0..4 {
        let mut part = Vec::new();
        for _ in 0..25 {
            let mut rows = Vec::new();
            for _ in 0..10 {
                rows.push(value);
                expected += value;
                value += 3;
            }
            part.push(morsel(rows, seq));
            seq += 1;
        }
        partitions.push(part);
    }
    let mut node = sum_node(DType::UInt64);
    let mut send: Channel<Morsel<ResultBatch>> = Channel::new();
    let res = run_reduce(&mut node, &partitions, &mut send);
    assert!(res.is_ok());
    assert_eq!(send.len(), 1);
    let out = take_result(&mut send);
    assert_eq!(out.seq_id.to_u64(), 0);
    assert!(!out.token.stop_requested);
    assert_eq!(out.data.columns.len(), 1);
    assert_eq!(out.data.columns[0].name, "total");
    assert_eq!(out.data.columns[0].value, Some(expected));
}

#[test]
fn sum_is_independent_of_partitioning() {
    // The same 9 morsels distributed one way ...
    let values: Vec<Vec<u64>> = (0..9u64).map(|i| vec![i * 7 + 1, i * 7 + 2]).collect();
    let single: Vec<Vec<Morsel<DataBatch>>> =
        vec![values.iter().enumerate().map(|(i, v)| morsel(v.clone(), i as u64)).collect()];
    // ... and scattered across three partitions in a different interleaving.
    let mut scattered: Vec<Vec<Morsel<DataBatch>>> = vec![Vec::new(), Vec::new(), Vec::new()];
    for (i, v) in values.iter().enumerate() {
        scattered[(i * i + 1) % 3].push(morsel(v.clone(), i as u64));
    }
    let mut results = Vec::new();
    for parts in [single, scattered] {
        let mut node = sum_node(DType::UInt64);
        let mut send = Channel::new();
        assert!(run_reduce(&mut node, &parts, &mut send).is_ok());
        results.push(take_result(&mut send).data.columns[0].value);
    }
    assert_eq!(results[0], results[1]);
    assert_eq!(results[0], Some(values.iter().flatten().sum()));
}

#[test]
fn last_takes_globally_maximum_sequence_number() {
    // Morsels with strictly increasing sequence numbers, interleaved across
    // partitions so that the highest-sequence morsel sits in the middle
    // partition and is processed "early" there.
    let mut parts: Vec<Vec<Morsel<DataBatch>>> = vec![Vec::new(), Vec::new(), Vec::new()];
    parts[0].push(morsel(vec![100], 0));
    parts[1].push(morsel(vec![999, 777], 5)); // globally largest sequence
    parts[0].push(morsel(vec![200], 1));
    parts[2].push(morsel(vec![300], 2));
    parts[1].push(morsel(vec![400], 3));
    parts[2].push(morsel(vec![500], 4));
    // Re-order each partition internally by sequence, as the per-partition
    // arrival order guarantee demands.
    for p in parts.iter_mut() {
        p.sort_by_key(|m| m.seq_id.to_u64());
    }
    let mut node = ReduceNode::new(
        vec![Selector::new(0)],
        vec![GroupedReduction::new(ReduceKind::Last)],
        Schema { fields: vec![Field { name: String::from("latest"), dtype: DType::UInt64 }] },
    );
    let mut send = Channel::new();
    assert!(run_reduce(&mut node, &parts, &mut send).is_ok());
    let out = take_result(&mut send);
    // The last row of the morsel with sequence number 5, never 100..500.
    assert_eq!(out.data.columns[0].value, Some(777));
}

#[test]
fn min_across_partitions() {
    let parts = vec![
        vec![morsel(vec![41, 17], 0), morsel(vec![23], 2)],
        vec![morsel(vec![19, 54], 1)],
    ];
    let mut node = ReduceNode::new(
        vec![Selector::new(0)],
        vec![GroupedReduction::new(ReduceKind::Min)],
        Schema { fields: vec![Field { name: String::from("least"), dtype: DType::UInt8 }] },
    );
    let mut send = Channel::new();
    assert!(run_reduce(&mut node, &parts, &mut send).is_ok());
    assert_eq!(take_result(&mut send).data.columns[0].value, Some(17));
}

#[test]
fn empty_input_still_finalizes_to_identity() {
    // Zero morsels before upstream closes: finalize still runs and yields
    // each reduction's empty-state value instead of failing.
    let parts: Vec<Vec<Morsel<DataBatch>>> = vec![Vec::new(), Vec::new(), Vec::new(), Vec::new()];
    let mut node = ReduceNode::new(
        vec![Selector::new(0), Selector::new(0), Selector::new(0)],
        vec![
            GroupedReduction::new(ReduceKind::Sum),
            GroupedReduction::new(ReduceKind::Min),
            GroupedReduction::new(ReduceKind::Last),
        ],
        Schema {
            fields: vec![
                Field { name: String::from("s"), dtype: DType::UInt64 },
                Field { name: String::from("m"), dtype: DType::UInt64 },
                Field { name: String::from("l"), dtype: DType::UInt64 },
            ],
        },
    );
    let mut send = Channel::new();
    assert!(run_reduce(&mut node, &parts, &mut send).is_ok());
    let out = take_result(&mut send);
    assert_eq!(out.data.columns[0].value, Some(0));
    assert_eq!(out.data.columns[1].value, None);
    assert_eq!(out.data.columns[2].value, None);
}

#[test]
fn closed_downstream_short_circuits_without_emitting() {
    let parts = vec![vec![morsel(vec![1, 2, 3], 0)]];
    let mut node = sum_node(DType::UInt64);
    let mut send: Channel<Morsel<ResultBatch>> = Channel::new();
    send.close();
    let res = run_reduce(&mut node, &parts, &mut send);
    assert!(res.is_ok());
    assert_eq!(send.len(), 0);
    assert!(matches!(node.state, ReduceState::Done));
}

#[test]
fn selector_failure_is_fatal_and_emits_nothing() {
    // The batch has one column; selector 1 points past it.
    let parts = vec![vec![morsel(vec![4, 5], 0)]];
    let mut node = ReduceNode::new(
        vec![Selector::new(1)],
        vec![GroupedReduction::new(ReduceKind::Sum)],
        Schema { fields: vec![Field { name: String::from("total"), dtype: DType::UInt64 }] },
    );
    let mut send = Channel::new();
    assert_eq!(run_reduce(&mut node, &parts, &mut send), Err(EngineError::Evaluation));
    assert_eq!(send.len(), 0);
}

#[test]
fn finalized_value_outside_declared_type_is_fatal() {
    // 100 + 200 + 56 = 356, which does not fit the declared UInt8 field.
    let parts = vec![vec![morsel(vec![100, 200, 56], 0)]];
    let mut node = sum_node(DType::UInt8);
    let mut send = Channel::new();
    assert_eq!(run_reduce(&mut node, &parts, &mut send), Err(EngineError::InvalidCast));
    assert_eq!(send.len(), 0);
}

#[test]
fn finalized_value_is_cast_to_declared_type() {
    let parts = vec![vec![morsel(vec![100, 100, 55], 0)]];
    let mut node = sum_node(DType::UInt8);
    let mut send = Channel::new();
    assert!(run_reduce(&mut node, &parts, &mut send).is_ok());
    let out = take_result(&mut send);
    assert_eq!(out.data.columns[0].dtype, DType::UInt8);
    assert_eq!(out.data.columns[0].value, Some(255));
}

#[test]
fn update_state_enforces_full_barrier_while_sinking() {
    let mut node = sum_node(DType::UInt64);
    let mut recv = vec![PortState::Ready];
    let mut send_states = vec![PortState::Ready];
    // While the upstream side still has data, a sinking node must keep its
    // send port Blocked on every step.
    for _ in 0..3 {
        assert!(node.update_state(&mut recv, &mut send_states).is_ok());
        assert_eq!(recv[0], PortState::Ready);
        assert_eq!(send_states[0], PortState::Blocked);
        assert!(matches!(node.state, ReduceState::Sink { .. }));
        recv = vec![PortState::Ready];
        send_states = vec![PortState::Ready];
    }
}

#[test]
fn update_state_short_circuits_on_downstream_done() {
    let mut node = sum_node(DType::UInt64);
    let mut recv = vec![PortState::Ready];
    let mut send_states = vec![PortState::Done];
    assert!(node.update_state(&mut recv, &mut send_states).is_ok());
    assert!(matches!(node.state, ReduceState::Done));
    // Both sides observe the closure, so upstream can drain cooperatively.
    assert_eq!(recv[0], PortState::Done);
    assert_eq!(send_states[0], PortState::Done);
}

#[test]
fn source_phase_emits_exactly_once_then_node_is_done() {
    let parts = vec![vec![morsel(vec![8], 0)]];
    let mut node = sum_node(DType::UInt64);
    let mut send = Channel::new();
    // Sink step.
    let mut recv = vec![PortState::Ready];
    let mut send_states = vec![PortState::Ready];
    assert!(node.update_state(&mut recv, &mut send_states).is_ok());
    assert!(node.spawn(&parts, &mut send).is_ok());
    // Upstream done: finalize into the pending batch.
    recv = vec![PortState::Done];
    send_states = vec![PortState::Ready];
    assert!(node.update_state(&mut recv, &mut send_states).is_ok());
    assert!(matches!(node.state, ReduceState::Source(Some(_))));
    assert_eq!(recv[0], PortState::Done);
    assert_eq!(send_states[0], PortState::Ready);
    // Source step: exactly one morsel is emitted.
    assert!(node.spawn(&parts, &mut send).is_ok());
    assert_eq!(send.len(), 1);
    assert!(matches!(node.state, ReduceState::Source(None)));
    // The emission has been taken: the node retires and never spawns again.
    recv = vec![PortState::Done];
    send_states = vec![PortState::Ready];
    assert!(node.update_state(&mut recv, &mut send_states).is_ok());
    assert!(matches!(node.state, ReduceState::Done));
    assert_eq!(send.len(), 1);
}

#[test]
fn result_morsel_restarts_sequence_numbering() {
    let parts = vec![vec![morsel(vec![3], 41), morsel(vec![4], 42)]];
    let mut node = sum_node(DType::UInt64);
    let mut send = Channel::new();
    assert!(run_reduce(&mut node, &parts, &mut send).is_ok());
    let out = take_result(&mut send);
    assert_eq!(out.sequence().to_u64(), 0);
    assert!(!out.token.stop_requested);
    assert_eq!(out.data.columns[0].value, Some(7));
}

#[test]
fn round_robin_split_feeds_the_same_reduction() {
    let serial: Vec<Morsel<DataBatch>> =
        (0..13u64).map(|i| morsel(vec![i * i, i + 1], i)).collect();
    let serial_again: Vec<Morsel<DataBatch>> =
        (0..13u64).map(|i| morsel(vec![i * i, i + 1], i)).collect();
    let parts = split_round_robin(serial, 4);
    assert_eq!(parts.len(), 4);
    assert_eq!(parts.iter().map(|p| p.len()).sum::<usize>(), 13);
    // Partition 0 received morsels 0, 4, 8, 12 in order.
    let seqs: Vec<u64> = parts[0].iter().map(|m| m.seq_id.to_u64()).collect();
    assert_eq!(seqs, vec![0, 4, 8, 12]);
    let mut node = sum_node(DType::UInt64);
    let mut send = Channel::new();
    assert!(run_reduce(&mut node, &parts, &mut send).is_ok());
    let split_total = take_result(&mut send).data.columns[0].value;
    let mut node2 = sum_node(DType::UInt64);
    let mut send2 = Channel::new();
    assert!(run_reduce(&mut node2, &vec![serial_again], &mut send2).is_ok());
    assert_eq!(split_total, take_result(&mut send2).data.columns[0].value);
    assert_eq!(split_total, Some((0..13u64).map(|i| i * i + i + 1).sum()));
}

#[test]
fn node_reports_its_name() {
    let node = sum_node(DType::UInt64);
    assert_eq!(node.name(), "reduce");
}
