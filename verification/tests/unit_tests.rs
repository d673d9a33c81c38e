use morsel_engine::frame::{cast_scalar, Column, DataBatch, DType};
use morsel_engine::port::{Channel, RecvAttempt};
use morsel_engine::reducer::{GroupedReduction, ReduceKind};
use morsel_engine::EngineError;

fn col(values: Vec<u64>) -> Column {
    Column { values }
}

#[test]
fn sum_reducer_accumulates_and_wraps() {
    let mut r = GroupedReduction::new(ReduceKind::Sum);
    r.resize(1);
    r.update_group(&col(vec![1, 2, 3]), 0, 0);
    r.update_group(&col(vec![10]), 0, 1);
    assert_eq!(r.finalize(), vec![Some(16)]);
    // The sum wraps modulo two to the sixty-fourth.
    r.update_group(&col(vec![u64::MAX]), 0, 2);
    assert_eq!(r.finalize(), vec![Some(15)]);
}

#[test]
fn min_reducer_tracks_least_value() {
    let mut r = GroupedReduction::new(ReduceKind::Min);
    r.resize(1);
    assert_eq!(r.finalize(), vec![None]);
    r.update_group(&col(vec![9, 4]), 0, 0);
    r.update_group(&col(vec![7]), 0, 1);
    assert_eq!(r.finalize(), vec![Some(4)]);
}

#[test]
fn last_reducer_obeys_order_keys_not_arrival_order() {
    let mut r = GroupedReduction::new(ReduceKind::Last);
    r.resize(1);
    r.update_group(&col(vec![5]), 0, 10);
    // An update with a lower order key arrives later but must not win.
    r.update_group(&col(vec![6]), 0, 3);
    assert_eq!(r.finalize(), vec![Some(5)]);
    // An equal key is a later update and does win.
    r.update_group(&col(vec![8, 9]), 0, 10);
    assert_eq!(r.finalize(), vec![Some(9)]);
    // An empty column changes nothing.
    r.update_group(&col(vec![]), 0, 99);
    assert_eq!(r.finalize(), vec![Some(9)]);
}

#[test]
fn combine_subset_merges_chosen_groups() {
    let mut a = GroupedReduction::new(ReduceKind::Sum);
    a.resize(2);
    a.update_group(&col(vec![5]), 0, 0);
    a.update_group(&col(vec![11]), 1, 0);
    let mut b = a.new_empty();
    b.resize(1);
    b.update_group(&col(vec![100]), 0, 1);
    a.combine_subset(&b, &vec![1], &vec![0]);
    assert_eq!(a.finalize(), vec![Some(5), Some(111)]);
}

#[test]
fn try_combine_subset_rejects_bad_requests() {
    let mut a = GroupedReduction::new(ReduceKind::Sum);
    a.resize(1);
    let mut b = GroupedReduction::new(ReduceKind::Sum);
    b.resize(1);
    // Out-of-range group id on either side.
    assert_eq!(a.try_combine_subset(&b, &vec![3], &vec![0]), Err(EngineError::InvalidCombine));
    assert_eq!(a.try_combine_subset(&b, &vec![0], &vec![9]), Err(EngineError::InvalidCombine));
    // Mismatched id lists.
    assert_eq!(a.try_combine_subset(&b, &vec![0, 0], &vec![0]), Err(EngineError::InvalidCombine));
    // Mismatched kinds.
    let c = GroupedReduction::new(ReduceKind::Min);
    assert_eq!(a.try_combine_subset(&c, &vec![0], &vec![0]), Err(EngineError::InvalidCombine));
    // A valid request goes through.
    b.update_group(&col(vec![2]), 0, 0);
    assert_eq!(a.try_combine_subset(&b, &vec![0], &vec![0]), Ok(()));
    assert_eq!(a.finalize(), vec![Some(2)]);
}

#[test]
fn resize_keeps_leading_groups_and_adds_identities() {
    let mut r = GroupedReduction::new(ReduceKind::Sum);
    r.resize(1);
    r.update_group(&col(vec![42]), 0, 0);
    r.resize(3);
    assert_eq!(r.num_groups(), 3);
    assert_eq!(r.finalize(), vec![Some(42), Some(0), Some(0)]);
    r.resize(1);
    assert_eq!(r.finalize(), vec![Some(42)]);
}

#[test]
fn batch_assembly_rejects_mismatched_lengths() {
    let bad = DataBatch::try_new(vec![col(vec![1, 2]), col(vec![3])]);
    assert_eq!(bad.err(), Some(EngineError::MismatchedLengths));
    let good = DataBatch::try_new(vec![col(vec![1, 2]), col(vec![3, 4])]).unwrap();
    assert_eq!(good.height(), 2);
    let empty = DataBatch::try_new(vec![]).unwrap();
    assert_eq!(empty.height(), 0);
}

#[test]
fn cast_checks_the_declared_range() {
    assert_eq!(cast_scalar(Some(255), DType::UInt8), Ok(Some(255)));
    assert_eq!(cast_scalar(Some(256), DType::UInt8), Err(EngineError::InvalidCast));
    assert_eq!(cast_scalar(Some(65_536), DType::UInt16), Err(EngineError::InvalidCast));
    assert_eq!(cast_scalar(Some(65_535), DType::UInt16), Ok(Some(65_535)));
    assert_eq!(cast_scalar(None, DType::UInt8), Ok(None));
    assert_eq!(cast_scalar(Some(u64::MAX), DType::UInt64), Ok(Some(u64::MAX)));
}

#[test]
fn channel_delivers_in_order_and_reports_closure() {
    let mut ch: Channel<u64> = Channel::new();
    assert!(matches!(ch.try_recv(), RecvAttempt::Pending));
    assert!(ch.send(1));
    assert!(ch.send(2));
    assert_eq!(ch.len(), 2);
    match ch.try_recv() {
        RecvAttempt::Received(v) => assert_eq!(v, 1),
        _ => panic!("expected the first item"),
    }
    ch.close();
    // Items already in flight stay available after closing.
    match ch.try_recv() {
        RecvAttempt::Received(v) => assert_eq!(v, 2),
        _ => panic!("expected the second item"),
    }
    assert!(matches!(ch.try_recv(), RecvAttempt::Closed));
    // A send into a closed channel fails silently.
    assert!(!ch.send(3));
    assert_eq!(ch.len(), 0);
    assert!(ch.is_closed());
}
