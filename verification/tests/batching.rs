use bulk_pipeline::accumulator::{split_batches, BatchAccumulator};
use bulk_pipeline::errors::PipelineError;
use bulk_pipeline::record::Conditions;

fn rec(id: &str) -> Conditions {
    Conditions {
        id: id.to_string(),
        created_on: 0,
        location: "site".to_string(),
        temperature: None,
        humidity: None,
    }
}

#[test]
fn accumulator_flushes_full_batches_and_remainder() {
    let mut acc = BatchAccumulator::new(2).unwrap();
    assert!(acc.push(rec("r1")).is_none());
    let b1 = acc.push(rec("r2")).unwrap();
    assert_eq!(b1.len(), 2);
    assert_eq!(b1[0].id, "r1");
    assert_eq!(b1[1].id, "r2");
    assert!(acc.push(rec("r3")).is_none());
    let b2 = acc.push(rec("r4")).unwrap();
    assert_eq!(b2[0].id, "r3");
    assert_eq!(b2[1].id, "r4");
    assert!(acc.push(rec("r5")).is_none());
    let tail = acc.finish().unwrap();
    assert_eq!(tail.len(), 1);
    assert_eq!(tail[0].id, "r5");
}

#[test]
fn accumulator_zero_threshold_rejected() {
    assert!(matches!(
        BatchAccumulator::new(0),
        Err(PipelineError::InvalidArgument)
    ));
}

#[test]
fn accumulator_empty_remainder_is_no_batch() {
    let mut acc = BatchAccumulator::new(3).unwrap();
    assert!(acc.finish().is_none());
}

#[test]
fn accumulator_remainder_after_exact_fill_is_no_batch() {
    let mut acc = BatchAccumulator::new(2).unwrap();
    assert!(acc.push(rec("r1")).is_none());
    assert!(acc.push(rec("r2")).is_some());
    assert!(acc.finish().is_none());
}

#[test]
fn split_batches_shapes() {
    let records = vec![rec("r1"), rec("r2"), rec("r3"), rec("r4"), rec("r5")];
    let bs = split_batches(records, 2).unwrap();
    assert_eq!(bs.len(), 3);
    assert_eq!(bs[0].len(), 2);
    assert_eq!(bs[1].len(), 2);
    assert_eq!(bs[2].len(), 1);
    assert_eq!(bs[0][0].id, "r1");
    assert_eq!(bs[1][0].id, "r3");
    assert_eq!(bs[2][0].id, "r5");
}

#[test]
fn split_batches_empty_input() {
    let bs = split_batches(Vec::new(), 400).unwrap();
    assert!(bs.is_empty());
}

#[test]
fn split_batches_zero_size_rejected() {
    assert!(matches!(
        split_batches(vec![rec("r1")], 0),
        Err(PipelineError::InvalidArgument)
    ));
}
