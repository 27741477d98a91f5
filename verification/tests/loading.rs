use bulk_pipeline::codec::encode_batch;
use bulk_pipeline::errors::PipelineError;
use bulk_pipeline::loader::{CopyLoader, RowLoader};
use bulk_pipeline::record::Conditions;

fn rec(id: &str, created_on: i64) -> Conditions {
    Conditions {
        id: id.to_string(),
        created_on,
        location: "site".to_string(),
        temperature: Some(21000),
        humidity: None,
    }
}

fn sample_batch() -> Vec<Conditions> {
    vec![rec("a1", 10), rec("b2", 20), rec("c3", 30)]
}

fn stream_all(batch: &Vec<Conditions>, chunk_size: usize) -> String {
    let mut loader = CopyLoader::new(batch, chunk_size).unwrap();
    loader.transaction_opened();
    loader.channel_opened();
    let mut collected = String::new();
    loop {
        match loader.next_chunk() {
            Some(c) => collected.push_str(&c),
            None => break,
        }
    }
    loader.commit_confirmed();
    assert!(loader.is_committed());
    collected
}

#[test]
fn copy_empty_batch_is_committed_with_zero_rows() {
    let loader = CopyLoader::new(&Vec::new(), 65536).unwrap();
    assert!(loader.is_committed());
    assert_eq!(loader.rows_loaded(), 0);
}

#[test]
fn copy_happy_path_streams_everything() {
    let batch = sample_batch();
    let staged = encode_batch(&batch).unwrap();
    let collected = stream_all(&batch, 4);
    assert_eq!(collected, staged);
}

#[test]
fn copy_chunk_sizes_equivalent() {
    let batch = sample_batch();
    let staged = encode_batch(&batch).unwrap();
    let whole = staged.chars().count();
    let outcomes = vec![
        stream_all(&batch, 1),
        stream_all(&batch, 1024),
        stream_all(&batch, 65536),
        stream_all(&batch, whole),
    ];
    for out in &outcomes {
        assert_eq!(out, &staged);
    }
}

#[test]
fn copy_chunks_are_full_except_last() {
    let batch = sample_batch();
    let staged = encode_batch(&batch).unwrap();
    let mut loader = CopyLoader::new(&batch, 7).unwrap();
    loader.transaction_opened();
    loader.channel_opened();
    let mut chunks: Vec<String> = Vec::new();
    loop {
        match loader.next_chunk() {
            Some(c) => chunks.push(c),
            None => break,
        }
    }
    assert!(!chunks.is_empty());
    for c in &chunks[..chunks.len() - 1] {
        assert_eq!(c.chars().count(), 7);
    }
    let total: usize = chunks.iter().map(|c| c.chars().count()).sum();
    assert_eq!(total, staged.chars().count());
}

#[test]
fn copy_failure_rolls_back() {
    let batch = sample_batch();
    let mut loader = CopyLoader::new(&batch, 64).unwrap();
    loader.transaction_opened();
    loader.channel_opened();
    loader.rolled_back();
    assert!(!loader.is_committed());
}

#[test]
fn copy_rejects_unencodable_batch() {
    let batch = vec![rec("x,y", 1)];
    assert!(matches!(
        CopyLoader::new(&batch, 64),
        Err(PipelineError::SerializationFailed)
    ));
}

#[test]
fn copy_reports_batch_size_on_commit() {
    let batch = sample_batch();
    let staged_rows = batch.len();
    let mut loader = CopyLoader::new(&batch, 16).unwrap();
    loader.transaction_opened();
    loader.channel_opened();
    while let Some(_) = loader.next_chunk() {}
    loader.commit_confirmed();
    assert_eq!(loader.rows_loaded(), staged_rows);
}

#[test]
fn rows_empty_batch_finalized_zero() {
    let loader = RowLoader::new(Vec::new(), false);
    assert!(loader.is_finalized());
    assert_eq!(loader.rows_loaded(), 0);
}

#[test]
fn rows_stream_in_order() {
    let mut loader = RowLoader::new(sample_batch(), true);
    loader.channel_opened();
    let first = loader.next_row().unwrap();
    assert_eq!(first.id, "a1");
    let second = loader.next_row().unwrap();
    assert_eq!(second.id, "b2");
    let third = loader.next_row().unwrap();
    assert_eq!(third.id, "c3");
    assert!(loader.next_row().is_none());
    loader.finalized(3);
    assert!(loader.is_finalized());
    assert_eq!(loader.rows_loaded(), 3);
}

#[test]
fn rows_abort_is_not_finalized() {
    let mut loader = RowLoader::new(sample_batch(), false);
    loader.channel_opened();
    loader.aborted();
    assert!(!loader.is_finalized());
}
