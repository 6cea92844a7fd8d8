use dead_store::bytecode::Bytecode;
use dead_store::def_use_graph::DefUseGraph;
use dead_store::file_store::{
    CacheBatch, Cursor, ProcessorError, Step, AHEAD_OF_CACHE_SLEEP_DURATION_IN_MILLIS,
    BLOBS_PER_UPLOAD,
};
use dead_store::livevar::LiveVarAnnotation;
use std::collections::BTreeSet;

#[test]
fn cursor_starts_at_the_file_store_version() {
    let cursor = Cursor::new(3000, 1000);
    assert_eq!(cursor.current_cache_version, 3000);
    assert_eq!(cursor.current_file_store_version, 3000);
    assert_eq!(cursor.buffered, 0);
    assert_eq!(cursor.blob_size, 1000);
    assert_eq!(cursor.verify(), Ok(()));
}

#[test]
fn misaligned_file_store_version_is_an_error() {
    let cursor = Cursor::new(3001, 1000);
    assert_eq!(cursor.verify(), Err(ProcessorError::MisalignedFileStoreVersion));
}

#[test]
fn full_batches_are_gathered_until_ten_blobs() {
    let mut cursor = Cursor::new(0, 1000);
    for round in 1..BLOBS_PER_UPLOAD {
        assert_eq!(cursor.on_batch(CacheBatch::Fetched(1000)), Step::Fetch);
        assert_eq!(cursor.buffered, round * 1000);
        assert_eq!(cursor.current_cache_version, round as u64 * 1000);
    }
    assert_eq!(cursor.on_batch(CacheBatch::Fetched(1000)), Step::Upload(10_000));
    assert_eq!(cursor.current_file_store_version, 0);
    cursor.on_uploaded(10_000);
    assert_eq!(cursor.current_file_store_version, 10_000);
    assert_eq!(cursor.current_cache_version, 10_000);
    assert_eq!(cursor.buffered, 0);
    assert_eq!(cursor.verify(), Ok(()));
}

#[test]
fn head_of_the_cache_uploads_the_full_blobs_only() {
    let mut cursor = Cursor::new(5000, 1000);
    assert_eq!(cursor.on_batch(CacheBatch::Fetched(1000)), Step::Fetch);
    assert_eq!(cursor.on_batch(CacheBatch::Fetched(1000)), Step::Fetch);
    // A short batch: the head is reached with 2400 buffered.
    assert_eq!(cursor.on_batch(CacheBatch::Fetched(400)), Step::Upload(2000));
    cursor.on_uploaded(2000);
    assert_eq!(cursor.current_file_store_version, 7000);
    assert_eq!(cursor.current_cache_version, 7400);
    assert_eq!(cursor.buffered, 400);
    // At the head with less than a blob: go on reading.
    assert_eq!(cursor.on_batch(CacheBatch::Fetched(0)), Step::Fetch);
    assert_eq!(cursor.on_batch(CacheBatch::Fetched(599)), Step::Fetch);
    assert_eq!(cursor.on_batch(CacheBatch::Fetched(1)), Step::Upload(1000));
}

#[test]
fn cache_that_is_not_ready_is_slept_on() {
    let mut cursor = Cursor::new(0, 1000);
    assert_eq!(cursor.on_batch(CacheBatch::NotReady), Step::Sleep(100));
    assert_eq!(AHEAD_OF_CACHE_SLEEP_DURATION_IN_MILLIS, 100);
    assert_eq!(cursor, Cursor::new(0, 1000));
}

#[test]
fn eviction_and_failure_stop_the_processor() {
    let mut cursor = Cursor::new(0, 1000);
    assert_eq!(
        cursor.on_batch(CacheBatch::EvictedFromCache),
        Step::Fail(ProcessorError::EvictedFromCache)
    );
    assert_eq!(cursor.on_batch(CacheBatch::Failed), Step::Fail(ProcessorError::CacheFailed));
    assert_eq!(cursor, Cursor::new(0, 1000));
}

#[test]
fn function_with_its_annotation_is_buildable() {
    let code = vec![Bytecode::Load(0, 1), Bytecode::Assign(1, 0), Bytecode::Other(0)];
    let mut live = LiveVarAnnotation::new();
    live.set_live_after(0, 0, &vec![1]);
    live.cover(1);
    assert!(DefUseGraph::check_buildable(&code, &live));
    // The offset 2 holds no definition and needs no entry.
    assert!(DefUseGraph::check_buildable(&Vec::new(), &LiveVarAnnotation::new()));
}

#[test]
fn definition_without_annotation_is_not_buildable() {
    let code = vec![Bytecode::Load(0, 1), Bytecode::Assign(1, 0)];
    let mut live = LiveVarAnnotation::new();
    live.set_live_after(0, 0, &vec![1]);
    assert!(!DefUseGraph::check_buildable(&code, &live));
}

#[test]
fn usage_that_does_not_follow_its_definition_is_not_buildable() {
    let code = vec![Bytecode::Other(0), Bytecode::Load(0, 1), Bytecode::Other(1)];
    let mut live = LiveVarAnnotation::new();
    live.set_live_after(1, 0, &vec![0, 2]);
    assert!(!DefUseGraph::check_buildable(&code, &live));
    live.set_live_after(1, 0, &vec![1]);
    assert!(!DefUseGraph::check_buildable(&code, &live));
    live.set_live_after(1, 0, &vec![2]);
    assert!(DefUseGraph::check_buildable(&code, &live));
    // Usages of a local that the instruction does not write are not read.
    live.set_live_after(1, 7, &vec![0]);
    live.set_live_after(0, 0, &vec![0]);
    assert!(DefUseGraph::check_buildable(&code, &live));
}

#[test]
fn usages_are_compared_with_the_definition() {
    assert!(DefUseGraph::all_after(&BTreeSet::from([4, 9]), 3));
    assert!(!DefUseGraph::all_after(&BTreeSet::from([3, 9]), 3));
    assert!(DefUseGraph::all_after(&BTreeSet::new(), 65535));
}
