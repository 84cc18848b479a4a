use gcs_artifact::chunks::{
    chunk_range, chunk_starts, download_plannable, chunks_per_worker, plan_download, worker_count, ChunkRange,
    DownloadPlan, CHUNK_SIZE,
};
use gcs_artifact::upload::upload_media;

#[test]
fn test_chunk_size_constant() {
    assert_eq!(CHUNK_SIZE, 32 * 1024 * 1024);
}

#[test]
fn test_chunk_calculation_small_file() {
    let size: i64 = (CHUNK_SIZE / 2) as i64;
    let chunks = chunk_starts(size);
    assert_eq!(chunks.len(), 1);
}

#[test]
fn test_chunk_calculation_exact_chunk_size() {
    let size: i64 = CHUNK_SIZE as i64;
    let chunks = chunk_starts(size);
    assert_eq!(chunks.len(), 1);
}

#[test]
fn test_chunk_calculation_large_file() {
    let size: i64 = (CHUNK_SIZE * 3 + CHUNK_SIZE / 2) as i64;
    let chunks = chunk_starts(size);
    assert_eq!(chunks.len(), 4);
}

#[test]
fn test_chunk_boundaries() {
    let size: i64 = (CHUNK_SIZE * 2) as i64;
    let chunks: Vec<(usize, i64)> = chunk_starts(size);

    let start0 = chunks[0].1;
    let end0 = chunk_range(chunks[0].0, start0, size).last as i64;
    assert_eq!(start0, 0);
    assert_eq!(end0, (CHUNK_SIZE - 1) as i64);

    let start1 = chunks[1].1;
    let end1 = chunk_range(chunks[1].0, start1, size).last as i64;
    assert_eq!(start1, CHUNK_SIZE as i64);
    assert_eq!(end1, (2 * CHUNK_SIZE - 1) as i64);
}

#[test]
fn test_thread_distribution_fewer_chunks_than_concurrency() {
    let concurrency = 32;
    let num_chunks = 5;
    let threads = worker_count(concurrency, num_chunks);
    assert_eq!(threads, 5);
}

#[test]
fn test_thread_distribution_more_chunks_than_concurrency() {
    let concurrency = 32;
    let num_chunks = 100;
    let threads = worker_count(concurrency, num_chunks);
    assert_eq!(threads, 32);
}

#[test]
fn test_thread_size_calculation() {
    let concurrency: usize = 32;
    let num_chunks: usize = 100;
    let threads = worker_count(concurrency, num_chunks);
    let thread_size = chunks_per_worker(num_chunks, threads);

    assert_eq!(thread_size, 4);
    assert!(threads * thread_size >= num_chunks);
    if thread_size > 1 {
        assert!(threads * (thread_size - 1) < num_chunks);
    }
}

#[test]
fn test_range_conversion_i64_to_u64() {
    let start: i64 = 0;
    let size: i64 = 1025;
    let range = chunk_range(0, start, size);

    assert_eq!(range.first, 0u64);
    assert_eq!(range.last, 1024u64);
}

#[test]
fn test_last_chunk_partial() {
    let size: i64 = (CHUNK_SIZE * 2 + 1000) as i64;
    let chunks: Vec<(usize, i64)> = chunk_starts(size);

    assert_eq!(chunks.len(), 3);

    let last_start = chunks[2].1;
    let last = chunk_range(chunks[2].0, last_start, size);
    let last_chunk_size = (last.last as i64 - last_start + 1) as usize;

    assert_eq!(last_chunk_size, 1000);
}

#[test]
fn test_upload_size_threshold() {
    let small_data = vec![0u8; CHUNK_SIZE / 2];
    let large_data = vec![0u8; CHUNK_SIZE + 1];

    assert!(small_data.len() <= CHUNK_SIZE);
    assert!(large_data.len() > CHUNK_SIZE);
    assert_eq!(upload_media("k".to_string(), small_data.len()).content_length, None);
    assert_eq!(
        upload_media("k".to_string(), large_data.len()).content_length,
        Some((CHUNK_SIZE + 1) as u64)
    );
}

#[test]
fn no_chunks_for_empty_or_negative_sizes() {
    assert!(chunk_starts(0).is_empty());
    assert!(chunk_starts(-5).is_empty());
}

#[test]
fn chunk_starts_are_multiples_of_the_chunk_size() {
    let chunks = chunk_starts((CHUNK_SIZE * 3) as i64 + 1);
    assert_eq!(
        chunks,
        vec![
            (0, 0),
            (1, CHUNK_SIZE as i64),
            (2, 2 * CHUNK_SIZE as i64),
            (3, 3 * CHUNK_SIZE as i64)
        ]
    );
}

#[test]
fn at_least_one_chunk_per_worker() {
    assert_eq!(chunks_per_worker(0, 3), 1);
    assert_eq!(chunks_per_worker(6, 3), 2);
    assert_eq!(chunks_per_worker(7, 3), 3);
    assert_eq!(chunks_per_worker(2, 5), 1);
}

#[test]
fn small_objects_are_fetched_whole() {
    assert!(matches!(plan_download(0, 4), DownloadPlan::Whole));
    assert!(matches!(plan_download(-1, 0), DownloadPlan::Whole));
    assert!(matches!(plan_download(CHUNK_SIZE as i64, 0), DownloadPlan::Whole));
}

fn range(index: usize, size: usize) -> ChunkRange {
    let first = index * CHUNK_SIZE;
    let last = std::cmp::min(first + CHUNK_SIZE, size) - 1;
    ChunkRange { index, first: first as u64, last: last as u64 }
}

#[test]
fn large_objects_are_split_into_worker_batches() {
    let size = CHUNK_SIZE * 3 + CHUNK_SIZE / 2;
    match plan_download(size as i64, 2) {
        DownloadPlan::Chunked { size: s, workers, batches } => {
            assert_eq!(s, size);
            assert_eq!(workers, 2);
            assert_eq!(
                batches,
                vec![vec![range(0, size), range(1, size)], vec![range(2, size), range(3, size)]]
            );
        }
        DownloadPlan::Whole => panic!("expected a chunked plan"),
    }
}

#[test]
fn batches_never_outnumber_the_concurrency() {
    let size = CHUNK_SIZE * 10 + 7;
    for concurrency in 1..15usize {
        match plan_download(size as i64, concurrency) {
            DownloadPlan::Chunked { workers, batches, .. } => {
                assert_eq!(workers, std::cmp::min(concurrency, 11));
                assert!(batches.len() <= workers);
                let flat: Vec<ChunkRange> = batches.concat();
                let expected: Vec<ChunkRange> = (0..11).map(|i| range(i, size)).collect();
                assert_eq!(flat, expected);
                assert_eq!(flat.last().unwrap().last as usize, size - 1);
            }
            DownloadPlan::Whole => panic!("expected a chunked plan"),
        }
    }
}

#[test]
fn chunk_ranges_tile_the_object() {
    let size = CHUNK_SIZE * 2 + 1;
    if let DownloadPlan::Chunked { batches, .. } = plan_download(size as i64, 1) {
        let flat: Vec<ChunkRange> = batches.concat();
        assert_eq!(flat.len(), 3);
        assert_eq!(flat[0].first, 0);
        for w in flat.windows(2) {
            assert_eq!(w[0].last + 1, w[1].first);
        }
        assert_eq!(flat[2].first, flat[2].last);
    } else {
        panic!("expected a chunked plan");
    }
}

#[test]
fn upload_media_names_the_key_and_binary_content() {
    let media = upload_media("proof/abc".to_string(), 10);
    assert_eq!(media.name, "proof/abc");
    assert_eq!(media.content_type, "application/octet-stream");
    assert_eq!(media.content_length, None);
    assert_eq!(upload_media("x".to_string(), CHUNK_SIZE).content_length, None);
}

#[test]
fn plannable_downloads() {
    assert!(download_plannable(10, 0));
    assert!(download_plannable(CHUNK_SIZE as i64, 0));
    assert!(!download_plannable(CHUNK_SIZE as i64 + 1, 0));
    assert!(download_plannable(CHUNK_SIZE as i64 + 1, 1));
    assert!(!download_plannable(i64::MAX, 4));
}
