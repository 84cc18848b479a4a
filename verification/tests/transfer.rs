use gcs_artifact::assembly::{chunk_fits, place_chunk, zeroed_buffer};
use gcs_artifact::chunks::{plan_download, DownloadPlan, CHUNK_SIZE};
use gcs_artifact::compression::{compress_artifact, decompress_artifact};
use gcs_artifact::errors::ArtifactError;
use gcs_artifact::replies::{deletion_result, exists_from_lookup, DeleteOutcome, ObjectLookup};
use gcs_artifact::retry::{RETRY_INITIAL_INTERVAL_MS, RETRY_MAX_ELAPSED_SECS};
use std::time::Duration;

#[test]
fn test_backoff_configuration() {
    assert_eq!(Duration::from_millis(RETRY_INITIAL_INTERVAL_MS), Duration::from_millis(100));
    assert_eq!(
        Some(Duration::from_secs(RETRY_MAX_ELAPSED_SECS)),
        Some(Duration::from_secs(120))
    );
}

#[test]
fn zeroed_buffer_has_the_requested_size() {
    assert_eq!(zeroed_buffer(5), vec![0u8; 5]);
    assert!(zeroed_buffer(0).is_empty());
}

#[test]
fn place_chunk_overwrites_only_its_range() {
    let mut buf = vec![9u8; CHUNK_SIZE + 4];
    place_chunk(&mut buf, 1, &[1, 2, 3]);
    assert_eq!(&buf[CHUNK_SIZE..], &[1, 2, 3, 9]);
    assert!(buf[..CHUNK_SIZE].iter().all(|b| *b == 9));
    place_chunk(&mut buf, 0, &[7, 7]);
    assert_eq!(&buf[..3], &[7, 7, 9]);
}

#[test]
fn chunk_fits_checks_the_buffer_end() {
    assert!(chunk_fits(CHUNK_SIZE + 4, 1, 4));
    assert!(!chunk_fits(CHUNK_SIZE + 4, 1, 5));
    assert!(!chunk_fits(10, 0, 11));
    assert!(chunk_fits(10, 0, 10));
    assert!(!chunk_fits(CHUNK_SIZE - 1, 1, 0));
    assert!(!chunk_fits(usize::MAX, usize::MAX, 1));
}

fn download_in_order(object: &[u8], concurrency: usize, reverse: bool) -> Vec<u8> {
    match plan_download(object.len() as i64, concurrency) {
        DownloadPlan::Whole => object.to_vec(),
        DownloadPlan::Chunked { size, batches, .. } => {
            let mut buf = zeroed_buffer(size);
            let mut ranges: Vec<_> = batches.concat();
            if reverse {
                ranges.reverse();
            }
            for r in ranges {
                let body = &object[r.first as usize..=r.last as usize];
                assert!(chunk_fits(buf.len(), r.index, body.len()));
                place_chunk(&mut buf, r.index, body);
            }
            buf
        }
    }
}

#[test]
fn reassembly_rebuilds_the_object_in_any_order() {
    let size = 2 * CHUNK_SIZE + 12345;
    let object: Vec<u8> = (0..size).map(|i| (i % 251) as u8).collect();
    assert_eq!(download_in_order(&object, 3, false), object);
    assert_eq!(download_in_order(&object, 2, true), object);
}

#[test]
fn compression_round_trips() {
    for data in [Vec::new(), b"Hello, GCS! This is a small test file.".to_vec(), vec![0u8; 100_000]] {
        let frame = compress_artifact(&data);
        assert_eq!(decompress_artifact(&frame).unwrap(), data);
    }
}

#[test]
fn compressed_zeros_are_smaller() {
    let frame = compress_artifact(&vec![0u8; 100_000]);
    assert!(frame.len() < 1000);
}

#[test]
fn upload_then_download_returns_the_data() {
    let data: Vec<u8> = (0..200_000u32).map(|i| (i.wrapping_mul(2654435761) >> 13) as u8).collect();
    let stored = compress_artifact(&data);
    let fetched = download_in_order(&stored, 4, true);
    assert_eq!(decompress_artifact(&fetched).unwrap(), data);
}

#[test]
fn garbage_does_not_decompress() {
    match decompress_artifact(b"definitely not zstd") {
        Err(ArtifactError::Decompress(text)) => assert!(!text.is_empty()),
        other => panic!("unexpected {:?}", other),
    }
}

#[test]
fn existence_follows_the_reply() {
    assert!(matches!(exists_from_lookup(ObjectLookup::Found), Ok(true)));
    assert!(matches!(
        exists_from_lookup(ObjectLookup::ErrorStatus { code: 404, text: "gone".to_string() }),
        Ok(false)
    ));
    match exists_from_lookup(ObjectLookup::ErrorStatus { code: 403, text: "denied".to_string() }) {
        Err(ArtifactError::ExistsCheck(text)) => assert_eq!(text, "denied"),
        other => panic!("unexpected {:?}", other),
    }
    match exists_from_lookup(ObjectLookup::Failed { text: "timeout".to_string() }) {
        Err(ArtifactError::ExistsCheck(text)) => assert_eq!(text, "timeout"),
        other => panic!("unexpected {:?}", other),
    }
}

#[test]
fn deletion_outcomes_map_to_results() {
    assert!(deletion_result(DeleteOutcome::Deleted).is_ok());
    match deletion_result(DeleteOutcome::Failed { text: "no".to_string() }) {
        Err(ArtifactError::Delete(text)) => assert_eq!(text, "no"),
        other => panic!("unexpected {:?}", other),
    }
    match deletion_result(DeleteOutcome::TaskPanicked { text: "boom".to_string() }) {
        Err(ArtifactError::DeleteTaskPanicked(text)) => assert_eq!(text, "boom"),
        other => panic!("unexpected {:?}", other),
    }
}
