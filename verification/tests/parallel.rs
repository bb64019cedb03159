use ic_file_uploader::parallel::{
    chunk_with_id_to_candid_args, chunks_to_chunk_info, create_test_format, filter_chunks_by_ids,
    upload_chunk_with_retry, upload_chunks_parallel, ChunkInfo, ParallelScheduler,
    ParallelUploadConfig, ParallelUploadResult, UploadTracker,
};

#[test]
fn test_candid_args_format() {
    let test_data = vec![0x00, 0x01, 0x02];
    let result = chunk_with_id_to_candid_args(0, &test_data);

    // Should produce: (0 : nat32, blob "\00\01\02")
    let expected = r#"(0 : nat32, blob "\00\01\02")"#;
    assert_eq!(result, expected);

    println!("Generated: {}", result);
    println!("Expected:  {}", expected);
}

#[test]
fn test_single_byte() {
    let test_data = vec![0xFF];
    let result = chunk_with_id_to_candid_args(5, &test_data);
    let expected = r#"(5 : nat32, blob "\FF")"#;
    assert_eq!(result, expected);
}

#[test]
fn test_chunk_info_sequential_ids() {
    let chunks = vec![
        vec![1, 2, 3],
        vec![4, 5, 6],
        vec![7, 8, 9],
        vec![10, 11, 12],
    ];

    let chunk_infos = chunks_to_chunk_info(&chunks);

    // Verify IDs are sequential starting from 0
    assert_eq!(chunk_infos.len(), 4);
    assert_eq!(chunk_infos[0].chunk_id, 0);
    assert_eq!(chunk_infos[1].chunk_id, 1);
    assert_eq!(chunk_infos[2].chunk_id, 2);
    assert_eq!(chunk_infos[3].chunk_id, 3);

    // Verify data is preserved
    assert_eq!(chunk_infos[0].data, vec![1, 2, 3]);
    assert_eq!(chunk_infos[3].data, vec![10, 11, 12]);
}

#[test]
fn test_resume_logic_skips_correct_chunks() {
    let chunks = vec![
        vec![1, 2, 3],    // chunk_id: 0
        vec![4, 5, 6],    // chunk_id: 1
        vec![7, 8, 9],    // chunk_id: 2
        vec![10, 11, 12], // chunk_id: 3
        vec![13, 14, 15], // chunk_id: 4
    ];

    let chunk_infos = chunks_to_chunk_info(&chunks);

    // Simulate resuming from chunk offset 2 (should start from chunk_id 2)
    let chunk_offset = 2;
    let chunks_to_upload: Vec<_> = chunk_infos
        .into_iter()
        .skip(chunk_offset)
        .collect();

    // Should have 3 chunks remaining (IDs 2, 3, 4)
    assert_eq!(chunks_to_upload.len(), 3);
    assert_eq!(chunks_to_upload[0].chunk_id, 2);
    assert_eq!(chunks_to_upload[1].chunk_id, 3);
    assert_eq!(chunks_to_upload[2].chunk_id, 4);

    // Verify the data matches
    assert_eq!(chunks_to_upload[0].data, vec![7, 8, 9]);
    assert_eq!(chunks_to_upload[2].data, vec![13, 14, 15]);
}

#[test]
fn test_retry_chunks_filter() {
    let chunks = vec![
        vec![1, 2],  // chunk_id: 0
        vec![3, 4],  // chunk_id: 1
        vec![5, 6],  // chunk_id: 2
        vec![7, 8],  // chunk_id: 3
        vec![9, 10], // chunk_id: 4
    ];

    let chunk_infos = chunks_to_chunk_info(&chunks);

    // Simulate retrying specific failed chunks: 1, 3
    let retry_ids = vec![1u32, 3u32];
    let chunks_to_upload: Vec<_> = chunk_infos
        .into_iter()
        .filter(|chunk| retry_ids.contains(&chunk.chunk_id))
        .collect();

    // Should have exactly 2 chunks
    assert_eq!(chunks_to_upload.len(), 2);
    assert_eq!(chunks_to_upload[0].chunk_id, 1);
    assert_eq!(chunks_to_upload[1].chunk_id, 3);

    // Verify the data matches
    assert_eq!(chunks_to_upload[0].data, vec![3, 4]);
    assert_eq!(chunks_to_upload[1].data, vec![7, 8]);
}

#[test]
fn test_no_double_offset_bug() {
    // This test specifically verifies the bug is fixed
    let chunks = vec![
        vec![0], // chunk_id: 0
        vec![1], // chunk_id: 1
        vec![2], // chunk_id: 2
        vec![3], // chunk_id: 3
        vec![4], // chunk_id: 4
    ];

    let chunk_offset = 2;
    let chunk_infos = chunks_to_chunk_info(&chunks); // Start IDs from 0

    // Apply resume logic (skip first chunk_offset chunks)
    let chunks_to_upload: Vec<_> = chunk_infos
        .into_iter()
        .skip(chunk_offset)
        .collect();

    // Should start from chunk_id 2 (not 4 like the bug would cause)
    assert_eq!(chunks_to_upload[0].chunk_id, 2);
    assert_eq!(chunks_to_upload[0].data, vec![2]);

    // Should have 3 chunks total (IDs 2, 3, 4)
    assert_eq!(chunks_to_upload.len(), 3);
    assert_eq!(chunks_to_upload[2].chunk_id, 4);
}

#[test]
fn test_edge_case_resume_from_last_chunk() {
    let chunks = vec![vec![1], vec![2], vec![3]];
    let chunk_infos = chunks_to_chunk_info(&chunks);

    // Resume from the last chunk
    let chunks_to_upload: Vec<_> = chunk_infos
        .into_iter()
        .skip(2)
        .collect();

    assert_eq!(chunks_to_upload.len(), 1);
    assert_eq!(chunks_to_upload[0].chunk_id, 2);
    assert_eq!(chunks_to_upload[0].data, vec![3]);
}

#[test]
fn test_edge_case_resume_beyond_chunks() {
    let chunks = vec![vec![1], vec![2]];
    let chunk_infos = chunks_to_chunk_info(&chunks);

    // Try to resume beyond available chunks
    let chunks_to_upload: Vec<_> = chunk_infos
        .into_iter()
        .skip(5) // Skip more than available
        .collect();

    // Should result in empty vector
    assert_eq!(chunks_to_upload.len(), 0);
}

#[test]
fn test_chunk_info_sizes_match_data() {
    let chunks = vec![vec![1, 2, 3], vec![], vec![4]];
    let infos = chunks_to_chunk_info(&chunks);
    assert_eq!(infos.len(), 3);
    assert_eq!(infos[0].size, 3);
    assert_eq!(infos[1].size, 0);
    assert_eq!(infos[2].size, 1);
}

#[test]
fn test_create_test_format_zero_and_nonzero() {
    assert_eq!(create_test_format(0), "(0, blob \"\x001\x002\x003\x004\")");
    assert_eq!(create_test_format(7), "(7, blob \"\x001\x002\x003\x004\"");
}

#[test]
fn test_filter_chunks_by_ids_keeps_exactly_named_ids() {
    let chunks = vec![vec![1], vec![2], vec![3], vec![4], vec![5]];
    let infos = chunks_to_chunk_info(&chunks);
    let kept = filter_chunks_by_ids(infos, &vec![1, 3]);
    assert_eq!(kept.len(), 2);
    assert_eq!(kept[0].chunk_id, 1);
    assert_eq!(kept[1].chunk_id, 3);
    assert_eq!(kept[0].data, vec![2]);
    assert_eq!(kept[1].data, vec![4]);
}

fn make_chunks(n: u32) -> Vec<ChunkInfo> {
    let raw: Vec<Vec<u8>> = (0..n).map(|i| vec![i as u8; 4]).collect();
    chunks_to_chunk_info(&raw)
}

#[test]
fn test_parallel_end_to_end_partial_failure() {
    // 10 chunks, max_concurrent 3, the primitive permanently fails id 7 and
    // succeeds everywhere else.
    let chunks = make_chunks(10);
    let config = ParallelUploadConfig {
        max_concurrent: 3,
        ..Default::default()
    };
    let transfer = |id: u32, _data: Vec<u8>, _attempt: usize| -> Result<(), String> {
        if id == 7 {
            Err("port closed".to_string())
        } else {
            Ok(())
        }
    };
    match upload_chunks_parallel(chunks, &config, transfer) {
        ParallelUploadResult::PartialFailure {
            successful_chunks,
            failed_chunks,
        } => {
            let mut succeeded = successful_chunks.clone();
            succeeded.sort();
            assert_eq!(succeeded, vec![0, 1, 2, 3, 4, 5, 6, 8, 9]);
            assert_eq!(failed_chunks.len(), 1);
            assert!(failed_chunks.contains_key(&7));
            assert_eq!(
                failed_chunks[&7],
                "Chunk 7 failed after 3 attempts. Last error: port closed"
            );
            assert_eq!(successful_chunks.len() + failed_chunks.len(), 10);
        }
        other => panic!("expected a partial failure, got {:?}", other),
    }
}

#[test]
fn test_parallel_all_success() {
    let chunks = make_chunks(5);
    let config = ParallelUploadConfig::default();
    let transfer = |_id: u32, _data: Vec<u8>, _attempt: usize| -> Result<(), String> { Ok(()) };
    match upload_chunks_parallel(chunks, &config, transfer) {
        ParallelUploadResult::Success => {}
        other => panic!("expected success, got {:?}", other),
    }
}

#[test]
fn test_parallel_all_failed() {
    let chunks = make_chunks(3);
    let config = ParallelUploadConfig::default();
    let transfer =
        |_id: u32, _data: Vec<u8>, _attempt: usize| -> Result<(), String> { Err("down".to_string()) };
    match upload_chunks_parallel(chunks, &config, transfer) {
        ParallelUploadResult::Failed(m) => assert_eq!(m, "All chunks failed"),
        other => panic!("expected a failure, got {:?}", other),
    }
}

#[test]
fn test_parallel_empty_input_rejected() {
    let config = ParallelUploadConfig::default();
    let transfer = |_id: u32, _data: Vec<u8>, _attempt: usize| -> Result<(), String> { Ok(()) };
    match upload_chunks_parallel(Vec::new(), &config, transfer) {
        ParallelUploadResult::Failed(m) => assert_eq!(m, "No chunks to upload"),
        other => panic!("expected a failure, got {:?}", other),
    }
}

#[test]
fn test_parallel_retry_counts_attempts() {
    // A primitive that fails exactly max_retries - 1 times and then succeeds
    // counts as successful.
    let chunk = ChunkInfo {
        chunk_id: 4,
        data: vec![1, 2, 3],
        size: 3,
    };
    let config = ParallelUploadConfig::default(); // max_retries: 3
    let eventually = |_id: u32, _data: Vec<u8>, attempt: usize| -> Result<(), String> {
        if attempt >= 3 {
            Ok(())
        } else {
            Err("transient".to_string())
        }
    };
    assert!(upload_chunk_with_retry(&chunk, &config, &eventually).is_ok());

    // One that always fails is reported failed after exactly max_retries
    // attempts.
    let never = |_id: u32, _data: Vec<u8>, _attempt: usize| -> Result<(), String> {
        Err("hard down".to_string())
    };
    let err = upload_chunk_with_retry(&chunk, &config, &never).unwrap_err();
    assert_eq!(err, "Chunk 4 failed after 3 attempts. Last error: hard down");
}

#[test]
fn test_tracker_admission_rules() {
    let config = ParallelUploadConfig {
        max_concurrent: 2,
        target_rate_bps: 1000,
        ..Default::default()
    };
    let mut tracker = UploadTracker::new();

    // Nothing active, nothing uploaded: always admit.
    assert!(tracker.should_start_upload(&config, 0));
    assert!(tracker.should_start_upload(&config, 5000));

    // At the concurrency bound: never admit.
    tracker.active_uploads = 2;
    assert!(!tracker.should_start_upload(&config, 0));

    // One active and over the target rate: hold back.
    tracker.active_uploads = 1;
    tracker.bytes_uploaded = 10_000;
    assert!(!tracker.should_start_upload(&config, 1000)); // 10 kB/s > 1 kB/s

    // One active and under the target rate: admit.
    tracker.bytes_uploaded = 100;
    assert!(tracker.should_start_upload(&config, 1000)); // 100 B/s < 1 kB/s

    // Zero in-flight work admits even over the target rate (liveness).
    tracker.active_uploads = 0;
    tracker.bytes_uploaded = 10_000;
    assert!(tracker.should_start_upload(&config, 1000));
}

#[test]
fn test_tracker_pacing_delay() {
    let config = ParallelUploadConfig {
        target_rate_bps: 1000,
        ..Default::default()
    };
    let mut tracker = UploadTracker::new();
    assert_eq!(tracker.calculate_delay(&config, 0), 10);
    tracker.bytes_uploaded = 10_000;
    assert_eq!(tracker.calculate_delay(&config, 1000), 100); // over target
    tracker.bytes_uploaded = 100;
    assert_eq!(tracker.calculate_delay(&config, 1000), 10); // under target
}

#[test]
fn test_scheduler_respects_concurrency_bound() {
    let config = ParallelUploadConfig {
        max_concurrent: 1,
        ..Default::default()
    };
    let mut sched = ParallelScheduler::new(make_chunks(2));

    // One slot: the first admission fills it, the second is refused.
    let first = sched.admit_next(&config, 0).expect("one slot is free");
    assert!(sched.admit_next(&config, 0).is_none());

    // Reaping the worker frees the slot and the next chunk is admitted.
    sched.record_success(first.chunk_id, first.size);
    let second = sched.admit_next(&config, 0).expect("the slot is free again");
    assert_ne!(first.chunk_id, second.chunk_id);
    sched.record_failure(second.chunk_id, "late".to_string());

    assert!(sched.is_complete());
    assert_eq!(sched.tracker.bytes_uploaded, first.size);
    match sched.into_result() {
        ParallelUploadResult::PartialFailure {
            successful_chunks,
            failed_chunks,
        } => {
            assert_eq!(successful_chunks, vec![first.chunk_id]);
            assert!(failed_chunks.contains_key(&second.chunk_id));
        }
        other => panic!("expected a partial failure, got {:?}", other),
    }
}

#[test]
fn test_parallel_config_default_values() {
    let config = ParallelUploadConfig::default();
    assert_eq!(config.max_concurrent, 4);
    assert_eq!(config.target_rate_bps, 4 * 1024 * 1024);
    assert_eq!(config.max_retries, 3);
    assert_eq!(config.retry_delay_ms, 1000);
}
