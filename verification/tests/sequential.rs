use std::cell::Cell;

use ic_file_uploader::{
    create_error_string, upload_chunk_with_config, upload_chunks_with_resume, ChunkUploadResult,
    UploadConfig,
};

#[test]
fn test_default_config_values() {
    let config = UploadConfig::default();
    assert_eq!(config.max_retries, 3);
    assert_eq!(config.retry_delay_ms, 1000);
    assert!(!config.auto_resume);
}

#[test]
fn test_config_builders() {
    let config = UploadConfig::with_auto_resume()
        .with_max_retries(5)
        .with_retry_delay(200);
    assert!(config.auto_resume);
    assert_eq!(config.max_retries, 5);
    assert_eq!(config.retry_delay_ms, 200);
}

#[test]
fn test_create_error_string_format() {
    assert_eq!(create_error_string("boom"), "Upload Error: boom");
    assert_eq!(create_error_string(""), "Upload Error: ");
}

#[test]
fn test_resume_counts_remaining_chunks() {
    // Against an always-succeeding primitive, starting from chunk k uploads
    // exactly total - k chunks.
    let chunks: Vec<Vec<u8>> = (0u8..5).map(|i| vec![i]).collect();
    let config = UploadConfig::default();
    let calls = Cell::new(0usize);
    let transfer = |_index: usize, _data: Vec<u8>, _attempt: usize| -> Result<(), String> {
        calls.set(calls.get() + 1);
        Ok(())
    };
    match upload_chunks_with_resume(&chunks, 2, &config, transfer) {
        ChunkUploadResult::Success => {}
        other => panic!("expected success, got {:?}", other),
    }
    assert_eq!(calls.get(), 3); // 5 chunks, started from index 2
}

#[test]
fn test_resume_from_zero_uploads_everything() {
    let chunks: Vec<Vec<u8>> = (0u8..4).map(|i| vec![i, i]).collect();
    let config = UploadConfig::default();
    let seen = Cell::new(0usize);
    let transfer = |index: usize, data: Vec<u8>, _attempt: usize| -> Result<(), String> {
        assert_eq!(data, vec![index as u8, index as u8]);
        seen.set(seen.get() + 1);
        Ok(())
    };
    match upload_chunks_with_resume(&chunks, 0, &config, transfer) {
        ChunkUploadResult::Success => {}
        other => panic!("expected success, got {:?}", other),
    }
    assert_eq!(seen.get(), 4);
}

#[test]
fn test_resume_rejects_empty_chunks() {
    let chunks: Vec<Vec<u8>> = Vec::new();
    let config = UploadConfig::default();
    let transfer = |_i: usize, _d: Vec<u8>, _a: usize| -> Result<(), String> { Ok(()) };
    match upload_chunks_with_resume(&chunks, 0, &config, transfer) {
        ChunkUploadResult::Failed(m) => assert_eq!(m, "No chunks to upload"),
        other => panic!("expected a failure, got {:?}", other),
    }
}

#[test]
fn test_resume_rejects_start_beyond_total() {
    let chunks = vec![vec![1u8], vec![2u8]];
    let config = UploadConfig::default();
    let transfer = |_i: usize, _d: Vec<u8>, _a: usize| -> Result<(), String> { Ok(()) };
    match upload_chunks_with_resume(&chunks, 2, &config, transfer) {
        ChunkUploadResult::Failed(m) => assert_eq!(m, "Start chunk index exceeds total chunks"),
        other => panic!("expected a failure, got {:?}", other),
    }
}

#[test]
fn test_resume_interrupts_at_failing_chunk() {
    // With auto-resume on, the first chunk that exhausts its attempts names
    // itself so the caller can resume there.
    let chunks: Vec<Vec<u8>> = (0u8..5).map(|i| vec![i]).collect();
    let config = UploadConfig::with_auto_resume().with_max_retries(2);
    let transfer = |index: usize, _d: Vec<u8>, _a: usize| -> Result<(), String> {
        if index == 3 {
            Err("socket dropped".to_string())
        } else {
            Ok(())
        }
    };
    match upload_chunks_with_resume(&chunks, 0, &config, transfer) {
        ChunkUploadResult::Interrupted {
            failed_at_chunk,
            error,
        } => {
            assert_eq!(failed_at_chunk, 3);
            assert_eq!(
                error,
                "Failed to upload chunk 4/5 after 2 attempts. Last error: socket dropped"
            );
        }
        other => panic!("expected an interruption, got {:?}", other),
    }
}

#[test]
fn test_resume_without_auto_resume_fails_outright() {
    // Without auto-resume every chunk has one attempt and any failure aborts
    // the run.
    let chunks: Vec<Vec<u8>> = (0u8..3).map(|i| vec![i]).collect();
    let config = UploadConfig::default();
    let attempts = Cell::new(0usize);
    let transfer = |index: usize, _d: Vec<u8>, _a: usize| -> Result<(), String> {
        attempts.set(attempts.get() + 1);
        if index == 1 {
            Err("refused".to_string())
        } else {
            Ok(())
        }
    };
    match upload_chunks_with_resume(&chunks, 0, &config, transfer) {
        ChunkUploadResult::Failed(m) => {
            assert_eq!(m, "Failed to upload chunk 2/3 after 1 attempts. Last error: refused");
        }
        other => panic!("expected a failure, got {:?}", other),
    }
    assert_eq!(attempts.get(), 2); // chunk 0 once, chunk 1 once, never chunk 2
}

#[test]
fn test_retry_succeeds_on_last_allowed_attempt() {
    // A primitive failing exactly max_retries - 1 times then succeeding
    // counts as successful.
    let chunk = vec![9u8, 9u8];
    let config = UploadConfig::with_auto_resume().with_max_retries(3);
    let made = Cell::new(0usize);
    let transfer = |_i: usize, _d: Vec<u8>, attempt: usize| -> Result<(), String> {
        made.set(made.get() + 1);
        if attempt >= 3 {
            Ok(())
        } else {
            Err("transient".to_string())
        }
    };
    assert!(upload_chunk_with_config(&chunk, 0, 1, &config, &transfer).is_ok());
    assert_eq!(made.get(), 3);
}

#[test]
fn test_retry_exhausts_after_exactly_max_retries() {
    let chunk = vec![9u8];
    let config = UploadConfig::with_auto_resume().with_max_retries(3);
    let made = Cell::new(0usize);
    let transfer = |_i: usize, _d: Vec<u8>, _a: usize| -> Result<(), String> {
        made.set(made.get() + 1);
        Err("hard down".to_string())
    };
    let err = upload_chunk_with_config(&chunk, 0, 1, &config, &transfer).unwrap_err();
    assert_eq!(err, "Failed to upload chunk 1/1 after 3 attempts. Last error: hard down");
    assert_eq!(made.get(), 3);
}
