use ic_file_uploader::storage::BufferStore;

#[test]
fn test_buffer_append_and_size() {
    let mut store = BufferStore::new();
    assert_eq!(store.buffer_size(), 0);
    store.append_chunk(vec![1, 2, 3]);
    store.append_chunk(vec![4]);
    assert_eq!(store.buffer_size(), 4);
    assert_eq!(store.get_data(), vec![1, 2, 3, 4]);
    assert_eq!(store.buffer_size(), 0); // get_data consumes the buffer
}

#[test]
fn test_clear_buffer() {
    let mut store = BufferStore::new();
    store.append_chunk(vec![1, 2]);
    store.clear_buffer();
    assert_eq!(store.buffer_size(), 0);
}

#[test]
fn test_parallel_chunks_and_sorted_ids() {
    let mut store = BufferStore::new();
    store.append_parallel_chunk(2, vec![20]);
    store.append_parallel_chunk(0, vec![0]);
    store.append_parallel_chunk(1, vec![10]);
    assert_eq!(store.parallel_chunk_count(), 3);
    assert_eq!(store.parallel_chunk_ids(), vec![0, 1, 2]);
    assert_eq!(store.parallel_buffer_size(), 3);
}

#[test]
fn test_parallel_chunk_replacement() {
    let mut store = BufferStore::new();
    store.append_parallel_chunk(5, vec![1, 1]);
    store.append_parallel_chunk(5, vec![2, 2, 2]);
    assert_eq!(store.parallel_chunk_count(), 1);
    assert_eq!(store.parallel_buffer_size(), 3);
}

#[test]
fn test_parallel_chunks_complete() {
    let mut store = BufferStore::new();
    store.append_parallel_chunk(0, vec![1]);
    store.append_parallel_chunk(2, vec![3]);
    assert!(!store.parallel_chunks_complete(2)); // id 1 missing
    store.append_parallel_chunk(1, vec![2]);
    assert!(store.parallel_chunks_complete(3));
    assert!(!store.parallel_chunks_complete(2)); // count differs
}

#[test]
fn test_remove_parallel_chunk() {
    let mut store = BufferStore::new();
    store.append_parallel_chunk(1, vec![1]);
    assert!(store.remove_parallel_chunk(1));
    assert!(!store.remove_parallel_chunk(1));
    assert_eq!(store.parallel_chunk_count(), 0);
}

#[test]
fn test_clear_parallel_chunks() {
    let mut store = BufferStore::new();
    store.append_parallel_chunk(1, vec![1]);
    store.append_parallel_chunk(2, vec![2]);
    store.clear_parallel_chunks();
    assert_eq!(store.parallel_chunk_count(), 0);
}

#[test]
fn test_save_and_load_stable() {
    let mut store = BufferStore::new();
    store.append_chunk(vec![9, 8, 7]);
    assert!(store.save_to_stable("model".to_string()).is_ok());
    assert_eq!(store.buffer_size(), 0); // saving consumes the buffer

    assert!(store.load_from_stable("model".to_string()).is_ok());
    assert_eq!(store.get_data(), vec![9, 8, 7]);

    assert_eq!(store.get_stable_data("model".to_string()), Ok(vec![9, 8, 7]));
}

#[test]
fn test_save_to_stable_empty_buffer_is_error() {
    let mut store = BufferStore::new();
    let err = store.save_to_stable("model".to_string()).unwrap_err();
    assert_eq!(err, "No data in buffer for key: model");
}

#[test]
fn test_missing_stable_key_is_error() {
    let mut store = BufferStore::new();
    let err = store.load_from_stable("nothing".to_string()).unwrap_err();
    assert_eq!(err, "No data found in stable storage for key: nothing");
    let err = store.get_stable_data("nothing".to_string()).unwrap_err();
    assert_eq!(err, "No data found in stable storage for key: nothing");
}

#[test]
fn test_save_parallel_consolidates_in_id_order() {
    // Chunks inserted out of order come back concatenated by ascending id.
    let mut store = BufferStore::new();
    store.append_parallel_chunk(2, vec![30, 31]);
    store.append_parallel_chunk(0, vec![10]);
    store.append_parallel_chunk(1, vec![20]);
    let size = store.save_parallel_to_stable("weights".to_string()).unwrap();
    assert_eq!(size, 4);
    assert_eq!(store.parallel_chunk_count(), 0); // consolidation clears the set
    assert_eq!(
        store.get_stable_data("weights".to_string()),
        Ok(vec![10, 20, 30, 31])
    );
}

#[test]
fn test_save_parallel_without_chunks_is_error() {
    let mut store = BufferStore::new();
    let err = store.save_parallel_to_stable("weights".to_string()).unwrap_err();
    assert_eq!(err, "No parallel chunks to save for key: weights");
}

#[test]
fn test_storage_status_snapshot() {
    let mut store = BufferStore::new();
    store.append_chunk(vec![1, 2]);
    store.append_parallel_chunk(4, vec![1, 2, 3]);
    store.append_parallel_chunk(1, vec![4]);
    store.append_chunk(vec![3]);
    let mut saver = BufferStore::new();
    saver.append_chunk(vec![5; 10]);
    assert!(saver.save_to_stable("ten".to_string()).is_ok());

    let status = store.storage_status();
    assert_eq!(status.buffer_size, 3);
    assert_eq!(status.parallel_chunk_count, 2);
    assert_eq!(status.parallel_total_size, 4);
    assert_eq!(status.chunk_ids, vec![1, 4]);
    assert_eq!(status.stable_entries.len(), 0);

    let saved = saver.storage_status();
    assert_eq!(saved.stable_entries.len(), 1);
    assert_eq!(saved.stable_entries[0].0, "ten");
    assert_eq!(saved.stable_entries[0].1, 10);
}
