use ic_file_uploader::{
    split_into_chunks, vec_u8_to_blob_string, MAX_CANISTER_HTTP_PAYLOAD_SIZE,
};

#[test]
fn test_split_concat_round_trip() {
    // Concatenating the chunks of a split reproduces the data exactly.
    let data: Vec<u8> = (0u8..=250).collect();
    for chunk_size in [1usize, 3, 7, 100, 251, 1000] {
        let chunks = split_into_chunks(data.clone(), chunk_size, 0);
        let rebuilt: Vec<u8> = chunks.concat();
        assert_eq!(rebuilt, data, "chunk size {}", chunk_size);
    }
}

#[test]
fn test_split_offset_equals_split_of_suffix() {
    // split(data, chunk_size, k) equals split(data[k..], chunk_size, 0).
    let data: Vec<u8> = (0u8..100).collect();
    for k in [0usize, 1, 7, 50, 99, 100] {
        let with_offset = split_into_chunks(data.clone(), 9, k);
        let of_suffix = split_into_chunks(data[k..].to_vec(), 9, 0);
        assert_eq!(with_offset, of_suffix, "offset {}", k);
    }
}

#[test]
fn test_split_chunk_lengths() {
    let data: Vec<u8> = (0u8..10).collect();
    let chunks = split_into_chunks(data, 4, 0);
    assert_eq!(chunks.len(), 3);
    assert_eq!(chunks[0], vec![0, 1, 2, 3]);
    assert_eq!(chunks[1], vec![4, 5, 6, 7]);
    assert_eq!(chunks[2], vec![8, 9]); // the remainder
}

#[test]
fn test_split_empty_and_past_end() {
    assert_eq!(split_into_chunks(Vec::new(), 8, 0).len(), 0);
    // A starting index at or past the end yields no chunks.
    assert_eq!(split_into_chunks(vec![1, 2, 3], 8, 3).len(), 0);
    assert_eq!(split_into_chunks(vec![1, 2, 3], 8, 7).len(), 0);
}

#[test]
fn test_payload_ceiling_value() {
    assert_eq!(MAX_CANISTER_HTTP_PAYLOAD_SIZE, 2_000_000);
}

#[test]
fn test_blob_string_format() {
    assert_eq!(vec_u8_to_blob_string(&[]), "(blob \"\")");
    assert_eq!(vec_u8_to_blob_string(&[0x00, 0xAB, 0xFF]), r#"(blob "\00\AB\FF")"#);
}
