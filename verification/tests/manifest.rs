use ic_file_uploader::manifest::{format_failed_ids, parse_retry_ids};
use ic_file_uploader::parallel::{chunks_to_chunk_info, filter_chunks_by_ids};

#[test]
fn test_parse_simple_manifest() {
    assert_eq!(parse_retry_ids(b"1,3"), Some(vec![1, 3]));
    assert_eq!(parse_retry_ids(b"7"), Some(vec![7]));
    assert_eq!(parse_retry_ids(b"0,1,2,3"), Some(vec![0, 1, 2, 3]));
}

#[test]
fn test_parse_tolerates_whitespace() {
    assert_eq!(parse_retry_ids(b" 1 , 3 \n"), Some(vec![1, 3]));
    assert_eq!(parse_retry_ids(b"\t12,\r\n5"), Some(vec![12, 5]));
}

#[test]
fn test_parse_rejects_bad_manifests() {
    assert_eq!(parse_retry_ids(b""), None);
    assert_eq!(parse_retry_ids(b"   "), None);
    assert_eq!(parse_retry_ids(b"1,,3"), None);
    assert_eq!(parse_retry_ids(b"1,"), None);
    assert_eq!(parse_retry_ids(b"a"), None);
    assert_eq!(parse_retry_ids(b"1,x"), None);
    assert_eq!(parse_retry_ids(b"1 2"), None);
}

#[test]
fn test_parse_range_limits() {
    assert_eq!(parse_retry_ids(b"4294967295"), Some(vec![u32::MAX]));
    assert_eq!(parse_retry_ids(b"4294967296"), None);
    assert_eq!(parse_retry_ids(b"007"), Some(vec![7]));
}

#[test]
fn test_format_failed_ids_joins_with_commas() {
    assert_eq!(format_failed_ids(&vec![]), "");
    assert_eq!(format_failed_ids(&vec![7]), "7");
    assert_eq!(format_failed_ids(&vec![1, 3]), "1,3");
    assert_eq!(format_failed_ids(&vec![10, 2, 300]), "10,2,300");
}

#[test]
fn test_manifest_round_trip() {
    let ids = vec![4, 0, 19, 7];
    let text = format_failed_ids(&ids);
    assert_eq!(parse_retry_ids(text.as_bytes()), Some(ids));
}

#[test]
fn test_manifest_filter_end_to_end() {
    // Chunk ids {0,1,2,3,4} and the manifest "1,3" leave exactly {1,3}.
    let chunks = vec![vec![10], vec![11], vec![12], vec![13], vec![14]];
    let infos = chunks_to_chunk_info(&chunks);
    let ids = parse_retry_ids(b"1,3").expect("manifest should parse");
    let kept = filter_chunks_by_ids(infos, &ids);
    let kept_ids: Vec<u32> = kept.iter().map(|c| c.chunk_id).collect();
    assert_eq!(kept_ids, vec![1, 3]);
}
