use greptime_verified::prom_remote_write::{
    decode_remote_write_request, decompress_with_fallback, or_fallback, snappy_outcome,
    try_decompress, zstd_outcome, DecodeError, DecompressError,
};

const TEXT: &[u8] = b"series series series series series";

fn snappy(data: &[u8]) -> Vec<u8> {
    snap::raw::Encoder::new().compress_vec(data).unwrap()
}

fn zstandard(data: &[u8]) -> Vec<u8> {
    zstd::stream::encode_all(data, 3).unwrap()
}

#[test]
fn each_method_decompresses_its_own() {
    assert_eq!(TEXT, try_decompress(false, &snappy(TEXT)).unwrap());
    assert_eq!(TEXT, try_decompress(true, &zstandard(TEXT)).unwrap());
    assert_eq!(Vec::<u8>::new(), try_decompress(false, &snappy(b"")).unwrap());
    assert_eq!(Vec::<u8>::new(), try_decompress(true, &zstandard(b"")).unwrap());
}

#[test]
fn each_method_reports_its_own_error() {
    assert!(matches!(
        try_decompress(true, &snappy(TEXT)),
        Err(DecompressError::DecompressZstdPromRemoteRequest(_))
    ));
    assert!(matches!(
        try_decompress(false, &zstandard(TEXT)),
        Err(DecompressError::DecompressSnappyPromRemoteRequest(_))
    ));
    assert!(matches!(
        try_decompress(false, b""),
        Err(DecompressError::DecompressSnappyPromRemoteRequest(_))
    ));
}

#[test]
fn outcomes_are_reported() {
    assert_eq!(vec![1, 2], snappy_outcome(Ok(vec![1, 2])).unwrap());
    assert!(matches!(
        snappy_outcome(Err(snap::Error::Empty)),
        Err(DecompressError::DecompressSnappyPromRemoteRequest(snap::Error::Empty))
    ));
    assert_eq!(vec![3], zstd_outcome(Ok(vec![3])).unwrap());
    assert!(matches!(
        zstd_outcome(Err(std::io::Error::other("no"))),
        Err(DecompressError::DecompressZstdPromRemoteRequest(_))
    ));
}

#[test]
fn a_wrong_method_falls_back_to_the_other() {
    for is_zstd in [true, false] {
        assert_eq!(TEXT, decompress_with_fallback(is_zstd, &snappy(TEXT)).unwrap());
        assert_eq!(TEXT, decompress_with_fallback(is_zstd, &zstandard(TEXT)).unwrap());
    }
}

#[test]
fn where_both_methods_fail_the_error_is_the_fallbacks() {
    let garbage = [0xffu8; 7];
    assert!(matches!(
        decompress_with_fallback(true, &garbage),
        Err(DecompressError::DecompressSnappyPromRemoteRequest(_))
    ));
    assert!(matches!(
        decompress_with_fallback(false, &garbage),
        Err(DecompressError::DecompressZstdPromRemoteRequest(_))
    ));
}

#[test]
fn a_fallback_is_only_tried_after_a_failure() {
    assert_eq!(Ok::<u8, u8>(1), or_fallback(Ok(1), || panic!("not to be called")));
    assert_eq!(Ok::<u8, u8>(2), or_fallback(Err(9), || Ok(2)));
    assert_eq!(Err::<u8, u8>(8), or_fallback(Err(9), || Err(8)));
}

#[test]
fn requests_are_decoded_from_their_decompressed_bytes() {
    let count = |bytes: Vec<u8>| -> Result<usize, String> {
        if bytes.is_empty() {
            Err("empty".to_string())
        } else {
            Ok(bytes.len())
        }
    };
    assert_eq!(34, decode_remote_write_request(false, &snappy(TEXT), count).unwrap());
    assert_eq!(34, decode_remote_write_request(true, &snappy(TEXT), count).unwrap());
    assert_eq!(34, decode_remote_write_request(true, &zstandard(TEXT), count).unwrap());
    assert!(matches!(
        decode_remote_write_request(true, &zstandard(b""), count),
        Err(DecodeError::DecodePromRemoteRequest(reason)) if reason == "empty"
    ));
    assert!(matches!(
        decode_remote_write_request(true, &[0xff; 5], count),
        Err(DecodeError::Decompress(DecompressError::DecompressSnappyPromRemoteRequest(_)))
    ));
}
