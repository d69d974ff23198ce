use rox::codec::{BincodeCodec, CodecError};

/// Encodes with bincode and keeps to the limit, as the codec's callers do.
fn encode_with_limit<T: serde::Serialize>(value: &T, max_bytes: u64) -> Result<Vec<u8>, CodecError> {
    BincodeCodec::check_limit(bincode::serialize(value).unwrap(), max_bytes)
}

#[test]
fn test_size_limit() {
    let large = vec![0u8; 1024];
    assert!(encode_with_limit(&large, 100).is_err());
    assert!(encode_with_limit(&large, 2048).is_ok());
}

#[test]
fn limit_is_inclusive_and_reports_sizes() {
    let data = vec![7u8; 10];
    assert_eq!(BincodeCodec::check_limit(data.clone(), 10), Ok(data.clone()));
    let err = BincodeCodec::check_limit(data, 9).unwrap_err();
    assert_eq!(err, CodecError::TooLarge { size: 10, limit: 9 });
    assert_eq!(err.message(), "encoded size 10 exceeds limit 9");
}
