use b62::BatchError;
use b62::DecodeError;
use b62::MAX_BATCH_SIZE;
use b62::decode_batch;
use b62::encode_batch;

#[test]
fn encode_batch_empty_is_empty() {
    assert_eq!(encode_batch(vec![]), Ok(vec![]));
}

#[test]
fn decode_batch_empty_is_empty() {
    assert_eq!(decode_batch(vec![]), Ok(vec![]));
}

#[test]
fn encode_batch_preserves_order() {
    let out = encode_batch(vec![5, 0, 61]).unwrap();
    assert_eq!(out, vec!["5".to_string(), "0".to_string(), "z".to_string()]);
}

#[test]
fn encode_batch_larger() {
    let nums: Vec<u64> = (0..500).collect();
    let out = encode_batch(nums.clone()).unwrap();
    assert_eq!(out.len(), 500);
    assert_eq!(out[0], "0");
    assert_eq!(out[61], "z");
    assert_eq!(out[62], "10");
    assert_eq!(out[499], "83");
}

#[test]
fn decode_batch_preserves_order() {
    let strs = vec!["5".to_string(), "0".to_string(), "z".to_string(), "10".to_string()];
    assert_eq!(decode_batch(strs), Ok(vec![5, 0, 61, 62]));
}

#[test]
fn batch_round_trip() {
    let nums: Vec<u64> = vec![0, 1, 61, 62, 3843, 3844, u64::MAX];
    let encoded = encode_batch(nums.clone()).unwrap();
    assert_eq!(decode_batch(encoded), Ok(nums));
}

#[test]
fn encode_batch_too_large_reports_sizes() {
    let nums = vec![7u64; MAX_BATCH_SIZE + 1];
    assert_eq!(
        encode_batch(nums),
        Err(BatchError::BatchTooLarge { actual: MAX_BATCH_SIZE + 1, limit: MAX_BATCH_SIZE })
    );
}

#[test]
fn decode_batch_too_large_reports_sizes() {
    let strs = vec!["0".to_string(); MAX_BATCH_SIZE + 1];
    assert_eq!(
        decode_batch(strs),
        Err(BatchError::BatchTooLarge { actual: MAX_BATCH_SIZE + 1, limit: MAX_BATCH_SIZE })
    );
}

#[test]
fn encode_batch_at_limit_succeeds() {
    let nums = vec![0u64; MAX_BATCH_SIZE];
    let out = encode_batch(nums).unwrap();
    assert_eq!(out.len(), MAX_BATCH_SIZE);
    assert_eq!(out[MAX_BATCH_SIZE - 1], "0");
}

#[test]
fn decode_batch_earliest_error_wins() {
    let strs = vec![
        "1".to_string(),
        "!!".to_string(),
        "2".to_string(),
        "##".to_string(),
    ];
    assert_eq!(
        decode_batch(strs),
        Err(BatchError::Element {
            index: 1,
            error: DecodeError::InvalidCharacter { ch: '!', pos: 0 },
        })
    );
}

#[test]
fn decode_batch_all_or_nothing() {
    // One bad element poisons the whole batch: no partial values come back.
    let strs = vec!["1".to_string(), "2".to_string(), "".to_string()];
    let r = decode_batch(strs);
    assert!(r.is_err());
    assert_eq!(
        r,
        Err(BatchError::Element { index: 2, error: DecodeError::EmptyInput })
    );
}

#[test]
fn decode_batch_reports_overflow_element() {
    let strs = vec!["z".to_string(), "zzzzzzzzzzzzz".to_string()];
    assert_eq!(
        decode_batch(strs),
        Err(BatchError::Element { index: 1, error: DecodeError::NumericOverflow })
    );
}
