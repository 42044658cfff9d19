use b62::DecodeError;
use b62::decode;
use b62::encode;
use b62::from_base62;
use b62::to_base62;

#[test]
fn encode_zero_is_zero_symbol() {
    assert_eq!(encode(0), "0");
}

#[test]
fn decode_zero_symbol_is_zero() {
    assert_eq!(decode("0"), Ok(0));
}

#[test]
fn alphabet_ordering() {
    assert_eq!(encode(1), "1");
    assert_eq!(encode(9), "9");
    assert_eq!(encode(10), "A");
    assert_eq!(encode(35), "Z");
    assert_eq!(encode(36), "a");
    assert_eq!(encode(61), "z");
    assert_eq!(encode(62), "10");
}

#[test]
fn encode_positional_values() {
    assert_eq!(encode(63), "11");
    assert_eq!(encode(62 * 62), "100");
    assert_eq!(encode(62 * 62 + 10), "10A");
    assert_eq!(encode(12345), "3D7");
}

#[test]
fn decode_positional_values() {
    assert_eq!(decode("10"), Ok(62));
    assert_eq!(decode("100"), Ok(62 * 62));
    assert_eq!(decode("3D7"), Ok(12345));
    assert_eq!(decode("z"), Ok(61));
    assert_eq!(decode("Z"), Ok(35));
    assert_eq!(decode("A"), Ok(10));
}

#[test]
fn round_trip_various() {
    let samples: [u64; 12] = [
        0,
        1,
        9,
        61,
        62,
        63,
        4095,
        916132831,
        u64::from(u32::MAX),
        u64::MAX / 62,
        u64::MAX - 1,
        u64::MAX,
    ];
    for &n in samples.iter() {
        assert_eq!(decode(&encode(n)), Ok(n));
    }
}

#[test]
fn decode_empty_fails() {
    assert_eq!(decode(""), Err(DecodeError::EmptyInput));
}

#[test]
fn decode_invalid_character_reports_position() {
    assert_eq!(
        decode("1!2"),
        Err(DecodeError::InvalidCharacter { ch: '!', pos: 1 })
    );
}

#[test]
fn decode_invalid_character_first_of_several() {
    assert_eq!(
        decode("!#"),
        Err(DecodeError::InvalidCharacter { ch: '!', pos: 0 })
    );
}

#[test]
fn decode_invalid_character_non_ascii() {
    assert_eq!(
        decode("9\u{e9}9"),
        Err(DecodeError::InvalidCharacter { ch: '\u{e9}', pos: 1 })
    );
}

#[test]
fn decode_thirteen_symbols_overflows() {
    assert_eq!(decode("zzzzzzzzzzzzz"), Err(DecodeError::NumericOverflow));
    assert_eq!(decode("1000000000000"), Err(DecodeError::NumericOverflow));
}

#[test]
fn decode_twelve_symbols_overflow() {
    // 62^11 is already above u64::MAX.
    assert_eq!(decode("100000000000"), Err(DecodeError::NumericOverflow));
}

#[test]
fn decode_invalid_before_overflow() {
    // The bad symbol comes first, so it is reported, not the overflow.
    assert_eq!(
        decode("!zzzzzzzzzzzzz"),
        Err(DecodeError::InvalidCharacter { ch: '!', pos: 0 })
    );
}

#[test]
fn to_base62_matches_encode() {
    assert_eq!(to_base62(0), "0");
    assert_eq!(to_base62(61), "z");
    assert_eq!(to_base62(12345), "3D7");
}

#[test]
fn from_base62_success_and_failure() {
    assert_eq!(from_base62("10"), Some(62));
    assert_eq!(from_base62("0"), Some(0));
    assert_eq!(from_base62(""), None);
    assert_eq!(from_base62("1!2"), None);
    assert_eq!(from_base62("zzzzzzzzzzzzz"), None);
}
