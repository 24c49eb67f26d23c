use solana_aggregator::codec::{decode_record, encode_record};
use solana_aggregator::record::TransactionData;

fn sample() -> TransactionData {
    TransactionData {
        signature: "abc".to_string(),
        sender: "s".to_string(),
        receiver: "r".to_string(),
        amount: 42,
        timestamp: 7,
    }
}

/// The encoded line has exactly the documented layout.
#[test]
fn encode_has_fixed_layout() {
    let line = encode_record(&sample());
    assert_eq!(
        line,
        "{\"signature\":\"abc\",\"sender\":\"s\",\"receiver\":\"r\",\"amount\":42,\"timestamp\":7}"
    );
}

/// Serializing then deserializing a record yields a value equal in every
/// field to the original.
#[test]
fn round_trip_plain_record() {
    let t = sample();
    let line = encode_record(&t);
    let back = decode_record(&line).expect("the encoded line must decode");
    assert_eq!(back, t);
}

/// Quotes and backslashes in string fields survive the round trip.
#[test]
fn round_trip_with_escapes() {
    let t = TransactionData {
        signature: "a\"b\\c".to_string(),
        sender: "\\".to_string(),
        receiver: "\"".to_string(),
        amount: u64::MAX,
        timestamp: 0,
    };
    let line = encode_record(&t);
    let back = decode_record(&line).expect("the escaped line must decode");
    assert_eq!(back, t);
}

/// Lines that do not have the record layout are rejected, not misread.
#[test]
fn corrupt_lines_are_rejected() {
    assert!(decode_record("").is_none());
    assert!(decode_record("garbage").is_none());
    assert!(decode_record("{\"signature\":\"abc\"}").is_none());
    // unterminated string field
    assert!(decode_record("{\"signature\":\"abc").is_none());
    // missing digits
    assert!(
        decode_record("{\"signature\":\"a\",\"sender\":\"s\",\"receiver\":\"r\",\"amount\":,\"timestamp\":7}")
            .is_none()
    );
    // trailing characters after the closing brace
    assert!(
        decode_record("{\"signature\":\"a\",\"sender\":\"s\",\"receiver\":\"r\",\"amount\":1,\"timestamp\":7}x")
            .is_none()
    );
    // a number too large for the record's fields
    assert!(
        decode_record("{\"signature\":\"a\",\"sender\":\"s\",\"receiver\":\"r\",\"amount\":18446744073709551616,\"timestamp\":7}")
            .is_none()
    );
}

/// The largest representable amount still decodes exactly.
#[test]
fn u64_bound_is_exact() {
    let line = "{\"signature\":\"a\",\"sender\":\"s\",\"receiver\":\"r\",\"amount\":18446744073709551615,\"timestamp\":0}";
    let t = decode_record(line).expect("u64::MAX must decode");
    assert_eq!(t.amount, u64::MAX);
}
