use redis_starter_rust::resp::{ProtocolError, RESP};

#[test]
fn test_as_bytes() {
    assert_eq!(RESP::SimpleString("OK".to_string()).as_bytes(), b"+OK\r\n");
    assert_eq!(
        RESP::BulkStrings("value".to_string()).as_bytes(),
        b"$5\r\nvalue\r\n"
    );
    assert_eq!(RESP::NullBulkStrings.as_bytes(), b"$-1\r\n");
    assert_eq!(
        RESP::Array(vec![
            RESP::SimpleString("OK".to_string()),
            RESP::BulkStrings("value".to_string())
        ])
        .as_bytes(),
        b"*2\r\n+OK\r\n$5\r\nvalue\r\n"
    );
    assert_eq!(
        RESP::Rdb(vec![0x01, 0x02, 0x03]).as_bytes(),
        b"$3\r\n\x01\x02\x03"
    );
}

#[test]
fn test_from_bytes() {
    assert_eq!(
        RESP::from_bytes(b"+OK\r\n").unwrap(),
        RESP::SimpleString("OK".to_string())
    );
    assert_eq!(
        RESP::from_bytes(b"$5\r\nvalue\r\n").unwrap(),
        RESP::BulkStrings("value".to_string())
    );
    assert_eq!(RESP::from_bytes(b"$-1\r\n").unwrap(), RESP::NullBulkStrings);
    assert_eq!(
        RESP::from_bytes(b"*2\r\n+OK\r\n$5\r\nvalue\r\n").unwrap(),
        RESP::Array(vec![
            RESP::SimpleString("OK".to_string()),
            RESP::BulkStrings("value".to_string())
        ])
    );
}

#[test]
fn test_to_string() {
    assert_eq!(RESP::SimpleString("OK".to_string()).to_string(), "+OK\r\n");
    assert_eq!(
        RESP::Array(vec![RESP::BulkStrings("PING".to_string())]).to_string(),
        "*1\r\n$4\r\nPING\r\n"
    );
}

#[test]
fn test_round_trip_simple() {
    let bytes = RESP::SimpleString("hello world".to_string()).as_bytes();
    assert_eq!(
        RESP::from_bytes(&bytes).unwrap(),
        RESP::SimpleString("hello world".to_string())
    );
}

#[test]
fn test_round_trip_bulk_with_newline() {
    let bytes = RESP::BulkStrings("a\nb".to_string()).as_bytes();
    assert_eq!(bytes, b"$3\r\na\nb\r\n");
    assert_eq!(
        RESP::from_bytes(&bytes).unwrap(),
        RESP::BulkStrings("a\nb".to_string())
    );
}

#[test]
fn test_round_trip_empty_bulk() {
    let bytes = RESP::BulkStrings(String::new()).as_bytes();
    assert_eq!(bytes, b"$0\r\n\r\n");
    assert_eq!(
        RESP::from_bytes(&bytes).unwrap(),
        RESP::BulkStrings(String::new())
    );
}

#[test]
fn test_round_trip_nested_array() {
    let msg = RESP::Array(vec![
        RESP::Array(vec![
            RESP::BulkStrings("a".to_string()),
            RESP::NullBulkStrings,
        ]),
        RESP::SimpleString("x".to_string()),
        RESP::Array(vec![]),
    ]);
    let bytes = msg.as_bytes();
    assert_eq!(bytes, b"*3\r\n*2\r\n$1\r\na\r\n$-1\r\n+x\r\n*0\r\n");
    let again = RESP::from_bytes(&bytes).unwrap();
    assert_eq!(
        again,
        RESP::Array(vec![
            RESP::Array(vec![
                RESP::BulkStrings("a".to_string()),
                RESP::NullBulkStrings,
            ]),
            RESP::SimpleString("x".to_string()),
            RESP::Array(vec![]),
        ])
    );
}

#[test]
fn test_decode_truncated() {
    assert_eq!(RESP::from_bytes(b"").unwrap_err(), ProtocolError::Truncated);
}

#[test]
fn test_decode_unknown_type() {
    assert_eq!(
        RESP::from_bytes(b"?ab\r\n").unwrap_err(),
        ProtocolError::UnknownType
    );
}

#[test]
fn test_decode_missing_terminator() {
    assert_eq!(
        RESP::from_bytes(b"+abc").unwrap_err(),
        ProtocolError::MissingTerminator
    );
    assert_eq!(
        RESP::from_bytes(b"+abc\rx").unwrap_err(),
        ProtocolError::MissingTerminator
    );
}

#[test]
fn test_decode_bad_length() {
    assert_eq!(
        RESP::from_bytes(b"$xy\r\nab\r\n").unwrap_err(),
        ProtocolError::BadLength
    );
    assert_eq!(
        RESP::from_bytes(b"*-2\r\n").unwrap_err(),
        ProtocolError::BadLength
    );
}

#[test]
fn test_decode_length_mismatch() {
    assert_eq!(
        RESP::from_bytes(b"$5\r\nab\r\n").unwrap_err(),
        ProtocolError::LengthMismatch
    );
    assert_eq!(
        RESP::from_bytes(b"$2\r\nabc\r\n").unwrap_err(),
        ProtocolError::LengthMismatch
    );
}

#[test]
fn test_decode_non_ascii() {
    assert_eq!(
        RESP::from_bytes(b"+a\xffb\r\n").unwrap_err(),
        ProtocolError::NonAscii
    );
}

#[test]
fn test_decode_array_element_error() {
    assert_eq!(
        RESP::from_bytes(b"*2\r\n+OK\r\n").unwrap_err(),
        ProtocolError::Truncated
    );
}

#[test]
fn test_decode_ignores_trailing_bytes() {
    assert_eq!(
        RESP::from_bytes(b"+OK\r\ngarbage").unwrap(),
        RESP::SimpleString("OK".to_string())
    );
}

#[test]
fn test_builders() {
    assert_eq!(
        RESP::simple_string("OK"),
        RESP::SimpleString("OK".to_string())
    );
    assert_eq!(
        RESP::bulk_strings("value"),
        RESP::BulkStrings("value".to_string())
    );
}
