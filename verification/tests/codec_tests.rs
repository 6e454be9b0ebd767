use rndc::decoder::{decode, key_fromwire, value_fromwire};
use rndc::encoder::table_towire;
use rndc::wire::Value;
use rndc::RndcError;

fn frame(body: &[u8]) -> Vec<u8> {
    let mut out = Vec::new();
    out.extend_from_slice(&((4 + body.len()) as u32).to_be_bytes());
    out.extend_from_slice(&1u32.to_be_bytes());
    out.extend_from_slice(body);
    out
}

fn tree_eq(a: &Value, b: &Value) -> bool {
    match (a, b) {
        (Value::Text(x), Value::Text(y)) => x == y,
        (Value::Bytes(x), Value::Bytes(y)) => x == y,
        (Value::Table(x), Value::Table(y)) => {
            x.len() == y.len()
                && x.iter().zip(y.iter()).all(|(p, q)| p.0 == q.0 && tree_eq(&p.1, &q.1))
        }
        (Value::List(x), Value::List(y)) => {
            x.len() == y.len() && x.iter().zip(y.iter()).all(|(p, q)| tree_eq(p, q))
        }
        _ => false,
    }
}

// Encoding a tree, framing it and decoding it reproduces the tree, with
// every UTF-8 `Bytes` payload surfaced as `Text`.
#[test]
fn test_roundtrip_nested_tree() {
    let tree: Vec<(String, Value)> = vec![
        ("a".to_string(), Value::Bytes(b"hello".to_vec())),
        ("b".to_string(), Value::Bytes(vec![0xff, 0xfe, 0x01])),
        (
            "c".to_string(),
            Value::Table(vec![("x".to_string(), Value::Bytes(b"1".to_vec()))]),
        ),
        (
            "d".to_string(),
            Value::List(vec![
                Value::Bytes(b"q".to_vec()),
                Value::Bytes(vec![0x80]),
            ]),
        ),
        ("e".to_string(), Value::Text("already text".to_string())),
    ];
    let body = table_towire(&tree, true);
    let decoded = decode(&frame(&body)).unwrap();
    let expected: Vec<(String, Value)> = vec![
        ("a".to_string(), Value::Text("hello".to_string())),
        ("b".to_string(), Value::Bytes(vec![0xff, 0xfe, 0x01])),
        (
            "c".to_string(),
            Value::Table(vec![("x".to_string(), Value::Text("1".to_string()))]),
        ),
        (
            "d".to_string(),
            Value::List(vec![
                Value::Text("q".to_string()),
                Value::Bytes(vec![0x80]),
            ]),
        ),
        ("e".to_string(), Value::Text("already text".to_string())),
    ];
    assert_eq!(decoded.len(), expected.len());
    for (got, want) in decoded.iter().zip(expected.iter()) {
        assert_eq!(got.0, want.0);
        assert!(tree_eq(&got.1, &want.1), "mismatch at key {}", want.0);
    }
}

#[test]
fn test_roundtrip_empty_table() {
    let body = table_towire(&[], true);
    assert!(body.is_empty());
    let decoded = decode(&frame(&body)).unwrap();
    assert!(decoded.is_empty());
}

// A header version other than 1 is rejected as such.
#[test]
fn test_decode_version_mismatch() {
    let body = table_towire(&[("k".to_string(), Value::Bytes(b"v".to_vec()))], true);
    let mut buf = frame(&body);
    buf[7] = 2;
    match decode(&buf) {
        Err(RndcError::DecodingError(m)) => {
            assert_eq!(m, "Unknown RNDC protocol version");
        }
        other => panic!("expected a version error, got {:?}", other),
    }
}

// A length field that does not match the actual remaining byte count is
// rejected as such.
#[test]
fn test_decode_length_mismatch() {
    let body = table_towire(&[("k".to_string(), Value::Bytes(b"v".to_vec()))], true);
    let mut buf = frame(&body);
    buf[3] = buf[3].wrapping_add(1);
    match decode(&buf) {
        Err(RndcError::DecodingError(m)) => {
            assert_eq!(m, "RNDC buffer length mismatch");
        }
        other => panic!("expected a length error, got {:?}", other),
    }
}

#[test]
fn test_decode_short_buffer() {
    assert!(matches!(decode(&[0, 0]), Err(RndcError::DecodingError(_))));
    // Length field consistent, but no version field to read.
    assert!(matches!(decode(&[0, 0, 0, 0]), Err(RndcError::DecodingError(_))));
}

#[test]
fn test_decode_unknown_tag() {
    // key "k" followed by a record with tag 9.
    let body = [1, b'k', 9, 0, 0, 0, 0];
    assert!(matches!(decode(&frame(&body)), Err(RndcError::DecodingError(_))));
}

#[test]
fn test_decode_truncated_payload() {
    // Declared payload length runs past the scope.
    let body = [1, b'k', 1, 0, 0, 0, 5, b'x'];
    assert!(matches!(decode(&frame(&body)), Err(RndcError::DecodingError(_))));
}

// A later entry with the same key replaces the value, keeping the first
// position.
#[test]
fn test_decode_duplicate_key() {
    let mut body = Vec::new();
    body.extend_from_slice(&[1, b'k', 1, 0, 0, 0, 1, b'a']);
    body.extend_from_slice(&[1, b'j', 1, 0, 0, 0, 1, b'x']);
    body.extend_from_slice(&[1, b'k', 1, 0, 0, 0, 1, b'b']);
    let decoded = decode(&frame(&body)).unwrap();
    assert_eq!(decoded.len(), 2);
    assert_eq!(decoded[0].0, "k");
    assert!(tree_eq(&decoded[0].1, &Value::Text("b".to_string())));
    assert_eq!(decoded[1].0, "j");
}

#[test]
fn test_key_fromwire() {
    let buf = [4, b't', b'y', b'p', b'e', 1, 2, 3];
    let (key, pos) = key_fromwire(&buf, 0, buf.len()).unwrap();
    assert_eq!(key, "type");
    assert_eq!(pos, 5);
}

#[test]
fn test_value_fromwire_text() {
    let buf = [0u8, 0, 0, 0, 2, b'h', b'i'];
    let (val, pos) = value_fromwire(&buf, 0, buf.len()).unwrap();
    assert_eq!(pos, 7);
    assert!(tree_eq(&val, &Value::Text("hi".to_string())));
}
