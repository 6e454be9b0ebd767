use rndc::constants::RndcAlg;
use rndc::encoder::{binary_towire, encode, key_towire, list_towire, make_signature, raw_towire, table_towire};
use rndc::wire::Value;

#[test]
fn test_raw_towire_empty() {
    let result = raw_towire(2, &[]);
    assert_eq!(result, vec![2, 0, 0, 0, 0]);
}

#[test]
fn test_raw_towire_string() {
    let result = raw_towire(1, b"abc");
    assert_eq!(result, vec![1, 0, 0, 0, 3, 97, 98, 99]);
}

#[test]
fn test_binary_towire_empty() {
    let result = binary_towire("".as_bytes());
    assert_eq!(result, vec![1, 0, 0, 0, 0]);
}

#[test]
fn test_binary_towire_string() {
    let result = binary_towire("abc".as_bytes());
    assert_eq!(result, vec![1, 0, 0, 0, 3, 97, 98, 99]);
}

#[test]
fn test_list_towire_empty() {
    let result = list_towire(&[]);
    assert_eq!(result, vec![3, 0, 0, 0, 0]);
}

#[test]
fn test_list_towire_strings() {
    let values = vec![
        Value::Bytes("abc".as_bytes().to_vec()),
        Value::Bytes("ABC".as_bytes().to_vec()),
    ];
    let result = list_towire(&values);
    assert_eq!(
        result,
        vec![
            3, 0, 0, 0, 16, 1, 0, 0, 0, 3, 97, 98, 99, 1, 0, 0, 0, 3, 65, 66, 67,
        ]
    );
}

#[test]
fn test_table_towire_empty() {
    let result = table_towire(&[], false);
    assert_eq!(result, vec![2, 0, 0, 0, 0]);
}

#[test]
fn test_table_towire_strings() {
    let entries = vec![
        ("K1".to_string(), Value::Bytes("abc".as_bytes().to_vec())),
        ("K2".to_string(), Value::Bytes("ABC".as_bytes().to_vec())),
    ];
    let result = table_towire(&entries, false);
    assert_eq!(
        result,
        vec![
            2, 0, 0, 0, 22, 2, 75, 49, // "K1"
            1, 0, 0, 0, 3, 97, 98, 99, 2, 75, 50, // "K2"
            1, 0, 0, 0, 3, 65, 66, 67,
        ]
    );
}

#[test]
fn test_key_towire() {
    assert_eq!(key_towire("type"), vec![4, 116, 121, 112, 101]);
}

fn status_body() -> Vec<(String, Value)> {
    vec![(
        "_data".to_string(),
        Value::Table(vec![(
            "type".to_string(),
            Value::Bytes(b"status".to_vec()),
        )]),
    )]
}

// HMAC-MD5 of the canonical body encoding under key "test", base64 text
// with the trailing padding stripped.
#[test]
fn test_md5_signature_value() {
    let body = status_body();
    let sig = make_signature(&RndcAlg::MD5, b"test", &body).unwrap();
    match sig {
        Value::Table(entries) => {
            assert_eq!(entries.len(), 1);
            assert_eq!(entries[0].0, "hmd5");
            match &entries[0].1 {
                Value::Bytes(b) => {
                    assert_eq!(b.as_slice(), b"DS2TSF6ATHffkJwx3AufKw".as_slice());
                    assert!(!b.ends_with(b"="));
                }
                other => panic!("expected bytes, got {:?}", other),
            }
        }
        other => panic!("expected table, got {:?}", other),
    }
}

// HMAC-SHA256 under key "test": the 89-byte slot with the algorithm code
// first, the padded base64 text next, zero fill after.
#[test]
fn test_sha256_signature_slot() {
    let body = status_body();
    let sig = make_signature(&RndcAlg::SHA256, b"test", &body).unwrap();
    let expected_b64 = b"UqFisS7wEgL8n2JV+g5F9j7rQpOOhsp5F1UctP1nPZ8=";
    match sig {
        Value::Table(entries) => {
            assert_eq!(entries[0].0, "hsha");
            match &entries[0].1 {
                Value::Bytes(b) => {
                    assert_eq!(b.len(), 89);
                    assert_eq!(b[0], 163);
                    assert_eq!(&b[1..45], expected_b64.as_slice());
                    assert!(b[45..].iter().all(|&x| x == 0));
                }
                other => panic!("expected bytes, got {:?}", other),
            }
        }
        other => panic!("expected table, got {:?}", other),
    }
}

// The SHA family keeps the base64 text exactly as rendered, padding
// included: digests whose length is not a multiple of three end in '='.
// (SHA384's 48-byte digest encodes without padding to begin with.)
#[test]
fn test_sha_signature_keeps_padding() {
    let body = status_body();
    let cases = [
        (RndcAlg::SHA1, 20usize),
        (RndcAlg::SHA224, 28),
        (RndcAlg::SHA256, 32),
        (RndcAlg::SHA384, 48),
        (RndcAlg::SHA512, 64),
    ];
    for (alg, digest_len) in cases {
        let b64_len = 4 * ((digest_len + 2) / 3);
        let sig = make_signature(&alg, b"test", &body).unwrap();
        match sig {
            Value::Table(entries) => match &entries[0].1 {
                Value::Bytes(b) => {
                    assert_eq!(b.len(), 89);
                    let text = &b[1..1 + b64_len];
                    assert!(b[1 + b64_len..].iter().all(|&x| x == 0));
                    if digest_len % 3 != 0 {
                        assert_eq!(*text.last().unwrap(), b'=');
                    } else {
                        assert_ne!(*text.last().unwrap(), 0);
                    }
                }
                other => panic!("expected bytes, got {:?}", other),
            },
            other => panic!("expected table, got {:?}", other),
        }
    }
}

#[test]
fn test_encode_message_layout() {
    let mut body = status_body();
    let msg = encode(&mut body, &RndcAlg::SHA256, b"test").unwrap();
    // Envelope: length of everything after the length field, version 1.
    assert_eq!(msg.len(), 145);
    assert_eq!(&msg[0..4], &(141u32).to_be_bytes());
    assert_eq!(&msg[4..8], &(1u32).to_be_bytes());
    // The `_auth` table comes first, the body after it.
    assert_eq!(msg[8], 5);
    assert_eq!(&msg[9..14], b"_auth");
    let databuf = table_towire(&body, true);
    assert_eq!(&msg[msg.len() - databuf.len()..], databuf.as_slice());
}

// Signing a body that already carries an `_auth` entry strips it first:
// the produced message equals the one for the body without it.
#[test]
fn test_encode_strips_stale_auth() {
    let mut with_stale: Vec<(String, Value)> = vec![
        ("_auth".to_string(), Value::Bytes(b"junk".to_vec())),
        (
            "_data".to_string(),
            Value::Table(vec![(
                "type".to_string(),
                Value::Bytes(b"status".to_vec()),
            )]),
        ),
    ];
    let mut without = status_body();
    let a = encode(&mut with_stale, &RndcAlg::SHA512, b"sekrit").unwrap();
    let b = encode(&mut without, &RndcAlg::SHA512, b"sekrit").unwrap();
    assert_eq!(a, b);
    assert!(with_stale.iter().all(|(k, _)| k != "_auth"));
}
