use rndc::decoder::decode;
use rndc::encoder::{encode, table_towire};
use rndc::utils::{str_eq, u64_to_dec};
use rndc::wire::Value;
use rndc::{parse_command_response, RndcAlg, RndcClient, RndcError, SessionState};

fn frame(body: &[u8]) -> Vec<u8> {
    let mut out = Vec::new();
    out.extend_from_slice(&((4 + body.len()) as u32).to_be_bytes());
    out.extend_from_slice(&1u32.to_be_bytes());
    out.extend_from_slice(body);
    out
}

fn get<'a>(entries: &'a [(String, Value)], key: &str) -> Option<&'a Value> {
    entries.iter().find(|(k, _)| k == key).map(|(_, v)| v)
}

// Encoding `{"_data": {"type": "status"}}` with SHA256 under
// base64("test") and decoding the result yields an 89-byte `_auth.hsha`
// value and `_data.type` equal to the text "status".
#[test]
fn test_scenario_sha256_status() {
    let client = RndcClient::new("127.0.0.1:953", "sha256", "dGVzdA==").unwrap();
    assert_eq!(client.secret_key(), b"test");
    let mut body = vec![(
        "_data".to_string(),
        Value::Table(vec![(
            "type".to_string(),
            Value::Bytes(b"status".to_vec()),
        )]),
    )];
    let msg = encode(&mut body, client.algorithm(), client.secret_key()).unwrap();
    let decoded = decode(&msg).unwrap();
    match get(&decoded, "_auth") {
        Some(Value::Table(auth)) => match get(auth, "hsha") {
            Some(Value::Bytes(sig)) => {
                assert_eq!(sig.len(), 89);
                assert_eq!(sig[0], 163);
            }
            other => panic!("expected hsha bytes, got {:?}", other),
        },
        other => panic!("expected _auth table, got {:?}", other),
    }
    match get(&decoded, "_data") {
        Some(Value::Table(data)) => match get(data, "type") {
            Some(Value::Text(t)) => assert_eq!(t, "status"),
            other => panic!("expected type text, got {:?}", other),
        },
        other => panic!("expected _data table, got {:?}", other),
    }
}

// A handshake response without `_ctrl._nonce` is a decoding error, not a
// default nonce.
#[test]
fn test_handshake_nonce_missing() {
    let client = RndcClient::new("127.0.0.1:953", "sha256", "dGVzdA==").unwrap();
    let body = table_towire(
        &[(
            "_ctrl".to_string(),
            Value::Table(vec![(
                "_ser".to_string(),
                Value::Bytes(b"1".to_vec()),
            )]),
        )],
        true,
    );
    match client.get_nonce(&frame(&body)) {
        Err(RndcError::DecodingError(m)) => assert_eq!(m, "RNDC nonce not received"),
        other => panic!("expected a decoding error, got {:?}", other),
    }
}

#[test]
fn test_handshake_nonce_present() {
    let client = RndcClient::new("127.0.0.1:953", "sha1", "dGVzdA==").unwrap();
    let body = table_towire(
        &[(
            "_ctrl".to_string(),
            Value::Table(vec![(
                "_nonce".to_string(),
                Value::Bytes(b"abc123".to_vec()),
            )]),
        )],
        true,
    );
    assert_eq!(client.get_nonce(&frame(&body)).unwrap(), "abc123");
}

// `_data = {result: "0", text: "ok"}` reports success with the text;
// `_data = {result: "1", err: "failed"}` reports failure with the error.
#[test]
fn test_command_response_results() {
    let ok_body = table_towire(
        &[(
            "_data".to_string(),
            Value::Table(vec![
                ("result".to_string(), Value::Bytes(b"0".to_vec())),
                ("text".to_string(), Value::Bytes(b"ok".to_vec())),
            ]),
        )],
        true,
    );
    let res = parse_command_response(&frame(&ok_body)).unwrap();
    assert!(res.result);
    assert_eq!(res.text.as_deref(), Some("ok"));
    assert!(res.err.is_none());

    let fail_body = table_towire(
        &[(
            "_data".to_string(),
            Value::Table(vec![
                ("result".to_string(), Value::Bytes(b"1".to_vec())),
                ("err".to_string(), Value::Bytes(b"failed".to_vec())),
            ]),
        )],
        true,
    );
    let res = parse_command_response(&frame(&fail_body)).unwrap();
    assert!(!res.result);
    assert!(res.text.is_none());
    assert_eq!(res.err.as_deref(), Some("failed"));
}

#[test]
fn test_command_response_missing_data() {
    let body = table_towire(
        &[("_ctrl".to_string(), Value::Table(vec![]))],
        true,
    );
    match parse_command_response(&frame(&body)) {
        Err(RndcError::DecodingError(m)) => assert_eq!(m, "Failed to parse status response"),
        other => panic!("expected a decoding error, got {:?}", other),
    }
}

#[test]
fn test_alg_from_string_aliases() {
    let cases = [
        ("md5", RndcAlg::MD5),
        ("hmd5", RndcAlg::MD5),
        ("hmac-md5", RndcAlg::MD5),
        ("sha1", RndcAlg::SHA1),
        ("hsha1", RndcAlg::SHA1),
        ("hmac-sha1", RndcAlg::SHA1),
        ("sha224", RndcAlg::SHA224),
        ("hsha224", RndcAlg::SHA224),
        ("hmac-sha224", RndcAlg::SHA224),
        ("sha256", RndcAlg::SHA256),
        ("hsha256", RndcAlg::SHA256),
        ("hmac-sha256", RndcAlg::SHA256),
        ("sha384", RndcAlg::SHA384),
        ("hsha384", RndcAlg::SHA384),
        ("hmac-sha384", RndcAlg::SHA384),
        ("sha512", RndcAlg::SHA512),
        ("hsha512", RndcAlg::SHA512),
        ("hmac-sha512", RndcAlg::SHA512),
    ];
    for (name, alg) in cases {
        assert_eq!(RndcAlg::from_string(name).unwrap(), alg, "alias {}", name);
    }
    match RndcAlg::from_string("SHA256") {
        Err(RndcError::InvalidAlgorithm(m)) => assert_eq!(m, "SHA256"),
        other => panic!("expected an invalid-algorithm error, got {:?}", other),
    }
}

#[test]
fn test_alg_codes() {
    assert_eq!(RndcAlg::MD5.code(), 157);
    assert_eq!(RndcAlg::SHA1.code(), 161);
    assert_eq!(RndcAlg::SHA224.code(), 162);
    assert_eq!(RndcAlg::SHA256.code(), 163);
    assert_eq!(RndcAlg::SHA384.code(), 164);
    assert_eq!(RndcAlg::SHA512.code(), 165);
}

#[test]
fn test_client_new_errors() {
    assert!(matches!(
        RndcClient::new("h:953", "sha256", "%%%"),
        Err(RndcError::Base64DecodeError(_))
    ));
    assert!(matches!(
        RndcClient::new("h:953", "wat", "dGVzdA=="),
        Err(RndcError::InvalidAlgorithm(_))
    ));
    let client = RndcClient::new("h:953", "hmac-sha384", "dGVzdA==").unwrap();
    assert_eq!(client.server_url(), "h:953");
    assert_eq!(*client.algorithm(), RndcAlg::SHA384);
}

// A built handshake message carries `_ctrl` with decimal serial,
// timestamp and a sixty-second expiry, and `_data.type` equal to "null".
#[test]
fn test_handshake_message_contents() {
    let client = RndcClient::new("h:953", "sha256", "dGVzdA==").unwrap();
    let msg = client.handshake_message(42).unwrap();
    let decoded = decode(&msg).unwrap();
    assert!(get(&decoded, "_auth").is_some());
    match get(&decoded, "_ctrl") {
        Some(Value::Table(ctrl)) => {
            match get(ctrl, "_ser") {
                Some(Value::Text(s)) => assert_eq!(s, "42"),
                other => panic!("expected _ser text, got {:?}", other),
            }
            let tim: u64 = match get(ctrl, "_tim") {
                Some(Value::Text(s)) => s.parse().unwrap(),
                other => panic!("expected _tim text, got {:?}", other),
            };
            let exp: u64 = match get(ctrl, "_exp") {
                Some(Value::Text(s)) => s.parse().unwrap(),
                other => panic!("expected _exp text, got {:?}", other),
            };
            assert_eq!(exp, tim + 60);
            assert!(get(ctrl, "_nonce").is_none());
        }
        other => panic!("expected _ctrl table, got {:?}", other),
    }
    match get(&decoded, "_data") {
        Some(Value::Table(data)) => match get(data, "type") {
            Some(Value::Text(t)) => assert_eq!(t, "null"),
            other => panic!("expected type text, got {:?}", other),
        },
        other => panic!("expected _data table, got {:?}", other),
    }
}

#[test]
fn test_command_message_echoes_nonce() {
    let client = RndcClient::new("h:953", "md5", "dGVzdA==").unwrap();
    let msg = client.command_message("reload", "n0nce", 7).unwrap();
    let decoded = decode(&msg).unwrap();
    match get(&decoded, "_ctrl") {
        Some(Value::Table(ctrl)) => match get(ctrl, "_nonce") {
            Some(Value::Text(n)) => assert_eq!(n, "n0nce"),
            other => panic!("expected _nonce text, got {:?}", other),
        },
        other => panic!("expected _ctrl table, got {:?}", other),
    }
    match get(&decoded, "_auth") {
        Some(Value::Table(auth)) => match get(auth, "hmd5") {
            Some(Value::Text(sig)) => assert!(!sig.ends_with('=')),
            Some(Value::Bytes(sig)) => assert!(!sig.ends_with(b"=")),
            other => panic!("expected hmd5 value, got {:?}", other),
        },
        other => panic!("expected _auth table, got {:?}", other),
    }
}

// The state machine walks Idle → Handshaking → Authenticated →
// AwaitingResponse → Closed, carrying the nonce from the handshake
// response into the command request.
#[test]
fn test_session_state_walk() {
    let client = RndcClient::new("h:953", "sha512", "dGVzdA==").unwrap();
    let (state, hs_msg) = client.start_handshake(SessionState::Idle, 5).unwrap();
    assert!(matches!(state, SessionState::Handshaking));
    assert!(decode(&hs_msg).is_ok());

    let hs_response = frame(&table_towire(
        &[(
            "_ctrl".to_string(),
            Value::Table(vec![(
                "_nonce".to_string(),
                Value::Bytes(b"tok3n".to_vec()),
            )]),
        )],
        true,
    ));
    let state = client.finish_handshake(state, &hs_response).unwrap();
    match &state {
        SessionState::Authenticated(n) => assert_eq!(n, "tok3n"),
        other => panic!("expected an authenticated session, got {:?}", other),
    }

    let (state, cmd_msg) = client.start_command(state, "status", 6).unwrap();
    assert!(matches!(state, SessionState::AwaitingResponse));
    let decoded = decode(&cmd_msg).unwrap();
    match get(&decoded, "_ctrl") {
        Some(Value::Table(ctrl)) => match get(ctrl, "_nonce") {
            Some(Value::Text(n)) => assert_eq!(n, "tok3n"),
            other => panic!("expected the echoed nonce, got {:?}", other),
        },
        other => panic!("expected _ctrl table, got {:?}", other),
    }

    let cmd_response = frame(&table_towire(
        &[(
            "_data".to_string(),
            Value::Table(vec![
                ("result".to_string(), Value::Bytes(b"0".to_vec())),
                ("text".to_string(), Value::Bytes(b"all good".to_vec())),
            ]),
        )],
        true,
    ));
    let (state, res) = client.finish_command(state, &cmd_response).unwrap();
    assert!(matches!(state, SessionState::Closed));
    assert!(res.result);
    assert_eq!(res.text.as_deref(), Some("all good"));
}

fn from_hex(s: &str) -> Vec<u8> {
    let b = s.as_bytes();
    let mut out = Vec::new();
    let digit = |c: u8| -> u8 {
        match c {
            b'0'..=b'9' => c - b'0',
            b'a'..=b'f' => c - b'a' + 10,
            _ => panic!("not a hex digit"),
        }
    };
    let mut i = 0;
    while i < b.len() {
        out.push(digit(b[i]) * 16 + digit(b[i + 1]));
        i += 2;
    }
    out
}

// With the timestamp fixed, the whole message is pinned: serial,
// timestamp and expiry in decimal, the body after the `_auth` table, and
// the HMAC-SHA256 signature slot, byte for byte.
#[test]
fn test_build_message_at_exact_bytes() {
    let msg = rndc::build_message_at("status", &RndcAlg::SHA256, b"test", None, 1, 1000).unwrap();
    let expected = from_hex(
        "000000bf00000001055f61757468020000006304687368610100000059a346746d3932337842376b3452767244496d7a4f7566477458347633737931474848356f5a6234756764576b3d0000000000000000000000000000000000000000000000000000000000000000000000000000000000000000055f6374726c0200000027045f736572010000000131045f74696d010000000431303030045f657870010000000431303630055f64617461020000001004747970650100000006737461747573",
    );
    assert_eq!(msg, expected);
}

#[test]
fn test_u64_to_dec() {
    assert_eq!(u64_to_dec(0), b"0".to_vec());
    assert_eq!(u64_to_dec(7), b"7".to_vec());
    assert_eq!(u64_to_dec(1234567890), b"1234567890".to_vec());
    assert_eq!(u64_to_dec(u64::MAX), b"18446744073709551615".to_vec());
}

#[test]
fn test_str_eq() {
    assert!(str_eq("abc", "abc"));
    assert!(!str_eq("abc", "abd"));
    assert!(!str_eq("abc", "ab"));
    assert!(str_eq("", ""));
}

#[test]
fn test_error_describe() {
    let e = RndcError::InvalidAlgorithm("wat".to_string());
    assert_eq!(e.describe(), "Invalid algorithm: wat");
    let e = RndcError::NetworkError("down".to_string());
    assert_eq!(e.describe(), "Network error: down");
}
