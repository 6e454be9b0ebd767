//! Client-side implementation of the RNDC remote-control protocol: a binary
//! type-length-value wire codec, an HMAC-based message signer, and the
//! message building and interpretation for the nonce handshake and command
//! exchange.  Network transport is left to the caller.

pub mod constants;
pub mod crypto;
pub mod decoder;
pub mod encoder;
pub mod error;
pub mod utils;
pub mod wire;

use vstd::prelude::*;
use vstd::string::{StrSliceExecFns, StringExecFns, StringSliceAdditionalSpecFns};
use vstd::utf8::{encode_utf8, is_ascii_chars, is_ascii_chars_encode_utf8};

pub use crate::constants::RndcAlg;
pub use crate::error::RndcError;
pub use crate::wire::Value;

use crate::constants::alg_of_name;
use crate::crypto::{base64_decode, base64_decode_of};
use crate::decoder::{decode, spec_decode};
use crate::encoder::{
    enc_entries, enc_value, encode, lemma_wf_entry_list_index, message_bytes, sig_table,
    wf_entry_list, wf_value,
};
use crate::utils::{dec_digits, get_timestamp, lemma_dec_digits_len_u64, str_eq, u64_to_dec};
use crate::wire::{
    keys_unique, lemma_table_remove_absent, lemma_view_entries_index, table_get, table_lookup,
    view_entries, view_value, WireVal,
};

verus! {

/// The UTF-8 bytes of an optional text argument.
pub open spec fn nonce_bytes_of(nonce: Option<&str>) -> Option<Seq<u8>> {
    match nonce {
        Some(n) => Some(n.spec_bytes()),
        None => None,
    }
}

/// The logical body of one control message: `_ctrl` with the serial,
/// the timestamp and the sixty-second expiry rendered in decimal (plus
/// the echoed nonce on a command), and `_data` with the command name.
pub open spec fn message_body_model(
    cmd: Seq<u8>,
    nonce: Option<Seq<u8>>,
    ser: u32,
    now: u32,
) -> Seq<(Seq<char>, WireVal)> {
    let ctrl = match nonce {
        Some(nb) => seq![
            ("_ser"@, WireVal::Bytes(dec_digits(ser as nat))),
            ("_tim"@, WireVal::Bytes(dec_digits(now as nat))),
            ("_exp"@, WireVal::Bytes(dec_digits((now + 60) as nat))),
            ("_nonce"@, WireVal::Bytes(nb)),
        ],
        None => seq![
            ("_ser"@, WireVal::Bytes(dec_digits(ser as nat))),
            ("_tim"@, WireVal::Bytes(dec_digits(now as nat))),
            ("_exp"@, WireVal::Bytes(dec_digits((now + 60) as nat))),
        ],
    };
    seq![
        ("_ctrl"@, WireVal::Table(ctrl)),
        ("_data"@, WireVal::Table(seq![("type"@, WireVal::Bytes(cmd))])),
    ]
}

proof fn lemma_enc_entries_len_unfold(es: Seq<(Seq<char>, WireVal)>)
    ensures
        es.len() > 0 ==> enc_entries(es).len() == 1 + encode_utf8(es[0].0).len() + enc_value(
            es[0].1,
        ).len() + enc_entries(es.subrange(1, es.len() as int)).len(),
        es.len() == 0 ==> enc_entries(es).len() == 0,
{
}

/// The ASCII facts about the fixed field names of the protocol.
proof fn lemma_field_name_lens()
    ensures
        encode_utf8("_ser"@).len() == 4,
        encode_utf8("_tim"@).len() == 4,
        encode_utf8("_exp"@).len() == 4,
        encode_utf8("_nonce"@).len() == 6,
        encode_utf8("_ctrl"@).len() == 5,
        encode_utf8("_data"@).len() == 5,
        encode_utf8("type"@).len() == 4,
        "_ser"@ != "_tim"@ && "_ser"@ != "_exp"@ && "_ser"@ != "_nonce"@,
        "_tim"@ != "_exp"@ && "_tim"@ != "_nonce"@,
        "_exp"@ != "_nonce"@,
        "_ctrl"@ != "_data"@,
        "_ctrl"@ != "_auth"@ && "_data"@ != "_auth"@,
{
    reveal_strlit("_ser");
    reveal_strlit("_tim");
    reveal_strlit("_exp");
    reveal_strlit("_nonce");
    reveal_strlit("_ctrl");
    reveal_strlit("_data");
    reveal_strlit("_auth");
    reveal_strlit("type");
    assert("_ser"@[1] == 's' && "_tim"@[1] == 't' && "_exp"@[1] == 'e');
    assert("_ser"@.len() == 4 && "_nonce"@.len() == 6);
    assert("_ctrl"@[1] == 'c' && "_data"@[1] == 'd' && "_auth"@[1] == 'a');
    assert(is_ascii_chars("_ser"@));
    is_ascii_chars_encode_utf8("_ser"@);
    assert(is_ascii_chars("_tim"@));
    is_ascii_chars_encode_utf8("_tim"@);
    assert(is_ascii_chars("_exp"@));
    is_ascii_chars_encode_utf8("_exp"@);
    assert(is_ascii_chars("_nonce"@));
    is_ascii_chars_encode_utf8("_nonce"@);
    assert(is_ascii_chars("_ctrl"@));
    is_ascii_chars_encode_utf8("_ctrl"@);
    assert(is_ascii_chars("_data"@));
    is_ascii_chars_encode_utf8("_data"@);
    assert(is_ascii_chars("type"@));
    is_ascii_chars_encode_utf8("type"@);
}

/// Builds, signs and frames one control message for a caller-supplied
/// timestamp.  The byte-length bounds on the command and the nonce keep
/// every payload within the wire format's four-byte length fields.
pub fn build_message_at(
    command: &str,
    algorithm: &RndcAlg,
    secret: &[u8],
    nonce: Option<&str>,
    ser: u32,
    now: u32,
) -> (r: Result<Vec<u8>, RndcError>)
    requires
        command.spec_bytes().len() <= 0xffffff00,
        nonce matches Some(n) ==> n.spec_bytes().len() <= 0xffffff00,
    ensures
        ({
            let nb = match nonce {
                Some(n) => Some(n.spec_bytes()),
                None => None,
            };
            let body = message_body_model(command.spec_bytes(), nb, ser, now);
            let databuf = enc_entries(body);
            let sigbuf = enc_entries(
                seq![("_auth"@, WireVal::Table(sig_table(*algorithm, secret@, databuf)))],
            );
            &&& (r is Ok <==> 8 + sigbuf.len() + databuf.len() <= u32::MAX)
            &&& (r matches Ok(bytes) ==> bytes@ == message_bytes(*algorithm, secret@, body))
            &&& (r matches Err(e) ==> e is EncodingError)
            &&& (command.spec_bytes().len() + (match nonce {
                Some(n) => n.spec_bytes().len(),
                None => 0,
            }) <= 0xfffff000 ==> r is Ok)
        }),
{
    let now64 = now as u64;
    let exp = now64 + 60;
    let mut ctrl_map: Vec<(String, Value)> = Vec::new();
    ctrl_map.push((String::from_str("_ser"), Value::Bytes(u64_to_dec(ser as u64))));
    ctrl_map.push((String::from_str("_tim"), Value::Bytes(u64_to_dec(now64))));
    ctrl_map.push((String::from_str("_exp"), Value::Bytes(u64_to_dec(exp))));
    match nonce {
        Some(n) => ctrl_map.push((String::from_str("_nonce"), Value::Bytes(n.as_bytes_vec()))),
        None => {},
    }
    let ghost cmv = ctrl_map@;
    let mut data_map: Vec<(String, Value)> = Vec::new();
    data_map.push((String::from_str("type"), Value::Bytes(command.as_bytes_vec())));
    let ghost dmv = data_map@;
    let mut message_body: Vec<(String, Value)> = Vec::new();
    message_body.push((String::from_str("_ctrl"), Value::Table(ctrl_map)));
    message_body.push((String::from_str("_data"), Value::Table(data_map)));
    proof {
        lemma_field_name_lens();
        lemma_dec_digits_len_u64(ser as u64);
        lemma_dec_digits_len_u64(now64);
        lemma_dec_digits_len_u64(exp);
        let nb = match nonce {
            Some(n) => Some(n.spec_bytes()),
            None => None,
        };
        let model = message_body_model(command.spec_bytes(), nb, ser, now);
        let cm = view_entries(cmv);
        let dm = view_entries(dmv);
        lemma_view_entries_index(cmv);
        lemma_view_entries_index(dmv);
        lemma_view_entries_index(message_body@);
        let ctrl_model = match nb {
            Some(nbb) => seq![
                ("_ser"@, WireVal::Bytes(dec_digits(ser as nat))),
                ("_tim"@, WireVal::Bytes(dec_digits(now as nat))),
                ("_exp"@, WireVal::Bytes(dec_digits((now + 60) as nat))),
                ("_nonce"@, WireVal::Bytes(nbb)),
            ],
            None => seq![
                ("_ser"@, WireVal::Bytes(dec_digits(ser as nat))),
                ("_tim"@, WireVal::Bytes(dec_digits(now as nat))),
                ("_exp"@, WireVal::Bytes(dec_digits((now + 60) as nat))),
            ],
        };
        assert(cm =~~= ctrl_model);
        let data_model = seq![("type"@, WireVal::Bytes(command.spec_bytes()))];
        assert(dm =~~= data_model);
        assert(view_entries(message_body@) =~~= model);
        // Entry-wise bounds of the two nested tables.
        assert(wf_entry_list(cm)) by {
            lemma_wf_entry_list_index(cm);
        }
        assert(wf_entry_list(dm)) by {
            lemma_wf_entry_list_index(dm);
        }
        assert(keys_unique(cm));
        assert(keys_unique(dm));
        // Their headerless encodings stay within the length field.
        let c1 = cm.subrange(1, cm.len() as int);
        let c2 = c1.subrange(1, c1.len() as int);
        let c3 = c2.subrange(1, c2.len() as int);
        lemma_enc_entries_len_unfold(cm);
        lemma_enc_entries_len_unfold(c1);
        lemma_enc_entries_len_unfold(c2);
        lemma_enc_entries_len_unfold(c3);
        if nb is Some {
            let c4 = c3.subrange(1, c3.len() as int);
            lemma_enc_entries_len_unfold(c4);
            assert(c4.len() == 0);
        } else {
            assert(c3.len() == 0);
        }
        let nlen: nat = match nb {
            Some(nbb) => nbb.len(),
            None => 0,
        };
        let clen = command.spec_bytes().len();
        assert(enc_entries(cm).len() <= 102 + nlen);
        lemma_enc_entries_len_unfold(dm);
        lemma_enc_entries_len_unfold(dm.subrange(1, dm.len() as int));
        assert(enc_entries(dm).len() == 10 + clen);
        // The whole body stays far under the length field whenever the
        // command and nonce do: the framing check then passes for every
        // timestamp.
        let m1 = model.subrange(1, model.len() as int);
        lemma_enc_entries_len_unfold(model);
        lemma_enc_entries_len_unfold(m1);
        lemma_enc_entries_len_unfold(m1.subrange(1, m1.len() as int));
        assert(enc_entries(model).len() <= 134 + nlen + clen);
        assert(wf_value(WireVal::Table(cm)));
        assert(wf_value(WireVal::Table(dm)));
        assert(wf_entry_list(view_entries(message_body@))) by {
            lemma_wf_entry_list_index(view_entries(message_body@));
        }
        assert(keys_unique(view_entries(message_body@)));
        lemma_table_remove_absent(view_entries(message_body@), "_auth"@);
    }
    encode(&mut message_body, algorithm, secret)
}

/// The nonce a handshake response carries, if any: `_ctrl` must decode
/// to a table holding `_nonce` as text.
pub open spec fn spec_nonce(es: Seq<(Seq<char>, WireVal)>) -> Option<Seq<char>> {
    match table_lookup(es, "_ctrl"@) {
        Some(WireVal::Table(cm)) => match table_lookup(cm, "_nonce"@) {
            Some(WireVal::Text(t)) => Some(t),
            _ => None,
        },
        _ => None,
    }
}

/// The `_data` table of a response, if present.
pub open spec fn spec_data_table(es: Seq<(Seq<char>, WireVal)>) -> Option<
    Seq<(Seq<char>, WireVal)>,
> {
    match table_lookup(es, "_data"@) {
        Some(WireVal::Table(d)) => Some(d),
        _ => None,
    }
}

/// Interprets a command response: the packet must decode and carry a
/// `_data` table; `result == "0"` means the command succeeded, absence
/// or any other value means failure, and `text`/`err` pass through when
/// present as text.
pub fn parse_command_response(packet: &[u8]) -> (r: Result<RndcResult, RndcError>)
    ensures
        r is Ok <==> (spec_decode(packet@) matches Some(es) && spec_data_table(es) is Some),
        r matches Ok(res) ==> (spec_decode(packet@) matches Some(es) && spec_data_table(es)
            matches Some(data) && {
            &&& res.result == (match table_lookup(data, "result"@) {
                Some(WireVal::Text(t)) => t == "0"@,
                _ => false,
            })
            &&& (match table_lookup(data, "text"@) {
                Some(WireVal::Text(t)) => res.text matches Some(s) && s@ == t,
                _ => res.text is None,
            })
            &&& (match table_lookup(data, "err"@) {
                Some(WireVal::Text(t)) => res.err matches Some(s) && s@ == t,
                _ => res.err is None,
            })
        }),
        r matches Err(e) ==> e is DecodingError,
{
    let resp = match decode(packet) {
        Ok(t) => t,
        Err(e) => {
            return Err(e);
        },
    };
    match table_get(&resp, "_data") {
        Some(v) => match v {
            Value::Table(data) => {
                let result = match table_get(data, "result") {
                    Some(rv) => match rv {
                        Value::Text(t) => str_eq(t.as_str(), "0"),
                        _ => false,
                    },
                    None => false,
                };
                let text = match table_get(data, "text") {
                    Some(tv) => match tv {
                        Value::Text(t) => Some(t.clone()),
                        _ => None,
                    },
                    None => None,
                };
                let err = match table_get(data, "err") {
                    Some(ev) => match ev {
                        Value::Text(t) => Some(t.clone()),
                        _ => None,
                    },
                    None => None,
                };
                return Ok(RndcResult { result, text, err });
            },
            _ => {},
        },
        None => {},
    }
    Err(RndcError::DecodingError(String::from_str("Failed to parse status response")))
}

/// The outcome of one remote command: whether the server reported
/// success (`result` field equal to `"0"`), and its optional diagnostic
/// and error texts.
#[derive(Debug, Clone)]
pub struct RndcResult {
    pub result: bool,
    pub text: Option<String>,
    pub err: Option<String>,
}

/// The phases of one connection's session.  A handshake must complete
/// and yield a nonce before a command can be built, and one command
/// closes the connection; an error return from any step is the session's
/// terminal error state.
#[derive(Debug)]
pub enum SessionState {
    Idle,
    Handshaking,
    Authenticated(String),
    AwaitingResponse,
    Closed,
}

/// A configured client: where to connect, how to sign, and with what
/// key.  The transport itself is the caller's business; this type builds
/// and interprets the packets of one handshake-then-command session.
#[derive(Debug, Clone)]
pub struct RndcClient {
    server_url: String,
    algorithm: RndcAlg,
    secret_key: Vec<u8>,
}

impl RndcClient {
    pub closed spec fn spec_server_url(&self) -> Seq<char> {
        self.server_url@
    }

    pub closed spec fn spec_algorithm(&self) -> RndcAlg {
        self.algorithm
    }

    pub closed spec fn spec_secret_key(&self) -> Seq<u8> {
        self.secret_key@
    }

    /// Builds a client from an address, an algorithm name and the
    /// base64-encoded secret.  A malformed secret is rejected first
    /// (`Base64DecodeError`), then an unknown algorithm name
    /// (`InvalidAlgorithm`).
    pub fn new(server_url: &str, algorithm: &str, secret_key_b64: &str) -> (r: Result<
        Self,
        RndcError,
    >)
        ensures
            r is Ok <==> (base64_decode_of(secret_key_b64@) is Some && alg_of_name(algorithm@)
                is Some),
            r matches Ok(c) ==> c.spec_server_url() == server_url@ && Some(c.spec_algorithm())
                == alg_of_name(algorithm@) && Some(c.spec_secret_key()) == base64_decode_of(
                secret_key_b64@,
            ),
            r matches Err(e) ==> (if base64_decode_of(secret_key_b64@) is None {
                e is Base64DecodeError
            } else {
                e is InvalidAlgorithm
            }),
    {
        let secret_key = match base64_decode(secret_key_b64) {
            Ok(v) => v,
            Err(m) => {
                return Err(RndcError::Base64DecodeError(m));
            },
        };
        let algorithm = match RndcAlg::from_string(algorithm) {
            Ok(a) => a,
            Err(e) => {
                return Err(e);
            },
        };
        Ok(RndcClient { server_url: server_url.to_owned(), algorithm, secret_key })
    }

    /// Builds, signs and frames one control message at the current
    /// wall-clock time.  Apart from the timestamp, which is whatever the
    /// clock returned, the message is pinned exactly.
    pub fn build_message(
        command: &str,
        algorithm: &RndcAlg,
        secret: &[u8],
        nonce: Option<&str>,
        ser: u32,
    ) -> (r: Result<Vec<u8>, RndcError>)
        requires
            command.spec_bytes().len() <= 0xffffff00,
            nonce matches Some(n) ==> n.spec_bytes().len() <= 0xffffff00,
        ensures
            r matches Ok(bytes) ==> exists|now: u32|
                bytes@ == message_bytes(
                    *algorithm,
                    secret@,
                    #[trigger] message_body_model(
                        command.spec_bytes(),
                        nonce_bytes_of(nonce),
                        ser,
                        now,
                    ),
                ),
            r matches Err(e) ==> e is EncodingError,
            command.spec_bytes().len() + (match nonce {
                Some(n) => n.spec_bytes().len(),
                None => 0,
            }) <= 0xfffff000 ==> r is Ok,
    {
        let now = get_timestamp();
        let r = build_message_at(command, algorithm, secret, nonce, ser, now);
        proof {
            if r is Ok {
                let b = r->Ok_0;
                assert(b@ == message_bytes(
                    *algorithm,
                    secret@,
                    message_body_model(command.spec_bytes(), nonce_bytes_of(nonce), ser, now),
                ));
            }
        }
        r
    }

    /// The signed handshake request: command `"null"`, no nonce, a
    /// caller-chosen serial.
    pub fn handshake_message(&self, ser: u32) -> (r: Result<Vec<u8>, RndcError>)
        ensures
            r matches Ok(bytes) ==> exists|now: u32|
                bytes@ == message_bytes(
                    self.spec_algorithm(),
                    self.spec_secret_key(),
                    #[trigger] message_body_model(encode_utf8("null"@), None, ser, now),
                ),
            r is Ok,
    {
        proof {
            reveal_strlit("null");
            assert(is_ascii_chars("null"@));
            is_ascii_chars_encode_utf8("null"@);
        }
        Self::build_message("null", &self.algorithm, &self.secret_key, None, ser)
    }

    /// The signed command request, echoing the handshake nonce.
    pub fn command_message(&self, command: &str, nonce: &str, ser: u32) -> (r: Result<
        Vec<u8>,
        RndcError,
    >)
        requires
            command.spec_bytes().len() <= 0xffffff00,
            nonce.spec_bytes().len() <= 0xffffff00,
        ensures
            r matches Ok(bytes) ==> exists|now: u32|
                bytes@ == message_bytes(
                    self.spec_algorithm(),
                    self.spec_secret_key(),
                    #[trigger] message_body_model(
                        command.spec_bytes(),
                        Some(nonce.spec_bytes()),
                        ser,
                        now,
                    ),
                ),
            r matches Err(e) ==> e is EncodingError,
            command.spec_bytes().len() + nonce.spec_bytes().len() <= 0xfffff000 ==> r is Ok,
    {
        Self::build_message(command, &self.algorithm, &self.secret_key, Some(nonce), ser)
    }

    /// Extracts the server's nonce from a decoded handshake response:
    /// `_ctrl._nonce` must be present as text, or the handshake fails
    /// with a decoding error rather than an empty nonce.
    pub fn get_nonce(&self, packet: &[u8]) -> (r: Result<String, RndcError>)
        ensures
            r is Ok <==> (spec_decode(packet@) matches Some(es) && spec_nonce(es) is Some),
            r matches Ok(s) ==> (spec_decode(packet@) matches Some(es) && spec_nonce(es) == Some(
                s@,
            )),
            r matches Err(e) ==> e is DecodingError,
            (spec_decode(packet@) matches Some(es) && spec_nonce(es) is None) ==> (r matches Err(
                e,
            ) && e matches RndcError::DecodingError(m) && m@ == "RNDC nonce not received"@),
    {
        let resp = match decode(packet) {
            Ok(t) => t,
            Err(e) => {
                return Err(e);
            },
        };
        match table_get(&resp, "_ctrl") {
            Some(v) => match v {
                Value::Table(ctrl) => match table_get(ctrl, "_nonce") {
                    Some(nv) => match nv {
                        Value::Text(t) => {
                            return Ok(t.clone());
                        },
                        _ => {},
                    },
                    None => {},
                },
                _ => {},
            },
            None => {},
        }
        Err(RndcError::DecodingError(String::from_str("RNDC nonce not received")))
    }

    /// Leaves `Idle` by producing the handshake request to write.
    pub fn start_handshake(&self, state: SessionState, ser: u32) -> (r: Result<
        (SessionState, Vec<u8>),
        RndcError,
    >)
        requires
            state is Idle,
        ensures
            r matches Ok((s, bytes)) ==> s is Handshaking && (exists|now: u32|
                bytes@ == message_bytes(
                    self.spec_algorithm(),
                    self.spec_secret_key(),
                    #[trigger] message_body_model(encode_utf8("null"@), None, ser, now),
                )),
            r is Ok,
    {
        let _state = state;
        let msg = self.handshake_message(ser)?;
        Ok((SessionState::Handshaking, msg))
    }

    /// Consumes the handshake response: the session is authenticated
    /// exactly when the packet decodes and carries `_ctrl._nonce` as
    /// text, and the stored nonce is that text.
    pub fn finish_handshake(&self, state: SessionState, packet: &[u8]) -> (r: Result<
        SessionState,
        RndcError,
    >)
        requires
            state is Handshaking,
        ensures
            r is Ok <==> (spec_decode(packet@) matches Some(es) && spec_nonce(es) is Some),
            r matches Ok(s) ==> (s matches SessionState::Authenticated(n) && spec_decode(packet@)
                matches Some(es) && spec_nonce(es) == Some(n@)),
            r matches Err(e) ==> e is DecodingError,
            (spec_decode(packet@) matches Some(es) && spec_nonce(es) is None) ==> (r matches Err(
                e,
            ) && e matches RndcError::DecodingError(m) && m@ == "RNDC nonce not received"@),
    {
        let _state = state;
        let nonce = self.get_nonce(packet)?;
        Ok(SessionState::Authenticated(nonce))
    }

    /// Produces the authenticated command request, echoing the stored
    /// nonce, and awaits the response.
    pub fn start_command(&self, state: SessionState, command: &str, ser: u32) -> (r: Result<
        (SessionState, Vec<u8>),
        RndcError,
    >)
        requires
            state matches SessionState::Authenticated(n) && encode_utf8(n@).len() <= 0xffffff00,
            command.spec_bytes().len() <= 0xffffff00,
        ensures
            r matches Ok((s, bytes)) ==> s is AwaitingResponse && (state matches
                SessionState::Authenticated(n) && exists|now: u32|
                bytes@ == message_bytes(
                    self.spec_algorithm(),
                    self.spec_secret_key(),
                    #[trigger] message_body_model(
                        command.spec_bytes(),
                        Some(encode_utf8(n@)),
                        ser,
                        now,
                    ),
                )),
            r matches Err(e) ==> e is EncodingError,
            (state matches SessionState::Authenticated(n) && command.spec_bytes().len()
                + encode_utf8(n@).len() <= 0xfffff000) ==> r is Ok,
    {
        match state {
            SessionState::Authenticated(nonce) => {
                let msg = self.command_message(command, nonce.as_str(), ser)?;
                Ok((SessionState::AwaitingResponse, msg))
            },
            _ => Err(RndcError::EncodingError(String::from_str("session is not authenticated"))),
        }
    }

    /// Consumes the command response and closes the session: the result
    /// is interpreted exactly as `parse_command_response` states.
    pub fn finish_command(&self, state: SessionState, packet: &[u8]) -> (r: Result<
        (SessionState, RndcResult),
        RndcError,
    >)
        requires
            state is AwaitingResponse,
        ensures
            r is Ok <==> (spec_decode(packet@) matches Some(es) && spec_data_table(es) is Some),
            r matches Ok((s, res)) ==> s is Closed && (spec_decode(packet@) matches Some(es)
                && spec_data_table(es) matches Some(data) && {
                &&& res.result == (match table_lookup(data, "result"@) {
                    Some(WireVal::Text(t)) => t == "0"@,
                    _ => false,
                })
                &&& (match table_lookup(data, "text"@) {
                    Some(WireVal::Text(t)) => res.text matches Some(s2) && s2@ == t,
                    _ => res.text is None,
                })
                &&& (match table_lookup(data, "err"@) {
                    Some(WireVal::Text(t)) => res.err matches Some(s2) && s2@ == t,
                    _ => res.err is None,
                })
            }),
            r matches Err(e) ==> e is DecodingError,
    {
        let _state = state;
        let res = parse_command_response(packet)?;
        Ok((SessionState::Closed, res))
    }

    /// The address this client connects to.
    pub fn server_url(&self) -> (r: &str)
        ensures
            r@ == self.spec_server_url(),
    {
        self.server_url.as_str()
    }

    /// The signing algorithm.
    pub fn algorithm(&self) -> (r: &RndcAlg)
        ensures
            *r == self.spec_algorithm(),
    {
        &self.algorithm
    }

    /// The decoded secret key.
    pub fn secret_key(&self) -> (r: &[u8])
        ensures
            r@ == self.spec_secret_key(),
    {
        self.secret_key.as_slice()
    }
}

} // verus!
