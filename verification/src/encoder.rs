//! Serialisation of a [`Value`] tree to the RNDC wire format: a TLV record
//! per node (1-byte tag, 4-byte big-endian length, payload), key-prefixed
//! entries for tables, and the canonical headerless table form that both
//! the signer and the top-level message body use.

use vstd::prelude::*;
use vstd::string::{StringExecFns, StringSliceAdditionalSpecFns};
use vstd::utf8::{encode_utf8, is_ascii_chars, is_ascii_chars_encode_utf8};

use crate::constants::{
    spec_alg_code, spec_auth_field, RndcAlg, MSGTYPE_BINARYDATA, MSGTYPE_LIST, MSGTYPE_STRING,
    MSGTYPE_TABLE,
};
use crate::crypto::{base64_encode, base64_of, compute_hmac, hmac_md5_of, spec_hmac};
use crate::error::RndcError;
use crate::wire::{
    be32_bytes, keys_unique, table_remove, table_remove_key, view_entries, view_items, view_value,
    Value, WireVal,
    lemma_view_entries_index, lemma_view_items_index,
};

verus! {

/// One TLV record: type tag, big-endian length, payload.
pub open spec fn tlv(tag: u8, payload: Seq<u8>) -> Seq<u8> {
    seq![tag] + be32_bytes(payload.len() as u32) + payload
}

/// A table entry's key prefix: length byte, then the UTF-8 bytes.
pub open spec fn enc_key(k: Seq<char>) -> Seq<u8> {
    seq![encode_utf8(k).len() as u8] + encode_utf8(k)
}

/// The wire bytes of one value.
pub open spec fn enc_value(v: WireVal) -> Seq<u8>
    decreases v, 0nat,
{
    match v {
        WireVal::Text(t) => tlv(MSGTYPE_STRING, encode_utf8(t)),
        WireVal::Bytes(b) => tlv(MSGTYPE_BINARYDATA, b),
        WireVal::Table(es) => tlv(MSGTYPE_TABLE, enc_entries(es)),
        WireVal::List(vs) => tlv(MSGTYPE_LIST, enc_items(vs)),
    }
}

/// The headerless encoding of a table: concatenated key+value entries.
pub open spec fn enc_entries(es: Seq<(Seq<char>, WireVal)>) -> Seq<u8>
    decreases es, 1nat,
{
    if es.len() == 0 {
        Seq::empty()
    } else {
        enc_key(es[0].0) + enc_value(es[0].1) + enc_entries(es.subrange(1, es.len() as int))
    }
}

/// The payload of a list: concatenated TLV records.
pub open spec fn enc_items(vs: Seq<WireVal>) -> Seq<u8>
    decreases vs, 1nat,
{
    if vs.len() == 0 {
        Seq::empty()
    } else {
        enc_value(vs[0]) + enc_items(vs.subrange(1, vs.len() as int))
    }
}

/// Structural bounds the wire format imposes on a value: every payload
/// length fits in four bytes, every key's encoding in one.
pub open spec fn wf_value(v: WireVal) -> bool
    decreases v, 0nat,
{
    match v {
        WireVal::Text(t) => encode_utf8(t).len() <= u32::MAX,
        WireVal::Bytes(b) => b.len() <= u32::MAX,
        WireVal::Table(es) => wf_entries(es) && enc_entries(es).len() <= u32::MAX,
        WireVal::List(vs) => wf_items(vs) && enc_items(vs).len() <= u32::MAX,
    }
}

/// Entry-wise bounds of a table: key encodings of at most 255 bytes,
/// well-formed values.
pub open spec fn wf_entry_list(es: Seq<(Seq<char>, WireVal)>) -> bool
    decreases es, 2nat,
{
    if es.len() == 0 {
        true
    } else {
        &&& encode_utf8(es[0].0).len() <= 255
        &&& wf_value(es[0].1)
        &&& wf_entry_list(es.subrange(1, es.len() as int))
    }
}

/// A well-formed table: entry-wise bounds plus unique keys.
pub open spec fn wf_entries(es: Seq<(Seq<char>, WireVal)>) -> bool
    decreases es, 3nat,
{
    keys_unique(es) && wf_entry_list(es)
}

pub open spec fn wf_items(vs: Seq<WireVal>) -> bool
    decreases vs, 1nat,
{
    if vs.len() == 0 {
        true
    } else {
        wf_value(vs[0]) && wf_items(vs.subrange(1, vs.len() as int))
    }
}

/// One TLV record as bytes: `type_byte`, the payload length in four
/// big-endian bytes, then the payload itself.
pub fn raw_towire(type_byte: u8, buffer: &[u8]) -> (r: Vec<u8>)
    requires
        buffer@.len() <= u32::MAX,
    ensures
        r@ == tlv(type_byte, buffer@),
{
    let len = buffer.len() as u32;
    proof {
        assert((len >> 24) & 0xff < 256 && (len >> 16) & 0xff < 256 && (len >> 8) & 0xff < 256
            && len & 0xff < 256) by (bit_vector);
    }
    let mut buf: Vec<u8> = Vec::new();
    buf.push(type_byte);
    buf.push(((len >> 24) & 0xff) as u8);
    buf.push(((len >> 16) & 0xff) as u8);
    buf.push(((len >> 8) & 0xff) as u8);
    buf.push((len & 0xff) as u8);
    buf.extend_from_slice(buffer);
    proof {
        assert(buf@ =~= tlv(type_byte, buffer@));
    }
    buf
}

/// A raw payload as a TLV record with the binary-data tag.
pub fn binary_towire(val: &[u8]) -> (r: Vec<u8>)
    requires
        val@.len() <= u32::MAX,
    ensures
        r@ == enc_value(WireVal::Bytes(val@)),
{
    raw_towire(MSGTYPE_BINARYDATA, val)
}

/// A table key as wire bytes: one length byte, then the key itself.
pub fn key_towire(key: &str) -> (r: Vec<u8>)
    requires
        key.spec_bytes().len() <= 255,
    ensures
        r@ == enc_key(key@),
{
    let key_bytes = key.as_bytes();
    let mut buf: Vec<u8> = Vec::new();
    buf.push(key_bytes.len() as u8);
    buf.extend_from_slice(key_bytes);
    proof {
        assert(buf@ =~= enc_key(key@));
    }
    buf
}

/// The TLV record of a single value.
pub fn value_towire(val: &Value) -> (r: Vec<u8>)
    requires
        wf_value(view_value(*val)),
    ensures
        r@ == enc_value(view_value(*val)),
    decreases *val, 0nat,
{
    match val {
        Value::Text(s) => raw_towire(MSGTYPE_STRING, s.as_str().as_bytes()),
        Value::Bytes(b) => raw_towire(MSGTYPE_BINARYDATA, b.as_slice()),
        Value::Table(es) => table_towire(es.as_slice(), false),
        Value::List(vs) => list_towire(vs.as_slice()),
    }
}

/// The concatenated entries of `es` from index 0 on, headerless.
fn entries_towire(es: &[(String, Value)]) -> (r: Vec<u8>)
    requires
        wf_entry_list(view_entries(es@)),
    ensures
        r@ == enc_entries(view_entries(es@)),
    decreases es@, 1nat,
{
    proof {
        lemma_view_entries_index(es@);
    }
    if es.len() == 0 {
        Vec::new()
    } else {
        let mut buf = key_towire(es[0].0.as_str());
        let mut vbuf = value_towire(&es[0].1);
        buf.append(&mut vbuf);
        let rest = vstd::slice::slice_subrange(es, 1, es.len());
        proof {
            lemma_view_entries_index(rest@);
            assert(view_entries(rest@) =~= view_entries(es@).subrange(1, es@.len() as int));
        }
        let mut rbuf = entries_towire(rest);
        buf.append(&mut rbuf);
        buf
    }
}

/// A table as wire bytes; with `no_header` the tag and length wrapper is
/// omitted (the canonical form used for signing and for the top level).
pub fn table_towire(val: &[(String, Value)], no_header: bool) -> (r: Vec<u8>)
    requires
        wf_entry_list(view_entries(val@)),
        !no_header ==> enc_entries(view_entries(val@)).len() <= u32::MAX,
    ensures
        no_header ==> r@ == enc_entries(view_entries(val@)),
        !no_header ==> r@ == tlv(MSGTYPE_TABLE, enc_entries(view_entries(val@))),
    decreases val@, 2nat,
{
    let bufs = entries_towire(val);
    if no_header {
        bufs
    } else {
        raw_towire(MSGTYPE_TABLE, bufs.as_slice())
    }
}

/// The concatenated TLV records of `vs`.
fn items_towire(vs: &[Value]) -> (r: Vec<u8>)
    requires
        wf_items(view_items(vs@)),
    ensures
        r@ == enc_items(view_items(vs@)),
    decreases vs@, 1nat,
{
    proof {
        lemma_view_items_index(vs@);
    }
    if vs.len() == 0 {
        Vec::new()
    } else {
        let mut buf = value_towire(&vs[0]);
        let rest = vstd::slice::slice_subrange(vs, 1, vs.len());
        proof {
            lemma_view_items_index(rest@);
            assert(view_items(rest@) =~= view_items(vs@).subrange(1, vs@.len() as int));
        }
        let mut rbuf = items_towire(rest);
        buf.append(&mut rbuf);
        buf
    }
}

/// `s` with every trailing `c` byte removed.
pub open spec fn strip_trailing(s: Seq<u8>, c: u8) -> Seq<u8>
    decreases s.len(),
{
    if s.len() > 0 && s[s.len() - 1] == c {
        strip_trailing(s.subrange(0, s.len() - 1), c)
    } else {
        s
    }
}

pub proof fn lemma_strip_trailing(s: Seq<u8>, c: u8)
    ensures
        strip_trailing(s, c).len() <= s.len(),
        strip_trailing(s, c).len() > 0 ==> strip_trailing(s, c)[strip_trailing(s, c).len() - 1]
            != c,
        strip_trailing(s, c) == s.subrange(0, strip_trailing(s, c).len() as int),
    decreases s.len(),
{
    if s.len() > 0 && s[s.len() - 1] == c {
        lemma_strip_trailing(s.subrange(0, s.len() - 1), c);
        assert(s.subrange(0, s.len() - 1).subrange(0, strip_trailing(s, c).len() as int)
            =~= s.subrange(0, strip_trailing(s, c).len() as int));
    }
}

/// The fixed 89-byte signature slot of the non-MD5 algorithms: the
/// algorithm code, the base64 text, zero fill.  Text beyond 88 bytes is
/// cut off; no supported digest's base64 rendering reaches that length.
pub open spec fn pack_sig(code: u8, text: Seq<u8>) -> Seq<u8> {
    let t = if text.len() <= 88 {
        text
    } else {
        text.subrange(0, 88)
    };
    seq![code] + t + Seq::new((88 - t.len()) as nat, |i: int| 0u8)
}

/// The signature value bytes: for MD5 the base64 text with its `=`
/// padding stripped, for the SHA family the fixed 89-byte slot.
pub open spec fn sig_value(alg: RndcAlg, key: Seq<u8>, data: Seq<u8>) -> Seq<u8> {
    if alg == RndcAlg::MD5 {
        strip_trailing(base64_of(hmac_md5_of(key, data)), 0x3d)
    } else {
        pack_sig(spec_alg_code(alg), base64_of(spec_hmac(alg, key, data)))
    }
}

/// The single-entry `_auth` table the signer produces.
pub open spec fn sig_table(alg: RndcAlg, key: Seq<u8>, data: Seq<u8>) -> Seq<
    (Seq<char>, WireVal),
> {
    seq![(spec_auth_field(alg), WireVal::Bytes(sig_value(alg, key, data)))]
}

/// The complete authenticated wire message over the given body: envelope
/// header, headerless `_auth` table, headerless body.
pub open spec fn message_bytes(alg: RndcAlg, key: Seq<u8>, body: Seq<(Seq<char>, WireVal)>) -> Seq<
    u8,
> {
    let databuf = enc_entries(body);
    let sigbuf = enc_entries(seq![("_auth"@, WireVal::Table(sig_table(alg, key, databuf)))]);
    let length = 8 + sigbuf.len() + databuf.len();
    be32_bytes((length - 4) as u32) + be32_bytes(1u32) + sigbuf + databuf
}

/// Index-wise reading of `wf_entry_list`.
pub proof fn lemma_wf_entry_list_index(es: Seq<(Seq<char>, WireVal)>)
    ensures
        wf_entry_list(es) <==> (forall|i: int|
            0 <= i < es.len() ==> encode_utf8((#[trigger] es[i]).0).len() <= 255 && wf_value(
                es[i].1,
            )),
    decreases es,
{
    if es.len() > 0 {
        let rest = es.subrange(1, es.len() as int);
        lemma_wf_entry_list_index(rest);
        assert forall|i: int| 1 <= i < es.len() implies es[i] == rest[i - 1] by {}
        if forall|i: int|
            0 <= i < es.len() ==> encode_utf8((#[trigger] es[i]).0).len() <= 255 && wf_value(
                es[i].1,
            ) {
            assert forall|i: int|
                0 <= i < rest.len() implies encode_utf8((#[trigger] rest[i]).0).len() <= 255
                && wf_value(rest[i].1) by {
                assert(rest[i] == es[i + 1]);
            }
        }
    }
}

/// Removing a key keeps every remaining entry, their relative order, the
/// uniqueness of keys, and entry-wise well-formedness.
pub proof fn lemma_table_remove_props(es: Seq<(Seq<char>, WireVal)>, k: Seq<char>)
    requires
        keys_unique(es),
    ensures
        keys_unique(table_remove(es, k)),
        wf_entry_list(es) ==> wf_entry_list(table_remove(es, k)),
        forall|j: int|
            0 <= j < table_remove(es, k).len() ==> es.contains(#[trigger] table_remove(es, k)[j]),
        table_remove(es, k).len() <= es.len(),
        enc_entries(table_remove(es, k)).len() <= enc_entries(es).len(),
    decreases es,
{
    lemma_wf_entry_list_index(es);
    lemma_wf_entry_list_index(table_remove(es, k));
    if es.len() > 0 {
        let rest = es.subrange(1, es.len() as int);
        assert forall|i: int, j: int| 0 <= i < j < rest.len() implies (#[trigger] rest[i]).0
            != (#[trigger] rest[j]).0 by {
            assert(rest[i] == es[i + 1] && rest[j] == es[j + 1]);
        }
        lemma_table_remove_props(rest, k);
        let rr = table_remove(rest, k);
        assert forall|j: int| 0 <= j < rr.len() implies es.contains(#[trigger] rr[j]) by {
            let m = choose|m: int| 0 <= m < rest.len() && rest[m] == rr[j];
            assert(es[m + 1] == rr[j]);
        }
        if es[0].0 == k {
        } else {
            let result = seq![es[0]] + rr;
            assert(result.subrange(1, result.len() as int) =~= rr);
            assert(result[0] == es[0]);
            assert forall|i: int, j: int| 0 <= i < j < result.len() implies (
            #[trigger] result[i]).0 != (#[trigger] result[j]).0 by {
                if i == 0 {
                    let m = choose|m: int| 0 <= m < rest.len() && rest[m] == rr[j - 1];
                    assert(result[j] == es[m + 1]);
                    assert(es[0].0 != es[m + 1].0);
                } else {
                    assert(result[i] == rr[i - 1] && result[j] == rr[j - 1]);
                }
            }
            if wf_entry_list(es) {
                assert forall|i: int|
                    0 <= i < result.len() implies encode_utf8((#[trigger] result[i]).0).len()
                    <= 255 && wf_value(result[i].1) by {
                    if i > 0 {
                        let m = choose|m: int| 0 <= m < es.len() && es[m] == rr[i - 1];
                        assert(result[i] == es[m]);
                    }
                }
            }
            assert forall|j: int| 0 <= j < result.len() implies es.contains(
                #[trigger] result[j],
            ) by {
                if j == 0 {
                    assert(es[0] == result[0]);
                } else {
                    let m = choose|m: int| 0 <= m < rest.len() && rest[m] == rr[j - 1];
                    assert(es[m + 1] == result[j]);
                }
            }
        }
    }
}

/// Appends the four big-endian bytes of `n`.
fn push_be32(buf: &mut Vec<u8>, n: u32)
    ensures
        final(buf)@ == old(buf)@ + be32_bytes(n),
{
    proof {
        assert((n >> 24) & 0xff < 256 && (n >> 16) & 0xff < 256 && (n >> 8) & 0xff < 256 && n
            & 0xff < 256) by (bit_vector);
    }
    buf.push(((n >> 24) & 0xff) as u8);
    buf.push(((n >> 16) & 0xff) as u8);
    buf.push(((n >> 8) & 0xff) as u8);
    buf.push((n & 0xff) as u8);
    proof {
        assert(buf@ =~= old(buf)@ + be32_bytes(n));
    }
}

/// Removes trailing `pad` bytes in place.
fn strip_trailing_bytes(buf: &mut Vec<u8>, pad: u8)
    ensures
        final(buf)@ == strip_trailing(old(buf)@, pad),
{
    loop
        invariant
            strip_trailing(old(buf)@, pad) == strip_trailing(buf@, pad),
        ensures
            buf@.len() == 0 || buf@[buf@.len() - 1] != pad,
            strip_trailing(old(buf)@, pad) == strip_trailing(buf@, pad),
        decreases buf@.len(),
    {
        let n = buf.len();
        if n == 0 {
            break;
        }
        if buf[n - 1] != pad {
            break;
        }
        let ghost prev = buf@;
        buf.pop();
        proof {
            assert(buf@ =~= prev.subrange(0, prev.len() - 1));
        }
    }
}

/// Writes the algorithm code and base64 text into the zero-filled 89-byte
/// signature slot.
fn pack_sig_value(code: u8, text: &Vec<u8>) -> (r: Vec<u8>)
    requires
        text@.len() <= 88,
    ensures
        r@ == pack_sig(code, text@),
{
    let mut buf: Vec<u8> = Vec::new();
    buf.push(code);
    let tlen = text.len();
    let mut i: usize = 0;
    while i < tlen
        invariant
            i <= tlen,
            tlen == text@.len() <= 88,
            buf@.len() == 1 + i,
            buf@[0] == code,
            forall|j: int| 0 <= j < i ==> buf@[1 + j] == text@[j],
        decreases tlen - i,
    {
        buf.push(text[i]);
        i = i + 1;
    }
    let mut k: usize = buf.len();
    while k < 89
        invariant
            1 + tlen <= k <= 89,
            buf@.len() == k,
            buf@[0] == code,
            forall|j: int| 0 <= j < tlen ==> buf@[1 + j] == text@[j],
            forall|j: int| 1 + tlen <= j < k ==> buf@[j] == 0u8,
        decreases 89 - k,
    {
        buf.push(0u8);
        k = k + 1;
    }
    proof {
        assert(buf@ =~= pack_sig(code, text@));
    }
    buf
}

/// Computes the `_auth` table for `message_body`: a keyed digest over the
/// canonical headerless encoding, base64-rendered and packed in the
/// algorithm's format, stored under `hmd5` or `hsha`.
pub fn make_signature(
    algorithm: &RndcAlg,
    secret: &[u8],
    message_body: &[(String, Value)],
) -> (r: Result<Value, RndcError>)
    requires
        wf_entry_list(view_entries(message_body@)),
    ensures
        r is Ok,
        r matches Ok(v) ==> view_value(v) == WireVal::Table(
            sig_table(*algorithm, secret@, enc_entries(view_entries(message_body@))),
        ),
        sig_value(*algorithm, secret@, enc_entries(view_entries(message_body@))).len() <= 89,
{
    let databuf = table_towire(message_body, true);
    let ghost data = enc_entries(view_entries(message_body@));
    let digest = match compute_hmac(algorithm, secret, databuf.as_slice()) {
        Some(d) => d,
        None => {
            return Err(RndcError::EncodingError(String::from_str(
                "Failed to create HMAC instance",
            )));
        },
    };
    let sig_b64 = base64_encode(digest.as_slice());
    let (sig_type, sig_buf) = match algorithm {
        RndcAlg::MD5 => {
            let mut stripped = sig_b64;
            strip_trailing_bytes(&mut stripped, 0x3d);
            proof {
                lemma_strip_trailing(base64_of(hmac_md5_of(secret@, data)), 0x3d);
            }
            (String::from_str("hmd5"), stripped)
        },
        _ => {
            let packed = pack_sig_value(algorithm.code(), &sig_b64);
            (String::from_str("hsha"), packed)
        },
    };
    let ghost sig_model = sig_value(*algorithm, secret@, data);
    let mut auth_map: Vec<(String, Value)> = Vec::new();
    auth_map.push((sig_type, Value::Bytes(sig_buf)));
    let result = Value::Table(auth_map);
    proof {
        lemma_view_entries_index(result->Table_0@);
        assert(view_entries(result->Table_0@) =~= sig_table(*algorithm, secret@, data));
    }
    Ok(result)
}

/// Strips any caller-supplied `_auth` entry, signs the remaining body,
/// and produces the framed wire message: envelope header, `_auth` table,
/// body.  Fails only when the message would overflow the four-byte
/// length field.
pub fn encode(
    obj: &mut Vec<(String, Value)>,
    algorithm: &RndcAlg,
    secret: &[u8],
) -> (r: Result<Vec<u8>, RndcError>)
    requires
        wf_entries(view_entries(old(obj)@)),
    ensures
        view_entries(final(obj)@) == table_remove(view_entries(old(obj)@), "_auth"@),
        ({
            let body = table_remove(view_entries(old(obj)@), "_auth"@);
            let databuf = enc_entries(body);
            let sigbuf = enc_entries(
                seq![("_auth"@, WireVal::Table(sig_table(*algorithm, secret@, databuf)))],
            );
            &&& (r is Ok <==> 8 + sigbuf.len() + databuf.len() <= u32::MAX)
            &&& sigbuf.len() <= 110
            &&& (r matches Ok(bytes) ==> bytes@ == message_bytes(*algorithm, secret@, body))
            &&& (r matches Err(e) ==> e is EncodingError)
        }),
{
    proof {
        lemma_table_remove_props(view_entries(old(obj)@), "_auth"@);
    }
    table_remove_key(obj, "_auth");
    let ghost body = table_remove(view_entries(old(obj)@), "_auth"@);
    let databuf = table_towire(obj.as_slice(), true);
    let sig = match make_signature(algorithm, secret, obj.as_slice()) {
        Ok(v) => v,
        Err(e) => {
            return Err(e);
        },
    };
    let ghost st = sig_table(*algorithm, secret@, enc_entries(body));
    let mut sig_map: Vec<(String, Value)> = Vec::new();
    sig_map.push((String::from_str("_auth"), sig));
    let ghost svs = view_entries(sig_map@);
    proof {
        lemma_view_entries_index(sig_map@);
        assert(svs =~= seq![("_auth"@, WireVal::Table(st))]);
        reveal_strlit("_auth");
        reveal_strlit("hmd5");
        reveal_strlit("hsha");
        assert(is_ascii_chars("_auth"@));
        is_ascii_chars_encode_utf8("_auth"@);
        assert(is_ascii_chars(spec_auth_field(*algorithm)));
        is_ascii_chars_encode_utf8(spec_auth_field(*algorithm));
        assert(st.subrange(1, 1) =~= Seq::<(Seq<char>, WireVal)>::empty());
        assert(svs.subrange(1, 1) =~= Seq::<(Seq<char>, WireVal)>::empty());
        let sigv = sig_value(*algorithm, secret@, enc_entries(body));
        assert(st[0] == (spec_auth_field(*algorithm), WireVal::Bytes(sigv)));
        assert(enc_key(st[0].0).len() == 1 + encode_utf8(spec_auth_field(*algorithm)).len());
        assert(enc_value(st[0].1).len() == 1 + 4 + sigv.len());
        assert(enc_entries(st) == enc_key(st[0].0) + enc_value(st[0].1) + enc_entries(
            st.subrange(1, 1),
        ));
        assert(enc_entries(st).len() <= 99);
        assert(wf_entry_list(st.subrange(1, 1)));
        assert(encode_utf8(st[0].0).len() <= 255);
        assert(wf_value(st[0].1));
        assert(st.subrange(1, st.len() as int) =~= st.subrange(1, 1));
        assert(wf_entry_list(st));
        assert(wf_entries(st));
        assert(wf_value(WireVal::Table(st)));
        assert(wf_entry_list(svs.subrange(1, 1)));
        assert(wf_entry_list(svs));
        assert(enc_entries(svs) == enc_key(svs[0].0) + enc_value(svs[0].1) + enc_entries(
            svs.subrange(1, 1),
        ));
        assert(enc_entries(svs).len() <= 110);
    }
    let sigbuf = table_towire(sig_map.as_slice(), true);
    let dlen = databuf.len();
    let slen = sigbuf.len();
    if (dlen as u64) > 0xffffffffu64 {
        return Err(RndcError::EncodingError(String::from_str(
            "message too large for the length field",
        )));
    }
    let total: u64 = 8u64 + (slen as u64) + (dlen as u64);
    if total > 0xffffffffu64 {
        return Err(RndcError::EncodingError(String::from_str(
            "message too large for the length field",
        )));
    }
    let mut res: Vec<u8> = Vec::new();
    push_be32(&mut res, (total - 4) as u32);
    push_be32(&mut res, 1u32);
    let mut sb = sigbuf;
    res.append(&mut sb);
    let mut db = databuf;
    res.append(&mut db);
    proof {
        assert(res@ =~= message_bytes(*algorithm, secret@, body));
    }
    Ok(res)
}

pub proof fn lemma_table_remove_idempotent(es: Seq<(Seq<char>, WireVal)>, k: Seq<char>)
    ensures
        table_remove(table_remove(es, k), k) == table_remove(es, k),
    decreases es,
{
    if es.len() > 0 {
        let rest = es.subrange(1, es.len() as int);
        lemma_table_remove_idempotent(rest, k);
        if es[0].0 != k {
            let result = seq![es[0]] + table_remove(rest, k);
            assert(result.subrange(1, result.len() as int) =~= table_remove(rest, k));
            assert(table_remove(result, k) =~= seq![es[0]] + table_remove(table_remove(rest, k), k));
        }
    }
}

/// Signing is idempotent with respect to stale signatures: a body that
/// already carries an `_auth` entry is stripped before the digest is
/// taken, so it signs and frames exactly as the body without that entry.
pub proof fn lemma_sign_strips_stale_auth(
    alg: RndcAlg,
    key: Seq<u8>,
    es: Seq<(Seq<char>, WireVal)>,
)
    ensures
        sig_value(alg, key, enc_entries(table_remove(es, "_auth"@))) == sig_value(
            alg,
            key,
            enc_entries(table_remove(table_remove(es, "_auth"@), "_auth"@)),
        ),
        message_bytes(alg, key, table_remove(es, "_auth"@)) == message_bytes(
            alg,
            key,
            table_remove(table_remove(es, "_auth"@), "_auth"@),
        ),
{
    lemma_table_remove_idempotent(es, "_auth"@);
}

/// For MD5 the signature text ends in no `=` padding byte.
pub proof fn lemma_md5_sig_no_padding(key: Seq<u8>, data: Seq<u8>)
    ensures
        sig_value(RndcAlg::MD5, key, data).len() > 0 ==> sig_value(RndcAlg::MD5, key, data)[
            sig_value(RndcAlg::MD5, key, data).len() - 1] != 0x3d,
{
    lemma_strip_trailing(base64_of(hmac_md5_of(key, data)), 0x3d);
}

/// The SHA-family signature slot: exactly 89 bytes, the algorithm's
/// ISCCC code first, the padded base64 text next, zero fill after it.
pub proof fn lemma_sha_sig_slot(alg: RndcAlg, key: Seq<u8>, data: Seq<u8>)
    requires
        alg != RndcAlg::MD5,
    ensures
        sig_value(alg, key, data).len() == 89,
        sig_value(alg, key, data)[0] == spec_alg_code(alg),
        ({
            let text = base64_of(spec_hmac(alg, key, data));
            let t = if text.len() <= 88 {
                text
            } else {
                text.subrange(0, 88)
            };
            &&& (forall|i: int|
                0 <= i < t.len() ==> sig_value(alg, key, data)[1 + i] == t[i])
            &&& (forall|i: int| 1 + t.len() <= i < 89 ==> sig_value(alg, key, data)[i] == 0u8)
        }),
{
}

/// A list as one TLV record.
pub fn list_towire(vals: &[Value]) -> (r: Vec<u8>)
    requires
        wf_items(view_items(vals@)),
        enc_items(view_items(vals@)).len() <= u32::MAX,
    ensures
        r@ == enc_value(WireVal::List(view_items(vals@))),
    decreases vals@, 2nat,
{
    let bufs = items_towire(vals);
    raw_towire(MSGTYPE_LIST, bufs.as_slice())
}

} // verus!
