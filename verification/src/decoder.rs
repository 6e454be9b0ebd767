//! Parsing wire bytes back into a [`Value`] tree: the envelope header
//! checks, then a flat run of key+TLV entries, with nested tables and
//! lists bounded by their declared payload lengths.

use vstd::prelude::*;
use vstd::utf8::{
    decode_utf8, encode_utf8, encode_utf8_decode_utf8, encode_utf8_valid_utf8, is_ascii_chars,
    is_ascii_chars_encode_utf8, valid_utf8,
};

use crate::constants::{
    spec_auth_field, RndcAlg, MSGTYPE_BINARYDATA, MSGTYPE_LIST, MSGTYPE_STRING, MSGTYPE_TABLE,
};
use crate::crypto::utf8_from_bytes;
use crate::encoder::{
    enc_entries, enc_items, enc_key, enc_value, lemma_wf_entry_list_index, message_bytes,
    sig_table, sig_value, wf_entries, wf_entry_list, wf_items, wf_value,
};
use crate::error::RndcError;
use crate::wire::{
    be32_bytes, be32_value, keys_unique, lemma_be32_roundtrip, lemma_table_upsert_absent,
    norm_entries, norm_items, norm_value, table_set, table_upsert, view_entries, view_items,
    view_value, Value, WireVal, lemma_view_entries_index, lemma_view_items_index,
};

verus! {

/// One parsed TLV record: the value and the bytes its record occupies.
/// `None` stands for any malformed record: a truncated header or payload,
/// an unknown tag, an invalid key, or a bad nested scope.
pub open spec fn parse_value(b: Seq<u8>) -> Option<(WireVal, int)>
    decreases b.len(), 0nat,
{
    if b.len() < 5 {
        None
    } else {
        let tag = b[0];
        let len = be32_value(b[1], b[2], b[3], b[4]) as int;
        if 5 + len > b.len() {
            None
        } else {
            let payload = b.subrange(5, 5 + len);
            if tag == MSGTYPE_STRING || tag == MSGTYPE_BINARYDATA {
                if valid_utf8(payload) {
                    Some((WireVal::Text(decode_utf8(payload)), 5 + len))
                } else {
                    Some((WireVal::Bytes(payload), 5 + len))
                }
            } else if tag == MSGTYPE_TABLE {
                match parse_entries(payload, Seq::empty()) {
                    Some(es) => Some((WireVal::Table(es), 5 + len)),
                    None => None,
                }
            } else if tag == MSGTYPE_LIST {
                match parse_items(payload, Seq::empty()) {
                    Some(vs) => Some((WireVal::List(vs), 5 + len)),
                    None => None,
                }
            } else {
                None
            }
        }
    }
}

/// A table scope parsed to exhaustion, entries folded into `acc` with
/// insert-or-replace.
pub open spec fn parse_entries(
    b: Seq<u8>,
    acc: Seq<(Seq<char>, WireVal)>,
) -> Option<Seq<(Seq<char>, WireVal)>>
    decreases b.len(), 1nat,
{
    if b.len() == 0 {
        Some(acc)
    } else {
        let klen = b[0] as int;
        if 1 + klen > b.len() {
            None
        } else if !valid_utf8(b.subrange(1, 1 + klen)) {
            None
        } else {
            let key = decode_utf8(b.subrange(1, 1 + klen));
            let rest = b.subrange(1 + klen, b.len() as int);
            match parse_value(rest) {
                Some((v, c)) => if 5 <= c <= rest.len() {
                    parse_entries(rest.subrange(c, rest.len() as int), table_upsert(acc, key, v))
                } else {
                    None
                },
                None => None,
            }
        }
    }
}

/// A list scope parsed to exhaustion.
pub open spec fn parse_items(b: Seq<u8>, acc: Seq<WireVal>) -> Option<Seq<WireVal>>
    decreases b.len(), 1nat,
{
    if b.len() == 0 {
        Some(acc)
    } else {
        match parse_value(b) {
            Some((v, c)) => if 5 <= c <= b.len() {
                parse_items(b.subrange(c, b.len() as int), acc.push(v))
            } else {
                None
            },
            None => None,
        }
    }
}

pub proof fn lemma_enc_value_min_len(v: WireVal)
    ensures
        enc_value(v).len() >= 5,
{
    match v {
        WireVal::Text(t) => {
            assert(enc_value(v).len() == 5 + encode_utf8(t).len());
        },
        WireVal::Bytes(b) => {
            assert(enc_value(v).len() == 5 + b.len());
        },
        WireVal::Table(es) => {
            assert(enc_value(v).len() == 5 + enc_entries(es).len());
        },
        WireVal::List(vs) => {
            assert(enc_value(v).len() == 5 + enc_items(vs).len());
        },
    }
}

/// Parsing inverts encoding, one record at a time: the encoding of a
/// well-formed value followed by anything parses to its normalisation,
/// consuming exactly the record.
pub proof fn lemma_parse_value_enc(v: WireVal, rest: Seq<u8>)
    requires
        wf_value(v),
    ensures
        parse_value(enc_value(v) + rest) == Some(
            (norm_value(v), enc_value(v).len() as int),
        ),
    decreases v, 0nat,
{
    let e = enc_value(v);
    let b = e + rest;
    let payload = match v {
        WireVal::Text(t) => encode_utf8(t),
        WireVal::Bytes(bb) => bb,
        WireVal::Table(es) => enc_entries(es),
        WireVal::List(vs) => enc_items(vs),
    };
    let len = payload.len() as int;
    assert(len <= u32::MAX);
    lemma_be32_roundtrip(len as u32);
    assert(b.len() == 5 + len + rest.len());
    assert(be32_value(b[1], b[2], b[3], b[4]) == len as u32);
    assert(b.subrange(5, 5 + len) =~= payload);
    match v {
        WireVal::Text(t) => {
            encode_utf8_valid_utf8(t);
            encode_utf8_decode_utf8(t);
        },
        WireVal::Bytes(bb) => {
        },
        WireVal::Table(es) => {
            lemma_parse_entries_enc(es, Seq::empty());
            assert(Seq::empty() + norm_entries(es) =~= norm_entries(es));
        },
        WireVal::List(vs) => {
            lemma_parse_items_enc(vs, Seq::empty());
            assert(Seq::empty() + norm_items(vs) =~= norm_items(vs));
        },
    }
}

/// Parsing a table scope inverts the entry encoding: with keys disjoint
/// from the accumulator, the entries are appended in order, values
/// normalised.
pub proof fn lemma_parse_entries_enc(
    es: Seq<(Seq<char>, WireVal)>,
    acc: Seq<(Seq<char>, WireVal)>,
)
    requires
        wf_entry_list(es),
        keys_unique(es),
        forall|i: int, j: int|
            0 <= i < es.len() && 0 <= j < acc.len() ==> (#[trigger] es[i]).0 != (
            #[trigger] acc[j]).0,
    ensures
        parse_entries(enc_entries(es), acc) == Some(acc + norm_entries(es)),
    decreases es, 1nat,
{
    if es.len() == 0 {
        assert(acc + norm_entries(es) =~= acc);
    } else {
        let k = es[0].0;
        let v = es[0].1;
        let tail = es.subrange(1, es.len() as int);
        let kb = encode_utf8(k);
        let b = enc_entries(es);
        assert(b == enc_key(k) + enc_value(v) + enc_entries(tail));
        encode_utf8_valid_utf8(k);
        encode_utf8_decode_utf8(k);
        assert(b[0] == kb.len() as u8);
        let klen = b[0] as int;
        assert(klen == kb.len());
        assert(b.subrange(1, 1 + klen) =~= kb);
        let restb = b.subrange(1 + klen, b.len() as int);
        assert(restb =~= enc_value(v) + enc_entries(tail));
        lemma_parse_value_enc(v, enc_entries(tail));
        lemma_enc_value_min_len(v);
        let c = enc_value(v).len() as int;
        assert(restb.subrange(c, restb.len() as int) =~= enc_entries(tail));
        let nv = norm_value(v);
        lemma_table_upsert_absent(acc, k, nv);
        assert(table_upsert(acc, k, nv) =~= acc.push((k, nv)));
        let acc2 = acc.push((k, nv));
        assert forall|i: int, j: int| 0 <= i < j < tail.len() implies (#[trigger] tail[i]).0 != (
        #[trigger] tail[j]).0 by {
            assert(tail[i] == es[i + 1] && tail[j] == es[j + 1]);
        }
        assert forall|i: int, j: int|
            0 <= i < tail.len() && 0 <= j < acc2.len() implies (#[trigger] tail[i]).0 != (
        #[trigger] acc2[j]).0 by {
            assert(tail[i] == es[i + 1]);
            if j < acc.len() {
                assert(acc2[j] == acc[j]);
            } else {
                assert(acc2[j].0 == es[0].0);
                assert(es[0].0 != es[i + 1].0);
            }
        }
        lemma_parse_entries_enc(tail, acc2);
        assert(norm_entries(es) == seq![(k, nv)] + norm_entries(tail));
        assert(acc2 + norm_entries(tail) =~= acc + norm_entries(es));
    }
}

/// Parsing a list scope inverts the item encoding, items appended in
/// order and normalised.
pub proof fn lemma_parse_items_enc(vs: Seq<WireVal>, acc: Seq<WireVal>)
    requires
        wf_items(vs),
    ensures
        parse_items(enc_items(vs), acc) == Some(acc + norm_items(vs)),
    decreases vs, 1nat,
{
    if vs.len() == 0 {
        assert(acc + norm_items(vs) =~= acc);
    } else {
        let v = vs[0];
        let tail = vs.subrange(1, vs.len() as int);
        let b = enc_items(vs);
        assert(b == enc_value(v) + enc_items(tail));
        lemma_parse_value_enc(v, enc_items(tail));
        lemma_enc_value_min_len(v);
        let c = enc_value(v).len() as int;
        assert(b.subrange(c, b.len() as int) =~= enc_items(tail));
        lemma_parse_items_enc(tail, acc.push(norm_value(v)));
        assert(norm_items(vs) == seq![norm_value(v)] + norm_items(tail));
        assert(acc.push(norm_value(v)) + norm_items(tail) =~= acc + norm_items(vs));
    }
}

/// The envelope around a top-level body: a length field counting
/// everything after itself, the protocol version, then the body.
pub open spec fn frame(body: Seq<u8>) -> Seq<u8> {
    be32_bytes((4 + body.len()) as u32) + be32_bytes(1u32) + body
}

/// The round trip of the codec: framing the headerless encoding of a
/// well-formed table gives a packet whose header fields check out and
/// whose body parses back to the same table, with every UTF-8 `Bytes`
/// payload surfaced as `Text`.
pub proof fn lemma_decode_inverts_encode(es: Seq<(Seq<char>, WireVal)>)
    requires
        wf_entries(es),
        4 + enc_entries(es).len() <= u32::MAX,
    ensures
        ({
            let body = enc_entries(es);
            let buf = frame(body);
            &&& buf.len() == 8 + body.len()
            &&& be32_value(buf[0], buf[1], buf[2], buf[3]) == 4 + body.len()
            &&& be32_value(buf[4], buf[5], buf[6], buf[7]) == 1
            &&& parse_entries(buf.subrange(8, buf.len() as int), Seq::empty()) == Some(
                norm_entries(es),
            )
        }),
{
    let body = enc_entries(es);
    let buf = frame(body);
    lemma_be32_roundtrip((4 + body.len()) as u32);
    lemma_be32_roundtrip(1u32);
    assert(buf.subrange(8, buf.len() as int) =~= body);
    lemma_parse_entries_enc(es, Seq::empty());
    assert(Seq::empty() + norm_entries(es) =~= norm_entries(es));
}

pub proof fn lemma_enc_entries_concat(es1: Seq<(Seq<char>, WireVal)>, es2: Seq<(Seq<char>, WireVal)>)
    ensures
        enc_entries(es1 + es2) == enc_entries(es1) + enc_entries(es2),
    decreases es1,
{
    if es1.len() == 0 {
        assert(es1 + es2 =~= es2);
        assert(enc_entries(es1) + enc_entries(es2) =~= enc_entries(es2));
    } else {
        let tail = es1.subrange(1, es1.len() as int);
        lemma_enc_entries_concat(tail, es2);
        assert((es1 + es2).subrange(1, (es1 + es2).len() as int) =~= tail + es2);
        assert((es1 + es2)[0] == es1[0]);
        assert(enc_entries(es1 + es2) =~= enc_entries(es1) + enc_entries(es2));
    }
}

/// The round trip of a whole signed message: the framed bytes that the
/// message encoder produces for a well-formed body without an `_auth`
/// entry decode to the `_auth` table followed by that body, normalised.
/// The bounds are those the signer guarantees and the length field
/// forces.
pub proof fn lemma_decode_inverts_message(alg: RndcAlg, key: Seq<u8>, body: Seq<(Seq<char>, WireVal)>)
    requires
        wf_entries(body),
        forall|j: int| 0 <= j < body.len() ==> (#[trigger] body[j]).0 != "_auth"@,
        sig_value(alg, key, enc_entries(body)).len() <= 89,
        enc_entries(body).len() + 120 <= u32::MAX,
    ensures
        spec_decode(message_bytes(alg, key, body)) == Some(
            norm_entries(
                seq![("_auth"@, WireVal::Table(sig_table(alg, key, enc_entries(body))))] + body,
            ),
        ),
{
    let databuf = enc_entries(body);
    let st = sig_table(alg, key, databuf);
    let auth_entry = ("_auth"@, WireVal::Table(st));
    let all = seq![auth_entry] + body;
    let sigbuf = enc_entries(seq![auth_entry]);
    reveal_strlit("_auth");
    reveal_strlit("hmd5");
    reveal_strlit("hsha");
    assert(is_ascii_chars("_auth"@));
    is_ascii_chars_encode_utf8("_auth"@);
    assert(is_ascii_chars(spec_auth_field(alg)));
    is_ascii_chars_encode_utf8(spec_auth_field(alg));
    // The `_auth` table is itself well-formed and small.
    assert(st.subrange(1, 1) =~= Seq::<(Seq<char>, WireVal)>::empty());
    assert(st[0] == (spec_auth_field(alg), WireVal::Bytes(sig_value(alg, key, databuf))));
    assert(encode_utf8(st[0].0).len() <= 255);
    assert(wf_value(st[0].1));
    assert(enc_entries(st) == enc_key(st[0].0) + enc_value(st[0].1) + enc_entries(
        st.subrange(1, 1),
    ));
    assert(enc_entries(st).len() == 10 + sig_value(alg, key, databuf).len());
    assert(wf_entry_list(st.subrange(1, 1)));
    assert(st.subrange(1, st.len() as int) =~= st.subrange(1, 1));
    assert(wf_entry_list(st));
    assert(wf_entries(st));
    assert(wf_value(WireVal::Table(st)));
    // The combined entry run is well-formed with unique keys.
    lemma_wf_entry_list_index(body);
    lemma_wf_entry_list_index(all);
    assert forall|i: int| 0 <= i < all.len() implies encode_utf8((#[trigger] all[i]).0).len()
        <= 255 && wf_value(all[i].1) by {
        if i > 0 {
            assert(all[i] == body[i - 1]);
        }
    }
    assert forall|i: int, j: int| 0 <= i < j < all.len() implies (#[trigger] all[i]).0 != (
    #[trigger] all[j]).0 by {
        if i == 0 {
            assert(all[j] == body[j - 1]);
        } else {
            assert(all[i] == body[i - 1] && all[j] == body[j - 1]);
        }
    }
    assert(wf_entries(all));
    // The message is exactly the framed encoding of the combined run.
    lemma_enc_entries_concat(seq![auth_entry], all.subrange(1, all.len() as int));
    assert(all.subrange(1, all.len() as int) =~= body);
    lemma_enc_entries_concat(seq![auth_entry], body);
    assert(enc_entries(all) =~= sigbuf + databuf);
    assert(seq![auth_entry].subrange(1, 1) =~= Seq::<(Seq<char>, WireVal)>::empty());
    assert(sigbuf == enc_key("_auth"@) + enc_value(WireVal::Table(st)) + enc_entries(
        seq![auth_entry].subrange(1, 1),
    ));
    assert(sigbuf.len() == 6 + 5 + enc_entries(st).len());
    assert(4 + enc_entries(all).len() <= u32::MAX);
    lemma_decode_inverts_encode(all);
    let buf = frame(enc_entries(all));
    assert(message_bytes(alg, key, body) =~= buf);
    lemma_be32_roundtrip((4 + enc_entries(all).len()) as u32);
    lemma_be32_roundtrip(1u32);
    assert(spec_decode(buf) == Some(norm_entries(all)));
}

/// Reads the big-endian `u32` at `pos`.
pub fn read_be32(buf: &[u8], pos: usize) -> (n: u32)
    requires
        pos + 4 <= buf@.len(),
    ensures
        n == be32_value(
            buf@[pos as int],
            buf@[pos as int + 1],
            buf@[pos as int + 2],
            buf@[pos as int + 3],
        ),
{
    ((buf[pos] as u32) << 24) | ((buf[pos + 1] as u32) << 16) | ((buf[pos + 2] as u32) << 8) | (
    buf[pos + 3] as u32)
}

/// A `Text`/`Bytes` payload: valid UTF-8 comes back as `Text`, anything
/// else as raw `Bytes`.
pub fn binary_fromwire(buf: &[u8], start: usize, end: usize) -> (r: Result<Value, RndcError>)
    requires
        start <= end <= buf@.len(),
    ensures
        r matches Ok(v) && view_value(v) == (if valid_utf8(buf@.subrange(start as int, end as int)) {
            WireVal::Text(decode_utf8(buf@.subrange(start as int, end as int)))
        } else {
            WireVal::Bytes(buf@.subrange(start as int, end as int))
        }),
{
    let slice = vstd::slice::slice_subrange(buf, start, end);
    let bytes = vstd::slice::slice_to_vec(slice);
    match utf8_from_bytes(bytes) {
        Ok(s) => Ok(Value::Text(s)),
        Err(b) => Ok(Value::Bytes(b)),
    }
}

/// A table entry's key: length byte, then that many key bytes, which must
/// be valid UTF-8.  Returns the key and the position just after it.
pub fn key_fromwire(buf: &[u8], start: usize, end: usize) -> (r: Result<
    (String, usize),
    RndcError,
>)
    requires
        start < end <= buf@.len(),
    ensures
        ({
            let sub = buf@.subrange(start as int, end as int);
            let klen = sub[0] as int;
            if 1 + klen > sub.len() {
                r is Err && (r matches Err(e) ==> e is DecodingError)
            } else if !valid_utf8(sub.subrange(1, 1 + klen)) {
                r is Err && (r matches Err(e) ==> e is DecodingError)
            } else {
                r matches Ok((s, pos)) && s@ == decode_utf8(sub.subrange(1, 1 + klen)) && pos
                    == start + 1 + klen
            }
        }),
{
    let klen = buf[start] as usize;
    if klen > end - start - 1 {
        return Err(RndcError::DecodingError(String::from_str("truncated table key")));
    }
    let kslice = vstd::slice::slice_subrange(buf, start + 1, start + 1 + klen);
    let kbytes = vstd::slice::slice_to_vec(kslice);
    proof {
        let sub = buf@.subrange(start as int, end as int);
        assert(kbytes@ =~= sub.subrange(1, 1 + sub[0] as int));
    }
    match utf8_from_bytes(kbytes) {
        Ok(s) => Ok((s, start + 1 + klen)),
        Err(_) => Err(RndcError::DecodingError(String::from_str("table key is not UTF-8"))),
    }
}

/// One TLV record starting at `start` within the scope ending at `end`:
/// the decoded value and the position just after the record.
pub fn value_fromwire(buf: &[u8], start: usize, end: usize) -> (r: Result<
    (Value, usize),
    RndcError,
>)
    requires
        start <= end <= buf@.len(),
    ensures
        ({
            match parse_value(buf@.subrange(start as int, end as int)) {
                Some((v, c)) => r matches Ok((val, pos)) && view_value(val) == v && pos == start
                    + c && start + 5 <= pos <= end,
                None => r is Err && (r matches Err(e) ==> e is DecodingError),
            }
        }),
    decreases end - start, 0nat,
{
    let ghost sub = buf@.subrange(start as int, end as int);
    if end - start < 5 {
        return Err(RndcError::DecodingError(String::from_str("truncated value record")));
    }
    let tag = buf[start];
    let len32 = read_be32(buf, start + 1);
    let len = len32 as usize;
    if len > end - start - 5 {
        return Err(RndcError::DecodingError(String::from_str("truncated value payload")));
    }
    let pstart = start + 5;
    let pend = pstart + len;
    proof {
        assert(sub[0] == buf@[start as int]);
        assert(sub[1] == buf@[start as int + 1] && sub[2] == buf@[start as int + 2] && sub[3]
            == buf@[start as int + 3] && sub[4] == buf@[start as int + 4]);
        assert(sub.subrange(5, 5 + len as int) =~= buf@.subrange(pstart as int, pend as int));
    }
    if tag == MSGTYPE_STRING || tag == MSGTYPE_BINARYDATA {
        match binary_fromwire(buf, pstart, pend) {
            Ok(v) => Ok((v, pend)),
            Err(e) => Err(e),
        }
    } else if tag == MSGTYPE_TABLE {
        match table_fromwire(buf, pstart, pend) {
            Ok(es) => Ok((Value::Table(es), pend)),
            Err(e) => Err(e),
        }
    } else if tag == MSGTYPE_LIST {
        match list_fromwire(buf, pstart, pend) {
            Ok(vs) => Ok((Value::List(vs), pend)),
            Err(e) => Err(e),
        }
    } else {
        Err(RndcError::DecodingError(String::from_str("Unknown RNDC message type")))
    }
}

/// The run of key+value entries filling `[start, end)`, folded into `acc`.
fn entries_fromwire(buf: &[u8], start: usize, end: usize, acc: Vec<(String, Value)>) -> (r: Result<
    Vec<(String, Value)>,
    RndcError,
>)
    requires
        start <= end <= buf@.len(),
    ensures
        ({
            match parse_entries(buf@.subrange(start as int, end as int), view_entries(acc@)) {
                Some(es) => r matches Ok(out) && view_entries(out@) == es,
                None => r is Err && (r matches Err(e) ==> e is DecodingError),
            }
        }),
    decreases end - start, 2nat,
{
    let ghost sub = buf@.subrange(start as int, end as int);
    if start == end {
        return Ok(acc);
    }
    let (key, kpos) = match key_fromwire(buf, start, end) {
        Ok(kp) => kp,
        Err(e) => {
            return Err(e);
        },
    };
    proof {
        assert(sub[0] == buf@[start as int]);
        assert(sub.subrange(1 + sub[0] as int, sub.len() as int) =~= buf@.subrange(
            kpos as int,
            end as int,
        ));
    }
    let (val, vpos) = match value_fromwire(buf, kpos, end) {
        Ok(vp) => vp,
        Err(e) => {
            return Err(e);
        },
    };
    proof {
        let rest = sub.subrange(1 + sub[0] as int, sub.len() as int);
        assert(rest.subrange(vpos - kpos, rest.len() as int) =~= buf@.subrange(
            vpos as int,
            end as int,
        ));
    }
    let mut acc2 = acc;
    table_set(&mut acc2, key, val);
    entries_fromwire(buf, vpos, end, acc2)
}

/// A full table scope: the entries of `[start, end)`.
pub fn table_fromwire(buf: &[u8], start: usize, end: usize) -> (r: Result<
    Vec<(String, Value)>,
    RndcError,
>)
    requires
        start <= end <= buf@.len(),
    ensures
        ({
            match parse_entries(buf@.subrange(start as int, end as int), Seq::empty()) {
                Some(es) => r matches Ok(out) && view_entries(out@) == es,
                None => r is Err && (r matches Err(e) ==> e is DecodingError),
            }
        }),
    decreases end - start, 3nat,
{
    let acc: Vec<(String, Value)> = Vec::new();
    proof {
        assert(view_entries(acc@) =~= Seq::<(Seq<char>, WireVal)>::empty());
    }
    entries_fromwire(buf, start, end, acc)
}

/// The run of TLV records filling `[start, end)`, appended to `acc`.
fn items_fromwire(buf: &[u8], start: usize, end: usize, acc: Vec<Value>) -> (r: Result<
    Vec<Value>,
    RndcError,
>)
    requires
        start <= end <= buf@.len(),
    ensures
        ({
            match parse_items(buf@.subrange(start as int, end as int), view_items(acc@)) {
                Some(vs) => r matches Ok(out) && view_items(out@) == vs,
                None => r is Err && (r matches Err(e) ==> e is DecodingError),
            }
        }),
    decreases end - start, 2nat,
{
    let ghost sub = buf@.subrange(start as int, end as int);
    if start == end {
        return Ok(acc);
    }
    let (val, vpos) = match value_fromwire(buf, start, end) {
        Ok(vp) => vp,
        Err(e) => {
            return Err(e);
        },
    };
    proof {
        assert(sub.subrange(vpos - start, sub.len() as int) =~= buf@.subrange(
            vpos as int,
            end as int,
        ));
    }
    let ghost acc_model = acc@;
    let ghost old_items = view_items(acc@);
    let ghost vmodel = view_value(val);
    let mut acc2 = acc;
    acc2.push(val);
    proof {
        lemma_view_items_index(acc_model);
        lemma_view_items_index(acc2@);
        assert(view_items(acc2@) =~= old_items.push(vmodel));
    }
    items_fromwire(buf, vpos, end, acc2)
}

/// A full list scope: the values of `[start, end)`.
pub fn list_fromwire(buf: &[u8], start: usize, end: usize) -> (r: Result<Vec<Value>, RndcError>)
    requires
        start <= end <= buf@.len(),
    ensures
        ({
            match parse_items(buf@.subrange(start as int, end as int), Seq::empty()) {
                Some(vs) => r matches Ok(out) && view_items(out@) == vs,
                None => r is Err && (r matches Err(e) ==> e is DecodingError),
            }
        }),
    decreases end - start, 3nat,
{
    let acc: Vec<Value> = Vec::new();
    proof {
        assert(view_items(acc@) =~= Seq::<WireVal>::empty());
    }
    items_fromwire(buf, start, end, acc)
}

/// What a whole packet decodes to, if anything: the header checks, then
/// the flat entry run.
pub open spec fn spec_decode(buf: Seq<u8>) -> Option<Seq<(Seq<char>, WireVal)>> {
    if buf.len() < 8 {
        None
    } else if be32_value(buf[0], buf[1], buf[2], buf[3]) != buf.len() - 4 {
        None
    } else if be32_value(buf[4], buf[5], buf[6], buf[7]) != 1 {
        None
    } else {
        parse_entries(buf.subrange(8, buf.len() as int), Seq::empty())
    }
}

/// Decodes a complete framed packet: the length field must match the
/// remaining byte count exactly, the protocol version must be 1, and the
/// rest is a flat run of key+TLV entries.
pub fn decode(buf: &[u8]) -> (r: Result<Vec<(String, Value)>, RndcError>)
    ensures
        r is Ok <==> spec_decode(buf@) is Some,
        r matches Ok(t) ==> spec_decode(buf@) == Some(view_entries(t@)),
        buf@.len() < 4 ==> r is Err && (r matches Err(e) ==> e is DecodingError),
        buf@.len() >= 4 ==> ({
            let declared = be32_value(buf@[0], buf@[1], buf@[2], buf@[3]) as int;
            if declared != buf@.len() - 4 {
                &&& r is Err
                &&& (r matches Err(e) ==> e matches RndcError::DecodingError(m) && m@
                    == "RNDC buffer length mismatch"@)
            } else if buf@.len() < 8 {
                r is Err && (r matches Err(e) ==> e is DecodingError)
            } else if be32_value(buf@[4], buf@[5], buf@[6], buf@[7]) != 1 {
                &&& r is Err
                &&& (r matches Err(e) ==> e matches RndcError::DecodingError(m) && m@
                    == "Unknown RNDC protocol version"@)
            } else {
                match parse_entries(buf@.subrange(8, buf@.len() as int), Seq::empty()) {
                    Some(es) => r matches Ok(t) && view_entries(t@) == es,
                    None => r is Err && (r matches Err(e) ==> e is DecodingError),
                }
            }
        }),
{
    let n = buf.len();
    if n < 4 {
        return Err(RndcError::DecodingError(String::from_str("RNDC buffer too short")));
    }
    let declared = read_be32(buf, 0);
    if (declared as u64) != (n as u64) - 4 {
        return Err(RndcError::DecodingError(String::from_str("RNDC buffer length mismatch")));
    }
    if n < 8 {
        return Err(RndcError::DecodingError(String::from_str("RNDC buffer too short")));
    }
    let version = read_be32(buf, 4);
    if version != 1 {
        return Err(RndcError::DecodingError(String::from_str("Unknown RNDC protocol version")));
    }
    table_fromwire(buf, 8, n)
}

} // verus!
