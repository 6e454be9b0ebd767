//! The tagged-value tree that RNDC messages are built from, its mathematical
//! model, and the big-endian length fields of the wire format.

use vstd::prelude::*;
use vstd::utf8::{decode_utf8, valid_utf8};

use crate::utils::str_eq;

verus! {

/// A node of an RNDC message tree.
///
/// `Text` is produced by the decoder whenever a payload is valid UTF-8;
/// encoder input is normally built from `Bytes`.  A `Table` keeps its
/// entries in insertion order, which the wire format preserves.
#[derive(Debug)]
pub enum Value {
    Text(String),
    Bytes(Vec<u8>),
    Table(Vec<(String, Value)>),
    List(Vec<Value>),
}

/// The mathematical model of a [`Value`]: the same tree over `Seq`.
#[verifier::ext_equal]
pub enum WireVal {
    Text(Seq<char>),
    Bytes(Seq<u8>),
    Table(Seq<(Seq<char>, WireVal)>),
    List(Seq<WireVal>),
}

pub open spec fn view_value(v: Value) -> WireVal
    decreases v,
{
    match v {
        Value::Text(s) => WireVal::Text(s@),
        Value::Bytes(b) => WireVal::Bytes(b@),
        Value::Table(es) => WireVal::Table(view_entries(es@)),
        Value::List(vs) => WireVal::List(view_items(vs@)),
    }
}

pub open spec fn view_entries(es: Seq<(String, Value)>) -> Seq<(Seq<char>, WireVal)>
    decreases es,
{
    if es.len() == 0 {
        Seq::empty()
    } else {
        seq![(es[0].0@, view_value(es[0].1))] + view_entries(es.subrange(1, es.len() as int))
    }
}

pub open spec fn view_items(vs: Seq<Value>) -> Seq<WireVal>
    decreases vs,
{
    if vs.len() == 0 {
        Seq::empty()
    } else {
        seq![view_value(vs[0])] + view_items(vs.subrange(1, vs.len() as int))
    }
}

impl View for Value {
    type V = WireVal;

    open spec fn view(&self) -> WireVal {
        view_value(*self)
    }
}

/// The normalisation that one decode/encode round trip applies to a tree:
/// every `Bytes` payload that happens to be valid UTF-8 comes back as `Text`.
pub open spec fn norm_value(v: WireVal) -> WireVal
    decreases v,
{
    match v {
        WireVal::Text(t) => WireVal::Text(t),
        WireVal::Bytes(b) => if valid_utf8(b) {
            WireVal::Text(decode_utf8(b))
        } else {
            WireVal::Bytes(b)
        },
        WireVal::Table(es) => WireVal::Table(norm_entries(es)),
        WireVal::List(vs) => WireVal::List(norm_items(vs)),
    }
}

pub open spec fn norm_entries(es: Seq<(Seq<char>, WireVal)>) -> Seq<(Seq<char>, WireVal)>
    decreases es,
{
    if es.len() == 0 {
        Seq::empty()
    } else {
        seq![(es[0].0, norm_value(es[0].1))] + norm_entries(es.subrange(1, es.len() as int))
    }
}

pub open spec fn norm_items(vs: Seq<WireVal>) -> Seq<WireVal>
    decreases vs,
{
    if vs.len() == 0 {
        Seq::empty()
    } else {
        seq![norm_value(vs[0])] + norm_items(vs.subrange(1, vs.len() as int))
    }
}

/// No two entries of the table share a key.
pub open spec fn keys_unique(es: Seq<(Seq<char>, WireVal)>) -> bool {
    forall|i: int, j: int| 0 <= i < j < es.len() ==> #[trigger] es[i].0 != #[trigger] es[j].0
}

/// The value stored under `k`, if any (first occurrence).
pub open spec fn table_lookup(es: Seq<(Seq<char>, WireVal)>, k: Seq<char>) -> Option<WireVal>
    decreases es,
{
    if es.len() == 0 {
        None
    } else if es[0].0 == k {
        Some(es[0].1)
    } else {
        table_lookup(es.subrange(1, es.len() as int), k)
    }
}

/// Insert-or-replace: a present key keeps its position and gets the new
/// value; an absent key is appended.
pub open spec fn table_upsert(
    es: Seq<(Seq<char>, WireVal)>,
    k: Seq<char>,
    v: WireVal,
) -> Seq<(Seq<char>, WireVal)>
    decreases es,
{
    if es.len() == 0 {
        seq![(k, v)]
    } else if es[0].0 == k {
        seq![(k, v)] + es.subrange(1, es.len() as int)
    } else {
        seq![es[0]] + table_upsert(es.subrange(1, es.len() as int), k, v)
    }
}

/// The table without any entry keyed `k`.
pub open spec fn table_remove(
    es: Seq<(Seq<char>, WireVal)>,
    k: Seq<char>,
) -> Seq<(Seq<char>, WireVal)>
    decreases es,
{
    if es.len() == 0 {
        Seq::empty()
    } else if es[0].0 == k {
        table_remove(es.subrange(1, es.len() as int), k)
    } else {
        seq![es[0]] + table_remove(es.subrange(1, es.len() as int), k)
    }
}

/// The four bytes of `n` in big-endian order.
pub open spec fn be32_bytes(n: u32) -> Seq<u8> {
    seq![
        ((n >> 24) & 0xff) as u8,
        ((n >> 16) & 0xff) as u8,
        ((n >> 8) & 0xff) as u8,
        (n & 0xff) as u8,
    ]
}

/// The value of four big-endian bytes.
pub open spec fn be32_value(b0: u8, b1: u8, b2: u8, b3: u8) -> u32 {
    ((b0 as u32) << 24) | ((b1 as u32) << 16) | ((b2 as u32) << 8) | (b3 as u32)
}

pub proof fn lemma_be32_roundtrip(n: u32)
    ensures
        be32_value(
            ((n >> 24) & 0xff) as u8,
            ((n >> 16) & 0xff) as u8,
            ((n >> 8) & 0xff) as u8,
            (n & 0xff) as u8,
        ) == n,
{
    assert(((((n >> 24) & 0xff) as u8 as u32) << 24) | ((((n >> 16) & 0xff) as u8 as u32) << 16)
        | ((((n >> 8) & 0xff) as u8 as u32) << 8) | ((n & 0xff) as u8 as u32) == n)
        by (bit_vector);
}

/// Index-wise description of `view_entries`, which is otherwise only usable
/// through its head-first recursion.
pub proof fn lemma_view_entries_index(es: Seq<(String, Value)>)
    ensures
        view_entries(es).len() == es.len(),
        forall|i: int|
            0 <= i < es.len() ==> #[trigger] view_entries(es)[i] == (es[i].0@, view_value(
                es[i].1,
            )),
    decreases es,
{
    if es.len() > 0 {
        lemma_view_entries_index(es.subrange(1, es.len() as int));
    }
}

pub proof fn lemma_table_lookup_absent(es: Seq<(Seq<char>, WireVal)>, k: Seq<char>)
    requires
        forall|j: int| 0 <= j < es.len() ==> (#[trigger] es[j]).0 != k,
    ensures
        table_lookup(es, k) is None,
    decreases es,
{
    if es.len() > 0 {
        lemma_table_lookup_absent(es.subrange(1, es.len() as int), k);
    }
}

pub proof fn lemma_table_lookup_found(es: Seq<(Seq<char>, WireVal)>, k: Seq<char>, i: int)
    requires
        0 <= i < es.len(),
        es[i].0 == k,
        forall|j: int| 0 <= j < i ==> (#[trigger] es[j]).0 != k,
    ensures
        table_lookup(es, k) == Some(es[i].1),
    decreases es,
{
    if i > 0 {
        lemma_table_lookup_found(es.subrange(1, es.len() as int), k, i - 1);
    }
}

pub proof fn lemma_table_upsert_found(es: Seq<(Seq<char>, WireVal)>, k: Seq<char>, v: WireVal, i: int)
    requires
        0 <= i < es.len(),
        es[i].0 == k,
        forall|j: int| 0 <= j < i ==> (#[trigger] es[j]).0 != k,
    ensures
        table_upsert(es, k, v) =~= es.update(i, (k, v)),
    decreases es,
{
    if i > 0 {
        lemma_table_upsert_found(es.subrange(1, es.len() as int), k, v, i - 1);
    }
}

pub proof fn lemma_table_upsert_absent(es: Seq<(Seq<char>, WireVal)>, k: Seq<char>, v: WireVal)
    requires
        forall|j: int| 0 <= j < es.len() ==> (#[trigger] es[j]).0 != k,
    ensures
        table_upsert(es, k, v) =~= es.push((k, v)),
    decreases es,
{
    if es.len() > 0 {
        lemma_table_upsert_absent(es.subrange(1, es.len() as int), k, v);
    }
}

pub proof fn lemma_table_remove_absent(es: Seq<(Seq<char>, WireVal)>, k: Seq<char>)
    requires
        forall|j: int| 0 <= j < es.len() ==> (#[trigger] es[j]).0 != k,
    ensures
        table_remove(es, k) =~= es,
    decreases es,
{
    if es.len() > 0 {
        lemma_table_remove_absent(es.subrange(1, es.len() as int), k);
    }
}

pub proof fn lemma_table_remove_found(es: Seq<(Seq<char>, WireVal)>, k: Seq<char>, i: int)
    requires
        0 <= i < es.len(),
        es[i].0 == k,
        forall|j: int| 0 <= j < es.len() && j != i ==> (#[trigger] es[j]).0 != k,
    ensures
        table_remove(es, k) =~= es.subrange(0, i) + es.subrange(i + 1, es.len() as int),
    decreases es,
{
    let rest = es.subrange(1, es.len() as int);
    if i == 0 {
        lemma_table_remove_absent(rest, k);
        assert(table_remove(es, k) =~= rest);
        assert(es.subrange(0, 0) + es.subrange(1, es.len() as int) =~= rest);
    } else {
        lemma_table_remove_found(rest, k, i - 1);
        assert(rest.subrange(0, i - 1) =~= es.subrange(1, i));
        assert(rest.subrange(i, rest.len() as int) =~= es.subrange(i + 1, es.len() as int));
        assert(table_remove(es, k) =~= seq![es[0]] + (rest.subrange(0, i - 1) + rest.subrange(
            i,
            rest.len() as int,
        )));
    }
}

pub proof fn lemma_view_items_index(vs: Seq<Value>)
    ensures
        view_items(vs).len() == vs.len(),
        forall|i: int| 0 <= i < vs.len() ==> #[trigger] view_items(vs)[i] == view_value(vs[i]),
    decreases vs,
{
    if vs.len() > 0 {
        lemma_view_items_index(vs.subrange(1, vs.len() as int));
    }
}

/// The index of the entry keyed `key`, if any.
pub fn table_find(es: &Vec<(String, Value)>, key: &str) -> (r: Option<usize>)
    ensures
        match r {
            Some(i) => i < es@.len() && es@[i as int].0@ == key@ && (forall|j: int|
                0 <= j < i ==> (#[trigger] es@[j]).0@ != key@),
            None => forall|j: int| 0 <= j < es@.len() ==> (#[trigger] es@[j]).0@ != key@,
        },
{
    let n = es.len();
    let mut i: usize = 0;
    while i < n
        invariant
            n == es@.len(),
            i <= n,
            forall|j: int| 0 <= j < i ==> (#[trigger] es@[j]).0@ != key@,
        decreases n - i,
    {
        if str_eq(es[i].0.as_str(), key) {
            return Some(i);
        }
        i = i + 1;
    }
    None
}

/// The value stored under `key`, by reference.
pub fn table_get<'a>(es: &'a Vec<(String, Value)>, key: &str) -> (r: Option<&'a Value>)
    ensures
        match r {
            Some(v) => table_lookup(view_entries(es@), key@) == Some(view_value(*v)),
            None => table_lookup(view_entries(es@), key@) is None,
        },
{
    proof {
        lemma_view_entries_index(es@);
    }
    match table_find(es, key) {
        Some(i) => {
            proof {
                lemma_table_lookup_found(view_entries(es@), key@, i as int);
            }
            Some(&es[i].1)
        },
        None => {
            proof {
                lemma_table_lookup_absent(view_entries(es@), key@);
            }
            None
        },
    }
}

/// Insert-or-replace, keeping a present key's position.
pub fn table_set(es: &mut Vec<(String, Value)>, key: String, val: Value)
    ensures
        view_entries(final(es)@) =~= table_upsert(view_entries(old(es)@), key@, view_value(val)),
{
    let ghost kv = key@;
    let ghost vv = view_value(val);
    let ghost old_model = view_entries(es@);
    proof {
        lemma_view_entries_index(es@);
    }
    match table_find(es, key.as_str()) {
        Some(i) => {
            es[i] = (key, val);
            proof {
                lemma_view_entries_index(es@);
                lemma_table_upsert_found(old_model, kv, vv, i as int);
                assert(view_entries(es@) =~= old_model.update(i as int, (kv, vv)));
            }
        },
        None => {
            es.push((key, val));
            proof {
                lemma_view_entries_index(es@);
                lemma_table_upsert_absent(old_model, kv, vv);
                assert(view_entries(es@) =~= old_model.push((kv, vv)));
            }
        },
    }
}

/// Removes the entry keyed `key`, if present.  The table must not hold
/// duplicate keys, which no constructor of this library produces.
pub fn table_remove_key(es: &mut Vec<(String, Value)>, key: &str)
    requires
        keys_unique(view_entries(old(es)@)),
    ensures
        view_entries(final(es)@) =~= table_remove(view_entries(old(es)@), key@),
{
    let ghost old_model = view_entries(es@);
    proof {
        lemma_view_entries_index(es@);
    }
    match table_find(es, key) {
        Some(i) => {
            es.remove(i);
            proof {
                lemma_view_entries_index(es@);
                assert forall|j: int|
                    0 <= j < old_model.len() && j != i as int implies (#[trigger] old_model[j]).0
                    != key@ by {
                    if j > i as int {
                        assert(old_model[i as int].0 == key@);
                        assert(old_model[i as int].0 != old_model[j].0);
                    }
                }
                lemma_table_remove_found(old_model, key@, i as int);
                assert(view_entries(es@) =~= old_model.subrange(0, i as int) + old_model.subrange(
                    i as int + 1,
                    old_model.len() as int,
                ));
            }
        },
        None => {
            proof {
                lemma_table_remove_absent(old_model, key@);
            }
        },
    }
}

} // verus!
