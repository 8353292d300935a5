use vstd::prelude::*;
use vstd::utf8::{encode_utf8, encode_utf8_valid_utf8, encode_utf8_decode_utf8};
use crate::proto::{ValueV, KvpairV, RequestV, ResponseV};
use crate::wire::{
    ser_u32, ser_u64, ser_bytes, ser_str, ser_opt_u64, ser_value, ser_kvpair, ser_strs,
    ser_values, ser_kvs, ser_str_list, ser_value_list, ser_kv_list, ser_req, ser_resp, comb_u32,
    comb_u64, wf_bytes, wf_str, wf_value, wf_kvpair, wf_str_list, wf_value_list, wf_kv_list,
    wf_req, wf_resp, p_u8, p_u32, p_u64, p_bytes, p_str, p_opt_u64, p_value, p_kvpair, p_strs,
    p_values, p_kvs, p_str_list, p_value_list, p_kv_list, p_req, p_resp, parse_request,
    parse_response,
};

verus! {

// Each lemma here says that a parser, applied to the canonical bytes of
// a value followed by anything, returns that value and consumes exactly
// those bytes.

pub proof fn lemma_p_u8(b: u8, rest: Seq<u8>)
    ensures
        p_u8(seq![b] + rest) == Some((b, rest)),
{
    let s = seq![b] + rest;
    assert(s[0] == b);
    assert(s.skip(1) =~= rest);
}

pub proof fn lemma_p_u32(x: u32, rest: Seq<u8>)
    ensures
        p_u32(ser_u32(x) + rest) == Some((x, rest)),
{
    let s = ser_u32(x) + rest;
    assert(s[0] == ((x >> 24) & 0xff) as u8);
    assert(s[1] == ((x >> 16) & 0xff) as u8);
    assert(s[2] == ((x >> 8) & 0xff) as u8);
    assert(s[3] == (x & 0xff) as u8);
    assert(comb_u32(
        ((x >> 24) & 0xff) as u8,
        ((x >> 16) & 0xff) as u8,
        ((x >> 8) & 0xff) as u8,
        (x & 0xff) as u8,
    ) == x) by (bit_vector);
    assert(s.skip(4) =~= rest);
}

pub proof fn lemma_p_u64(x: u64, rest: Seq<u8>)
    ensures
        p_u64(ser_u64(x) + rest) == Some((x, rest)),
{
    let s = ser_u64(x) + rest;
    assert(s[0] == ((x >> 56) & 0xff) as u8);
    assert(s[1] == ((x >> 48) & 0xff) as u8);
    assert(s[2] == ((x >> 40) & 0xff) as u8);
    assert(s[3] == ((x >> 32) & 0xff) as u8);
    assert(s[4] == ((x >> 24) & 0xff) as u8);
    assert(s[5] == ((x >> 16) & 0xff) as u8);
    assert(s[6] == ((x >> 8) & 0xff) as u8);
    assert(s[7] == (x & 0xff) as u8);
    assert(comb_u64(
        ((x >> 56) & 0xff) as u8,
        ((x >> 48) & 0xff) as u8,
        ((x >> 40) & 0xff) as u8,
        ((x >> 32) & 0xff) as u8,
        ((x >> 24) & 0xff) as u8,
        ((x >> 16) & 0xff) as u8,
        ((x >> 8) & 0xff) as u8,
        (x & 0xff) as u8,
    ) == x) by (bit_vector);
    assert(s.skip(8) =~= rest);
}

pub proof fn lemma_p_bytes(b: Seq<u8>, rest: Seq<u8>)
    requires
        wf_bytes(b),
    ensures
        p_bytes(ser_bytes(b) + rest) == Some((b, rest)),
{
    let n = b.len() as u32;
    let s = ser_bytes(b) + rest;
    assert(s =~= ser_u32(n) + (b + rest));
    lemma_p_u32(n, b + rest);
    let r = b + rest;
    assert(r.take(n as int) =~= b);
    assert(r.skip(n as int) =~= rest);
}

pub proof fn lemma_p_str(t: Seq<char>, rest: Seq<u8>)
    requires
        wf_str(t),
    ensures
        p_str(ser_str(t) + rest) == Some((t, rest)),
{
    broadcast use encode_utf8_valid_utf8, encode_utf8_decode_utf8;

    lemma_p_bytes(encode_utf8(t), rest);
}

pub proof fn lemma_p_opt_u64(o: Option<u64>, rest: Seq<u8>)
    ensures
        p_opt_u64(ser_opt_u64(o) + rest) == Some((o, rest)),
{
    match o {
        Option::None => {
            lemma_p_u8(0, rest);
        },
        Option::Some(x) => {
            let s = ser_opt_u64(o) + rest;
            assert(s =~= seq![1u8] + (ser_u64(x) + rest));
            lemma_p_u8(1, ser_u64(x) + rest);
            lemma_p_u64(x, rest);
        },
    }
}

pub proof fn lemma_p_value(v: ValueV, rest: Seq<u8>)
    requires
        wf_value(v),
    ensures
        p_value(ser_value(v) + rest) == Some((v, rest)),
{
    let s = ser_value(v) + rest;
    match v {
        ValueV::Absent => {
            lemma_p_u8(0, rest);
        },
        ValueV::Int(i) => {
            assert(s =~= seq![1u8] + (ser_u64(i as u64) + rest));
            lemma_p_u8(1, ser_u64(i as u64) + rest);
            lemma_p_u64(i as u64, rest);
            assert(((i as u64) as i64) == i) by (bit_vector);
        },
        ValueV::Double(b) => {
            assert(s =~= seq![2u8] + (ser_u64(b) + rest));
            lemma_p_u8(2, ser_u64(b) + rest);
            lemma_p_u64(b, rest);
        },
        ValueV::Str(t) => {
            assert(s =~= seq![3u8] + (ser_str(t) + rest));
            lemma_p_u8(3, ser_str(t) + rest);
            lemma_p_str(t, rest);
        },
        ValueV::Blob(b) => {
            assert(s =~= seq![4u8] + (ser_bytes(b) + rest));
            lemma_p_u8(4, ser_bytes(b) + rest);
            lemma_p_bytes(b, rest);
        },
        ValueV::Bool(b) => {
            if b {
                assert(s =~= seq![5u8] + (seq![1u8] + rest));
                lemma_p_u8(5, seq![1u8] + rest);
                lemma_p_u8(1, rest);
            } else {
                assert(s =~= seq![5u8] + (seq![0u8] + rest));
                lemma_p_u8(5, seq![0u8] + rest);
                lemma_p_u8(0, rest);
            }
        },
    }
}

pub proof fn lemma_p_kvpair(p: KvpairV, rest: Seq<u8>)
    requires
        wf_kvpair(p),
    ensures
        p_kvpair(ser_kvpair(p) + rest) == Some((p, rest)),
{
    let s = ser_kvpair(p) + rest;
    assert(s =~= ser_str(p.key) + (ser_value(p.value) + (ser_opt_u64(p.expires) + rest)));
    lemma_p_str(p.key, ser_value(p.value) + (ser_opt_u64(p.expires) + rest));
    lemma_p_value(p.value, ser_opt_u64(p.expires) + rest);
    lemma_p_opt_u64(p.expires, rest);
    assert(p_kvpair(s) == Some((KvpairV { key: p.key, value: p.value, expires: p.expires }, rest)));
}

#[verifier::spinoff_prover]
#[verifier::rlimit(60)]
pub proof fn lemma_p_strs(l: Seq<Seq<char>>, rest: Seq<u8>)
    requires
        forall|i: int| 0 <= i < l.len() ==> wf_str(#[trigger] l[i]),
    ensures
        p_strs(ser_strs(l) + rest, l.len() as nat) == Some((l, rest)),
    decreases l.len(),
{
    if l.len() == 0 {
        assert(ser_strs(l) + rest =~= rest);
        assert(p_strs(rest, 0) == Some((Seq::<Seq<char>>::empty(), rest)));
        assert(l =~= Seq::<Seq<char>>::empty());
    } else {
        let s = ser_strs(l) + rest;
        let tail = l.drop_first();
        assert(s =~= ser_str(l[0]) + (ser_strs(tail) + rest));
        lemma_p_str(l[0], ser_strs(tail) + rest);
        lemma_p_strs(tail, rest);
        assert(seq![l[0]] + tail =~= l);
    }
}

#[verifier::spinoff_prover]
#[verifier::rlimit(60)]
pub proof fn lemma_p_values(l: Seq<ValueV>, rest: Seq<u8>)
    requires
        forall|i: int| 0 <= i < l.len() ==> wf_value(#[trigger] l[i]),
    ensures
        p_values(ser_values(l) + rest, l.len() as nat) == Some((l, rest)),
    decreases l.len(),
{
    if l.len() == 0 {
        assert(ser_values(l) + rest =~= rest);
        assert(l =~= Seq::<ValueV>::empty());
    } else {
        let s = ser_values(l) + rest;
        let tail = l.drop_first();
        assert(s =~= ser_value(l[0]) + (ser_values(tail) + rest));
        lemma_p_value(l[0], ser_values(tail) + rest);
        lemma_p_values(tail, rest);
        assert(seq![l[0]] + tail =~= l);
    }
}

#[verifier::spinoff_prover]
#[verifier::rlimit(60)]
pub proof fn lemma_p_kvs(l: Seq<KvpairV>, rest: Seq<u8>)
    requires
        forall|i: int| 0 <= i < l.len() ==> wf_kvpair(#[trigger] l[i]),
    ensures
        p_kvs(ser_kvs(l) + rest, l.len() as nat) == Some((l, rest)),
    decreases l.len(),
{
    if l.len() == 0 {
        assert(ser_kvs(l) + rest =~= rest);
        assert(l =~= Seq::<KvpairV>::empty());
    } else {
        let s = ser_kvs(l) + rest;
        let tail = l.drop_first();
        assert(s =~= ser_kvpair(l[0]) + (ser_kvs(tail) + rest));
        lemma_p_kvpair(l[0], ser_kvs(tail) + rest);
        lemma_p_kvs(tail, rest);
        assert(seq![l[0]] + tail =~= l);
    }
}

pub proof fn lemma_p_str_list(l: Seq<Seq<char>>, rest: Seq<u8>)
    requires
        wf_str_list(l),
    ensures
        p_str_list(ser_str_list(l) + rest) == Some((l, rest)),
{
    let s = ser_str_list(l) + rest;
    assert(s =~= ser_u32(l.len() as u32) + (ser_strs(l) + rest));
    lemma_p_u32(l.len() as u32, ser_strs(l) + rest);
    lemma_p_strs(l, rest);
}

pub proof fn lemma_p_value_list(l: Seq<ValueV>, rest: Seq<u8>)
    requires
        wf_value_list(l),
    ensures
        p_value_list(ser_value_list(l) + rest) == Some((l, rest)),
{
    let s = ser_value_list(l) + rest;
    assert(s =~= ser_u32(l.len() as u32) + (ser_values(l) + rest));
    lemma_p_u32(l.len() as u32, ser_values(l) + rest);
    lemma_p_values(l, rest);
}

pub proof fn lemma_p_kv_list(l: Seq<KvpairV>, rest: Seq<u8>)
    requires
        wf_kv_list(l),
    ensures
        p_kv_list(ser_kv_list(l) + rest) == Some((l, rest)),
{
    let s = ser_kv_list(l) + rest;
    assert(s =~= ser_u32(l.len() as u32) + (ser_kvs(l) + rest));
    lemma_p_u32(l.len() as u32, ser_kvs(l) + rest);
    lemma_p_kvs(l, rest);
}

#[verifier::spinoff_prover]
#[verifier::rlimit(60)]
pub proof fn lemma_p_req(m: RequestV, rest: Seq<u8>)
    requires
        wf_req(m),
    ensures
        p_req(ser_req(m) + rest) == Some((m, rest)),
{
    let s = ser_req(m) + rest;
    match m {
        RequestV::HGet { table, key } => {
            assert(s =~= seq![1u8] + (ser_str(table) + (ser_str(key) + rest)));
            lemma_p_u8(1, ser_str(table) + (ser_str(key) + rest));
            lemma_p_str(table, ser_str(key) + rest);
            lemma_p_str(key, rest);
        },
        RequestV::HGetAll { table } => {
            assert(s =~= seq![2u8] + (ser_str(table) + rest));
            lemma_p_u8(2, ser_str(table) + rest);
            lemma_p_str(table, rest);
        },
        RequestV::HMGet { table, keys } => {
            assert(s =~= seq![3u8] + (ser_str(table) + (ser_str_list(keys) + rest)));
            lemma_p_u8(3, ser_str(table) + (ser_str_list(keys) + rest));
            lemma_p_str(table, ser_str_list(keys) + rest);
            lemma_p_str_list(keys, rest);
        },
        RequestV::HSet { table, pair } => {
            assert(s =~= seq![4u8] + (ser_str(table) + (ser_kvpair(pair) + rest)));
            lemma_p_u8(4, ser_str(table) + (ser_kvpair(pair) + rest));
            lemma_p_str(table, ser_kvpair(pair) + rest);
            lemma_p_kvpair(pair, rest);
        },
        RequestV::HMSet { table, pairs } => {
            assert(s =~= seq![5u8] + (ser_str(table) + (ser_kv_list(pairs) + rest)));
            lemma_p_u8(5, ser_str(table) + (ser_kv_list(pairs) + rest));
            lemma_p_str(table, ser_kv_list(pairs) + rest);
            lemma_p_kv_list(pairs, rest);
        },
        RequestV::HDel { table, key } => {
            assert(s =~= seq![6u8] + (ser_str(table) + (ser_str(key) + rest)));
            lemma_p_u8(6, ser_str(table) + (ser_str(key) + rest));
            lemma_p_str(table, ser_str(key) + rest);
            lemma_p_str(key, rest);
        },
        RequestV::HMDel { table, keys } => {
            assert(s =~= seq![7u8] + (ser_str(table) + (ser_str_list(keys) + rest)));
            lemma_p_u8(7, ser_str(table) + (ser_str_list(keys) + rest));
            lemma_p_str(table, ser_str_list(keys) + rest);
            lemma_p_str_list(keys, rest);
        },
        RequestV::HExist { table, key } => {
            assert(s =~= seq![8u8] + (ser_str(table) + (ser_str(key) + rest)));
            lemma_p_u8(8, ser_str(table) + (ser_str(key) + rest));
            lemma_p_str(table, ser_str(key) + rest);
            lemma_p_str(key, rest);
        },
        RequestV::HMExist { table, keys } => {
            assert(s =~= seq![9u8] + (ser_str(table) + (ser_str_list(keys) + rest)));
            lemma_p_u8(9, ser_str(table) + (ser_str_list(keys) + rest));
            lemma_p_str(table, ser_str_list(keys) + rest);
            lemma_p_str_list(keys, rest);
        },
        RequestV::Subscribe { topic } => {
            assert(s =~= seq![10u8] + (ser_str(topic) + rest));
            lemma_p_u8(10, ser_str(topic) + rest);
            lemma_p_str(topic, rest);
        },
        RequestV::Unsubscribe { topic, id } => {
            assert(s =~= seq![11u8] + (ser_str(topic) + (ser_u32(id) + rest)));
            lemma_p_u8(11, ser_str(topic) + (ser_u32(id) + rest));
            lemma_p_str(topic, ser_u32(id) + rest);
            lemma_p_u32(id, rest);
        },
        RequestV::Publish { topic, values } => {
            assert(s =~= seq![12u8] + (ser_str(topic) + (ser_value_list(values) + rest)));
            lemma_p_u8(12, ser_str(topic) + (ser_value_list(values) + rest));
            lemma_p_str(topic, ser_value_list(values) + rest);
            lemma_p_value_list(values, rest);
        },
    }
}

#[verifier::spinoff_prover]
#[verifier::rlimit(60)]
pub proof fn lemma_p_resp(r: ResponseV, rest: Seq<u8>)
    requires
        wf_resp(r),
    ensures
        p_resp(ser_resp(r) + rest) == Some((r, rest)),
{
    let s = ser_resp(r) + rest;
    assert(s =~= ser_u32(r.status) + (ser_str(r.message) + (ser_value_list(r.values) + (
    ser_kv_list(r.pairs) + rest))));
    lemma_p_u32(r.status, ser_str(r.message) + (ser_value_list(r.values) + (ser_kv_list(r.pairs)
        + rest)));
    lemma_p_str(r.message, ser_value_list(r.values) + (ser_kv_list(r.pairs) + rest));
    lemma_p_value_list(r.values, ser_kv_list(r.pairs) + rest);
    lemma_p_kv_list(r.pairs, rest);
    assert(p_resp(s) == Some(
        (ResponseV { status: r.status, message: r.message, values: r.values, pairs: r.pairs },
        rest),
    ));
    assert(ResponseV { status: r.status, message: r.message, values: r.values, pairs: r.pairs }
        == r);
}

/// Parsing the canonical bytes of a request yields the request back.
pub proof fn lemma_request_roundtrip(m: RequestV)
    requires
        wf_req(m),
    ensures
        parse_request(ser_req(m)) == Some(m),
{
    lemma_p_req(m, Seq::empty());
    assert(ser_req(m) + Seq::<u8>::empty() =~= ser_req(m));
}

/// Parsing the canonical bytes of a response yields the response back.
pub proof fn lemma_response_roundtrip(r: ResponseV)
    requires
        wf_resp(r),
    ensures
        parse_response(ser_resp(r)) == Some(r),
{
    lemma_p_resp(r, Seq::empty());
    assert(ser_resp(r) + Seq::<u8>::empty() =~= ser_resp(r));
}

} // verus!
