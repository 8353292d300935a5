use vstd::prelude::*;
use vstd::utf8::{encode_utf8, decode_utf8, valid_utf8};
use crate::proto::{ValueV, KvpairV, RequestV, ResponseV};

verus! {

// The canonical binary form of a message. Integers are big-endian and
// fixed-width; strings and blobs are length-prefixed; lists are
// count-prefixed. Every length or count prefix is a 32-bit integer.

/// Big-endian bytes of a 32-bit integer.
pub open spec fn ser_u32(x: u32) -> Seq<u8> {
    seq![
        ((x >> 24) & 0xff) as u8,
        ((x >> 16) & 0xff) as u8,
        ((x >> 8) & 0xff) as u8,
        (x & 0xff) as u8,
    ]
}

/// Big-endian bytes of a 64-bit integer.
pub open spec fn ser_u64(x: u64) -> Seq<u8> {
    seq![
        ((x >> 56) & 0xff) as u8,
        ((x >> 48) & 0xff) as u8,
        ((x >> 40) & 0xff) as u8,
        ((x >> 32) & 0xff) as u8,
        ((x >> 24) & 0xff) as u8,
        ((x >> 16) & 0xff) as u8,
        ((x >> 8) & 0xff) as u8,
        (x & 0xff) as u8,
    ]
}

/// A 32-bit integer from four big-endian bytes.
pub open spec fn comb_u32(b0: u8, b1: u8, b2: u8, b3: u8) -> u32 {
    ((b0 as u32) << 24) | ((b1 as u32) << 16) | ((b2 as u32) << 8) | (b3 as u32)
}

/// A 64-bit integer from eight big-endian bytes.
pub open spec fn comb_u64(b0: u8, b1: u8, b2: u8, b3: u8, b4: u8, b5: u8, b6: u8, b7: u8) -> u64 {
    ((b0 as u64) << 56) | ((b1 as u64) << 48) | ((b2 as u64) << 40) | ((b3 as u64) << 32)
        | ((b4 as u64) << 24) | ((b5 as u64) << 16) | ((b6 as u64) << 8) | (b7 as u64)
}

/// A length-prefixed byte segment.
pub open spec fn ser_bytes(b: Seq<u8>) -> Seq<u8> {
    ser_u32(b.len() as u32) + b
}

/// A byte segment's length must fit its 32-bit prefix.
pub open spec fn wf_bytes(b: Seq<u8>) -> bool {
    b.len() <= 0xffff_ffff
}

/// A string: its UTF-8 bytes, length-prefixed.
pub open spec fn ser_str(s: Seq<char>) -> Seq<u8> {
    ser_bytes(encode_utf8(s))
}

pub open spec fn wf_str(s: Seq<char>) -> bool {
    wf_bytes(encode_utf8(s))
}

/// An optional 64-bit integer: a presence byte, then the integer.
pub open spec fn ser_opt_u64(o: Option<u64>) -> Seq<u8> {
    match o {
        Option::None => seq![0u8],
        Option::Some(x) => seq![1u8] + ser_u64(x),
    }
}

/// A value: a tag byte, then the variant's payload.
pub open spec fn ser_value(v: ValueV) -> Seq<u8> {
    match v {
        ValueV::Absent => seq![0u8],
        ValueV::Int(i) => seq![1u8] + ser_u64(i as u64),
        ValueV::Double(b) => seq![2u8] + ser_u64(b),
        ValueV::Str(s) => seq![3u8] + ser_str(s),
        ValueV::Blob(b) => seq![4u8] + ser_bytes(b),
        ValueV::Bool(b) => if b { seq![5u8, 1u8] } else { seq![5u8, 0u8] },
    }
}

pub open spec fn wf_value(v: ValueV) -> bool {
    match v {
        ValueV::Str(s) => wf_str(s),
        ValueV::Blob(b) => wf_bytes(b),
        _ => true,
    }
}

/// A pair: key, value, optional expiration.
pub open spec fn ser_kvpair(p: KvpairV) -> Seq<u8> {
    ser_str(p.key) + ser_value(p.value) + ser_opt_u64(p.expires)
}

pub open spec fn wf_kvpair(p: KvpairV) -> bool {
    wf_str(p.key) && wf_value(p.value)
}

/// The items of a list, one after another.
pub open spec fn ser_strs(l: Seq<Seq<char>>) -> Seq<u8>
    decreases l.len(),
{
    if l.len() == 0 {
        Seq::empty()
    } else {
        ser_str(l[0]) + ser_strs(l.drop_first())
    }
}

pub open spec fn ser_values(l: Seq<ValueV>) -> Seq<u8>
    decreases l.len(),
{
    if l.len() == 0 {
        Seq::empty()
    } else {
        ser_value(l[0]) + ser_values(l.drop_first())
    }
}

pub open spec fn ser_kvs(l: Seq<KvpairV>) -> Seq<u8>
    decreases l.len(),
{
    if l.len() == 0 {
        Seq::empty()
    } else {
        ser_kvpair(l[0]) + ser_kvs(l.drop_first())
    }
}

/// A list: a 32-bit count, then the items.
pub open spec fn ser_str_list(l: Seq<Seq<char>>) -> Seq<u8> {
    ser_u32(l.len() as u32) + ser_strs(l)
}

pub open spec fn ser_value_list(l: Seq<ValueV>) -> Seq<u8> {
    ser_u32(l.len() as u32) + ser_values(l)
}

pub open spec fn ser_kv_list(l: Seq<KvpairV>) -> Seq<u8> {
    ser_u32(l.len() as u32) + ser_kvs(l)
}

pub open spec fn wf_str_list(l: Seq<Seq<char>>) -> bool {
    l.len() <= 0xffff_ffff && forall|i: int| 0 <= i < l.len() ==> wf_str(#[trigger] l[i])
}

pub open spec fn wf_value_list(l: Seq<ValueV>) -> bool {
    l.len() <= 0xffff_ffff && forall|i: int| 0 <= i < l.len() ==> wf_value(#[trigger] l[i])
}

pub open spec fn wf_kv_list(l: Seq<KvpairV>) -> bool {
    l.len() <= 0xffff_ffff && forall|i: int| 0 <= i < l.len() ==> wf_kvpair(#[trigger] l[i])
}

/// A request: a tag byte, then the variant's fields.
pub open spec fn ser_req(m: RequestV) -> Seq<u8> {
    match m {
        RequestV::HGet { table, key } => seq![1u8] + ser_str(table) + ser_str(key),
        RequestV::HGetAll { table } => seq![2u8] + ser_str(table),
        RequestV::HMGet { table, keys } => seq![3u8] + ser_str(table) + ser_str_list(keys),
        RequestV::HSet { table, pair } => seq![4u8] + ser_str(table) + ser_kvpair(pair),
        RequestV::HMSet { table, pairs } => seq![5u8] + ser_str(table) + ser_kv_list(pairs),
        RequestV::HDel { table, key } => seq![6u8] + ser_str(table) + ser_str(key),
        RequestV::HMDel { table, keys } => seq![7u8] + ser_str(table) + ser_str_list(keys),
        RequestV::HExist { table, key } => seq![8u8] + ser_str(table) + ser_str(key),
        RequestV::HMExist { table, keys } => seq![9u8] + ser_str(table) + ser_str_list(keys),
        RequestV::Subscribe { topic } => seq![10u8] + ser_str(topic),
        RequestV::Unsubscribe { topic, id } => seq![11u8] + ser_str(topic) + ser_u32(id),
        RequestV::Publish { topic, values } => seq![12u8] + ser_str(topic) + ser_value_list(values),
    }
}

pub open spec fn wf_req(m: RequestV) -> bool {
    match m {
        RequestV::HGet { table, key } => wf_str(table) && wf_str(key),
        RequestV::HGetAll { table } => wf_str(table),
        RequestV::HMGet { table, keys } => wf_str(table) && wf_str_list(keys),
        RequestV::HSet { table, pair } => wf_str(table) && wf_kvpair(pair),
        RequestV::HMSet { table, pairs } => wf_str(table) && wf_kv_list(pairs),
        RequestV::HDel { table, key } => wf_str(table) && wf_str(key),
        RequestV::HMDel { table, keys } => wf_str(table) && wf_str_list(keys),
        RequestV::HExist { table, key } => wf_str(table) && wf_str(key),
        RequestV::HMExist { table, keys } => wf_str(table) && wf_str_list(keys),
        RequestV::Subscribe { topic } => wf_str(topic),
        RequestV::Unsubscribe { topic, id } => wf_str(topic),
        RequestV::Publish { topic, values } => wf_str(topic) && wf_value_list(values),
    }
}

/// A response: status, message, values, pairs.
pub open spec fn ser_resp(r: ResponseV) -> Seq<u8> {
    ser_u32(r.status) + ser_str(r.message) + ser_value_list(r.values) + ser_kv_list(r.pairs)
}

pub open spec fn wf_resp(r: ResponseV) -> bool {
    wf_str(r.message) && wf_value_list(r.values) && wf_kv_list(r.pairs)
}

// The parsers. Each consumes a prefix of the byte sequence and returns
// the parsed value and the remainder, or nothing if the bytes are
// malformed.

pub open spec fn p_u8(s: Seq<u8>) -> Option<(u8, Seq<u8>)> {
    if s.len() >= 1 {
        Option::Some((s[0], s.skip(1)))
    } else {
        Option::None
    }
}

pub open spec fn p_u32(s: Seq<u8>) -> Option<(u32, Seq<u8>)> {
    if s.len() >= 4 {
        Option::Some((comb_u32(s[0], s[1], s[2], s[3]), s.skip(4)))
    } else {
        Option::None
    }
}

pub open spec fn p_u64(s: Seq<u8>) -> Option<(u64, Seq<u8>)> {
    if s.len() >= 8 {
        Option::Some((comb_u64(s[0], s[1], s[2], s[3], s[4], s[5], s[6], s[7]), s.skip(8)))
    } else {
        Option::None
    }
}

pub open spec fn p_bytes(s: Seq<u8>) -> Option<(Seq<u8>, Seq<u8>)> {
    match p_u32(s) {
        Option::None => Option::None,
        Option::Some((n, r)) => if r.len() >= n {
            Option::Some((r.take(n as int), r.skip(n as int)))
        } else {
            Option::None
        },
    }
}

pub open spec fn p_str(s: Seq<u8>) -> Option<(Seq<char>, Seq<u8>)> {
    match p_bytes(s) {
        Option::None => Option::None,
        Option::Some((b, r)) => if valid_utf8(b) {
            Option::Some((decode_utf8(b), r))
        } else {
            Option::None
        },
    }
}

pub open spec fn p_opt_u64(s: Seq<u8>) -> Option<(Option<u64>, Seq<u8>)> {
    match p_u8(s) {
        Option::None => Option::None,
        Option::Some((tag, r)) => if tag == 0 {
            Option::Some((Option::None, r))
        } else if tag == 1 {
            match p_u64(r) {
                Option::None => Option::None,
                Option::Some((x, r2)) => Option::Some((Option::Some(x), r2)),
            }
        } else {
            Option::None
        },
    }
}

pub open spec fn p_value(s: Seq<u8>) -> Option<(ValueV, Seq<u8>)> {
    match p_u8(s) {
        Option::None => Option::None,
        Option::Some((tag, r)) => if tag == 0 {
            Option::Some((ValueV::Absent, r))
        } else if tag == 1 {
            match p_u64(r) {
                Option::None => Option::None,
                Option::Some((x, r2)) => Option::Some((ValueV::Int(x as i64), r2)),
            }
        } else if tag == 2 {
            match p_u64(r) {
                Option::None => Option::None,
                Option::Some((x, r2)) => Option::Some((ValueV::Double(x), r2)),
            }
        } else if tag == 3 {
            match p_str(r) {
                Option::None => Option::None,
                Option::Some((t, r2)) => Option::Some((ValueV::Str(t), r2)),
            }
        } else if tag == 4 {
            match p_bytes(r) {
                Option::None => Option::None,
                Option::Some((b, r2)) => Option::Some((ValueV::Blob(b), r2)),
            }
        } else if tag == 5 {
            match p_u8(r) {
                Option::None => Option::None,
                Option::Some((b, r2)) => if b == 0 {
                    Option::Some((ValueV::Bool(false), r2))
                } else if b == 1 {
                    Option::Some((ValueV::Bool(true), r2))
                } else {
                    Option::None
                },
            }
        } else {
            Option::None
        },
    }
}

pub open spec fn p_kvpair(s: Seq<u8>) -> Option<(KvpairV, Seq<u8>)> {
    match p_str(s) {
        Option::None => Option::None,
        Option::Some((key, r)) => match p_value(r) {
            Option::None => Option::None,
            Option::Some((value, r2)) => match p_opt_u64(r2) {
                Option::None => Option::None,
                Option::Some((expires, r3)) => Option::Some(
                    (KvpairV { key, value, expires }, r3),
                ),
            },
        },
    }
}

pub open spec fn p_strs(s: Seq<u8>, n: nat) -> Option<(Seq<Seq<char>>, Seq<u8>)>
    decreases n,
{
    if n == 0 {
        Option::Some((Seq::empty(), s))
    } else {
        match p_str(s) {
            Option::None => Option::None,
            Option::Some((v, r)) => match p_strs(r, (n - 1) as nat) {
                Option::None => Option::None,
                Option::Some((l, r2)) => Option::Some((seq![v] + l, r2)),
            },
        }
    }
}

pub open spec fn p_values(s: Seq<u8>, n: nat) -> Option<(Seq<ValueV>, Seq<u8>)>
    decreases n,
{
    if n == 0 {
        Option::Some((Seq::empty(), s))
    } else {
        match p_value(s) {
            Option::None => Option::None,
            Option::Some((v, r)) => match p_values(r, (n - 1) as nat) {
                Option::None => Option::None,
                Option::Some((l, r2)) => Option::Some((seq![v] + l, r2)),
            },
        }
    }
}

pub open spec fn p_kvs(s: Seq<u8>, n: nat) -> Option<(Seq<KvpairV>, Seq<u8>)>
    decreases n,
{
    if n == 0 {
        Option::Some((Seq::empty(), s))
    } else {
        match p_kvpair(s) {
            Option::None => Option::None,
            Option::Some((v, r)) => match p_kvs(r, (n - 1) as nat) {
                Option::None => Option::None,
                Option::Some((l, r2)) => Option::Some((seq![v] + l, r2)),
            },
        }
    }
}

pub open spec fn p_str_list(s: Seq<u8>) -> Option<(Seq<Seq<char>>, Seq<u8>)> {
    match p_u32(s) {
        Option::None => Option::None,
        Option::Some((n, r)) => p_strs(r, n as nat),
    }
}

pub open spec fn p_value_list(s: Seq<u8>) -> Option<(Seq<ValueV>, Seq<u8>)> {
    match p_u32(s) {
        Option::None => Option::None,
        Option::Some((n, r)) => p_values(r, n as nat),
    }
}

pub open spec fn p_kv_list(s: Seq<u8>) -> Option<(Seq<KvpairV>, Seq<u8>)> {
    match p_u32(s) {
        Option::None => Option::None,
        Option::Some((n, r)) => p_kvs(r, n as nat),
    }
}

pub open spec fn p_req(s: Seq<u8>) -> Option<(RequestV, Seq<u8>)> {
    match p_u8(s) {
        Option::None => Option::None,
        Option::Some((tag, r)) => if tag == 1 {
            match p_str(r) {
                Option::None => Option::None,
                Option::Some((table, r2)) => match p_str(r2) {
                    Option::None => Option::None,
                    Option::Some((key, r3)) => Option::Some((RequestV::HGet { table, key }, r3)),
                },
            }
        } else if tag == 2 {
            match p_str(r) {
                Option::None => Option::None,
                Option::Some((table, r2)) => Option::Some((RequestV::HGetAll { table }, r2)),
            }
        } else if tag == 3 {
            match p_str(r) {
                Option::None => Option::None,
                Option::Some((table, r2)) => match p_str_list(r2) {
                    Option::None => Option::None,
                    Option::Some((keys, r3)) => Option::Some((RequestV::HMGet { table, keys }, r3)),
                },
            }
        } else if tag == 4 {
            match p_str(r) {
                Option::None => Option::None,
                Option::Some((table, r2)) => match p_kvpair(r2) {
                    Option::None => Option::None,
                    Option::Some((pair, r3)) => Option::Some((RequestV::HSet { table, pair }, r3)),
                },
            }
        } else if tag == 5 {
            match p_str(r) {
                Option::None => Option::None,
                Option::Some((table, r2)) => match p_kv_list(r2) {
                    Option::None => Option::None,
                    Option::Some((pairs, r3)) => Option::Some((RequestV::HMSet { table, pairs }, r3)),
                },
            }
        } else if tag == 6 {
            match p_str(r) {
                Option::None => Option::None,
                Option::Some((table, r2)) => match p_str(r2) {
                    Option::None => Option::None,
                    Option::Some((key, r3)) => Option::Some((RequestV::HDel { table, key }, r3)),
                },
            }
        } else if tag == 7 {
            match p_str(r) {
                Option::None => Option::None,
                Option::Some((table, r2)) => match p_str_list(r2) {
                    Option::None => Option::None,
                    Option::Some((keys, r3)) => Option::Some((RequestV::HMDel { table, keys }, r3)),
                },
            }
        } else if tag == 8 {
            match p_str(r) {
                Option::None => Option::None,
                Option::Some((table, r2)) => match p_str(r2) {
                    Option::None => Option::None,
                    Option::Some((key, r3)) => Option::Some((RequestV::HExist { table, key }, r3)),
                },
            }
        } else if tag == 9 {
            match p_str(r) {
                Option::None => Option::None,
                Option::Some((table, r2)) => match p_str_list(r2) {
                    Option::None => Option::None,
                    Option::Some((keys, r3)) => Option::Some((RequestV::HMExist { table, keys }, r3)),
                },
            }
        } else if tag == 10 {
            match p_str(r) {
                Option::None => Option::None,
                Option::Some((topic, r2)) => Option::Some((RequestV::Subscribe { topic }, r2)),
            }
        } else if tag == 11 {
            match p_str(r) {
                Option::None => Option::None,
                Option::Some((topic, r2)) => match p_u32(r2) {
                    Option::None => Option::None,
                    Option::Some((id, r3)) => Option::Some((RequestV::Unsubscribe { topic, id }, r3)),
                },
            }
        } else if tag == 12 {
            match p_str(r) {
                Option::None => Option::None,
                Option::Some((topic, r2)) => match p_value_list(r2) {
                    Option::None => Option::None,
                    Option::Some((values, r3)) => Option::Some((RequestV::Publish { topic, values }, r3)),
                },
            }
        } else {
            Option::None
        },
    }
}

pub open spec fn p_resp(s: Seq<u8>) -> Option<(ResponseV, Seq<u8>)> {
    match p_u32(s) {
        Option::None => Option::None,
        Option::Some((status, r)) => match p_str(r) {
            Option::None => Option::None,
            Option::Some((message, r2)) => match p_value_list(r2) {
                Option::None => Option::None,
                Option::Some((values, r3)) => match p_kv_list(r3) {
                    Option::None => Option::None,
                    Option::Some((pairs, r4)) => Option::Some(
                        (ResponseV { status, message, values, pairs }, r4),
                    ),
                },
            },
        },
    }
}

/// A request from a whole buffer: the parse must consume every byte.
pub open spec fn parse_request(s: Seq<u8>) -> Option<RequestV> {
    match p_req(s) {
        Option::None => Option::None,
        Option::Some((m, r)) => if r.len() == 0 {
            Option::Some(m)
        } else {
            Option::None
        },
    }
}

/// A response from a whole buffer: the parse must consume every byte.
pub open spec fn parse_response(s: Seq<u8>) -> Option<ResponseV> {
    match p_resp(s) {
        Option::None => Option::None,
        Option::Some((m, r)) => if r.len() == 0 {
            Option::Some(m)
        } else {
            Option::None
        },
    }
}

} // verus!
