use vstd::prelude::*;
use vstd::slice::{slice_subrange, slice_to_vec};
use vstd::utf8::{valid_utf8, decode_utf8};
use crate::proto::{Value, Kvpair, CommandRequest, CommandResponse, views_of};
use crate::wire::{
    ser_u32, ser_u64, ser_bytes, ser_str, ser_opt_u64, ser_value, ser_kvpair, ser_values,
    ser_strs, ser_kvs, ser_str_list, ser_value_list, ser_kv_list, ser_req, ser_resp, wf_bytes,
    wf_str, wf_value, wf_kvpair, wf_str_list, wf_value_list, wf_kv_list, wf_req, wf_resp, p_u8,
    p_u32, p_u64, p_bytes, p_str, p_opt_u64, p_value, p_kvpair, p_strs, p_values, p_kvs,
    p_str_list, p_value_list, p_kv_list, p_req, p_resp, parse_request, parse_response,
};

verus! {

/// A message could not be put in its canonical binary form.
#[derive(Debug)]
pub enum EncodeError {
    /// A string, blob or list is too long for its 32-bit prefix.
    TooLong,
}

/// A buffer does not hold the canonical binary form of a message.
#[derive(Debug)]
pub enum DecodeError {
    Malformed,
}

/// Relies on std's `str::from_utf8`, which accepts exactly the valid
/// UTF-8 byte sequences and decodes them to the characters they encode.
#[verifier::external_body]
fn utf8_to_string(bytes: &[u8]) -> (r: Option<String>)
    ensures
        match r {
            Some(s) => valid_utf8(bytes@) && s@ == decode_utf8(bytes@),
            None => !valid_utf8(bytes@),
        },
{
    match core::str::from_utf8(bytes) {
        Ok(s) => Some(s.to_string()),
        Err(_) => None,
    }
}

pub(crate) fn enc_u32(x: u32, out: &mut Vec<u8>)
    ensures
        final(out)@ == old(out)@ + ser_u32(x),
{
    proof {
        assert(((x >> 24) & 0xff) <= 0xff && ((x >> 16) & 0xff) <= 0xff && ((x >> 8) & 0xff)
            <= 0xff && (x & 0xff) <= 0xff) by (bit_vector);
    }
    out.push(((x >> 24) & 0xff) as u8);
    out.push(((x >> 16) & 0xff) as u8);
    out.push(((x >> 8) & 0xff) as u8);
    out.push((x & 0xff) as u8);
    proof {
        assert(out@ =~= old(out)@ + ser_u32(x));
    }
}

fn enc_u64(x: u64, out: &mut Vec<u8>)
    ensures
        final(out)@ == old(out)@ + ser_u64(x),
{
    proof {
        assert(((x >> 56) & 0xff) <= 0xff && ((x >> 48) & 0xff) <= 0xff && ((x >> 40) & 0xff)
            <= 0xff && ((x >> 32) & 0xff) <= 0xff && ((x >> 24) & 0xff) <= 0xff && ((x >> 16)
            & 0xff) <= 0xff && ((x >> 8) & 0xff) <= 0xff && (x & 0xff) <= 0xff) by (bit_vector);
    }
    out.push(((x >> 56) & 0xff) as u8);
    out.push(((x >> 48) & 0xff) as u8);
    out.push(((x >> 40) & 0xff) as u8);
    out.push(((x >> 32) & 0xff) as u8);
    out.push(((x >> 24) & 0xff) as u8);
    out.push(((x >> 16) & 0xff) as u8);
    out.push(((x >> 8) & 0xff) as u8);
    out.push((x & 0xff) as u8);
    proof {
        assert(out@ =~= old(out)@ + ser_u64(x));
    }
}

fn enc_bytes(b: &[u8], out: &mut Vec<u8>) -> (r: Result<(), EncodeError>)
    ensures
        r is Ok ==> final(out)@ == old(out)@ + ser_bytes(b@) && wf_bytes(b@),
        r is Err ==> !wf_bytes(b@) && final(out)@ == old(out)@,
{
    if b.len() > (u32::MAX as usize) {
        return Err(EncodeError::TooLong);
    }
    enc_u32(b.len() as u32, out);
    let mut i: usize = 0;
    while i < b.len()
        invariant
            i <= b@.len(),
            out@ == old(out)@ + ser_u32(b@.len() as u32) + b@.take(i as int),
        decreases b@.len() - i,
    {
        out.push(b[i]);
        proof {
            assert(b@.take(i + 1 as int) =~= b@.take(i as int).push(b@[i as int]));
            assert(out@ =~= old(out)@ + ser_u32(b@.len() as u32) + b@.take(i + 1 as int));
        }
        i = i + 1;
    }
    proof {
        assert(b@.take(b@.len() as int) =~= b@);
        assert(out@ =~= old(out)@ + ser_bytes(b@));
    }
    Ok(())
}

fn enc_str(s: &str, out: &mut Vec<u8>) -> (r: Result<(), EncodeError>)
    ensures
        r is Ok ==> final(out)@ == old(out)@ + ser_str(s@) && wf_str(s@),
        r is Err ==> !wf_str(s@) && final(out)@ == old(out)@,
{
    enc_bytes(s.as_bytes(), out)
}

fn enc_opt_u64(o: &Option<u64>, out: &mut Vec<u8>)
    ensures
        final(out)@ == old(out)@ + ser_opt_u64(*o),
{
    match o {
        None => {
            out.push(0);
            proof {
                assert(out@ =~= old(out)@ + ser_opt_u64(None::<u64>));
            }
        },
        Some(x) => {
            out.push(1);
            enc_u64(*x, out);
            proof {
                assert(out@ =~= old(out)@ + ser_opt_u64(Some(*x)));
            }
        },
    }
}

fn enc_value(v: &Value, out: &mut Vec<u8>) -> (r: Result<(), EncodeError>)
    ensures
        r is Ok ==> final(out)@ == old(out)@ + ser_value(v@) && wf_value(v@),
        r is Err ==> !wf_value(v@),
{
    match v {
        Value::Absent => {
            out.push(0);
            proof {
                assert(out@ =~= old(out)@ + ser_value(v@));
            }
        },
        Value::Int(i) => {
            out.push(1);
            enc_u64(*i as u64, out);
            proof {
                assert(out@ =~= old(out)@ + ser_value(v@));
            }
        },
        Value::Double(b) => {
            out.push(2);
            enc_u64(*b, out);
            proof {
                assert(out@ =~= old(out)@ + ser_value(v@));
            }
        },
        Value::Str(s) => {
            out.push(3);
            match enc_str(s.as_str(), out) {
                Ok(()) => {},
                Err(e) => {
                    return Err(e);
                },
            }
            proof {
                assert(out@ =~= old(out)@ + ser_value(v@));
            }
        },
        Value::Blob(b) => {
            out.push(4);
            match enc_bytes(b.as_slice(), out) {
                Ok(()) => {},
                Err(e) => {
                    return Err(e);
                },
            }
            proof {
                assert(out@ =~= old(out)@ + ser_value(v@));
            }
        },
        Value::Bool(b) => {
            out.push(5);
            if *b {
                out.push(1);
            } else {
                out.push(0);
            }
            proof {
                assert(out@ =~= old(out)@ + ser_value(v@));
            }
        },
    }
    Ok(())
}

fn enc_kvpair(p: &Kvpair, out: &mut Vec<u8>) -> (r: Result<(), EncodeError>)
    ensures
        r is Ok ==> final(out)@ == old(out)@ + ser_kvpair(p@) && wf_kvpair(p@),
        r is Err ==> !wf_kvpair(p@),
{
    match enc_str(p.key.as_str(), out) {
        Ok(()) => {},
        Err(e) => {
            return Err(e);
        },
    }
    match enc_value(&p.value, out) {
        Ok(()) => {},
        Err(e) => {
            return Err(e);
        },
    }
    enc_opt_u64(&p.expires, out);
    proof {
        assert(out@ =~= old(out)@ + ser_kvpair(p@));
    }
    Ok(())
}

proof fn lemma_ser_values_snoc(l: Seq<crate::proto::ValueV>, v: crate::proto::ValueV)
    ensures
        ser_values(l.push(v)) == ser_values(l) + ser_value(v),
    decreases l.len(),
{
    if l.len() == 0 {
        assert(l.push(v).drop_first() =~= l);
        assert(ser_values(l.push(v)) =~= ser_values(l) + ser_value(v));
    } else {
        assert(l.push(v).drop_first() =~= l.drop_first().push(v));
        lemma_ser_values_snoc(l.drop_first(), v);
        assert(ser_values(l.push(v)) =~= ser_values(l) + ser_value(v));
    }
}

proof fn lemma_ser_strs_snoc(l: Seq<Seq<char>>, v: Seq<char>)
    ensures
        ser_strs(l.push(v)) == ser_strs(l) + ser_str(v),
    decreases l.len(),
{
    if l.len() == 0 {
        assert(l.push(v).drop_first() =~= l);
        assert(ser_strs(l.push(v)) =~= ser_strs(l) + ser_str(v));
    } else {
        assert(l.push(v).drop_first() =~= l.drop_first().push(v));
        lemma_ser_strs_snoc(l.drop_first(), v);
        assert(ser_strs(l.push(v)) =~= ser_strs(l) + ser_str(v));
    }
}

proof fn lemma_ser_kvs_snoc(l: Seq<crate::proto::KvpairV>, v: crate::proto::KvpairV)
    ensures
        ser_kvs(l.push(v)) == ser_kvs(l) + ser_kvpair(v),
    decreases l.len(),
{
    if l.len() == 0 {
        assert(l.push(v).drop_first() =~= l);
        assert(ser_kvs(l.push(v)) =~= ser_kvs(l) + ser_kvpair(v));
    } else {
        assert(l.push(v).drop_first() =~= l.drop_first().push(v));
        lemma_ser_kvs_snoc(l.drop_first(), v);
        assert(ser_kvs(l.push(v)) =~= ser_kvs(l) + ser_kvpair(v));
    }
}

fn enc_value_list(vals: &Vec<Value>, out: &mut Vec<u8>) -> (r: Result<(), EncodeError>)
    ensures
        r is Ok ==> final(out)@ == old(out)@ + ser_value_list(views_of(vals@)) && wf_value_list(
            views_of(vals@),
        ),
        r is Err ==> !wf_value_list(views_of(vals@)),
{
    if vals.len() > (u32::MAX as usize) {
        return Err(EncodeError::TooLong);
    }
    let n = vals.len() as u32;
    enc_u32(n, out);
    let mut i: usize = 0;
    while i < vals.len()
        invariant
            i <= vals@.len(),
            vals@.len() <= u32::MAX,
            n == vals@.len() as u32,
            out@ == old(out)@ + ser_u32(n) + ser_values(views_of(vals@.take(i as int))),
            forall|j: int| 0 <= j < i ==> wf_value(#[trigger] views_of(vals@)[j]),
        decreases vals@.len() - i,
    {
        let ghost pre = views_of(vals@.take(i as int));
        match enc_value(&vals[i], out) {
            Ok(()) => {},
            Err(e) => {
                proof {
                    assert(views_of(vals@)[i as int] == vals@[i as int]@);
                }
                return Err(e);
            },
        }
        proof {
            assert(views_of(vals@.take(i + 1 as int)) =~= pre.push(vals@[i as int]@));
            lemma_ser_values_snoc(pre, vals@[i as int]@);
            assert(out@ =~= old(out)@ + ser_u32(n) + ser_values(views_of(vals@.take(i + 1 as int))));
            assert(views_of(vals@)[i as int] == vals@[i as int]@);
        }
        i = i + 1;
    }
    proof {
        assert(views_of(vals@.take(vals@.len() as int)) =~= views_of(vals@));
        assert(views_of(vals@).len() == vals@.len());
        assert(out@ =~= old(out)@ + ser_value_list(views_of(vals@)));
    }
    Ok(())
}

fn enc_str_list(keys: &Vec<String>, out: &mut Vec<u8>) -> (r: Result<(), EncodeError>)
    ensures
        r is Ok ==> final(out)@ == old(out)@ + ser_str_list(views_of(keys@)) && wf_str_list(
            views_of(keys@),
        ),
        r is Err ==> !wf_str_list(views_of(keys@)),
{
    if keys.len() > (u32::MAX as usize) {
        return Err(EncodeError::TooLong);
    }
    let n = keys.len() as u32;
    enc_u32(n, out);
    let mut i: usize = 0;
    while i < keys.len()
        invariant
            i <= keys@.len(),
            keys@.len() <= u32::MAX,
            n == keys@.len() as u32,
            out@ == old(out)@ + ser_u32(n) + ser_strs(views_of(keys@.take(i as int))),
            forall|j: int| 0 <= j < i ==> wf_str(#[trigger] views_of(keys@)[j]),
        decreases keys@.len() - i,
    {
        let ghost pre = views_of(keys@.take(i as int));
        match enc_str(keys[i].as_str(), out) {
            Ok(()) => {},
            Err(e) => {
                proof {
                    assert(views_of(keys@)[i as int] == keys@[i as int]@);
                }
                return Err(e);
            },
        }
        proof {
            assert(views_of(keys@.take(i + 1 as int)) =~= pre.push(keys@[i as int]@));
            lemma_ser_strs_snoc(pre, keys@[i as int]@);
            assert(out@ =~= old(out)@ + ser_u32(n) + ser_strs(views_of(keys@.take(i + 1 as int))));
            assert(views_of(keys@)[i as int] == keys@[i as int]@);
        }
        i = i + 1;
    }
    proof {
        assert(views_of(keys@.take(keys@.len() as int)) =~= views_of(keys@));
        assert(views_of(keys@).len() == keys@.len());
        assert(out@ =~= old(out)@ + ser_str_list(views_of(keys@)));
    }
    Ok(())
}

fn enc_kv_list(pairs: &Vec<Kvpair>, out: &mut Vec<u8>) -> (r: Result<(), EncodeError>)
    ensures
        r is Ok ==> final(out)@ == old(out)@ + ser_kv_list(views_of(pairs@)) && wf_kv_list(
            views_of(pairs@),
        ),
        r is Err ==> !wf_kv_list(views_of(pairs@)),
{
    if pairs.len() > (u32::MAX as usize) {
        return Err(EncodeError::TooLong);
    }
    let n = pairs.len() as u32;
    enc_u32(n, out);
    let mut i: usize = 0;
    while i < pairs.len()
        invariant
            i <= pairs@.len(),
            pairs@.len() <= u32::MAX,
            n == pairs@.len() as u32,
            out@ == old(out)@ + ser_u32(n) + ser_kvs(views_of(pairs@.take(i as int))),
            forall|j: int| 0 <= j < i ==> wf_kvpair(#[trigger] views_of(pairs@)[j]),
        decreases pairs@.len() - i,
    {
        let ghost pre = views_of(pairs@.take(i as int));
        match enc_kvpair(&pairs[i], out) {
            Ok(()) => {},
            Err(e) => {
                proof {
                    assert(views_of(pairs@)[i as int] == pairs@[i as int]@);
                }
                return Err(e);
            },
        }
        proof {
            assert(views_of(pairs@.take(i + 1 as int)) =~= pre.push(pairs@[i as int]@));
            lemma_ser_kvs_snoc(pre, pairs@[i as int]@);
            assert(out@ =~= old(out)@ + ser_u32(n) + ser_kvs(views_of(pairs@.take(i + 1 as int))));
            assert(views_of(pairs@)[i as int] == pairs@[i as int]@);
        }
        i = i + 1;
    }
    proof {
        assert(views_of(pairs@.take(pairs@.len() as int)) =~= views_of(pairs@));
        assert(views_of(pairs@).len() == pairs@.len());
        assert(out@ =~= old(out)@ + ser_kv_list(views_of(pairs@)));
    }
    Ok(())
}

/// The canonical binary form of a request. Fails exactly when some
/// string, blob or list in the request is too long for its prefix.
pub fn encode_request(m: &CommandRequest) -> (r: Result<Vec<u8>, EncodeError>)
    ensures
        match r {
            Ok(b) => b@ == ser_req(m@) && wf_req(m@),
            Err(_) => !wf_req(m@),
        },
{
    let mut out: Vec<u8> = Vec::new();
    match m {
        CommandRequest::HGet { table, key } => {
            out.push(1);
            match enc_str(table.as_str(), &mut out) {
                Ok(()) => {},
                Err(e) => {
                    return Err(e);
                },
            }
            match enc_str(key.as_str(), &mut out) {
                Ok(()) => {},
                Err(e) => {
                    return Err(e);
                },
            }
        },
        CommandRequest::HGetAll { table } => {
            out.push(2);
            match enc_str(table.as_str(), &mut out) {
                Ok(()) => {},
                Err(e) => {
                    return Err(e);
                },
            }
        },
        CommandRequest::HMGet { table, keys } => {
            out.push(3);
            match enc_str(table.as_str(), &mut out) {
                Ok(()) => {},
                Err(e) => {
                    return Err(e);
                },
            }
            match enc_str_list(keys, &mut out) {
                Ok(()) => {},
                Err(e) => {
                    return Err(e);
                },
            }
        },
        CommandRequest::HSet { table, pair } => {
            out.push(4);
            match enc_str(table.as_str(), &mut out) {
                Ok(()) => {},
                Err(e) => {
                    return Err(e);
                },
            }
            match enc_kvpair(pair, &mut out) {
                Ok(()) => {},
                Err(e) => {
                    return Err(e);
                },
            }
        },
        CommandRequest::HMSet { table, pairs } => {
            out.push(5);
            match enc_str(table.as_str(), &mut out) {
                Ok(()) => {},
                Err(e) => {
                    return Err(e);
                },
            }
            match enc_kv_list(pairs, &mut out) {
                Ok(()) => {},
                Err(e) => {
                    return Err(e);
                },
            }
        },
        CommandRequest::HDel { table, key } => {
            out.push(6);
            match enc_str(table.as_str(), &mut out) {
                Ok(()) => {},
                Err(e) => {
                    return Err(e);
                },
            }
            match enc_str(key.as_str(), &mut out) {
                Ok(()) => {},
                Err(e) => {
                    return Err(e);
                },
            }
        },
        CommandRequest::HMDel { table, keys } => {
            out.push(7);
            match enc_str(table.as_str(), &mut out) {
                Ok(()) => {},
                Err(e) => {
                    return Err(e);
                },
            }
            match enc_str_list(keys, &mut out) {
                Ok(()) => {},
                Err(e) => {
                    return Err(e);
                },
            }
        },
        CommandRequest::HExist { table, key } => {
            out.push(8);
            match enc_str(table.as_str(), &mut out) {
                Ok(()) => {},
                Err(e) => {
                    return Err(e);
                },
            }
            match enc_str(key.as_str(), &mut out) {
                Ok(()) => {},
                Err(e) => {
                    return Err(e);
                },
            }
        },
        CommandRequest::HMExist { table, keys } => {
            out.push(9);
            match enc_str(table.as_str(), &mut out) {
                Ok(()) => {},
                Err(e) => {
                    return Err(e);
                },
            }
            match enc_str_list(keys, &mut out) {
                Ok(()) => {},
                Err(e) => {
                    return Err(e);
                },
            }
        },
        CommandRequest::Subscribe { topic } => {
            out.push(10);
            match enc_str(topic.as_str(), &mut out) {
                Ok(()) => {},
                Err(e) => {
                    return Err(e);
                },
            }
        },
        CommandRequest::Unsubscribe { topic, id } => {
            out.push(11);
            match enc_str(topic.as_str(), &mut out) {
                Ok(()) => {},
                Err(e) => {
                    return Err(e);
                },
            }
            enc_u32(*id, &mut out);
        },
        CommandRequest::Publish { topic, values } => {
            out.push(12);
            match enc_str(topic.as_str(), &mut out) {
                Ok(()) => {},
                Err(e) => {
                    return Err(e);
                },
            }
            match enc_value_list(values, &mut out) {
                Ok(()) => {},
                Err(e) => {
                    return Err(e);
                },
            }
        },
    }
    proof {
        assert(out@ =~= ser_req(m@));
    }
    Ok(out)
}

/// The canonical binary form of a response. Fails exactly when some
/// string, blob or list in the response is too long for its prefix.
pub fn encode_response(m: &CommandResponse) -> (r: Result<Vec<u8>, EncodeError>)
    ensures
        match r {
            Ok(b) => b@ == ser_resp(m@) && wf_resp(m@),
            Err(_) => !wf_resp(m@),
        },
{
    let mut out: Vec<u8> = Vec::new();
    enc_u32(m.status, &mut out);
    match enc_str(m.message.as_str(), &mut out) {
        Ok(()) => {},
        Err(e) => {
            return Err(e);
        },
    }
    match enc_value_list(&m.values, &mut out) {
        Ok(()) => {},
        Err(e) => {
            return Err(e);
        },
    }
    match enc_kv_list(&m.pairs, &mut out) {
        Ok(()) => {},
        Err(e) => {
            return Err(e);
        },
    }
    proof {
        assert(out@ =~= ser_resp(m@));
    }
    Ok(out)
}

fn dec_u8(buf: &[u8], pos: usize) -> (r: Option<(u8, usize)>)
    requires
        pos <= buf@.len(),
    ensures
        match r {
            Some(t) => pos <= t.1 <= buf@.len() && p_u8(buf@.skip(pos as int)) == Some(
                (t.0, buf@.skip(t.1 as int)),
            ),
            None => p_u8(buf@.skip(pos as int)) is None,
        },
{
    if buf.len() - pos >= 1 {
        let b = buf[pos];
        proof {
            let s = buf@.skip(pos as int);
            assert(s[0] == buf@[pos as int]);
            assert(s.skip(1) =~= buf@.skip(pos + 1 as int));
        }
        Some((b, pos + 1))
    } else {
        None
    }
}

pub(crate) fn dec_u32(buf: &[u8], pos: usize) -> (r: Option<(u32, usize)>)
    requires
        pos <= buf@.len(),
    ensures
        match r {
            Some(t) => pos <= t.1 <= buf@.len() && p_u32(buf@.skip(pos as int)) == Some(
                (t.0, buf@.skip(t.1 as int)),
            ),
            None => p_u32(buf@.skip(pos as int)) is None,
        },
{
    if buf.len() - pos >= 4 {
        let b0 = buf[pos];
        let b1 = buf[pos + 1];
        let b2 = buf[pos + 2];
        let b3 = buf[pos + 3];
        let x = ((b0 as u32) << 24) | ((b1 as u32) << 16) | ((b2 as u32) << 8) | (b3 as u32);
        proof {
            let s = buf@.skip(pos as int);
            assert(s[0] == buf@[pos as int] && s[1] == buf@[pos + 1 as int] && s[2] == buf@[pos
                + 2 as int] && s[3] == buf@[pos + 3 as int]);
            assert(s.skip(4) =~= buf@.skip(pos + 4 as int));
        }
        Some((x, pos + 4))
    } else {
        None
    }
}

fn dec_u64(buf: &[u8], pos: usize) -> (r: Option<(u64, usize)>)
    requires
        pos <= buf@.len(),
    ensures
        match r {
            Some(t) => pos <= t.1 <= buf@.len() && p_u64(buf@.skip(pos as int)) == Some(
                (t.0, buf@.skip(t.1 as int)),
            ),
            None => p_u64(buf@.skip(pos as int)) is None,
        },
{
    if buf.len() - pos >= 8 {
        let b0 = buf[pos];
        let b1 = buf[pos + 1];
        let b2 = buf[pos + 2];
        let b3 = buf[pos + 3];
        let b4 = buf[pos + 4];
        let b5 = buf[pos + 5];
        let b6 = buf[pos + 6];
        let b7 = buf[pos + 7];
        let x = ((b0 as u64) << 56) | ((b1 as u64) << 48) | ((b2 as u64) << 40) | ((b3 as u64)
            << 32) | ((b4 as u64) << 24) | ((b5 as u64) << 16) | ((b6 as u64) << 8) | (b7 as u64);
        proof {
            let s = buf@.skip(pos as int);
            assert(s[0] == buf@[pos as int] && s[1] == buf@[pos + 1 as int] && s[2] == buf@[pos
                + 2 as int] && s[3] == buf@[pos + 3 as int] && s[4] == buf@[pos + 4 as int] && s[5]
                == buf@[pos + 5 as int] && s[6] == buf@[pos + 6 as int] && s[7] == buf@[pos
                + 7 as int]);
            assert(s.skip(8) =~= buf@.skip(pos + 8 as int));
        }
        Some((x, pos + 8))
    } else {
        None
    }
}

fn dec_bytes(buf: &[u8], pos: usize) -> (r: Option<(Vec<u8>, usize)>)
    requires
        pos <= buf@.len(),
    ensures
        match r {
            Some(t) => pos <= t.1 <= buf@.len() && p_bytes(buf@.skip(pos as int)) == Some(
                (t.0@, buf@.skip(t.1 as int)),
            ),
            None => p_bytes(buf@.skip(pos as int)) is None,
        },
{
    match dec_u32(buf, pos) {
        None => None,
        Some((n, p1)) => {
            if buf.len() - p1 >= (n as usize) {
                let end = p1 + (n as usize);
                let seg = slice_subrange(buf, p1, end);
                let out = slice_to_vec(seg);
                proof {
                    let rest = buf@.skip(p1 as int);
                    assert(rest.len() >= n);
                    assert(rest.take(n as int) =~= buf@.subrange(p1 as int, end as int));
                    assert(rest.skip(n as int) =~= buf@.skip(end as int));
                }
                Some((out, end))
            } else {
                proof {
                    let rest = buf@.skip(p1 as int);
                    assert(rest.len() < n);
                }
                None
            }
        },
    }
}

fn dec_str(buf: &[u8], pos: usize) -> (r: Option<(String, usize)>)
    requires
        pos <= buf@.len(),
    ensures
        match r {
            Some(t) => pos <= t.1 <= buf@.len() && p_str(buf@.skip(pos as int)) == Some(
                (t.0@, buf@.skip(t.1 as int)),
            ),
            None => p_str(buf@.skip(pos as int)) is None,
        },
{
    match dec_bytes(buf, pos) {
        None => None,
        Some((bytes, end)) => {
            match utf8_to_string(bytes.as_slice()) {
                Some(s) => Some((s, end)),
                None => None,
            }
        },
    }
}

fn dec_opt_u64(buf: &[u8], pos: usize) -> (r: Option<(Option<u64>, usize)>)
    requires
        pos <= buf@.len(),
    ensures
        match r {
            Some(t) => pos <= t.1 <= buf@.len() && p_opt_u64(buf@.skip(pos as int)) == Some(
                (t.0, buf@.skip(t.1 as int)),
            ),
            None => p_opt_u64(buf@.skip(pos as int)) is None,
        },
{
    match dec_u8(buf, pos) {
        None => None,
        Some((tag, p1)) => {
            if tag == 0 {
                Some((None, p1))
            } else if tag == 1 {
                match dec_u64(buf, p1) {
                    None => None,
                    Some((x, p2)) => Some((Some(x), p2)),
                }
            } else {
                None
            }
        },
    }
}

fn dec_value(buf: &[u8], pos: usize) -> (r: Option<(Value, usize)>)
    requires
        pos <= buf@.len(),
    ensures
        match r {
            Some(t) => pos <= t.1 <= buf@.len() && p_value(buf@.skip(pos as int)) == Some(
                (t.0@, buf@.skip(t.1 as int)),
            ),
            None => p_value(buf@.skip(pos as int)) is None,
        },
{
    match dec_u8(buf, pos) {
        None => None,
        Some((tag, p1)) => {
            if tag == 0 {
                Some((Value::Absent, p1))
            } else if tag == 1 {
                match dec_u64(buf, p1) {
                    None => None,
                    Some((x, p2)) => Some((Value::Int(x as i64), p2)),
                }
            } else if tag == 2 {
                match dec_u64(buf, p1) {
                    None => None,
                    Some((x, p2)) => Some((Value::Double(x), p2)),
                }
            } else if tag == 3 {
                match dec_str(buf, p1) {
                    None => None,
                    Some((s, p2)) => Some((Value::Str(s), p2)),
                }
            } else if tag == 4 {
                match dec_bytes(buf, p1) {
                    None => None,
                    Some((b, p2)) => Some((Value::Blob(b), p2)),
                }
            } else if tag == 5 {
                match dec_u8(buf, p1) {
                    None => None,
                    Some((b, p2)) => {
                        if b == 0 {
                            Some((Value::Bool(false), p2))
                        } else if b == 1 {
                            Some((Value::Bool(true), p2))
                        } else {
                            None
                        }
                    },
                }
            } else {
                None
            }
        },
    }
}

fn dec_kvpair(buf: &[u8], pos: usize) -> (r: Option<(Kvpair, usize)>)
    requires
        pos <= buf@.len(),
    ensures
        match r {
            Some(t) => pos <= t.1 <= buf@.len() && p_kvpair(buf@.skip(pos as int)) == Some(
                (t.0@, buf@.skip(t.1 as int)),
            ),
            None => p_kvpair(buf@.skip(pos as int)) is None,
        },
{
    match dec_str(buf, pos) {
        None => None,
        Some((key, p1)) => {
            match dec_value(buf, p1) {
                None => None,
                Some((value, p2)) => {
                    match dec_opt_u64(buf, p2) {
                        None => None,
                        Some((expires, p3)) => Some((Kvpair { key, value, expires }, p3)),
                    }
                },
            }
        },
    }
}

fn dec_value_list(buf: &[u8], pos: usize) -> (r: Option<(Vec<Value>, usize)>)
    requires
        pos <= buf@.len(),
    ensures
        match r {
            Some(t) => pos <= t.1 <= buf@.len() && p_value_list(buf@.skip(pos as int)) == Some(
                (views_of(t.0@), buf@.skip(t.1 as int)),
            ),
            None => p_value_list(buf@.skip(pos as int)) is None,
        },
{
    match dec_u32(buf, pos) {
        None => None,
        Some((n, p1)) => {
            let mut acc: Vec<Value> = Vec::new();
            let mut cur = p1;
            let mut i: u32 = 0;
            proof {
                assert(views_of(acc@) =~= Seq::<crate::proto::ValueV>::empty());
            }
            while i < n
                invariant
                    i <= n,
                    pos <= p1 <= cur <= buf@.len(),
                    p_u32(buf@.skip(pos as int)) == Some((n, buf@.skip(p1 as int))),
                    p_values(buf@.skip(p1 as int), n as nat) == (match p_values(
                        buf@.skip(cur as int),
                        (n - i) as nat,
                    ) {
                        Some(t) => Some((views_of(acc@) + t.0, t.1)),
                        None => None::<(Seq<crate::proto::ValueV>, Seq<u8>)>,
                    }),
                decreases n - i,
            {
                let ghost acc0 = views_of(acc@);
                match dec_value(buf, cur) {
                    None => {
                        proof {
                            let m = (n - i) as nat;
                            assert(p_values(buf@.skip(cur as int), m) is None);
                        }
                        return None;
                    },
                    Some((v, nx)) => {
                        proof {
                            let m = (n - i) as nat;
                            assert(p_values(buf@.skip(cur as int), m) == (match p_values(
                                buf@.skip(nx as int),
                                (m - 1) as nat,
                            ) {
                                Some(t) => Some((seq![v@] + t.0, t.1)),
                                None => None::<(Seq<crate::proto::ValueV>, Seq<u8>)>,
                            }));
                        }
                        acc.push(v);
                        cur = nx;
                        proof {
                            assert(views_of(acc@) =~= acc0.push(v@));
                            if p_values(buf@.skip(cur as int), (n - i - 1) as nat) is Some {
                                let t = p_values(buf@.skip(cur as int), (n - i - 1) as nat)->Some_0;
                                assert(acc0 + (seq![v@] + t.0) =~= views_of(acc@) + t.0);
                            }
                        }
                        i = i + 1;
                    },
                }
            }
            proof {
                assert(p_values(buf@.skip(cur as int), 0) == Some(
                    (Seq::<crate::proto::ValueV>::empty(), buf@.skip(cur as int)),
                ));
                assert(views_of(acc@) + Seq::<crate::proto::ValueV>::empty() =~= views_of(acc@));
            }
            Some((acc, cur))
        },
    }
}

fn dec_str_list(buf: &[u8], pos: usize) -> (r: Option<(Vec<String>, usize)>)
    requires
        pos <= buf@.len(),
    ensures
        match r {
            Some(t) => pos <= t.1 <= buf@.len() && p_str_list(buf@.skip(pos as int)) == Some(
                (views_of(t.0@), buf@.skip(t.1 as int)),
            ),
            None => p_str_list(buf@.skip(pos as int)) is None,
        },
{
    match dec_u32(buf, pos) {
        None => None,
        Some((n, p1)) => {
            let mut acc: Vec<String> = Vec::new();
            let mut cur = p1;
            let mut i: u32 = 0;
            proof {
                assert(views_of(acc@) =~= Seq::<Seq<char>>::empty());
            }
            while i < n
                invariant
                    i <= n,
                    pos <= p1 <= cur <= buf@.len(),
                    p_u32(buf@.skip(pos as int)) == Some((n, buf@.skip(p1 as int))),
                    p_strs(buf@.skip(p1 as int), n as nat) == (match p_strs(
                        buf@.skip(cur as int),
                        (n - i) as nat,
                    ) {
                        Some(t) => Some((views_of(acc@) + t.0, t.1)),
                        None => None::<(Seq<Seq<char>>, Seq<u8>)>,
                    }),
                decreases n - i,
            {
                let ghost acc0 = views_of(acc@);
                match dec_str(buf, cur) {
                    None => {
                        proof {
                            let m = (n - i) as nat;
                            assert(p_strs(buf@.skip(cur as int), m) is None);
                        }
                        return None;
                    },
                    Some((v, nx)) => {
                        proof {
                            let m = (n - i) as nat;
                            assert(p_strs(buf@.skip(cur as int), m) == (match p_strs(
                                buf@.skip(nx as int),
                                (m - 1) as nat,
                            ) {
                                Some(t) => Some((seq![v@] + t.0, t.1)),
                                None => None::<(Seq<Seq<char>>, Seq<u8>)>,
                            }));
                        }
                        acc.push(v);
                        cur = nx;
                        proof {
                            assert(views_of(acc@) =~= acc0.push(v@));
                            if p_strs(buf@.skip(cur as int), (n - i - 1) as nat) is Some {
                                let t = p_strs(buf@.skip(cur as int), (n - i - 1) as nat)->Some_0;
                                assert(acc0 + (seq![v@] + t.0) =~= views_of(acc@) + t.0);
                            }
                        }
                        i = i + 1;
                    },
                }
            }
            proof {
                assert(p_strs(buf@.skip(cur as int), 0) == Some(
                    (Seq::<Seq<char>>::empty(), buf@.skip(cur as int)),
                ));
                assert(views_of(acc@) + Seq::<Seq<char>>::empty() =~= views_of(acc@));
            }
            Some((acc, cur))
        },
    }
}

fn dec_kv_list(buf: &[u8], pos: usize) -> (r: Option<(Vec<Kvpair>, usize)>)
    requires
        pos <= buf@.len(),
    ensures
        match r {
            Some(t) => pos <= t.1 <= buf@.len() && p_kv_list(buf@.skip(pos as int)) == Some(
                (views_of(t.0@), buf@.skip(t.1 as int)),
            ),
            None => p_kv_list(buf@.skip(pos as int)) is None,
        },
{
    match dec_u32(buf, pos) {
        None => None,
        Some((n, p1)) => {
            let mut acc: Vec<Kvpair> = Vec::new();
            let mut cur = p1;
            let mut i: u32 = 0;
            proof {
                assert(views_of(acc@) =~= Seq::<crate::proto::KvpairV>::empty());
            }
            while i < n
                invariant
                    i <= n,
                    pos <= p1 <= cur <= buf@.len(),
                    p_u32(buf@.skip(pos as int)) == Some((n, buf@.skip(p1 as int))),
                    p_kvs(buf@.skip(p1 as int), n as nat) == (match p_kvs(
                        buf@.skip(cur as int),
                        (n - i) as nat,
                    ) {
                        Some(t) => Some((views_of(acc@) + t.0, t.1)),
                        None => None::<(Seq<crate::proto::KvpairV>, Seq<u8>)>,
                    }),
                decreases n - i,
            {
                let ghost acc0 = views_of(acc@);
                match dec_kvpair(buf, cur) {
                    None => {
                        proof {
                            let m = (n - i) as nat;
                            assert(p_kvs(buf@.skip(cur as int), m) is None);
                        }
                        return None;
                    },
                    Some((v, nx)) => {
                        proof {
                            let m = (n - i) as nat;
                            assert(p_kvs(buf@.skip(cur as int), m) == (match p_kvs(
                                buf@.skip(nx as int),
                                (m - 1) as nat,
                            ) {
                                Some(t) => Some((seq![v@] + t.0, t.1)),
                                None => None::<(Seq<crate::proto::KvpairV>, Seq<u8>)>,
                            }));
                        }
                        acc.push(v);
                        cur = nx;
                        proof {
                            assert(views_of(acc@) =~= acc0.push(v@));
                            if p_kvs(buf@.skip(cur as int), (n - i - 1) as nat) is Some {
                                let t = p_kvs(buf@.skip(cur as int), (n - i - 1) as nat)->Some_0;
                                assert(acc0 + (seq![v@] + t.0) =~= views_of(acc@) + t.0);
                            }
                        }
                        i = i + 1;
                    },
                }
            }
            proof {
                assert(p_kvs(buf@.skip(cur as int), 0) == Some(
                    (Seq::<crate::proto::KvpairV>::empty(), buf@.skip(cur as int)),
                ));
                assert(views_of(acc@) + Seq::<crate::proto::KvpairV>::empty() =~= views_of(acc@));
            }
            Some((acc, cur))
        },
    }
}

/// The request held in the canonical binary form in `buf`. Fails exactly
/// when `buf` is not the canonical form of any request.
#[verifier::spinoff_prover]
#[verifier::rlimit(100)]
pub fn decode_request(buf: &[u8]) -> (r: Result<CommandRequest, DecodeError>)
    ensures
        match r {
            Ok(m) => parse_request(buf@) == Some(m@),
            Err(_) => parse_request(buf@) is None,
        },
{
    proof {
        assert(buf@.skip(0) =~= buf@);
    }
    let m: CommandRequest = match dec_u8(buf, 0) {
        None => {
            return Err(DecodeError::Malformed);
        },
        Some((tag, p1)) => {
            if tag == 1 {
                match dec_str(buf, p1) {
                    None => {
                        return Err(DecodeError::Malformed);
                    },
                    Some((table, p2)) => match dec_str(buf, p2) {
                        None => {
                            return Err(DecodeError::Malformed);
                        },
                        Some((key, p3)) => {
                            if p3 != buf.len() {
                                return Err(DecodeError::Malformed);
                            }
                            proof {
                                assert(buf@.skip(p3 as int).len() == 0);
                            }
                            CommandRequest::HGet { table, key }
                        },
                    },
                }
            } else if tag == 2 {
                match dec_str(buf, p1) {
                    None => {
                        return Err(DecodeError::Malformed);
                    },
                    Some((table, p2)) => {
                        if p2 != buf.len() {
                            return Err(DecodeError::Malformed);
                        }
                        proof {
                            assert(buf@.skip(p2 as int).len() == 0);
                        }
                        CommandRequest::HGetAll { table }
                    },
                }
            } else if tag == 3 {
                match dec_str(buf, p1) {
                    None => {
                        return Err(DecodeError::Malformed);
                    },
                    Some((table, p2)) => match dec_str_list(buf, p2) {
                        None => {
                            return Err(DecodeError::Malformed);
                        },
                        Some((keys, p3)) => {
                            if p3 != buf.len() {
                                return Err(DecodeError::Malformed);
                            }
                            proof {
                                assert(buf@.skip(p3 as int).len() == 0);
                            }
                            CommandRequest::HMGet { table, keys }
                        },
                    },
                }
            } else if tag == 4 {
                match dec_str(buf, p1) {
                    None => {
                        return Err(DecodeError::Malformed);
                    },
                    Some((table, p2)) => match dec_kvpair(buf, p2) {
                        None => {
                            return Err(DecodeError::Malformed);
                        },
                        Some((pair, p3)) => {
                            if p3 != buf.len() {
                                return Err(DecodeError::Malformed);
                            }
                            proof {
                                assert(buf@.skip(p3 as int).len() == 0);
                            }
                            CommandRequest::HSet { table, pair }
                        },
                    },
                }
            } else if tag == 5 {
                match dec_str(buf, p1) {
                    None => {
                        return Err(DecodeError::Malformed);
                    },
                    Some((table, p2)) => match dec_kv_list(buf, p2) {
                        None => {
                            return Err(DecodeError::Malformed);
                        },
                        Some((pairs, p3)) => {
                            if p3 != buf.len() {
                                return Err(DecodeError::Malformed);
                            }
                            proof {
                                assert(buf@.skip(p3 as int).len() == 0);
                            }
                            CommandRequest::HMSet { table, pairs }
                        },
                    },
                }
            } else if tag == 6 {
                match dec_str(buf, p1) {
                    None => {
                        return Err(DecodeError::Malformed);
                    },
                    Some((table, p2)) => match dec_str(buf, p2) {
                        None => {
                            return Err(DecodeError::Malformed);
                        },
                        Some((key, p3)) => {
                            if p3 != buf.len() {
                                return Err(DecodeError::Malformed);
                            }
                            proof {
                                assert(buf@.skip(p3 as int).len() == 0);
                            }
                            CommandRequest::HDel { table, key }
                        },
                    },
                }
            } else if tag == 7 {
                match dec_str(buf, p1) {
                    None => {
                        return Err(DecodeError::Malformed);
                    },
                    Some((table, p2)) => match dec_str_list(buf, p2) {
                        None => {
                            return Err(DecodeError::Malformed);
                        },
                        Some((keys, p3)) => {
                            if p3 != buf.len() {
                                return Err(DecodeError::Malformed);
                            }
                            proof {
                                assert(buf@.skip(p3 as int).len() == 0);
                            }
                            CommandRequest::HMDel { table, keys }
                        },
                    },
                }
            } else if tag == 8 {
                match dec_str(buf, p1) {
                    None => {
                        return Err(DecodeError::Malformed);
                    },
                    Some((table, p2)) => match dec_str(buf, p2) {
                        None => {
                            return Err(DecodeError::Malformed);
                        },
                        Some((key, p3)) => {
                            if p3 != buf.len() {
                                return Err(DecodeError::Malformed);
                            }
                            proof {
                                assert(buf@.skip(p3 as int).len() == 0);
                            }
                            CommandRequest::HExist { table, key }
                        },
                    },
                }
            } else if tag == 9 {
                match dec_str(buf, p1) {
                    None => {
                        return Err(DecodeError::Malformed);
                    },
                    Some((table, p2)) => match dec_str_list(buf, p2) {
                        None => {
                            return Err(DecodeError::Malformed);
                        },
                        Some((keys, p3)) => {
                            if p3 != buf.len() {
                                return Err(DecodeError::Malformed);
                            }
                            proof {
                                assert(buf@.skip(p3 as int).len() == 0);
                            }
                            CommandRequest::HMExist { table, keys }
                        },
                    },
                }
            } else if tag == 10 {
                match dec_str(buf, p1) {
                    None => {
                        return Err(DecodeError::Malformed);
                    },
                    Some((topic, p2)) => {
                        if p2 != buf.len() {
                            return Err(DecodeError::Malformed);
                        }
                        proof {
                            assert(buf@.skip(p2 as int).len() == 0);
                        }
                        CommandRequest::Subscribe { topic }
                    },
                }
            } else if tag == 11 {
                match dec_str(buf, p1) {
                    None => {
                        return Err(DecodeError::Malformed);
                    },
                    Some((topic, p2)) => match dec_u32(buf, p2) {
                        None => {
                            return Err(DecodeError::Malformed);
                        },
                        Some((id, p3)) => {
                            if p3 != buf.len() {
                                return Err(DecodeError::Malformed);
                            }
                            proof {
                                assert(buf@.skip(p3 as int).len() == 0);
                            }
                            CommandRequest::Unsubscribe { topic, id }
                        },
                    },
                }
            } else if tag == 12 {
                match dec_str(buf, p1) {
                    None => {
                        return Err(DecodeError::Malformed);
                    },
                    Some((topic, p2)) => match dec_value_list(buf, p2) {
                        None => {
                            return Err(DecodeError::Malformed);
                        },
                        Some((values, p3)) => {
                            if p3 != buf.len() {
                                return Err(DecodeError::Malformed);
                            }
                            proof {
                                assert(buf@.skip(p3 as int).len() == 0);
                            }
                            CommandRequest::Publish { topic, values }
                        },
                    },
                }
            } else {
                return Err(DecodeError::Malformed);
            }
        },
    };
    Ok(m)
}

/// The response held in the canonical binary form in `buf`. Fails exactly
/// when `buf` is not the canonical form of any response.
#[verifier::spinoff_prover]
#[verifier::rlimit(60)]
pub fn decode_response(buf: &[u8]) -> (r: Result<CommandResponse, DecodeError>)
    ensures
        match r {
            Ok(m) => parse_response(buf@) == Some(m@),
            Err(_) => parse_response(buf@) is None,
        },
{
    proof {
        assert(buf@.skip(0) =~= buf@);
    }
    match dec_u32(buf, 0) {
        None => Err(DecodeError::Malformed),
        Some((status, p1)) => match dec_str(buf, p1) {
            None => Err(DecodeError::Malformed),
            Some((message, p2)) => match dec_value_list(buf, p2) {
                None => Err(DecodeError::Malformed),
                Some((values, p3)) => match dec_kv_list(buf, p3) {
                    None => Err(DecodeError::Malformed),
                    Some((pairs, p4)) => {
                        if p4 != buf.len() {
                            return Err(DecodeError::Malformed);
                        }
                        proof {
                            assert(buf@.skip(p4 as int).len() == 0);
                        }
                        Ok(CommandResponse { status, message, values, pairs })
                    },
                },
            },
        },
    }
}

} // verus!
