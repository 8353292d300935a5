use vstd::prelude::*;
use vstd::slice::{slice_subrange, slice_to_vec};
use crate::proto::{CommandRequest, CommandResponse, RequestV, ResponseV};
use crate::wire::{ser_req, ser_resp, wf_req, wf_resp, p_u32, parse_request, parse_response};
use crate::codec::{encode_request, encode_response, decode_request, decode_response, EncodeError};
use crate::roundtrip::{lemma_p_u32, lemma_request_roundtrip, lemma_response_roundtrip};

verus! {

// A frame is a 4-byte big-endian header followed by a payload. The
// header's high bit says whether the payload is compressed; its low 31
// bits hold the payload's length. A body at least as long as the
// compression threshold is compressed before it is framed.

/// The compression threshold, a conservative Ethernet-MTU-minus-headers
/// figure: shorter bodies are framed as they are.
pub const COMPRESSION_THRESHOLD: usize = 1436;

/// The frame size cap: a payload length must fit in 31 bits.
pub const MAX_FRAME: usize = 0x8000_0000;

/// A frame could not be built or read.
#[derive(Debug)]
pub enum FrameError {
    /// The message cannot be put in its canonical binary form.
    Encode(EncodeError),
    /// The body, or its compressed form, does not fit a frame.
    TooLarge,
    /// The bytes are not a well-formed frame holding a message.
    Malformed,
}

/// What gzip decompression returns on the given bytes, if it accepts
/// them. Decompression is a function of the input bytes alone.
pub uninterp spec fn gunzip_of(b: Seq<u8>) -> Option<Seq<u8>>;

/// What gzip compression returns on the given bytes. flate2 writes a
/// reproducible stream: a fixed header (time stamp zero, a constant
/// operating-system byte) and a deflate body that depends on the input
/// alone, so the result is a function of the bytes on every machine.
pub uninterp spec fn gzip_of(b: Seq<u8>) -> Seq<u8>;

/// Relies on flate2's `GzEncoder`: its output is a gzip stream that
/// decompresses to the input again.
#[verifier::external_body]
fn gzip_compress(data: &[u8]) -> (r: Vec<u8>)
    ensures
        r@ == gzip_of(data@),
        gunzip_of(r@) == Some(data@),
{
    let mut enc = flate2::write::GzEncoder::new(Vec::new(), flate2::Compression::default());
    std::io::Write::write_all(&mut enc, data).unwrap();
    enc.finish().unwrap()
}

/// Relies on flate2's `GzDecoder`: it decompresses a gzip stream, and
/// reports an error on bytes that are not one.
#[verifier::external_body]
fn gzip_decompress(data: &[u8]) -> (r: Option<Vec<u8>>)
    ensures
        match r {
            Some(v) => gunzip_of(data@) == Some(v@),
            None => gunzip_of(data@) is None,
        },
{
    let mut out = Vec::new();
    let mut dec = flate2::read::GzDecoder::new(data);
    match std::io::Read::read_to_end(&mut dec, &mut out) {
        Ok(_) => Some(out),
        Err(_) => None,
    }
}

/// The header and payload of a frame, when the buffer is exactly one
/// well-formed frame.
pub open spec fn frame_payload(b: Seq<u8>) -> Option<(bool, Seq<u8>)> {
    match p_u32(b) {
        Option::None => Option::None,
        Option::Some((hdr, rest)) => {
            if rest.len() == ((hdr & 0x7fff_ffff) as nat) {
                Option::Some((hdr >= 0x8000_0000, rest))
            } else {
                Option::None
            }
        },
    }
}

/// The body of a frame: the payload, decompressed when flagged.
pub open spec fn frame_body(b: Seq<u8>) -> Option<Seq<u8>> {
    match frame_payload(b) {
        Option::None => Option::None,
        Option::Some((flag, payload)) => if flag {
            gunzip_of(payload)
        } else {
            Option::Some(payload)
        },
    }
}

/// The request a frame holds, if it is well formed through every layer.
pub open spec fn frame_request(b: Seq<u8>) -> Option<RequestV> {
    match frame_body(b) {
        Option::None => Option::None,
        Option::Some(body) => parse_request(body),
    }
}

/// The response a frame holds, if it is well formed through every layer.
pub open spec fn frame_response(b: Seq<u8>) -> Option<ResponseV> {
    match frame_body(b) {
        Option::None => Option::None,
        Option::Some(body) => parse_response(body),
    }
}

fn append_bytes(src: &[u8], out: &mut Vec<u8>)
    ensures
        final(out)@ == old(out)@ + src@,
{
    let mut i: usize = 0;
    while i < src.len()
        invariant
            i <= src@.len(),
            out@ == old(out)@ + src@.take(i as int),
        decreases src@.len() - i,
    {
        out.push(src[i]);
        proof {
            assert(src@.take(i + 1 as int) =~= src@.take(i as int).push(src@[i as int]));
            assert(out@ =~= old(out)@ + src@.take(i + 1 as int));
        }
        i = i + 1;
    }
    proof {
        assert(src@.take(src@.len() as int) =~= src@);
    }
}

// The framing of a body shared by requests and responses: compress when
// the body reaches the threshold, then prepend the header.
fn frame_of_body(body: Vec<u8>) -> (r: Result<Vec<u8>, FrameError>)
    requires
        body@.len() < 0x8000_0000,
    ensures
        match r {
            Ok(b) => {
                &&& b@.len() >= 4
                &&& frame_body(b@) == Some(body@)
                &&& (body@.len() >= 1436 <==> b@[0] >= 0x80)
            },
            Err(e) => e is TooLarge && body@.len() >= 1436 && gzip_of(body@).len()
                >= 0x8000_0000,
        },
        body@.len() < 1436 || gzip_of(body@).len() < 0x8000_0000 ==> r is Ok,
{
    let compress = body.len() >= COMPRESSION_THRESHOLD;
    let payload: Vec<u8> = if compress {
        let c = gzip_compress(body.as_slice());
        if c.len() >= MAX_FRAME {
            return Err(FrameError::TooLarge);
        }
        c
    } else {
        body
    };
    let hdr: u32 = if compress {
        (payload.len() as u32) | 0x8000_0000u32
    } else {
        payload.len() as u32
    };
    let mut out: Vec<u8> = Vec::new();
    crate::codec::enc_u32(hdr, &mut out);
    append_bytes(payload.as_slice(), &mut out);
    proof {
        let n = payload@.len() as u32;
        assert(out@ =~= crate::wire::ser_u32(hdr) + payload@);
        lemma_p_u32(hdr, payload@);
        if compress {
            assert(hdr == n | 0x8000_0000u32);
            assert(n < 0x8000_0000 ==> ((n | 0x8000_0000u32) >= 0x8000_0000 && ((n
                | 0x8000_0000u32) & 0x7fff_ffff) == n && ((n | 0x8000_0000u32) >> 24) & 0xff
                >= 0x80)) by (bit_vector);
        } else {
            assert(n < 0x8000_0000 ==> (n < 0x8000_0000 && (n & 0x7fff_ffff) == n && (n >> 24)
                & 0xff < 0x80)) by (bit_vector);
        }
        assert(out@[0] == ((hdr >> 24) & 0xff) as u8);
        assert(((hdr >> 24) & 0xff) < 0x100) by (bit_vector);
    }
    Ok(out)
}

// The unframing of a body: read the header, take the payload,
// decompress when flagged.
fn body_of_frame(buf: &[u8]) -> (r: Option<Vec<u8>>)
    ensures
        match r {
            Some(v) => frame_body(buf@) == Some(v@),
            None => frame_body(buf@) is None,
        },
{
    proof {
        assert(buf@.skip(0) =~= buf@);
    }
    match crate::codec::dec_u32(buf, 0) {
        None => None,
        Some((hdr, p1)) => {
            let flag = hdr >= 0x8000_0000u32;
            let len = (hdr & 0x7fff_ffff) as usize;
            if buf.len() - p1 != len {
                return None;
            }
            let payload = slice_subrange(buf, p1, buf.len());
            proof {
                assert(payload@ =~= buf@.skip(p1 as int));
            }
            if flag {
                match gzip_decompress(payload) {
                    Some(v) => Some(v),
                    None => None,
                }
            } else {
                Some(slice_to_vec(payload))
            }
        },
    }
}

/// One frame holding the request: encoded, compressed at the threshold,
/// and length-prefixed. Reading the frame back yields the request: this
/// is the round trip of the wire format, and the header's high bit is
/// set exactly when the body reached the compression threshold.
pub fn encode_frame_request(m: &CommandRequest) -> (r: Result<Vec<u8>, FrameError>)
    ensures
        match r {
            Ok(b) => {
                &&& frame_request(b@) == Some(m@)
                &&& wf_req(m@)
                &&& b@.len() >= 4
                &&& (ser_req(m@).len() >= 1436 <==> b@[0] >= 0x80)
            },
            Err(e) => match e {
                FrameError::Encode(_) => !wf_req(m@),
                FrameError::TooLarge => wf_req(m@) && (ser_req(m@).len() >= 0x8000_0000 || (ser_req(
                    m@,
                ).len() >= 1436 && gzip_of(ser_req(m@)).len() >= 0x8000_0000)),
                FrameError::Malformed => false,
            },
        },
        wf_req(m@) && ser_req(m@).len() < 0x8000_0000 && (ser_req(m@).len() >= 1436 ==> gzip_of(
            ser_req(m@),
        ).len() < 0x8000_0000) ==> r is Ok,
{
    let body = match encode_request(m) {
        Ok(b) => b,
        Err(e) => {
            return Err(FrameError::Encode(e));
        },
    };
    if body.len() >= MAX_FRAME {
        return Err(FrameError::TooLarge);
    }
    let r = frame_of_body(body);
    proof {
        if r is Ok {
            lemma_request_roundtrip(m@);
        }
    }
    r
}

/// One frame holding the response; the exact mirror of
/// `encode_frame_request`.
pub fn encode_frame_response(m: &CommandResponse) -> (r: Result<Vec<u8>, FrameError>)
    ensures
        match r {
            Ok(b) => {
                &&& frame_response(b@) == Some(m@)
                &&& wf_resp(m@)
                &&& b@.len() >= 4
                &&& (ser_resp(m@).len() >= 1436 <==> b@[0] >= 0x80)
            },
            Err(e) => match e {
                FrameError::Encode(_) => !wf_resp(m@),
                FrameError::TooLarge => wf_resp(m@) && (ser_resp(m@).len() >= 0x8000_0000 || (ser_resp(
                    m@,
                ).len() >= 1436 && gzip_of(ser_resp(m@)).len() >= 0x8000_0000)),
                FrameError::Malformed => false,
            },
        },
        wf_resp(m@) && ser_resp(m@).len() < 0x8000_0000 && (ser_resp(m@).len() >= 1436 ==> gzip_of(
            ser_resp(m@),
        ).len() < 0x8000_0000) ==> r is Ok,
{
    let body = match encode_response(m) {
        Ok(b) => b,
        Err(e) => {
            return Err(FrameError::Encode(e));
        },
    };
    if body.len() >= MAX_FRAME {
        return Err(FrameError::TooLarge);
    }
    let r = frame_of_body(body);
    proof {
        if r is Ok {
            lemma_response_roundtrip(m@);
        }
    }
    r
}

/// The request held in one whole frame. Fails exactly when the buffer is
/// not a well-formed frame holding a request.
pub fn decode_frame_request(buf: &[u8]) -> (r: Result<CommandRequest, FrameError>)
    ensures
        match r {
            Ok(m) => frame_request(buf@) == Some(m@),
            Err(_) => frame_request(buf@) is None,
        },
{
    match body_of_frame(buf) {
        None => Err(FrameError::Malformed),
        Some(body) => match decode_request(body.as_slice()) {
            Ok(m) => Ok(m),
            Err(_) => Err(FrameError::Malformed),
        },
    }
}

/// The response held in one whole frame. Fails exactly when the buffer
/// is not a well-formed frame holding a response.
pub fn decode_frame_response(buf: &[u8]) -> (r: Result<CommandResponse, FrameError>)
    ensures
        match r {
            Ok(m) => frame_response(buf@) == Some(m@),
            Err(_) => frame_response(buf@) is None,
        },
{
    match body_of_frame(buf) {
        None => Err(FrameError::Malformed),
        Some(body) => match decode_response(body.as_slice()) {
            Ok(m) => Ok(m),
            Err(_) => Err(FrameError::Malformed),
        },
    }
}

} // verus!
