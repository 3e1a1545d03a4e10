//! Frames on the wire: each message travels as a 4-byte big-endian
//! length followed by exactly that many payload bytes. When the
//! connection negotiated compression, each frame's payload — never
//! the length prefix, never the whole stream — is compressed
//! independently, so chunk boundaries survive any transport.
use vstd::prelude::*;

use crate::codec::dec_u32;
use crate::codec::dec_u32_at;
use crate::codec::dec_message_spec;
use crate::codec::enc_raw;
use crate::codec::enc_u32;
use crate::codec::encode_message;
use crate::codec::decode_message;
use crate::codec::lemma_dec_u32;
use crate::codec::lemma_message_round_trip;
use crate::codec::lemma_subrange_piece;
use crate::codec::msg_wf;
use crate::codec::ser_msg;
use crate::codec::ser_u32;
use crate::message::MessageV;
use crate::message::StreamMessage;

verus! {

/// What the compressor produces for a payload; the compressed bytes
/// are a function of the payload alone.
pub uninterp spec fn deflate_of(b: Seq<u8>) -> Seq<u8>;

/// What decompression recovers from a byte run, if anything.
pub uninterp spec fn inflate_of(b: Seq<u8>) -> Option<Seq<u8>>;

/// Relies on brotli::BrotliCompress: with the fixed default parameters
/// the encoder is a function of its input, and brotli::BrotliDecompress
/// recovers that input exactly from its output (lossless compression).
/// The call cannot fail here: every error path of BrotliCompress is a
/// reader or writer error, and a byte-slice reader and a Vec writer
/// never produce one, while the encoder itself rejects only misused
/// streams and out-of-range parameters, neither of which this
/// single-shot call with default parameters can present.
#[verifier::external_body]
pub(crate) fn brotli_compress(data: &Vec<u8>) -> (r: Option<Vec<u8>>)
    ensures
        match r {
            Some(c) => c@ == deflate_of(data@) && inflate_of(c@) == Some(data@),
            None => false,
        },
{
    let mut out: Vec<u8> = Vec::new();
    let params = brotli::enc::BrotliEncoderParams::default();
    match brotli::BrotliCompress(&mut &data[..], &mut out, &params) {
        Ok(_) => Some(out),
        Err(_) => None,
    }
}

/// Relies on brotli::BrotliDecompress: decompression is a function of
/// the compressed bytes alone, and fails exactly on byte runs that are
/// not a brotli stream.
#[verifier::external_body]
fn brotli_decompress(data: &Vec<u8>) -> (r: Option<Vec<u8>>)
    ensures
        match r {
            Some(v) => inflate_of(data@) == Some(v@),
            None => inflate_of(data@) is None,
        },
{
    let mut out: Vec<u8> = Vec::new();
    match brotli::BrotliDecompress(&mut &data[..], &mut out) {
        Ok(()) => Some(out),
        Err(_) => None,
    }
}

/// The bytes of one frame around a payload.
pub open spec fn frame_bytes(payload: Seq<u8>) -> Seq<u8> {
    ser_u32(payload.len() as u32) + payload
}

/// The payload a conforming reader takes from the head of a stream:
/// 4 bytes of length, then exactly that many bytes.
pub open spec fn dec_frame_at(s: Seq<u8>, i: int) -> Option<(Seq<u8>, int)> {
    match dec_u32_at(s, i) {
        Some((l, j)) => if j + l <= s.len() {
            Some((s.subrange(j, j + l), j + l))
        } else {
            None
        },
        None => None,
    }
}

pub proof fn lemma_dec_frame(s: Seq<u8>, i: int, payload: Seq<u8>)
    requires
        payload.len() <= u32::MAX,
        0 <= i,
        i + frame_bytes(payload).len() <= s.len(),
        s.subrange(i, i + frame_bytes(payload).len()) == frame_bytes(payload),
    ensures
        dec_frame_at(s, i) == Some((payload, i + 4 + payload.len())),
{
    let e = frame_bytes(payload);
    lemma_subrange_piece(s, i, 0, ser_u32(payload.len() as u32), e);
    lemma_dec_u32(s, i, payload.len() as u32);
    assert(s.subrange(i + 4, i + 4 + payload.len()) =~= payload) by {
        assert forall|k: int|
            0 <= k < payload.len() implies s.subrange(i + 4, i + 4 + payload.len())[k]
            == payload[k] by {
            assert(s.subrange(i, i + e.len())[4 + k] == s[i + 4 + k]);
            assert(e[4 + k] == payload[k]);
        }
    }
}

/// Reading one frame from the head of a stream and decoding the
/// message in it, after decompressing the payload if negotiated.
pub open spec fn dec_frame_message_at(s: Seq<u8>, i: int, compress: bool) -> Option<
    (MessageV, int),
> {
    match dec_frame_at(s, i) {
        Some((payload, j)) => {
            let body = if compress {
                inflate_of(payload)
            } else {
                Some(payload)
            };
            match body {
                Some(b) => match dec_message_spec(b) {
                    Some(v) => Some((v, j)),
                    None => None,
                },
                None => None,
            }
        },
        None => None,
    }
}

/// Encodes one message as a frame. The payload is the message's
/// binary form, compressed when the connection negotiated it; the
/// length prefix counts the payload bytes. `None` exactly when the
/// payload exceeds what the prefix can count; such a failure is fatal
/// to that frame.
pub fn encode_frame(m: &StreamMessage, compress: bool) -> (r: Option<Vec<u8>>)
    ensures
        ({
            let body = ser_msg(m.deep_view());
            let payload = if compress {
                deflate_of(body)
            } else {
                body
            };
            &&& (r is None <==> payload.len() > u32::MAX)
            &&& match r {
                Some(v) => {
                    &&& msg_wf(m.deep_view())
                    &&& v@ == frame_bytes(payload)
                    &&& compress ==> inflate_of(payload) == Some(body)
                },
                None => true,
            }
        }),
{
    let body = encode_message(m);
    let payload = if compress {
        brotli_compress(&body).unwrap()
    } else {
        body
    };
    let n: usize = payload.len();
    if (n as u64) > 0xffff_ffffu64 {
        return None;
    }
    let mut out: Vec<u8> = Vec::new();
    enc_u32(&mut out, n as u32);
    enc_raw(&mut out, &payload);
    proof {
        assert(out@ =~= frame_bytes(payload@));
    }
    Some(out)
}

/// Reads one frame at `i` and decodes the message in it; the returned
/// offset is where the next frame begins.
pub fn decode_frame(s: &Vec<u8>, i: usize, compress: bool) -> (r: Option<(StreamMessage, usize)>)
    ensures
        match r {
            Some(p) => dec_frame_message_at(s@, i as int, compress) == Some(
                (p.0.deep_view(), p.1 as int),
            ),
            None => dec_frame_message_at(s@, i as int, compress) is None,
        },
{
    let n: usize = s.len();
    match dec_u32(s, i) {
        Some((l, j)) => {
            if (l as u64) <= ((n - j) as u64) {
                let len: usize = l as usize;
                let mut payload: Vec<u8> = Vec::new();
                let mut k: usize = j;
                while k < j + len
                    invariant
                        n == s@.len(),
                        j <= k <= j + len,
                        j + len <= n,
                        payload@ == s@.subrange(j as int, k as int),
                    decreases j + len - k,
                {
                    payload.push(s[k]);
                    proof {
                        assert(payload@ =~= s@.subrange(j as int, k + 1));
                    }
                    k += 1;
                }
                let body = if compress {
                    match brotli_decompress(&payload) {
                        Some(b) => b,
                        None => {
                            return None;
                        },
                    }
                } else {
                    payload
                };
                match decode_message(&body) {
                    Some(m) => Some((m, j + len)),
                    None => None,
                }
            } else {
                None
            }
        },
        None => None,
    }
}

/// Frame round trip without compression: a reader that takes the
/// frame of any message from the head of any stream recovers the
/// message exactly and stops at the next frame.
pub proof fn lemma_frame_round_trip_plain(v: MessageV, rest: Seq<u8>)
    requires
        msg_wf(v),
        ser_msg(v).len() <= u32::MAX,
    ensures
        dec_frame_message_at(frame_bytes(ser_msg(v)) + rest, 0, false) == Some(
            (v, 4 + ser_msg(v).len() as int),
        ),
{
    let body = ser_msg(v);
    let s = frame_bytes(body) + rest;
    assert(s.subrange(0, frame_bytes(body).len() as int) =~= frame_bytes(body));
    lemma_dec_frame(s, 0, body);
    lemma_message_round_trip(v);
}

/// Frame round trip with compression: when the compressor round
/// trips the payload — which every successful `encode_frame`
/// guarantees — the reader recovers the message exactly.
pub proof fn lemma_frame_round_trip_compressed(v: MessageV, rest: Seq<u8>)
    requires
        msg_wf(v),
        deflate_of(ser_msg(v)).len() <= u32::MAX,
        inflate_of(deflate_of(ser_msg(v))) == Some(ser_msg(v)),
    ensures
        dec_frame_message_at(frame_bytes(deflate_of(ser_msg(v))) + rest, 0, true) == Some(
            (v, 4 + deflate_of(ser_msg(v)).len() as int),
        ),
{
    let body = ser_msg(v);
    let payload = deflate_of(body);
    let s = frame_bytes(payload) + rest;
    assert(s.subrange(0, frame_bytes(payload).len() as int) =~= frame_bytes(payload));
    lemma_dec_frame(s, 0, payload);
    lemma_message_round_trip(v);
}

} // verus!
