//! The binary encoding of stream messages: a compact, schema-defined
//! format with big-endian integers, length-prefixed UTF-8 strings and
//! counted lists. Encoding and decoding are exact inverses.
use vstd::prelude::*;

use vstd::utf8::decode_utf8;
use vstd::utf8::encode_utf8;
use vstd::utf8::encode_utf8_decode_utf8;
use vstd::utf8::encode_utf8_valid_utf8;
use vstd::utf8::valid_utf8;

use vstd::string::StrSliceExecFns;

use crate::message::ChartSkelV;
use crate::message::ChartSkeleton;
use crate::message::ChartUpdate;
use crate::message::ChartUpdateV;
use crate::message::CompletionEvent;
use crate::message::DashboardSkeleton;
use crate::message::MessageV;
use crate::message::SeriesSkelV;
use crate::message::SeriesSkeleton;
use crate::message::SeriesUpdate;
use crate::message::SeriesUpdateV;
use crate::message::SkeletonV;
use crate::message::StreamMessage;
use crate::message::TileSkelV;
use crate::message::TileSkeleton;
use crate::message::TileUpdate;
use crate::message::TileUpdateV;
use crate::telemetry::ChartKind;
use crate::telemetry::TimeSeriesPoint;

verus! {

// ---- unsigned integers, big-endian ----

pub open spec fn ser_u8(x: u8) -> Seq<u8> {
    seq![x]
}

pub open spec fn dec_u8_at(s: Seq<u8>, i: int) -> Option<(u8, int)> {
    if 0 <= i && i + 1 <= s.len() {
        Some((s[i], i + 1))
    } else {
        None
    }
}

pub open spec fn combine_u32(b0: u8, b1: u8, b2: u8, b3: u8) -> u32 {
    ((b0 as u32) << 24) | ((b1 as u32) << 16) | ((b2 as u32) << 8) | (b3 as u32)
}

pub open spec fn ser_u32(x: u32) -> Seq<u8> {
    seq![
        ((x >> 24) & 0xff) as u8,
        ((x >> 16) & 0xff) as u8,
        ((x >> 8) & 0xff) as u8,
        (x & 0xff) as u8,
    ]
}

pub open spec fn dec_u32_at(s: Seq<u8>, i: int) -> Option<(u32, int)> {
    if 0 <= i && i + 4 <= s.len() {
        Some((combine_u32(s[i], s[i + 1], s[i + 2], s[i + 3]), i + 4))
    } else {
        None
    }
}

pub open spec fn combine_u64(
    b0: u8,
    b1: u8,
    b2: u8,
    b3: u8,
    b4: u8,
    b5: u8,
    b6: u8,
    b7: u8,
) -> u64 {
    ((b0 as u64) << 56) | ((b1 as u64) << 48) | ((b2 as u64) << 40) | ((b3 as u64) << 32) | ((
    b4 as u64) << 24) | ((b5 as u64) << 16) | ((b6 as u64) << 8) | (b7 as u64)
}

pub open spec fn ser_u64(x: u64) -> Seq<u8> {
    seq![
        ((x >> 56) & 0xff) as u8,
        ((x >> 48) & 0xff) as u8,
        ((x >> 40) & 0xff) as u8,
        ((x >> 32) & 0xff) as u8,
        ((x >> 24) & 0xff) as u8,
        ((x >> 16) & 0xff) as u8,
        ((x >> 8) & 0xff) as u8,
        (x & 0xff) as u8,
    ]
}

pub open spec fn dec_u64_at(s: Seq<u8>, i: int) -> Option<(u64, int)> {
    if 0 <= i && i + 8 <= s.len() {
        Some(
            (
                combine_u64(s[i], s[i + 1], s[i + 2], s[i + 3], s[i + 4], s[i + 5], s[i + 6], s[i + 7]),
                i + 8,
            ),
        )
    } else {
        None
    }
}

// ---- signed integers, as two's complement ----

pub open spec fn ser_i64(x: i64) -> Seq<u8> {
    ser_u64(x as u64)
}

pub open spec fn dec_i64_at(s: Seq<u8>, i: int) -> Option<(i64, int)> {
    match dec_u64_at(s, i) {
        Some((u, j)) => Some((u as i64, j)),
        None => None,
    }
}

pub open spec fn ser_i32(x: i32) -> Seq<u8> {
    ser_u32(x as u32)
}

pub open spec fn dec_i32_at(s: Seq<u8>, i: int) -> Option<(i32, int)> {
    match dec_u32_at(s, i) {
        Some((u, j)) => Some((u as i32, j)),
        None => None,
    }
}

// ---- length-prefixed byte runs and UTF-8 strings ----

pub open spec fn ser_bytes(b: Seq<u8>) -> Seq<u8> {
    ser_u64(b.len() as u64) + b
}

pub open spec fn dec_bytes_at(s: Seq<u8>, i: int) -> Option<(Seq<u8>, int)> {
    match dec_u64_at(s, i) {
        Some((l, j)) => if j + l <= s.len() {
            Some((s.subrange(j, j + l), j + l))
        } else {
            None
        },
        None => None,
    }
}

pub open spec fn ser_str(t: Seq<char>) -> Seq<u8> {
    ser_bytes(encode_utf8(t))
}

pub open spec fn dec_str_at(s: Seq<u8>, i: int) -> Option<(Seq<char>, int)> {
    match dec_bytes_at(s, i) {
        Some((b, j)) => if valid_utf8(b) {
            Some((decode_utf8(b), j))
        } else {
            None
        },
        None => None,
    }
}

/// A character sequence whose UTF-8 length fits the length prefix.
pub open spec fn str_wf(t: Seq<char>) -> bool {
    encode_utf8(t).len() <= u64::MAX
}

// ---- round-trip lemmas for the primitives ----

proof fn lemma_u32_combine(x: u32)
    ensures
        combine_u32(
            ((x >> 24) & 0xff) as u8,
            ((x >> 16) & 0xff) as u8,
            ((x >> 8) & 0xff) as u8,
            (x & 0xff) as u8,
        ) == x,
{
    assert(((((x >> 24) & 0xff) as u8 as u32) << 24) | ((((x >> 16) & 0xff) as u8 as u32) << 16)
        | ((((x >> 8) & 0xff) as u8 as u32) << 8) | ((x & 0xff) as u8 as u32) == x) by (bit_vector);
}

proof fn lemma_u64_combine(x: u64)
    ensures
        combine_u64(
            ((x >> 56) & 0xff) as u8,
            ((x >> 48) & 0xff) as u8,
            ((x >> 40) & 0xff) as u8,
            ((x >> 32) & 0xff) as u8,
            ((x >> 24) & 0xff) as u8,
            ((x >> 16) & 0xff) as u8,
            ((x >> 8) & 0xff) as u8,
            (x & 0xff) as u8,
        ) == x,
{
    assert(((((x >> 56) & 0xff) as u8 as u64) << 56) | ((((x >> 48) & 0xff) as u8 as u64) << 48)
        | ((((x >> 40) & 0xff) as u8 as u64) << 40) | ((((x >> 32) & 0xff) as u8 as u64) << 32)
        | ((((x >> 24) & 0xff) as u8 as u64) << 24) | ((((x >> 16) & 0xff) as u8 as u64) << 16)
        | ((((x >> 8) & 0xff) as u8 as u64) << 8) | ((x & 0xff) as u8 as u64) == x) by (bit_vector);
}

pub proof fn lemma_dec_u8(s: Seq<u8>, i: int, x: u8)
    requires
        0 <= i,
        i + 1 <= s.len(),
        s.subrange(i, i + 1) == ser_u8(x),
    ensures
        dec_u8_at(s, i) == Some((x, i + 1)),
{
    assert(s[i] == s.subrange(i, i + 1)[0]);
}

pub proof fn lemma_dec_u32(s: Seq<u8>, i: int, x: u32)
    requires
        0 <= i,
        i + 4 <= s.len(),
        s.subrange(i, i + 4) == ser_u32(x),
    ensures
        dec_u32_at(s, i) == Some((x, i + 4)),
{
    assert forall|k: int| 0 <= k < 4 implies s[i + k] == ser_u32(x)[k] by {
        assert(s.subrange(i, i + 4)[k] == s[i + k]);
    }
    lemma_u32_combine(x);
}

pub proof fn lemma_dec_u64(s: Seq<u8>, i: int, x: u64)
    requires
        0 <= i,
        i + 8 <= s.len(),
        s.subrange(i, i + 8) == ser_u64(x),
    ensures
        dec_u64_at(s, i) == Some((x, i + 8)),
{
    assert forall|k: int| 0 <= k < 8 implies s[i + k] == ser_u64(x)[k] by {
        assert(s.subrange(i, i + 8)[k] == s[i + k]);
    }
    lemma_u64_combine(x);
}

pub proof fn lemma_dec_i64(s: Seq<u8>, i: int, x: i64)
    requires
        0 <= i,
        i + 8 <= s.len(),
        s.subrange(i, i + 8) == ser_i64(x),
    ensures
        dec_i64_at(s, i) == Some((x, i + 8)),
{
    lemma_dec_u64(s, i, x as u64);
    assert((x as u64) as i64 == x) by (bit_vector);
}

pub proof fn lemma_dec_i32(s: Seq<u8>, i: int, x: i32)
    requires
        0 <= i,
        i + 4 <= s.len(),
        s.subrange(i, i + 4) == ser_i32(x),
    ensures
        dec_i32_at(s, i) == Some((x, i + 4)),
{
    lemma_dec_u32(s, i, x as u32);
    assert((x as u32) as i32 == x) by (bit_vector);
}

pub proof fn lemma_dec_bytes(s: Seq<u8>, i: int, b: Seq<u8>)
    requires
        b.len() <= u64::MAX,
        0 <= i,
        i + ser_bytes(b).len() <= s.len(),
        s.subrange(i, i + ser_bytes(b).len()) == ser_bytes(b),
    ensures
        dec_bytes_at(s, i) == Some((b, i + 8 + b.len())),
{
    let e = ser_bytes(b);
    let l = b.len() as u64;
    assert(s.subrange(i, i + 8) =~= ser_u64(l)) by {
        assert forall|k: int| 0 <= k < 8 implies s.subrange(i, i + 8)[k] == ser_u64(l)[k] by {
            assert(s.subrange(i, i + e.len())[k] == s[i + k]);
            assert(e[k] == ser_u64(l)[k]);
        }
    }
    lemma_dec_u64(s, i, l);
    assert(s.subrange(i + 8, i + 8 + b.len()) =~= b) by {
        assert forall|k: int| 0 <= k < b.len() implies s.subrange(i + 8, i + 8 + b.len())[k] == b[k] by {
            assert(s.subrange(i, i + e.len())[8 + k] == s[i + 8 + k]);
            assert(e[8 + k] == b[k]);
        }
    }
}

pub proof fn lemma_dec_str(s: Seq<u8>, i: int, t: Seq<char>)
    requires
        str_wf(t),
        0 <= i,
        i + ser_str(t).len() <= s.len(),
        s.subrange(i, i + ser_str(t).len()) == ser_str(t),
    ensures
        dec_str_at(s, i) == Some((t, i + ser_str(t).len())),
{
    lemma_dec_bytes(s, i, encode_utf8(t));
    encode_utf8_valid_utf8(t);
    encode_utf8_decode_utf8(t);
}

// ---- executable encoders ----

/// Appends raw bytes.
pub fn enc_raw(out: &mut Vec<u8>, b: &Vec<u8>)
    ensures
        final(out)@ == old(out)@ + b@,
{
    let n: usize = b.len();
    let mut k: usize = 0;
    while k < n
        invariant
            n == b@.len(),
            k <= n,
            out@ == old(out)@ + b@.take(k as int),
        decreases n - k,
    {
        out.push(b[k]);
        proof {
            assert(out@ =~= old(out)@ + b@.take(k + 1));
        }
        k += 1;
    }
    proof {
        assert(old(out)@ + b@.take(n as int) =~= old(out)@ + b@);
    }
}

pub fn enc_u8(out: &mut Vec<u8>, x: u8)
    ensures
        final(out)@ == old(out)@ + ser_u8(x),
{
    out.push(x);
    proof {
        assert(out@ =~= old(out)@ + ser_u8(x));
    }
}

pub fn enc_u32(out: &mut Vec<u8>, x: u32)
    ensures
        final(out)@ == old(out)@ + ser_u32(x),
{
    out.push(((x >> 24) & 0xff) as u8);
    out.push(((x >> 16) & 0xff) as u8);
    out.push(((x >> 8) & 0xff) as u8);
    out.push((x & 0xff) as u8);
    proof {
        assert(out@ =~= old(out)@ + ser_u32(x));
    }
}

pub fn enc_u64(out: &mut Vec<u8>, x: u64)
    ensures
        final(out)@ == old(out)@ + ser_u64(x),
{
    out.push(((x >> 56) & 0xff) as u8);
    out.push(((x >> 48) & 0xff) as u8);
    out.push(((x >> 40) & 0xff) as u8);
    out.push(((x >> 32) & 0xff) as u8);
    out.push(((x >> 24) & 0xff) as u8);
    out.push(((x >> 16) & 0xff) as u8);
    out.push(((x >> 8) & 0xff) as u8);
    out.push((x & 0xff) as u8);
    proof {
        assert(out@ =~= old(out)@ + ser_u64(x));
    }
}

pub fn enc_i64(out: &mut Vec<u8>, x: i64)
    ensures
        final(out)@ == old(out)@ + ser_i64(x),
{
    enc_u64(out, x as u64);
}

pub fn enc_i32(out: &mut Vec<u8>, x: i32)
    ensures
        final(out)@ == old(out)@ + ser_i32(x),
{
    enc_u32(out, x as u32);
}

pub fn enc_str(out: &mut Vec<u8>, t: &str)
    ensures
        final(out)@ == old(out)@ + ser_str(t@),
        str_wf(t@),
{
    let b = t.as_bytes_vec();
    enc_u64(out, b.len() as u64);
    enc_raw(out, &b);
    proof {
        assert(old(out)@ + ser_u64(b@.len() as u64) + b@ =~= old(out)@ + ser_str(t@));
    }
}

// ---- executable decoders ----

/// Relies on String::from_utf8: it succeeds exactly on valid UTF-8 and
/// decodes the bytes to the corresponding character sequence.
#[verifier::external_body]
fn bytes_to_string(v: Vec<u8>) -> (r: Option<String>)
    ensures
        match r {
            Some(t) => valid_utf8(v@) && t@ == decode_utf8(v@),
            None => !valid_utf8(v@),
        },
{
    match String::from_utf8(v) {
        Ok(t) => Some(t),
        Err(_) => None,
    }
}

pub fn dec_u8(s: &Vec<u8>, i: usize) -> (r: Option<(u8, usize)>)
    ensures
        match r {
            Some(p) => dec_u8_at(s@, i as int) == Some((p.0, p.1 as int)),
            None => dec_u8_at(s@, i as int) is None,
        },
        r matches Some(p) ==> i <= p.1 <= s@.len(),
{
    let n: usize = s.len();
    if i < n {
        Some((s[i], i + 1))
    } else {
        None
    }
}

pub fn dec_u32(s: &Vec<u8>, i: usize) -> (r: Option<(u32, usize)>)
    ensures
        match r {
            Some(p) => dec_u32_at(s@, i as int) == Some((p.0, p.1 as int)),
            None => dec_u32_at(s@, i as int) is None,
        },
        r matches Some(p) ==> i <= p.1 <= s@.len(),
{
    let n: usize = s.len();
    if i < n && n - i >= 4 {
        let x: u32 = ((s[i] as u32) << 24) | ((s[i + 1] as u32) << 16) | ((s[i + 2] as u32) << 8)
            | (s[i + 3] as u32);
        Some((x, i + 4))
    } else {
        None
    }
}

pub fn dec_u64(s: &Vec<u8>, i: usize) -> (r: Option<(u64, usize)>)
    ensures
        match r {
            Some(p) => dec_u64_at(s@, i as int) == Some((p.0, p.1 as int)),
            None => dec_u64_at(s@, i as int) is None,
        },
        r matches Some(p) ==> i <= p.1 <= s@.len(),
{
    let n: usize = s.len();
    if i < n && n - i >= 8 {
        let x: u64 = ((s[i] as u64) << 56) | ((s[i + 1] as u64) << 48) | ((s[i + 2] as u64) << 40)
            | ((s[i + 3] as u64) << 32) | ((s[i + 4] as u64) << 24) | ((s[i + 5] as u64) << 16) | ((
        s[i + 6] as u64) << 8) | (s[i + 7] as u64);
        Some((x, i + 8))
    } else {
        None
    }
}

pub fn dec_i64(s: &Vec<u8>, i: usize) -> (r: Option<(i64, usize)>)
    ensures
        match r {
            Some(p) => dec_i64_at(s@, i as int) == Some((p.0, p.1 as int)),
            None => dec_i64_at(s@, i as int) is None,
        },
        r matches Some(p) ==> i <= p.1 <= s@.len(),
{
    match dec_u64(s, i) {
        Some((u, j)) => Some((u as i64, j)),
        None => None,
    }
}

pub fn dec_i32(s: &Vec<u8>, i: usize) -> (r: Option<(i32, usize)>)
    ensures
        match r {
            Some(p) => dec_i32_at(s@, i as int) == Some((p.0, p.1 as int)),
            None => dec_i32_at(s@, i as int) is None,
        },
        r matches Some(p) ==> i <= p.1 <= s@.len(),
{
    match dec_u32(s, i) {
        Some((u, j)) => Some((u as i32, j)),
        None => None,
    }
}

pub fn dec_str(s: &Vec<u8>, i: usize) -> (r: Option<(String, usize)>)
    ensures
        match r {
            Some(p) => dec_str_at(s@, i as int) == Some((p.0@, p.1 as int)),
            None => dec_str_at(s@, i as int) is None,
        },
        r matches Some(p) ==> i <= p.1 <= s@.len(),
{
    let n: usize = s.len();
    match dec_u64(s, i) {
        Some((l, j)) => {
            if l <= (n - j) as u64 {
                let len: usize = l as usize;
                let mut b: Vec<u8> = Vec::new();
                let mut k: usize = j;
                while k < j + len
                    invariant
                        n == s@.len(),
                        j <= k <= j + len,
                        j + len <= n,
                        b@ == s@.subrange(j as int, k as int),
                    decreases j + len - k,
                {
                    b.push(s[k]);
                    proof {
                        assert(b@ =~= s@.subrange(j as int, k + 1));
                    }
                    k += 1;
                }
                match bytes_to_string(b) {
                    Some(t) => Some((t, j + len)),
                    None => None,
                }
            } else {
                None
            }
        },
        None => None,
    }
}


// ---- optional fields ----

pub open spec fn ser_opt_str(o: Option<Seq<char>>) -> Seq<u8> {
    match o {
        None => seq![0u8],
        Some(t) => seq![1u8] + ser_str(t),
    }
}

pub open spec fn dec_opt_str_at(s: Seq<u8>, i: int) -> Option<(Option<Seq<char>>, int)> {
    match dec_u8_at(s, i) {
        Some((f, j)) => if f == 0 {
            Some((None, j))
        } else if f == 1 {
            match dec_str_at(s, j) {
                Some((t, k)) => Some((Some(t), k)),
                None => None,
            }
        } else {
            None
        },
        None => None,
    }
}

pub open spec fn opt_str_wf(o: Option<Seq<char>>) -> bool {
    match o {
        Some(t) => str_wf(t),
        None => true,
    }
}

pub open spec fn ser_opt_i64(o: Option<i64>) -> Seq<u8> {
    match o {
        None => seq![0u8],
        Some(x) => seq![1u8] + ser_i64(x),
    }
}

pub open spec fn dec_opt_i64_at(s: Seq<u8>, i: int) -> Option<(Option<i64>, int)> {
    match dec_u8_at(s, i) {
        Some((f, j)) => if f == 0 {
            Some((None, j))
        } else if f == 1 {
            match dec_i64_at(s, j) {
                Some((x, k)) => Some((Some(x), k)),
                None => None,
            }
        } else {
            None
        },
        None => None,
    }
}

pub open spec fn ser_opt_i32(o: Option<i32>) -> Seq<u8> {
    match o {
        None => seq![0u8],
        Some(x) => seq![1u8] + ser_i32(x),
    }
}

pub open spec fn dec_opt_i32_at(s: Seq<u8>, i: int) -> Option<(Option<i32>, int)> {
    match dec_u8_at(s, i) {
        Some((f, j)) => if f == 0 {
            Some((None, j))
        } else if f == 1 {
            match dec_i32_at(s, j) {
                Some((x, k)) => Some((Some(x), k)),
                None => None,
            }
        } else {
            None
        },
        None => None,
    }
}

/// A piece of a byte run that was matched against `s` at offset `i`
/// is itself matched at its own offset.
pub proof fn lemma_subrange_piece(s: Seq<u8>, i: int, pre: int, piece: Seq<u8>, total: Seq<u8>)
    requires
        0 <= i,
        i + total.len() <= s.len(),
        s.subrange(i, i + total.len()) == total,
        0 <= pre,
        pre + piece.len() <= total.len(),
        forall|k: int| 0 <= k < piece.len() ==> total[pre + k] == piece[k],
    ensures
        s.subrange(i + pre, i + pre + piece.len()) == piece,
{
    assert(s.subrange(i + pre, i + pre + piece.len()) =~= piece) by {
        assert forall|k: int|
            0 <= k < piece.len() implies s.subrange(i + pre, i + pre + piece.len())[k] == piece[k] by {
            assert(s.subrange(i, i + total.len())[pre + k] == s[i + pre + k]);
        }
    }
}

pub proof fn lemma_dec_opt_str(s: Seq<u8>, i: int, o: Option<Seq<char>>)
    requires
        opt_str_wf(o),
        0 <= i,
        i + ser_opt_str(o).len() <= s.len(),
        s.subrange(i, i + ser_opt_str(o).len()) == ser_opt_str(o),
    ensures
        dec_opt_str_at(s, i) == Some((o, i + ser_opt_str(o).len())),
{
    let e = ser_opt_str(o);
    match o {
        None => {
            assert(s.subrange(i, i + 1) =~= ser_u8(0));
            lemma_dec_u8(s, i, 0);
        },
        Some(t) => {
            assert(s.subrange(i, i + 1) =~= ser_u8(1)) by {
                assert(s.subrange(i, i + e.len())[0] == s[i]);
            }
            lemma_dec_u8(s, i, 1);
            lemma_subrange_piece(s, i, 1, ser_str(t), e);
            lemma_dec_str(s, i + 1, t);
        },
    }
}

pub proof fn lemma_dec_opt_i64(s: Seq<u8>, i: int, o: Option<i64>)
    requires
        0 <= i,
        i + ser_opt_i64(o).len() <= s.len(),
        s.subrange(i, i + ser_opt_i64(o).len()) == ser_opt_i64(o),
    ensures
        dec_opt_i64_at(s, i) == Some((o, i + ser_opt_i64(o).len())),
{
    let e = ser_opt_i64(o);
    match o {
        None => {
            assert(s.subrange(i, i + 1) =~= ser_u8(0));
            lemma_dec_u8(s, i, 0);
        },
        Some(x) => {
            assert(s.subrange(i, i + 1) =~= ser_u8(1)) by {
                assert(s.subrange(i, i + e.len())[0] == s[i]);
            }
            lemma_dec_u8(s, i, 1);
            lemma_subrange_piece(s, i, 1, ser_i64(x), e);
            lemma_dec_i64(s, i + 1, x);
        },
    }
}

pub proof fn lemma_dec_opt_i32(s: Seq<u8>, i: int, o: Option<i32>)
    requires
        0 <= i,
        i + ser_opt_i32(o).len() <= s.len(),
        s.subrange(i, i + ser_opt_i32(o).len()) == ser_opt_i32(o),
    ensures
        dec_opt_i32_at(s, i) == Some((o, i + ser_opt_i32(o).len())),
{
    let e = ser_opt_i32(o);
    match o {
        None => {
            assert(s.subrange(i, i + 1) =~= ser_u8(0));
            lemma_dec_u8(s, i, 0);
        },
        Some(x) => {
            assert(s.subrange(i, i + 1) =~= ser_u8(1)) by {
                assert(s.subrange(i, i + e.len())[0] == s[i]);
            }
            lemma_dec_u8(s, i, 1);
            lemma_subrange_piece(s, i, 1, ser_i32(x), e);
            lemma_dec_i32(s, i + 1, x);
        },
    }
}

// ---- time-series points and their lists ----

pub open spec fn ser_point(p: TimeSeriesPoint) -> Seq<u8> {
    ser_i64(p.time_ms) + ser_i64(p.value)
}

pub open spec fn dec_point_at(s: Seq<u8>, i: int) -> Option<(TimeSeriesPoint, int)> {
    match dec_i64_at(s, i) {
        Some((t, j)) => match dec_i64_at(s, j) {
            Some((v, k)) => Some((TimeSeriesPoint { time_ms: t, value: v }, k)),
            None => None,
        },
        None => None,
    }
}

pub proof fn lemma_dec_point(s: Seq<u8>, i: int, p: TimeSeriesPoint)
    requires
        0 <= i,
        i + ser_point(p).len() <= s.len(),
        s.subrange(i, i + ser_point(p).len()) == ser_point(p),
    ensures
        dec_point_at(s, i) == Some((p, i + ser_point(p).len())),
{
    let e = ser_point(p);
    lemma_subrange_piece(s, i, 0, ser_i64(p.time_ms), e);
    lemma_dec_i64(s, i, p.time_ms);
    lemma_subrange_piece(s, i, 8, ser_i64(p.value), e);
    lemma_dec_i64(s, i + 8, p.value);
}

pub open spec fn ser_points_items(ps: Seq<TimeSeriesPoint>) -> Seq<u8>
    decreases ps.len(),
{
    if ps.len() == 0 {
        Seq::empty()
    } else {
        ser_point(ps[0]) + ser_points_items(ps.drop_first())
    }
}

pub open spec fn ser_points(ps: Seq<TimeSeriesPoint>) -> Seq<u8> {
    ser_u64(ps.len() as u64) + ser_points_items(ps)
}

pub open spec fn dec_points_items_at(s: Seq<u8>, i: int, n: nat) -> Option<
    (Seq<TimeSeriesPoint>, int),
>
    decreases n,
{
    if n == 0 {
        if 0 <= i <= s.len() {
            Some((Seq::empty(), i))
        } else {
            None
        }
    } else {
        match dec_point_at(s, i) {
            Some((p, j)) => match dec_points_items_at(s, j, (n - 1) as nat) {
                Some((ps, k)) => Some((seq![p] + ps, k)),
                None => None,
            },
            None => None,
        }
    }
}

pub open spec fn dec_points_at(s: Seq<u8>, i: int) -> Option<(Seq<TimeSeriesPoint>, int)> {
    match dec_u64_at(s, i) {
        Some((c, j)) => dec_points_items_at(s, j, c as nat),
        None => None,
    }
}

pub open spec fn points_wf(ps: Seq<TimeSeriesPoint>) -> bool {
    ps.len() <= u64::MAX
}

pub proof fn lemma_ser_points_items_push(ps: Seq<TimeSeriesPoint>, p: TimeSeriesPoint)
    ensures
        ser_points_items(ps.push(p)) == ser_points_items(ps) + ser_point(p),
    decreases ps.len(),
{
    if ps.len() == 0 {
        assert(ps.push(p)[0] == p);
        assert(ps.push(p).drop_first() =~= Seq::<TimeSeriesPoint>::empty());
        assert(ser_points_items(ps.push(p)) == ser_point(p) + ser_points_items(
            Seq::<TimeSeriesPoint>::empty(),
        ));
        assert(ser_points_items(Seq::<TimeSeriesPoint>::empty()) =~= Seq::<u8>::empty());
        assert(ser_points_items(ps) =~= Seq::<u8>::empty());
        assert(ser_point(p) + Seq::<u8>::empty() =~= Seq::<u8>::empty() + ser_point(p));
        assert(ser_points_items(ps.push(p)) =~= ser_points_items(ps) + ser_point(p));
    } else {
        assert(ps.push(p).drop_first() =~= ps.drop_first().push(p));
        lemma_ser_points_items_push(ps.drop_first(), p);
        assert(ps.push(p)[0] == ps[0]);
        assert(ser_point(ps[0]) + (ser_points_items(ps.drop_first()) + ser_point(p)) =~= (ser_point(
            ps[0],
        ) + ser_points_items(ps.drop_first())) + ser_point(p));
    }
}

pub proof fn lemma_dec_points_items(s: Seq<u8>, i: int, ps: Seq<TimeSeriesPoint>)
    requires
        0 <= i,
        i + ser_points_items(ps).len() <= s.len(),
        s.subrange(i, i + ser_points_items(ps).len()) == ser_points_items(ps),
    ensures
        dec_points_items_at(s, i, ps.len()) == Some((ps, i + ser_points_items(ps).len())),
    decreases ps.len(),
{
    if ps.len() == 0 {
        assert(Seq::<TimeSeriesPoint>::empty() =~= ps);
    } else {
        let e = ser_points_items(ps);
        let a = ser_point(ps[0]);
        let rest = ser_points_items(ps.drop_first());
        lemma_subrange_piece(s, i, 0, a, e);
        lemma_dec_point(s, i, ps[0]);
        lemma_subrange_piece(s, i, a.len() as int, rest, e);
        lemma_dec_points_items(s, i + a.len(), ps.drop_first());
        assert(seq![ps[0]] + ps.drop_first() =~= ps);
    }
}

pub proof fn lemma_dec_points(s: Seq<u8>, i: int, ps: Seq<TimeSeriesPoint>)
    requires
        points_wf(ps),
        0 <= i,
        i + ser_points(ps).len() <= s.len(),
        s.subrange(i, i + ser_points(ps).len()) == ser_points(ps),
    ensures
        dec_points_at(s, i) == Some((ps, i + ser_points(ps).len())),
{
    let e = ser_points(ps);
    lemma_subrange_piece(s, i, 0, ser_u64(ps.len() as u64), e);
    lemma_dec_u64(s, i, ps.len() as u64);
    lemma_subrange_piece(s, i, 8, ser_points_items(ps), e);
    lemma_dec_points_items(s, i + 8, ps);
}

// ---- executable encoders for options and points ----

pub fn enc_opt_str(out: &mut Vec<u8>, o: &Option<String>)
    ensures
        final(out)@ == old(out)@ + ser_opt_str(o.deep_view()),
        opt_str_wf(o.deep_view()),
{
    match o {
        None => {
            enc_u8(out, 0);
            proof {
                assert(old(out)@ + ser_u8(0) =~= old(out)@ + ser_opt_str(o.deep_view()));
            }
        },
        Some(t) => {
            enc_u8(out, 1);
            enc_str(out, t.as_str());
            proof {
                assert(old(out)@ + ser_u8(1) + ser_str(t@) =~= old(out)@ + ser_opt_str(
                    o.deep_view(),
                ));
            }
        },
    }
}

pub fn enc_opt_i64(out: &mut Vec<u8>, o: &Option<i64>)
    ensures
        final(out)@ == old(out)@ + ser_opt_i64(o.deep_view()),
{
    match o {
        None => {
            enc_u8(out, 0);
            proof {
                assert(old(out)@ + ser_u8(0) =~= old(out)@ + ser_opt_i64(o.deep_view()));
            }
        },
        Some(x) => {
            enc_u8(out, 1);
            enc_i64(out, *x);
            proof {
                assert(old(out)@ + ser_u8(1) + ser_i64(*x) =~= old(out)@ + ser_opt_i64(
                    o.deep_view(),
                ));
            }
        },
    }
}

pub fn enc_opt_i32(out: &mut Vec<u8>, o: &Option<i32>)
    ensures
        final(out)@ == old(out)@ + ser_opt_i32(o.deep_view()),
{
    match o {
        None => {
            enc_u8(out, 0);
            proof {
                assert(old(out)@ + ser_u8(0) =~= old(out)@ + ser_opt_i32(o.deep_view()));
            }
        },
        Some(x) => {
            enc_u8(out, 1);
            enc_i32(out, *x);
            proof {
                assert(old(out)@ + ser_u8(1) + ser_i32(*x) =~= old(out)@ + ser_opt_i32(
                    o.deep_view(),
                ));
            }
        },
    }
}

#[verifier::loop_isolation(false)]
pub fn enc_points(out: &mut Vec<u8>, ps: &Vec<TimeSeriesPoint>)
    ensures
        final(out)@ == old(out)@ + ser_points(ps@),
        points_wf(ps@),
{
    let n: usize = ps.len();
    enc_u64(out, n as u64);
    proof {
        assert(ser_points_items(ps@.take(0)) =~= Seq::<u8>::empty());
        assert(out@ =~= old(out)@ + ser_u64(n as u64) + ser_points_items(ps@.take(0)));
    }
    let mut k: usize = 0;
    while k < n
        invariant
            k <= n,
            out@ == old(out)@ + ser_u64(n as u64) + ser_points_items(ps@.take(k as int)),
        decreases n - k,
    {
        enc_i64(out, ps[k].time_ms);
        enc_i64(out, ps[k].value);
        proof {
            assert(ps@.take(k + 1) =~= ps@.take(k as int).push(ps@[k as int]));
            lemma_ser_points_items_push(ps@.take(k as int), ps@[k as int]);
            assert(out@ =~= old(out)@ + ser_u64(n as u64) + ser_points_items(ps@.take(k + 1)));
        }
        k += 1;
    }
    proof {
        assert(ps@.take(n as int) =~= ps@);
        assert(old(out)@ + ser_u64(n as u64) + ser_points_items(ps@) =~= old(out)@ + ser_points(
            ps@,
        ));
    }
}

// ---- executable decoders for options and points ----

pub fn dec_opt_str(s: &Vec<u8>, i: usize) -> (r: Option<(Option<String>, usize)>)
    ensures
        match r {
            Some(p) => dec_opt_str_at(s@, i as int) == Some((p.0.deep_view(), p.1 as int)),
            None => dec_opt_str_at(s@, i as int) is None,
        },
        r matches Some(p) ==> i <= p.1 <= s@.len(),
{
    match dec_u8(s, i) {
        Some((f, j)) => {
            if f == 0 {
                Some((None, j))
            } else if f == 1 {
                match dec_str(s, j) {
                    Some((t, k)) => Some((Some(t), k)),
                    None => None,
                }
            } else {
                None
            }
        },
        None => None,
    }
}

pub fn dec_opt_i64(s: &Vec<u8>, i: usize) -> (r: Option<(Option<i64>, usize)>)
    ensures
        match r {
            Some(p) => dec_opt_i64_at(s@, i as int) == Some((p.0.deep_view(), p.1 as int)),
            None => dec_opt_i64_at(s@, i as int) is None,
        },
        r matches Some(p) ==> i <= p.1 <= s@.len(),
{
    match dec_u8(s, i) {
        Some((f, j)) => {
            if f == 0 {
                Some((None, j))
            } else if f == 1 {
                match dec_i64(s, j) {
                    Some((x, k)) => Some((Some(x), k)),
                    None => None,
                }
            } else {
                None
            }
        },
        None => None,
    }
}

pub fn dec_opt_i32(s: &Vec<u8>, i: usize) -> (r: Option<(Option<i32>, usize)>)
    ensures
        match r {
            Some(p) => dec_opt_i32_at(s@, i as int) == Some((p.0.deep_view(), p.1 as int)),
            None => dec_opt_i32_at(s@, i as int) is None,
        },
        r matches Some(p) ==> i <= p.1 <= s@.len(),
{
    match dec_u8(s, i) {
        Some((f, j)) => {
            if f == 0 {
                Some((None, j))
            } else if f == 1 {
                match dec_i32(s, j) {
                    Some((x, k)) => Some((Some(x), k)),
                    None => None,
                }
            } else {
                None
            }
        },
        None => None,
    }
}

fn dec_point(s: &Vec<u8>, i: usize) -> (r: Option<(TimeSeriesPoint, usize)>)
    ensures
        match r {
            Some(p) => dec_point_at(s@, i as int) == Some((p.0, p.1 as int)),
            None => dec_point_at(s@, i as int) is None,
        },
        r matches Some(p) ==> i <= p.1 <= s@.len(),
{
    match dec_i64(s, i) {
        Some((t, j)) => match dec_i64(s, j) {
            Some((v, k)) => Some((TimeSeriesPoint { time_ms: t, value: v }, k)),
            None => None,
        },
        None => None,
    }
}

#[verifier::loop_isolation(false)]
pub fn dec_points(s: &Vec<u8>, i: usize) -> (r: Option<(Vec<TimeSeriesPoint>, usize)>)
    ensures
        match r {
            Some(p) => dec_points_at(s@, i as int) == Some((p.0@, p.1 as int)),
            None => dec_points_at(s@, i as int) is None,
        },
        r matches Some(p) ==> i <= p.1 <= s@.len(),
{
    let n: usize = s.len();
    match dec_u64(s, i) {
        Some((c, j0)) => {
            let mut out: Vec<TimeSeriesPoint> = Vec::new();
            let mut pos: usize = j0;
            let mut k: u64 = 0;
            proof {
                assert(out@ + Seq::<TimeSeriesPoint>::empty() =~= out@);
            }
            while k < c
                invariant
                    k <= c,
                    j0 <= pos <= n,
                    dec_points_items_at(s@, j0 as int, c as nat) == (match dec_points_items_at(
                        s@,
                        pos as int,
                        (c - k) as nat,
                    ) {
                        Some((ps, e)) => Some((out@ + ps, e)),
                        None => None::<(Seq<TimeSeriesPoint>, int)>,
                    }),
                decreases c - k,
            {
                match dec_point(s, pos) {
                    Some((p, np)) => {
                        proof {
                            match dec_points_items_at(s@, np as int, (c - k - 1) as nat) {
                                Some((ps2, e2)) => {
                                    assert((out@ + seq![p]) + ps2 =~= out@ + (seq![p] + ps2));
                                },
                                None => {},
                            }
                        }
                        out.push(p);
                        pos = np;
                        k += 1;
                    },
                    None => {
                        return None;
                    },
                }
            }
            proof {
                assert(out@ + Seq::<TimeSeriesPoint>::empty() =~= out@);
            }
            Some((out, pos))
        },
        None => None,
    }
}


// ---- widget skeletons ----

pub open spec fn ser_kind(k: ChartKind) -> Seq<u8> {
    match k {
        ChartKind::Line => seq![0u8],
        ChartKind::MultiLine => seq![1u8],
    }
}

pub open spec fn dec_kind_at(s: Seq<u8>, i: int) -> Option<(ChartKind, int)> {
    match dec_u8_at(s, i) {
        Some((f, j)) => if f == 0 {
            Some((ChartKind::Line, j))
        } else if f == 1 {
            Some((ChartKind::MultiLine, j))
        } else {
            None
        },
        None => None,
    }
}

pub proof fn lemma_dec_kind(s: Seq<u8>, i: int, k: ChartKind)
    requires
        0 <= i,
        i + 1 <= s.len(),
        s.subrange(i, i + 1) == ser_kind(k),
    ensures
        dec_kind_at(s, i) == Some((k, i + 1)),
{
    match k {
        ChartKind::Line => {
            assert(s.subrange(i, i + 1) =~= ser_u8(0));
            lemma_dec_u8(s, i, 0);
        },
        ChartKind::MultiLine => {
            assert(s.subrange(i, i + 1) =~= ser_u8(1));
            lemma_dec_u8(s, i, 1);
        },
    }
}

pub open spec fn ser_tile_skel(x: TileSkelV) -> Seq<u8> {
    ser_str(x.id) + ser_str(x.title) + ser_str(x.unit) + ser_i32(x.precision)
}

pub open spec fn tile_skel_wf(x: TileSkelV) -> bool {
    str_wf(x.id) && str_wf(x.title) && str_wf(x.unit)
}

pub open spec fn dec_tile_skel_at(s: Seq<u8>, i: int) -> Option<(TileSkelV, int)> {
    match dec_str_at(s, i) {
        Some((id, i1)) => match dec_str_at(s, i1) {
            Some((title, i2)) => match dec_str_at(s, i2) {
                Some((unit, i3)) => match dec_i32_at(s, i3) {
                    Some((precision, i4)) => Some((TileSkelV { id, title, unit, precision }, i4)),
                    None => None,
                },
                None => None,
            },
            None => None,
        },
        None => None,
    }
}

pub proof fn lemma_dec_tile_skel(s: Seq<u8>, i: int, x: TileSkelV)
    requires
        tile_skel_wf(x),
        0 <= i,
        i + ser_tile_skel(x).len() <= s.len(),
        s.subrange(i, i + ser_tile_skel(x).len()) == ser_tile_skel(x),
    ensures
        dec_tile_skel_at(s, i) == Some((x, i + ser_tile_skel(x).len())),
{
    let e = ser_tile_skel(x);
    let a = ser_str(x.id);
    let b = ser_str(x.title);
    let c = ser_str(x.unit);
    let d = ser_i32(x.precision);
    lemma_subrange_piece(s, i, 0, a, e);
    lemma_dec_str(s, i, x.id);
    lemma_subrange_piece(s, i, a.len() as int, b, e);
    lemma_dec_str(s, i + a.len(), x.title);
    lemma_subrange_piece(s, i, a.len() + b.len() as int, c, e);
    lemma_dec_str(s, i + a.len() + b.len(), x.unit);
    lemma_subrange_piece(s, i, a.len() + b.len() + c.len() as int, d, e);
    lemma_dec_i32(s, i + a.len() + b.len() + c.len(), x.precision);
}

pub open spec fn ser_series_skel(x: SeriesSkelV) -> Seq<u8> {
    ser_str(x.id) + ser_str(x.name) + ser_opt_str(x.color)
}

pub open spec fn series_skel_wf(x: SeriesSkelV) -> bool {
    str_wf(x.id) && str_wf(x.name) && opt_str_wf(x.color)
}

pub open spec fn dec_series_skel_at(s: Seq<u8>, i: int) -> Option<(SeriesSkelV, int)> {
    match dec_str_at(s, i) {
        Some((id, i1)) => match dec_str_at(s, i1) {
            Some((name, i2)) => match dec_opt_str_at(s, i2) {
                Some((color, i3)) => Some((SeriesSkelV { id, name, color }, i3)),
                None => None,
            },
            None => None,
        },
        None => None,
    }
}

pub proof fn lemma_dec_series_skel(s: Seq<u8>, i: int, x: SeriesSkelV)
    requires
        series_skel_wf(x),
        0 <= i,
        i + ser_series_skel(x).len() <= s.len(),
        s.subrange(i, i + ser_series_skel(x).len()) == ser_series_skel(x),
    ensures
        dec_series_skel_at(s, i) == Some((x, i + ser_series_skel(x).len())),
{
    let e = ser_series_skel(x);
    let a = ser_str(x.id);
    let b = ser_str(x.name);
    let c = ser_opt_str(x.color);
    lemma_subrange_piece(s, i, 0, a, e);
    lemma_dec_str(s, i, x.id);
    lemma_subrange_piece(s, i, a.len() as int, b, e);
    lemma_dec_str(s, i + a.len(), x.name);
    lemma_subrange_piece(s, i, a.len() + b.len() as int, c, e);
    lemma_dec_opt_str(s, i + a.len() + b.len(), x.color);
}

pub open spec fn ser_series_skels_items(xs: Seq<SeriesSkelV>) -> Seq<u8>
    decreases xs.len(),
{
    if xs.len() == 0 {
        Seq::empty()
    } else {
        ser_series_skel(xs[0]) + ser_series_skels_items(xs.drop_first())
    }
}

pub open spec fn ser_series_skels(xs: Seq<SeriesSkelV>) -> Seq<u8> {
    ser_u64(xs.len() as u64) + ser_series_skels_items(xs)
}

pub open spec fn dec_series_skels_items_at(s: Seq<u8>, i: int, n: nat) -> Option<
    (Seq<SeriesSkelV>, int),
>
    decreases n,
{
    if n == 0 {
        if 0 <= i <= s.len() {
            Some((Seq::empty(), i))
        } else {
            None
        }
    } else {
        match dec_series_skel_at(s, i) {
            Some((x, j)) => match dec_series_skels_items_at(s, j, (n - 1) as nat) {
                Some((xs, k)) => Some((seq![x] + xs, k)),
                None => None,
            },
            None => None,
        }
    }
}

pub open spec fn dec_series_skels_at(s: Seq<u8>, i: int) -> Option<(Seq<SeriesSkelV>, int)> {
    match dec_u64_at(s, i) {
        Some((c, j)) => dec_series_skels_items_at(s, j, c as nat),
        None => None,
    }
}

pub open spec fn series_skels_wf(xs: Seq<SeriesSkelV>) -> bool {
    xs.len() <= u64::MAX && (forall|k: int| 0 <= k < xs.len() ==> series_skel_wf(#[trigger] xs[k]))
}

pub proof fn lemma_ser_series_skels_items_push(xs: Seq<SeriesSkelV>, x: SeriesSkelV)
    ensures
        ser_series_skels_items(xs.push(x)) == ser_series_skels_items(xs) + ser_series_skel(x),
    decreases xs.len(),
{
    if xs.len() == 0 {
        assert(xs.push(x)[0] == x);
        assert(xs.push(x).drop_first() =~= Seq::<SeriesSkelV>::empty());
        assert(ser_series_skels_items(xs.push(x)) == ser_series_skel(x) + ser_series_skels_items(
            Seq::<SeriesSkelV>::empty(),
        ));
        assert(ser_series_skels_items(Seq::<SeriesSkelV>::empty()) =~= Seq::<u8>::empty());
        assert(ser_series_skels_items(xs) =~= Seq::<u8>::empty());
        assert(ser_series_skel(x) + Seq::<u8>::empty() =~= Seq::<u8>::empty() + ser_series_skel(x));
        assert(ser_series_skels_items(xs.push(x)) =~= ser_series_skels_items(xs)
            + ser_series_skel(x));
    } else {
        assert(xs.push(x).drop_first() =~= xs.drop_first().push(x));
        lemma_ser_series_skels_items_push(xs.drop_first(), x);
        assert(xs.push(x)[0] == xs[0]);
        assert(ser_series_skel(xs[0]) + (ser_series_skels_items(xs.drop_first())
            + ser_series_skel(x)) =~= (ser_series_skel(xs[0]) + ser_series_skels_items(
            xs.drop_first(),
        )) + ser_series_skel(x));
    }
}

pub proof fn lemma_dec_series_skels_items(s: Seq<u8>, i: int, xs: Seq<SeriesSkelV>)
    requires
        forall|k: int| 0 <= k < xs.len() ==> series_skel_wf(#[trigger] xs[k]),
        0 <= i,
        i + ser_series_skels_items(xs).len() <= s.len(),
        s.subrange(i, i + ser_series_skels_items(xs).len()) == ser_series_skels_items(xs),
    ensures
        dec_series_skels_items_at(s, i, xs.len()) == Some(
            (xs, i + ser_series_skels_items(xs).len()),
        ),
    decreases xs.len(),
{
    if xs.len() == 0 {
        assert(Seq::<SeriesSkelV>::empty() =~= xs);
    } else {
        let e = ser_series_skels_items(xs);
        let a = ser_series_skel(xs[0]);
        let rest = ser_series_skels_items(xs.drop_first());
        lemma_subrange_piece(s, i, 0, a, e);
        lemma_dec_series_skel(s, i, xs[0]);
        lemma_subrange_piece(s, i, a.len() as int, rest, e);
        assert(forall|k: int|
            0 <= k < xs.drop_first().len() ==> series_skel_wf(#[trigger] xs.drop_first()[k]));
        lemma_dec_series_skels_items(s, i + a.len(), xs.drop_first());
        assert(seq![xs[0]] + xs.drop_first() =~= xs);
    }
}

pub proof fn lemma_dec_series_skels(s: Seq<u8>, i: int, xs: Seq<SeriesSkelV>)
    requires
        series_skels_wf(xs),
        0 <= i,
        i + ser_series_skels(xs).len() <= s.len(),
        s.subrange(i, i + ser_series_skels(xs).len()) == ser_series_skels(xs),
    ensures
        dec_series_skels_at(s, i) == Some((xs, i + ser_series_skels(xs).len())),
{
    let e = ser_series_skels(xs);
    lemma_subrange_piece(s, i, 0, ser_u64(xs.len() as u64), e);
    lemma_dec_u64(s, i, xs.len() as u64);
    lemma_subrange_piece(s, i, 8, ser_series_skels_items(xs), e);
    lemma_dec_series_skels_items(s, i + 8, xs);
}

pub open spec fn ser_chart_skel(x: ChartSkelV) -> Seq<u8> {
    ser_str(x.id) + ser_str(x.title) + ser_opt_str(x.unit) + ser_kind(x.kind) + ser_opt_i64(x.y_min)
        + ser_opt_i64(x.y_max) + ser_opt_i32(x.fraction_digits) + ser_series_skels(x.series)
}

pub open spec fn chart_skel_wf(x: ChartSkelV) -> bool {
    str_wf(x.id) && str_wf(x.title) && opt_str_wf(x.unit) && series_skels_wf(x.series)
}

pub open spec fn dec_chart_skel_at(s: Seq<u8>, i: int) -> Option<(ChartSkelV, int)> {
    match dec_str_at(s, i) {
        Some((id, i1)) => match dec_str_at(s, i1) {
            Some((title, i2)) => match dec_opt_str_at(s, i2) {
                Some((unit, i3)) => match dec_kind_at(s, i3) {
                    Some((kind, i4)) => match dec_opt_i64_at(s, i4) {
                        Some((y_min, i5)) => match dec_opt_i64_at(s, i5) {
                            Some((y_max, i6)) => match dec_opt_i32_at(s, i6) {
                                Some((fraction_digits, i7)) => match dec_series_skels_at(s, i7) {
                                    Some((series, i8)) => Some(
                                        (
                                            ChartSkelV {
                                                id,
                                                title,
                                                unit,
                                                kind,
                                                y_min,
                                                y_max,
                                                fraction_digits,
                                                series,
                                            },
                                            i8,
                                        ),
                                    ),
                                    None => None,
                                },
                                None => None,
                            },
                            None => None,
                        },
                        None => None,
                    },
                    None => None,
                },
                None => None,
            },
            None => None,
        },
        None => None,
    }
}

#[verifier::rlimit(100)]
pub proof fn lemma_dec_chart_skel(s: Seq<u8>, i: int, x: ChartSkelV)
    requires
        chart_skel_wf(x),
        0 <= i,
        i + ser_chart_skel(x).len() <= s.len(),
        s.subrange(i, i + ser_chart_skel(x).len()) == ser_chart_skel(x),
    ensures
        dec_chart_skel_at(s, i) == Some((x, i + ser_chart_skel(x).len())),
{
    let e = ser_chart_skel(x);
    let a1 = ser_str(x.id);
    let a2 = ser_str(x.title);
    let a3 = ser_opt_str(x.unit);
    let a4 = ser_kind(x.kind);
    let a5 = ser_opt_i64(x.y_min);
    let a6 = ser_opt_i64(x.y_max);
    let a7 = ser_opt_i32(x.fraction_digits);
    let a8 = ser_series_skels(x.series);
    let o1 = a1.len() as int;
    let o2 = o1 + a2.len();
    let o3 = o2 + a3.len();
    let o4 = o3 + a4.len();
    let o5 = o4 + a5.len();
    let o6 = o5 + a6.len();
    let o7 = o6 + a7.len();
    lemma_subrange_piece(s, i, 0, a1, e);
    lemma_dec_str(s, i, x.id);
    lemma_subrange_piece(s, i, o1, a2, e);
    lemma_dec_str(s, i + o1, x.title);
    lemma_subrange_piece(s, i, o2, a3, e);
    lemma_dec_opt_str(s, i + o2, x.unit);
    lemma_subrange_piece(s, i, o3, a4, e);
    lemma_dec_kind(s, i + o3, x.kind);
    lemma_subrange_piece(s, i, o4, a5, e);
    lemma_dec_opt_i64(s, i + o4, x.y_min);
    lemma_subrange_piece(s, i, o5, a6, e);
    lemma_dec_opt_i64(s, i + o5, x.y_max);
    lemma_subrange_piece(s, i, o6, a7, e);
    lemma_dec_opt_i32(s, i + o6, x.fraction_digits);
    lemma_subrange_piece(s, i, o7, a8, e);
    lemma_dec_series_skels(s, i + o7, x.series);
}

pub open spec fn ser_tiles_items(xs: Seq<TileSkelV>) -> Seq<u8>
    decreases xs.len(),
{
    if xs.len() == 0 {
        Seq::empty()
    } else {
        ser_tile_skel(xs[0]) + ser_tiles_items(xs.drop_first())
    }
}

pub open spec fn ser_tiles(xs: Seq<TileSkelV>) -> Seq<u8> {
    ser_u64(xs.len() as u64) + ser_tiles_items(xs)
}

pub open spec fn dec_tiles_items_at(s: Seq<u8>, i: int, n: nat) -> Option<(Seq<TileSkelV>, int)>
    decreases n,
{
    if n == 0 {
        if 0 <= i <= s.len() {
            Some((Seq::empty(), i))
        } else {
            None
        }
    } else {
        match dec_tile_skel_at(s, i) {
            Some((x, j)) => match dec_tiles_items_at(s, j, (n - 1) as nat) {
                Some((xs, k)) => Some((seq![x] + xs, k)),
                None => None,
            },
            None => None,
        }
    }
}

pub open spec fn dec_tiles_at(s: Seq<u8>, i: int) -> Option<(Seq<TileSkelV>, int)> {
    match dec_u64_at(s, i) {
        Some((c, j)) => dec_tiles_items_at(s, j, c as nat),
        None => None,
    }
}

pub open spec fn tiles_wf(xs: Seq<TileSkelV>) -> bool {
    xs.len() <= u64::MAX && (forall|k: int| 0 <= k < xs.len() ==> tile_skel_wf(#[trigger] xs[k]))
}

pub proof fn lemma_ser_tiles_items_push(xs: Seq<TileSkelV>, x: TileSkelV)
    ensures
        ser_tiles_items(xs.push(x)) == ser_tiles_items(xs) + ser_tile_skel(x),
    decreases xs.len(),
{
    if xs.len() == 0 {
        assert(xs.push(x)[0] == x);
        assert(xs.push(x).drop_first() =~= Seq::<TileSkelV>::empty());
        assert(ser_tiles_items(xs.push(x)) == ser_tile_skel(x) + ser_tiles_items(
            Seq::<TileSkelV>::empty(),
        ));
        assert(ser_tiles_items(Seq::<TileSkelV>::empty()) =~= Seq::<u8>::empty());
        assert(ser_tiles_items(xs) =~= Seq::<u8>::empty());
        assert(ser_tile_skel(x) + Seq::<u8>::empty() =~= Seq::<u8>::empty() + ser_tile_skel(x));
        assert(ser_tiles_items(xs.push(x)) =~= ser_tiles_items(xs) + ser_tile_skel(x));
    } else {
        assert(xs.push(x).drop_first() =~= xs.drop_first().push(x));
        lemma_ser_tiles_items_push(xs.drop_first(), x);
        assert(xs.push(x)[0] == xs[0]);
        assert(ser_tile_skel(xs[0]) + (ser_tiles_items(xs.drop_first()) + ser_tile_skel(x)) =~= (
        ser_tile_skel(xs[0]) + ser_tiles_items(xs.drop_first())) + ser_tile_skel(x));
    }
}

#[verifier::rlimit(100)]
pub proof fn lemma_dec_tiles_items(s: Seq<u8>, i: int, xs: Seq<TileSkelV>)
    requires
        forall|k: int| 0 <= k < xs.len() ==> tile_skel_wf(#[trigger] xs[k]),
        0 <= i,
        i + ser_tiles_items(xs).len() <= s.len(),
        s.subrange(i, i + ser_tiles_items(xs).len()) == ser_tiles_items(xs),
    ensures
        dec_tiles_items_at(s, i, xs.len()) == Some((xs, i + ser_tiles_items(xs).len())),
    decreases xs.len(),
{
    if xs.len() == 0 {
        assert(Seq::<TileSkelV>::empty() =~= xs);
    } else {
        let e = ser_tiles_items(xs);
        let a = ser_tile_skel(xs[0]);
        let rest = ser_tiles_items(xs.drop_first());
        lemma_subrange_piece(s, i, 0, a, e);
        lemma_dec_tile_skel(s, i, xs[0]);
        lemma_subrange_piece(s, i, a.len() as int, rest, e);
        assert(forall|k: int|
            0 <= k < xs.drop_first().len() ==> tile_skel_wf(#[trigger] xs.drop_first()[k]));
        lemma_dec_tiles_items(s, i + a.len(), xs.drop_first());
        assert(seq![xs[0]] + xs.drop_first() =~= xs);
    }
}

pub proof fn lemma_dec_tiles(s: Seq<u8>, i: int, xs: Seq<TileSkelV>)
    requires
        tiles_wf(xs),
        0 <= i,
        i + ser_tiles(xs).len() <= s.len(),
        s.subrange(i, i + ser_tiles(xs).len()) == ser_tiles(xs),
    ensures
        dec_tiles_at(s, i) == Some((xs, i + ser_tiles(xs).len())),
{
    let e = ser_tiles(xs);
    lemma_subrange_piece(s, i, 0, ser_u64(xs.len() as u64), e);
    lemma_dec_u64(s, i, xs.len() as u64);
    lemma_subrange_piece(s, i, 8, ser_tiles_items(xs), e);
    lemma_dec_tiles_items(s, i + 8, xs);
}

pub open spec fn ser_charts_items(xs: Seq<ChartSkelV>) -> Seq<u8>
    decreases xs.len(),
{
    if xs.len() == 0 {
        Seq::empty()
    } else {
        ser_chart_skel(xs[0]) + ser_charts_items(xs.drop_first())
    }
}

pub open spec fn ser_charts(xs: Seq<ChartSkelV>) -> Seq<u8> {
    ser_u64(xs.len() as u64) + ser_charts_items(xs)
}

pub open spec fn dec_charts_items_at(s: Seq<u8>, i: int, n: nat) -> Option<(Seq<ChartSkelV>, int)>
    decreases n,
{
    if n == 0 {
        if 0 <= i <= s.len() {
            Some((Seq::empty(), i))
        } else {
            None
        }
    } else {
        match dec_chart_skel_at(s, i) {
            Some((x, j)) => match dec_charts_items_at(s, j, (n - 1) as nat) {
                Some((xs, k)) => Some((seq![x] + xs, k)),
                None => None,
            },
            None => None,
        }
    }
}

pub open spec fn dec_charts_at(s: Seq<u8>, i: int) -> Option<(Seq<ChartSkelV>, int)> {
    match dec_u64_at(s, i) {
        Some((c, j)) => dec_charts_items_at(s, j, c as nat),
        None => None,
    }
}

pub open spec fn charts_wf(xs: Seq<ChartSkelV>) -> bool {
    xs.len() <= u64::MAX && (forall|k: int| 0 <= k < xs.len() ==> chart_skel_wf(#[trigger] xs[k]))
}

pub proof fn lemma_ser_charts_items_push(xs: Seq<ChartSkelV>, x: ChartSkelV)
    ensures
        ser_charts_items(xs.push(x)) == ser_charts_items(xs) + ser_chart_skel(x),
    decreases xs.len(),
{
    if xs.len() == 0 {
        assert(xs.push(x)[0] == x);
        assert(xs.push(x).drop_first() =~= Seq::<ChartSkelV>::empty());
        assert(ser_charts_items(xs.push(x)) == ser_chart_skel(x) + ser_charts_items(
            Seq::<ChartSkelV>::empty(),
        ));
        assert(ser_charts_items(Seq::<ChartSkelV>::empty()) =~= Seq::<u8>::empty());
        assert(ser_charts_items(xs) =~= Seq::<u8>::empty());
        assert(ser_chart_skel(x) + Seq::<u8>::empty() =~= Seq::<u8>::empty() + ser_chart_skel(x));
        assert(ser_charts_items(xs.push(x)) =~= ser_charts_items(xs) + ser_chart_skel(x));
    } else {
        assert(xs.push(x).drop_first() =~= xs.drop_first().push(x));
        lemma_ser_charts_items_push(xs.drop_first(), x);
        assert(xs.push(x)[0] == xs[0]);
        assert(ser_chart_skel(xs[0]) + (ser_charts_items(xs.drop_first()) + ser_chart_skel(x)) =~= (
        ser_chart_skel(xs[0]) + ser_charts_items(xs.drop_first())) + ser_chart_skel(x));
    }
}

#[verifier::rlimit(100)]
pub proof fn lemma_dec_charts_items(s: Seq<u8>, i: int, xs: Seq<ChartSkelV>)
    requires
        forall|k: int| 0 <= k < xs.len() ==> chart_skel_wf(#[trigger] xs[k]),
        0 <= i,
        i + ser_charts_items(xs).len() <= s.len(),
        s.subrange(i, i + ser_charts_items(xs).len()) == ser_charts_items(xs),
    ensures
        dec_charts_items_at(s, i, xs.len()) == Some((xs, i + ser_charts_items(xs).len())),
    decreases xs.len(),
{
    if xs.len() == 0 {
        assert(Seq::<ChartSkelV>::empty() =~= xs);
    } else {
        let e = ser_charts_items(xs);
        let a = ser_chart_skel(xs[0]);
        let rest = ser_charts_items(xs.drop_first());
        lemma_subrange_piece(s, i, 0, a, e);
        lemma_dec_chart_skel(s, i, xs[0]);
        lemma_subrange_piece(s, i, a.len() as int, rest, e);
        assert(forall|k: int|
            0 <= k < xs.drop_first().len() ==> chart_skel_wf(#[trigger] xs.drop_first()[k]));
        lemma_dec_charts_items(s, i + a.len(), xs.drop_first());
        assert(seq![xs[0]] + xs.drop_first() =~= xs);
    }
}

#[verifier::rlimit(100)]
pub proof fn lemma_dec_charts(s: Seq<u8>, i: int, xs: Seq<ChartSkelV>)
    requires
        charts_wf(xs),
        0 <= i,
        i + ser_charts(xs).len() <= s.len(),
        s.subrange(i, i + ser_charts(xs).len()) == ser_charts(xs),
    ensures
        dec_charts_at(s, i) == Some((xs, i + ser_charts(xs).len())),
{
    let e = ser_charts(xs);
    lemma_subrange_piece(s, i, 0, ser_u64(xs.len() as u64), e);
    lemma_dec_u64(s, i, xs.len() as u64);
    lemma_subrange_piece(s, i, 8, ser_charts_items(xs), e);
    lemma_dec_charts_items(s, i + 8, xs);
}

// ---- the four message payloads ----

pub open spec fn ser_skeleton(x: SkeletonV) -> Seq<u8> {
    ser_str(x.source_id) + ser_tiles(x.tiles) + ser_charts(x.charts)
}

pub open spec fn skeleton_wf(x: SkeletonV) -> bool {
    str_wf(x.source_id) && tiles_wf(x.tiles) && charts_wf(x.charts)
}

pub open spec fn dec_skeleton_at(s: Seq<u8>, i: int) -> Option<(SkeletonV, int)> {
    match dec_str_at(s, i) {
        Some((source_id, i1)) => match dec_tiles_at(s, i1) {
            Some((tiles, i2)) => match dec_charts_at(s, i2) {
                Some((charts, i3)) => Some((SkeletonV { source_id, tiles, charts }, i3)),
                None => None,
            },
            None => None,
        },
        None => None,
    }
}

pub proof fn lemma_dec_skeleton(s: Seq<u8>, i: int, x: SkeletonV)
    requires
        skeleton_wf(x),
        0 <= i,
        i + ser_skeleton(x).len() <= s.len(),
        s.subrange(i, i + ser_skeleton(x).len()) == ser_skeleton(x),
    ensures
        dec_skeleton_at(s, i) == Some((x, i + ser_skeleton(x).len())),
{
    let e = ser_skeleton(x);
    let a = ser_str(x.source_id);
    let b = ser_tiles(x.tiles);
    let c = ser_charts(x.charts);
    lemma_subrange_piece(s, i, 0, a, e);
    lemma_dec_str(s, i, x.source_id);
    lemma_subrange_piece(s, i, a.len() as int, b, e);
    lemma_dec_tiles(s, i + a.len(), x.tiles);
    lemma_subrange_piece(s, i, a.len() + b.len() as int, c, e);
    lemma_dec_charts(s, i + a.len() + b.len(), x.charts);
}

pub open spec fn ser_tile_update(x: TileUpdateV) -> Seq<u8> {
    ser_str(x.id) + ser_i64(x.value)
}

pub open spec fn tile_update_wf(x: TileUpdateV) -> bool {
    str_wf(x.id)
}

pub open spec fn dec_tile_update_at(s: Seq<u8>, i: int) -> Option<(TileUpdateV, int)> {
    match dec_str_at(s, i) {
        Some((id, i1)) => match dec_i64_at(s, i1) {
            Some((value, i2)) => Some((TileUpdateV { id, value }, i2)),
            None => None,
        },
        None => None,
    }
}

pub proof fn lemma_dec_tile_update(s: Seq<u8>, i: int, x: TileUpdateV)
    requires
        tile_update_wf(x),
        0 <= i,
        i + ser_tile_update(x).len() <= s.len(),
        s.subrange(i, i + ser_tile_update(x).len()) == ser_tile_update(x),
    ensures
        dec_tile_update_at(s, i) == Some((x, i + ser_tile_update(x).len())),
{
    let e = ser_tile_update(x);
    let a = ser_str(x.id);
    lemma_subrange_piece(s, i, 0, a, e);
    lemma_dec_str(s, i, x.id);
    lemma_subrange_piece(s, i, a.len() as int, ser_i64(x.value), e);
    lemma_dec_i64(s, i + a.len(), x.value);
}

pub open spec fn ser_series_update(x: SeriesUpdateV) -> Seq<u8> {
    ser_str(x.id) + ser_points(x.points)
}

pub open spec fn series_update_wf(x: SeriesUpdateV) -> bool {
    str_wf(x.id) && points_wf(x.points)
}

pub open spec fn dec_series_update_at(s: Seq<u8>, i: int) -> Option<(SeriesUpdateV, int)> {
    match dec_str_at(s, i) {
        Some((id, i1)) => match dec_points_at(s, i1) {
            Some((points, i2)) => Some((SeriesUpdateV { id, points }, i2)),
            None => None,
        },
        None => None,
    }
}

pub proof fn lemma_dec_series_update(s: Seq<u8>, i: int, x: SeriesUpdateV)
    requires
        series_update_wf(x),
        0 <= i,
        i + ser_series_update(x).len() <= s.len(),
        s.subrange(i, i + ser_series_update(x).len()) == ser_series_update(x),
    ensures
        dec_series_update_at(s, i) == Some((x, i + ser_series_update(x).len())),
{
    let e = ser_series_update(x);
    let a = ser_str(x.id);
    lemma_subrange_piece(s, i, 0, a, e);
    lemma_dec_str(s, i, x.id);
    lemma_subrange_piece(s, i, a.len() as int, ser_points(x.points), e);
    lemma_dec_points(s, i + a.len(), x.points);
}

pub open spec fn ser_chart_update(x: ChartUpdateV) -> Seq<u8> {
    ser_str(x.chart_id) + ser_series_update(x.series)
}

pub open spec fn chart_update_wf(x: ChartUpdateV) -> bool {
    str_wf(x.chart_id) && series_update_wf(x.series)
}

pub open spec fn dec_chart_update_at(s: Seq<u8>, i: int) -> Option<(ChartUpdateV, int)> {
    match dec_str_at(s, i) {
        Some((chart_id, i1)) => match dec_series_update_at(s, i1) {
            Some((series, i2)) => Some((ChartUpdateV { chart_id, series }, i2)),
            None => None,
        },
        None => None,
    }
}

pub proof fn lemma_dec_chart_update(s: Seq<u8>, i: int, x: ChartUpdateV)
    requires
        chart_update_wf(x),
        0 <= i,
        i + ser_chart_update(x).len() <= s.len(),
        s.subrange(i, i + ser_chart_update(x).len()) == ser_chart_update(x),
    ensures
        dec_chart_update_at(s, i) == Some((x, i + ser_chart_update(x).len())),
{
    let e = ser_chart_update(x);
    let a = ser_str(x.chart_id);
    lemma_subrange_piece(s, i, 0, a, e);
    lemma_dec_str(s, i, x.chart_id);
    lemma_subrange_piece(s, i, a.len() as int, ser_series_update(x.series), e);
    lemma_dec_series_update(s, i + a.len(), x.series);
}

pub open spec fn ser_complete(x: CompletionEvent) -> Seq<u8> {
    ser_u64(x.total_widgets) + ser_i64(x.duration_ms)
}

pub open spec fn dec_complete_at(s: Seq<u8>, i: int) -> Option<(CompletionEvent, int)> {
    match dec_u64_at(s, i) {
        Some((total_widgets, i1)) => match dec_i64_at(s, i1) {
            Some((duration_ms, i2)) => Some((CompletionEvent { total_widgets, duration_ms }, i2)),
            None => None,
        },
        None => None,
    }
}

pub proof fn lemma_dec_complete(s: Seq<u8>, i: int, x: CompletionEvent)
    requires
        0 <= i,
        i + ser_complete(x).len() <= s.len(),
        s.subrange(i, i + ser_complete(x).len()) == ser_complete(x),
    ensures
        dec_complete_at(s, i) == Some((x, i + ser_complete(x).len())),
{
    let e = ser_complete(x);
    lemma_subrange_piece(s, i, 0, ser_u64(x.total_widgets), e);
    lemma_dec_u64(s, i, x.total_widgets);
    lemma_subrange_piece(s, i, 8, ser_i64(x.duration_ms), e);
    lemma_dec_i64(s, i + 8, x.duration_ms);
}

// ---- whole messages ----

pub open spec fn ser_msg(v: MessageV) -> Seq<u8> {
    match v {
        MessageV::Skeleton(x) => seq![1u8] + ser_skeleton(x),
        MessageV::Tile(x) => seq![2u8] + ser_tile_update(x),
        MessageV::Chart(x) => seq![3u8] + ser_chart_update(x),
        MessageV::Complete(x) => seq![4u8] + ser_complete(x),
    }
}

pub open spec fn msg_wf(v: MessageV) -> bool {
    match v {
        MessageV::Skeleton(x) => skeleton_wf(x),
        MessageV::Tile(x) => tile_update_wf(x),
        MessageV::Chart(x) => chart_update_wf(x),
        MessageV::Complete(_) => true,
    }
}

pub open spec fn dec_msg_at(s: Seq<u8>, i: int) -> Option<(MessageV, int)> {
    match dec_u8_at(s, i) {
        Some((tag, j)) => if tag == 1 {
            match dec_skeleton_at(s, j) {
                Some((x, k)) => Some((MessageV::Skeleton(x), k)),
                None => None,
            }
        } else if tag == 2 {
            match dec_tile_update_at(s, j) {
                Some((x, k)) => Some((MessageV::Tile(x), k)),
                None => None,
            }
        } else if tag == 3 {
            match dec_chart_update_at(s, j) {
                Some((x, k)) => Some((MessageV::Chart(x), k)),
                None => None,
            }
        } else if tag == 4 {
            match dec_complete_at(s, j) {
                Some((x, k)) => Some((MessageV::Complete(x), k)),
                None => None,
            }
        } else {
            None
        },
        None => None,
    }
}

/// Decoding one whole message: the bytes must be consumed exactly.
pub open spec fn dec_message_spec(s: Seq<u8>) -> Option<MessageV> {
    match dec_msg_at(s, 0) {
        Some((v, j)) => if j == s.len() {
            Some(v)
        } else {
            None
        },
        None => None,
    }
}

#[verifier::rlimit(100)]
pub proof fn lemma_dec_msg(s: Seq<u8>, i: int, v: MessageV)
    requires
        msg_wf(v),
        0 <= i,
        i + ser_msg(v).len() <= s.len(),
        s.subrange(i, i + ser_msg(v).len()) == ser_msg(v),
    ensures
        dec_msg_at(s, i) == Some((v, i + ser_msg(v).len())),
{
    let e = ser_msg(v);
    match v {
        MessageV::Skeleton(x) => {
            assert(s.subrange(i, i + 1) =~= ser_u8(1)) by {
                assert(s.subrange(i, i + e.len())[0] == s[i]);
            }
            lemma_dec_u8(s, i, 1);
            lemma_subrange_piece(s, i, 1, ser_skeleton(x), e);
            lemma_dec_skeleton(s, i + 1, x);
        },
        MessageV::Tile(x) => {
            assert(s.subrange(i, i + 1) =~= ser_u8(2)) by {
                assert(s.subrange(i, i + e.len())[0] == s[i]);
            }
            lemma_dec_u8(s, i, 2);
            lemma_subrange_piece(s, i, 1, ser_tile_update(x), e);
            lemma_dec_tile_update(s, i + 1, x);
        },
        MessageV::Chart(x) => {
            assert(s.subrange(i, i + 1) =~= ser_u8(3)) by {
                assert(s.subrange(i, i + e.len())[0] == s[i]);
            }
            lemma_dec_u8(s, i, 3);
            lemma_subrange_piece(s, i, 1, ser_chart_update(x), e);
            lemma_dec_chart_update(s, i + 1, x);
        },
        MessageV::Complete(x) => {
            assert(s.subrange(i, i + 1) =~= ser_u8(4)) by {
                assert(s.subrange(i, i + e.len())[0] == s[i]);
            }
            lemma_dec_u8(s, i, 4);
            lemma_subrange_piece(s, i, 1, ser_complete(x), e);
            lemma_dec_complete(s, i + 1, x);
        },
    }
}

/// Round trip of the message encoding: decoding what was encoded gives
/// the message back, for every variant.
pub proof fn lemma_message_round_trip(v: MessageV)
    requires
        msg_wf(v),
    ensures
        dec_message_spec(ser_msg(v)) == Some(v),
{
    let s = ser_msg(v);
    assert(s.subrange(0, s.len() as int) =~= s);
    lemma_dec_msg(s, 0, v);
}


// ---- executable encoders for skeletons and messages ----

pub fn enc_tile_skel(out: &mut Vec<u8>, x: &TileSkeleton)
    ensures
        final(out)@ == old(out)@ + ser_tile_skel(x.deep_view()),
        tile_skel_wf(x.deep_view()),
{
    enc_str(out, x.id.as_str());
    enc_str(out, x.title.as_str());
    enc_str(out, x.unit.as_str());
    enc_i32(out, x.precision);
    proof {
        assert(out@ =~= old(out)@ + ser_tile_skel(x.deep_view()));
    }
}

pub fn enc_series_skel(out: &mut Vec<u8>, x: &SeriesSkeleton)
    ensures
        final(out)@ == old(out)@ + ser_series_skel(x.deep_view()),
        series_skel_wf(x.deep_view()),
{
    enc_str(out, x.id.as_str());
    enc_str(out, x.name.as_str());
    enc_opt_str(out, &x.color);
    proof {
        assert(out@ =~= old(out)@ + ser_series_skel(x.deep_view()));
    }
}

#[verifier::loop_isolation(false)]
fn enc_series_skels(out: &mut Vec<u8>, xs: &Vec<SeriesSkeleton>)
    ensures
        final(out)@ == old(out)@ + ser_series_skels(xs.deep_view()),
        series_skels_wf(xs.deep_view()),
{
    let n: usize = xs.len();
    enc_u64(out, n as u64);
    proof {
        assert(ser_series_skels_items(xs.deep_view().take(0)) =~= Seq::<u8>::empty());
        assert(out@ =~= old(out)@ + ser_u64(n as u64) + ser_series_skels_items(
            xs.deep_view().take(0),
        ));
    }
    let mut k: usize = 0;
    while k < n
        invariant
            k <= n,
            out@ == old(out)@ + ser_u64(n as u64) + ser_series_skels_items(
                xs.deep_view().take(k as int),
            ),
            forall|j: int| 0 <= j < k ==> series_skel_wf(#[trigger] xs.deep_view()[j]),
        decreases n - k,
    {
        enc_series_skel(out, &xs[k]);
        proof {
            assert(xs.deep_view()[k as int] == xs@[k as int].deep_view());
            assert(xs.deep_view().take(k + 1) =~= xs.deep_view().take(k as int).push(
                xs.deep_view()[k as int],
            ));
            lemma_ser_series_skels_items_push(xs.deep_view().take(k as int), xs.deep_view()[k as int]);
            assert(out@ =~= old(out)@ + ser_u64(n as u64) + ser_series_skels_items(
                xs.deep_view().take(k + 1),
            ));
        }
        k += 1;
    }
    proof {
        assert(xs.deep_view().take(n as int) =~= xs.deep_view());
        assert(old(out)@ + ser_u64(n as u64) + ser_series_skels_items(xs.deep_view()) =~= old(out)@
            + ser_series_skels(xs.deep_view()));
    }
}

pub fn enc_chart_skel(out: &mut Vec<u8>, x: &ChartSkeleton)
    ensures
        final(out)@ == old(out)@ + ser_chart_skel(x.deep_view()),
        chart_skel_wf(x.deep_view()),
{
    enc_str(out, x.id.as_str());
    enc_str(out, x.title.as_str());
    enc_opt_str(out, &x.unit);
    match x.kind {
        ChartKind::Line => enc_u8(out, 0),
        ChartKind::MultiLine => enc_u8(out, 1),
    }
    enc_opt_i64(out, &x.y_min);
    enc_opt_i64(out, &x.y_max);
    enc_opt_i32(out, &x.fraction_digits);
    enc_series_skels(out, &x.series);
    proof {
        assert(ser_kind(x.kind) == ser_u8(if x.kind is Line { 0u8 } else { 1u8 }));
        assert(out@ =~= old(out)@ + ser_chart_skel(x.deep_view()));
    }
}

#[verifier::loop_isolation(false)]
fn enc_tiles(out: &mut Vec<u8>, xs: &Vec<TileSkeleton>)
    ensures
        final(out)@ == old(out)@ + ser_tiles(xs.deep_view()),
        tiles_wf(xs.deep_view()),
{
    let n: usize = xs.len();
    enc_u64(out, n as u64);
    proof {
        assert(ser_tiles_items(xs.deep_view().take(0)) =~= Seq::<u8>::empty());
        assert(out@ =~= old(out)@ + ser_u64(n as u64) + ser_tiles_items(xs.deep_view().take(0)));
    }
    let mut k: usize = 0;
    while k < n
        invariant
            k <= n,
            out@ == old(out)@ + ser_u64(n as u64) + ser_tiles_items(xs.deep_view().take(k as int)),
            forall|j: int| 0 <= j < k ==> tile_skel_wf(#[trigger] xs.deep_view()[j]),
        decreases n - k,
    {
        enc_tile_skel(out, &xs[k]);
        proof {
            assert(xs.deep_view()[k as int] == xs@[k as int].deep_view());
            assert(xs.deep_view().take(k + 1) =~= xs.deep_view().take(k as int).push(
                xs.deep_view()[k as int],
            ));
            lemma_ser_tiles_items_push(xs.deep_view().take(k as int), xs.deep_view()[k as int]);
            assert(out@ =~= old(out)@ + ser_u64(n as u64) + ser_tiles_items(
                xs.deep_view().take(k + 1),
            ));
        }
        k += 1;
    }
    proof {
        assert(xs.deep_view().take(n as int) =~= xs.deep_view());
        assert(old(out)@ + ser_u64(n as u64) + ser_tiles_items(xs.deep_view()) =~= old(out)@
            + ser_tiles(xs.deep_view()));
    }
}

#[verifier::rlimit(100)]
#[verifier::loop_isolation(false)]
fn enc_charts(out: &mut Vec<u8>, xs: &Vec<ChartSkeleton>)
    ensures
        final(out)@ == old(out)@ + ser_charts(xs.deep_view()),
        charts_wf(xs.deep_view()),
{
    let n: usize = xs.len();
    enc_u64(out, n as u64);
    proof {
        assert(ser_charts_items(xs.deep_view().take(0)) =~= Seq::<u8>::empty());
        assert(out@ =~= old(out)@ + ser_u64(n as u64) + ser_charts_items(xs.deep_view().take(0)));
    }
    let mut k: usize = 0;
    while k < n
        invariant
            k <= n,
            out@ == old(out)@ + ser_u64(n as u64) + ser_charts_items(xs.deep_view().take(k as int)),
            forall|j: int| 0 <= j < k ==> chart_skel_wf(#[trigger] xs.deep_view()[j]),
        decreases n - k,
    {
        enc_chart_skel(out, &xs[k]);
        proof {
            assert(xs.deep_view()[k as int] == xs@[k as int].deep_view());
            assert(xs.deep_view().take(k + 1) =~= xs.deep_view().take(k as int).push(
                xs.deep_view()[k as int],
            ));
            lemma_ser_charts_items_push(xs.deep_view().take(k as int), xs.deep_view()[k as int]);
            assert(out@ =~= old(out)@ + ser_u64(n as u64) + ser_charts_items(
                xs.deep_view().take(k + 1),
            ));
        }
        k += 1;
    }
    proof {
        assert(xs.deep_view().take(n as int) =~= xs.deep_view());
        assert(old(out)@ + ser_u64(n as u64) + ser_charts_items(xs.deep_view()) =~= old(out)@
            + ser_charts(xs.deep_view()));
    }
}

pub fn enc_skeleton(out: &mut Vec<u8>, x: &DashboardSkeleton)
    ensures
        final(out)@ == old(out)@ + ser_skeleton(x.deep_view()),
        skeleton_wf(x.deep_view()),
{
    enc_str(out, x.source_id.as_str());
    enc_tiles(out, &x.tiles);
    enc_charts(out, &x.charts);
    proof {
        assert(out@ =~= old(out)@ + ser_skeleton(x.deep_view()));
    }
}

pub fn enc_tile_update(out: &mut Vec<u8>, x: &TileUpdate)
    ensures
        final(out)@ == old(out)@ + ser_tile_update(x.deep_view()),
        tile_update_wf(x.deep_view()),
{
    enc_str(out, x.id.as_str());
    enc_i64(out, x.value);
    proof {
        assert(out@ =~= old(out)@ + ser_tile_update(x.deep_view()));
    }
}

pub fn enc_series_update(out: &mut Vec<u8>, x: &SeriesUpdate)
    ensures
        final(out)@ == old(out)@ + ser_series_update(x.deep_view()),
        series_update_wf(x.deep_view()),
{
    enc_str(out, x.id.as_str());
    enc_points(out, &x.points);
    proof {
        assert(out@ =~= old(out)@ + ser_series_update(x.deep_view()));
    }
}

pub fn enc_chart_update(out: &mut Vec<u8>, x: &ChartUpdate)
    ensures
        final(out)@ == old(out)@ + ser_chart_update(x.deep_view()),
        chart_update_wf(x.deep_view()),
{
    enc_str(out, x.chart_id.as_str());
    enc_series_update(out, &x.series);
    proof {
        assert(out@ =~= old(out)@ + ser_chart_update(x.deep_view()));
    }
}

pub fn enc_complete(out: &mut Vec<u8>, x: &CompletionEvent)
    ensures
        final(out)@ == old(out)@ + ser_complete(*x),
{
    enc_u64(out, x.total_widgets);
    enc_i64(out, x.duration_ms);
    proof {
        assert(out@ =~= old(out)@ + ser_complete(*x));
    }
}

/// Encodes one message to its binary form.
pub fn encode_message(m: &StreamMessage) -> (r: Vec<u8>)
    ensures
        r@ == ser_msg(m.deep_view()),
        msg_wf(m.deep_view()),
{
    let mut out: Vec<u8> = Vec::new();
    match m {
        StreamMessage::Skeleton(x) => {
            enc_u8(&mut out, 1);
            enc_skeleton(&mut out, x);
        },
        StreamMessage::Tile(x) => {
            enc_u8(&mut out, 2);
            enc_tile_update(&mut out, x);
        },
        StreamMessage::Chart(x) => {
            enc_u8(&mut out, 3);
            enc_chart_update(&mut out, x);
        },
        StreamMessage::Complete(x) => {
            enc_u8(&mut out, 4);
            enc_complete(&mut out, x);
        },
    }
    proof {
        assert(out@ =~= ser_msg(m.deep_view()));
    }
    out
}

// ---- executable decoders for skeletons and messages ----

fn dec_tile_skel(s: &Vec<u8>, i: usize) -> (r: Option<(TileSkeleton, usize)>)
    ensures
        match r {
            Some(p) => dec_tile_skel_at(s@, i as int) == Some((p.0.deep_view(), p.1 as int)),
            None => dec_tile_skel_at(s@, i as int) is None,
        },
        r matches Some(p) ==> i <= p.1 <= s@.len(),
{
    match dec_str(s, i) {
        Some((id, i1)) => match dec_str(s, i1) {
            Some((title, i2)) => match dec_str(s, i2) {
                Some((unit, i3)) => match dec_i32(s, i3) {
                    Some((precision, i4)) => Some((TileSkeleton { id, title, unit, precision }, i4)),
                    None => None,
                },
                None => None,
            },
            None => None,
        },
        None => None,
    }
}

fn dec_series_skel(s: &Vec<u8>, i: usize) -> (r: Option<(SeriesSkeleton, usize)>)
    ensures
        match r {
            Some(p) => dec_series_skel_at(s@, i as int) == Some((p.0.deep_view(), p.1 as int)),
            None => dec_series_skel_at(s@, i as int) is None,
        },
        r matches Some(p) ==> i <= p.1 <= s@.len(),
{
    match dec_str(s, i) {
        Some((id, i1)) => match dec_str(s, i1) {
            Some((name, i2)) => match dec_opt_str(s, i2) {
                Some((color, i3)) => Some((SeriesSkeleton { id, name, color }, i3)),
                None => None,
            },
            None => None,
        },
        None => None,
    }
}

#[verifier::loop_isolation(false)]
fn dec_series_skels(s: &Vec<u8>, i: usize) -> (r: Option<(Vec<SeriesSkeleton>, usize)>)
    ensures
        match r {
            Some(p) => dec_series_skels_at(s@, i as int) == Some((p.0.deep_view(), p.1 as int)),
            None => dec_series_skels_at(s@, i as int) is None,
        },
        r matches Some(p) ==> i <= p.1 <= s@.len(),
{
    let n: usize = s.len();
    match dec_u64(s, i) {
        Some((c, j0)) => {
            let mut out: Vec<SeriesSkeleton> = Vec::new();
            let mut pos: usize = j0;
            let mut k: u64 = 0;
            proof {
                assert(out.deep_view() + Seq::<SeriesSkelV>::empty() =~= out.deep_view());
            }
            while k < c
                invariant
                    k <= c,
                    j0 <= pos <= n,
                    dec_series_skels_items_at(s@, j0 as int, c as nat) == (match
                        dec_series_skels_items_at(s@, pos as int, (c - k) as nat) {
                        Some((xs, e)) => Some((out.deep_view() + xs, e)),
                        None => None::<(Seq<SeriesSkelV>, int)>,
                    }),
                decreases c - k,
            {
                match dec_series_skel(s, pos) {
                    Some((x, np)) => {
                        proof {
                            let ghost xv = x.deep_view();
                            match dec_series_skels_items_at(s@, np as int, (c - k - 1) as nat) {
                                Some((xs2, e2)) => {
                                    assert((out.deep_view() + seq![xv]) + xs2 =~= out.deep_view()
                                        + (seq![xv] + xs2));
                                },
                                None => {},
                            }
                        }
                        let ghost old_dv = out.deep_view();
                        out.push(x);
                        proof {
                            assert(out.deep_view() =~= old_dv.push(x.deep_view()));
                            assert(old_dv.push(x.deep_view()) =~= old_dv + seq![x.deep_view()]);
                        }
                        pos = np;
                        k += 1;
                    },
                    None => {
                        return None;
                    },
                }
            }
            proof {
                assert(out.deep_view() + Seq::<SeriesSkelV>::empty() =~= out.deep_view());
            }
            Some((out, pos))
        },
        None => None,
    }
}

fn dec_chart_skel(s: &Vec<u8>, i: usize) -> (r: Option<(ChartSkeleton, usize)>)
    ensures
        match r {
            Some(p) => dec_chart_skel_at(s@, i as int) == Some((p.0.deep_view(), p.1 as int)),
            None => dec_chart_skel_at(s@, i as int) is None,
        },
        r matches Some(p) ==> i <= p.1 <= s@.len(),
{
    match dec_str(s, i) {
        Some((id, i1)) => match dec_str(s, i1) {
            Some((title, i2)) => match dec_opt_str(s, i2) {
                Some((unit, i3)) => match dec_u8(s, i3) {
                    Some((kb, i4)) => {
                        let kind = if kb == 0 {
                            ChartKind::Line
                        } else if kb == 1 {
                            ChartKind::MultiLine
                        } else {
                            return None;
                        };
                        match dec_opt_i64(s, i4) {
                            Some((y_min, i5)) => match dec_opt_i64(s, i5) {
                                Some((y_max, i6)) => match dec_opt_i32(s, i6) {
                                    Some((fraction_digits, i7)) => match dec_series_skels(s, i7) {
                                        Some((series, i8)) => Some(
                                            (
                                                ChartSkeleton {
                                                    id,
                                                    title,
                                                    unit,
                                                    kind,
                                                    y_min,
                                                    y_max,
                                                    fraction_digits,
                                                    series,
                                                },
                                                i8,
                                            ),
                                        ),
                                        None => None,
                                    },
                                    None => None,
                                },
                                None => None,
                            },
                            None => None,
                        }
                    },
                    None => None,
                },
                None => None,
            },
            None => None,
        },
        None => None,
    }
}

#[verifier::loop_isolation(false)]
fn dec_tiles(s: &Vec<u8>, i: usize) -> (r: Option<(Vec<TileSkeleton>, usize)>)
    ensures
        match r {
            Some(p) => dec_tiles_at(s@, i as int) == Some((p.0.deep_view(), p.1 as int)),
            None => dec_tiles_at(s@, i as int) is None,
        },
        r matches Some(p) ==> i <= p.1 <= s@.len(),
{
    let n: usize = s.len();
    match dec_u64(s, i) {
        Some((c, j0)) => {
            let mut out: Vec<TileSkeleton> = Vec::new();
            let mut pos: usize = j0;
            let mut k: u64 = 0;
            proof {
                assert(out.deep_view() + Seq::<TileSkelV>::empty() =~= out.deep_view());
            }
            while k < c
                invariant
                    k <= c,
                    j0 <= pos <= n,
                    dec_tiles_items_at(s@, j0 as int, c as nat) == (match dec_tiles_items_at(
                        s@,
                        pos as int,
                        (c - k) as nat,
                    ) {
                        Some((xs, e)) => Some((out.deep_view() + xs, e)),
                        None => None::<(Seq<TileSkelV>, int)>,
                    }),
                decreases c - k,
            {
                match dec_tile_skel(s, pos) {
                    Some((x, np)) => {
                        proof {
                            let ghost xv = x.deep_view();
                            match dec_tiles_items_at(s@, np as int, (c - k - 1) as nat) {
                                Some((xs2, e2)) => {
                                    assert((out.deep_view() + seq![xv]) + xs2 =~= out.deep_view()
                                        + (seq![xv] + xs2));
                                },
                                None => {},
                            }
                        }
                        let ghost old_dv = out.deep_view();
                        out.push(x);
                        proof {
                            assert(out.deep_view() =~= old_dv.push(x.deep_view()));
                            assert(old_dv.push(x.deep_view()) =~= old_dv + seq![x.deep_view()]);
                        }
                        pos = np;
                        k += 1;
                    },
                    None => {
                        return None;
                    },
                }
            }
            proof {
                assert(out.deep_view() + Seq::<TileSkelV>::empty() =~= out.deep_view());
            }
            Some((out, pos))
        },
        None => None,
    }
}

#[verifier::rlimit(100)]
#[verifier::loop_isolation(false)]
fn dec_charts(s: &Vec<u8>, i: usize) -> (r: Option<(Vec<ChartSkeleton>, usize)>)
    ensures
        match r {
            Some(p) => dec_charts_at(s@, i as int) == Some((p.0.deep_view(), p.1 as int)),
            None => dec_charts_at(s@, i as int) is None,
        },
        r matches Some(p) ==> i <= p.1 <= s@.len(),
{
    let n: usize = s.len();
    match dec_u64(s, i) {
        Some((c, j0)) => {
            let mut out: Vec<ChartSkeleton> = Vec::new();
            let mut pos: usize = j0;
            let mut k: u64 = 0;
            proof {
                assert(out.deep_view() + Seq::<ChartSkelV>::empty() =~= out.deep_view());
            }
            while k < c
                invariant
                    k <= c,
                    j0 <= pos <= n,
                    dec_charts_items_at(s@, j0 as int, c as nat) == (match dec_charts_items_at(
                        s@,
                        pos as int,
                        (c - k) as nat,
                    ) {
                        Some((xs, e)) => Some((out.deep_view() + xs, e)),
                        None => None::<(Seq<ChartSkelV>, int)>,
                    }),
                decreases c - k,
            {
                match dec_chart_skel(s, pos) {
                    Some((x, np)) => {
                        proof {
                            let ghost xv = x.deep_view();
                            match dec_charts_items_at(s@, np as int, (c - k - 1) as nat) {
                                Some((xs2, e2)) => {
                                    assert((out.deep_view() + seq![xv]) + xs2 =~= out.deep_view()
                                        + (seq![xv] + xs2));
                                },
                                None => {},
                            }
                        }
                        let ghost old_dv = out.deep_view();
                        out.push(x);
                        proof {
                            assert(out.deep_view() =~= old_dv.push(x.deep_view()));
                            assert(old_dv.push(x.deep_view()) =~= old_dv + seq![x.deep_view()]);
                        }
                        pos = np;
                        k += 1;
                    },
                    None => {
                        return None;
                    },
                }
            }
            proof {
                assert(out.deep_view() + Seq::<ChartSkelV>::empty() =~= out.deep_view());
            }
            Some((out, pos))
        },
        None => None,
    }
}

fn dec_skeleton(s: &Vec<u8>, i: usize) -> (r: Option<(DashboardSkeleton, usize)>)
    ensures
        match r {
            Some(p) => dec_skeleton_at(s@, i as int) == Some((p.0.deep_view(), p.1 as int)),
            None => dec_skeleton_at(s@, i as int) is None,
        },
        r matches Some(p) ==> i <= p.1 <= s@.len(),
{
    match dec_str(s, i) {
        Some((source_id, i1)) => match dec_tiles(s, i1) {
            Some((tiles, i2)) => match dec_charts(s, i2) {
                Some((charts, i3)) => Some((DashboardSkeleton { source_id, tiles, charts }, i3)),
                None => None,
            },
            None => None,
        },
        None => None,
    }
}

fn dec_tile_update(s: &Vec<u8>, i: usize) -> (r: Option<(TileUpdate, usize)>)
    ensures
        match r {
            Some(p) => dec_tile_update_at(s@, i as int) == Some((p.0.deep_view(), p.1 as int)),
            None => dec_tile_update_at(s@, i as int) is None,
        },
        r matches Some(p) ==> i <= p.1 <= s@.len(),
{
    match dec_str(s, i) {
        Some((id, i1)) => match dec_i64(s, i1) {
            Some((value, i2)) => Some((TileUpdate { id, value }, i2)),
            None => None,
        },
        None => None,
    }
}

fn dec_series_update(s: &Vec<u8>, i: usize) -> (r: Option<(SeriesUpdate, usize)>)
    ensures
        match r {
            Some(p) => dec_series_update_at(s@, i as int) == Some((p.0.deep_view(), p.1 as int)),
            None => dec_series_update_at(s@, i as int) is None,
        },
        r matches Some(p) ==> i <= p.1 <= s@.len(),
{
    match dec_str(s, i) {
        Some((id, i1)) => match dec_points(s, i1) {
            Some((points, i2)) => Some((SeriesUpdate { id, points }, i2)),
            None => None,
        },
        None => None,
    }
}

fn dec_chart_update(s: &Vec<u8>, i: usize) -> (r: Option<(ChartUpdate, usize)>)
    ensures
        match r {
            Some(p) => dec_chart_update_at(s@, i as int) == Some((p.0.deep_view(), p.1 as int)),
            None => dec_chart_update_at(s@, i as int) is None,
        },
        r matches Some(p) ==> i <= p.1 <= s@.len(),
{
    match dec_str(s, i) {
        Some((chart_id, i1)) => match dec_series_update(s, i1) {
            Some((series, i2)) => Some((ChartUpdate { chart_id, series }, i2)),
            None => None,
        },
        None => None,
    }
}

fn dec_complete(s: &Vec<u8>, i: usize) -> (r: Option<(CompletionEvent, usize)>)
    ensures
        match r {
            Some(p) => dec_complete_at(s@, i as int) == Some((p.0, p.1 as int)),
            None => dec_complete_at(s@, i as int) is None,
        },
        r matches Some(p) ==> i <= p.1 <= s@.len(),
{
    match dec_u64(s, i) {
        Some((total_widgets, i1)) => match dec_i64(s, i1) {
            Some((duration_ms, i2)) => Some((CompletionEvent { total_widgets, duration_ms }, i2)),
            None => None,
        },
        None => None,
    }
}

/// Decodes one message; the input must hold exactly one encoded
/// message, nothing more.
pub fn decode_message(s: &Vec<u8>) -> (r: Option<StreamMessage>)
    ensures
        match r {
            Some(m) => dec_message_spec(s@) == Some(m.deep_view()),
            None => dec_message_spec(s@) is None,
        },
{
    let n: usize = s.len();
    let parsed: Option<(StreamMessage, usize)> = match dec_u8(s, 0) {
        Some((tag, j)) => {
            if tag == 1 {
                match dec_skeleton(s, j) {
                    Some((x, k)) => Some((StreamMessage::Skeleton(x), k)),
                    None => None,
                }
            } else if tag == 2 {
                match dec_tile_update(s, j) {
                    Some((x, k)) => Some((StreamMessage::Tile(x), k)),
                    None => None,
                }
            } else if tag == 3 {
                match dec_chart_update(s, j) {
                    Some((x, k)) => Some((StreamMessage::Chart(x), k)),
                    None => None,
                }
            } else if tag == 4 {
                match dec_complete(s, j) {
                    Some((x, k)) => Some((StreamMessage::Complete(x), k)),
                    None => None,
                }
            } else {
                None
            }
        },
        None => None,
    };
    match parsed {
        Some((m, used)) => {
            if used == n {
                Some(m)
            } else {
                None
            }
        },
        None => None,
    }
}

} // verus!
