//! The source listing response: every known source with its display
//! name, in one binary body, compressed when the client asked for it.
use vstd::prelude::*;

use crate::codec::dec_str_at;
use crate::codec::dec_u64_at;
use crate::codec::enc_str;
use crate::codec::enc_u64;
use crate::codec::lemma_dec_str;
use crate::codec::lemma_dec_u64;
use crate::codec::lemma_subrange_piece;
use crate::codec::ser_str;
use crate::codec::ser_u64;
use crate::codec::str_wf;
use crate::frame::brotli_compress;
use crate::frame::deflate_of;
use crate::frame::inflate_of;
use crate::source::Aquarium;
use crate::text::contains_sub;
use crate::text::contains_pattern;
use crate::text::str_chars;

verus! {

/// The id and display name of each source.
pub open spec fn aquarium_views(v: Seq<Aquarium>) -> Seq<(Seq<char>, Seq<char>)> {
    v.map_values(|a: Aquarium| (a.id@, a.name@))
}

/// One listed source on the wire: its id, then its display name.
pub open spec fn ser_source(p: (Seq<char>, Seq<char>)) -> Seq<u8> {
    ser_str(p.0) + ser_str(p.1)
}

/// The listed sources, in order.
pub open spec fn ser_source_items(xs: Seq<(Seq<char>, Seq<char>)>) -> Seq<u8>
    decreases xs.len(),
{
    if xs.len() == 0 {
        Seq::empty()
    } else {
        ser_source(xs[0]) + ser_source_items(xs.drop_first())
    }
}

/// The whole listing body: a count, then the sources.
pub open spec fn ser_sources(xs: Seq<(Seq<char>, Seq<char>)>) -> Seq<u8> {
    ser_u64(xs.len() as u64) + ser_source_items(xs)
}

proof fn lemma_ser_source_items_push(xs: Seq<(Seq<char>, Seq<char>)>, x: (Seq<char>, Seq<char>))
    ensures
        ser_source_items(xs.push(x)) == ser_source_items(xs) + ser_source(x),
    decreases xs.len(),
{
    if xs.len() == 0 {
        assert(xs.push(x)[0] == x);
        assert(xs.push(x).drop_first() =~= Seq::<(Seq<char>, Seq<char>)>::empty());
        assert(ser_source_items(xs.push(x)) == ser_source(x) + ser_source_items(
            Seq::<(Seq<char>, Seq<char>)>::empty(),
        ));
        assert(ser_source_items(Seq::<(Seq<char>, Seq<char>)>::empty()) =~= Seq::<u8>::empty());
        assert(ser_source_items(xs) =~= Seq::<u8>::empty());
        assert(ser_source(x) + Seq::<u8>::empty() =~= Seq::<u8>::empty() + ser_source(x));
        assert(ser_source_items(xs.push(x)) =~= ser_source_items(xs) + ser_source(x));
    } else {
        assert(xs.push(x).drop_first() =~= xs.drop_first().push(x));
        lemma_ser_source_items_push(xs.drop_first(), x);
        assert(xs.push(x)[0] == xs[0]);
        assert(ser_source(xs[0]) + (ser_source_items(xs.drop_first()) + ser_source(x)) =~= (
        ser_source(xs[0]) + ser_source_items(xs.drop_first())) + ser_source(x));
    }
}

/// Every listed source's id and name fit their length prefixes.
pub open spec fn sources_wf(xs: Seq<(Seq<char>, Seq<char>)>) -> bool {
    xs.len() <= u64::MAX && (forall|k: int|
        0 <= k < xs.len() ==> str_wf(#[trigger] xs[k].0) && str_wf(xs[k].1))
}

/// Encodes the source listing, compressing the body when asked to;
/// the listing always encodes.
#[verifier::loop_isolation(false)]
pub fn encode_source_list(list: &Vec<Aquarium>, compress: bool) -> (r: Vec<u8>)
    ensures
        ({
            let body = ser_sources(aquarium_views(list@));
            &&& sources_wf(aquarium_views(list@))
            &&& if compress {
                r@ == deflate_of(body) && inflate_of(r@) == Some(body)
            } else {
                r@ == body
            }
        }),
{
    let n: usize = list.len();
    let mut out: Vec<u8> = Vec::new();
    enc_u64(&mut out, n as u64);
    proof {
        assert(aquarium_views(list@).take(0) =~= Seq::<(Seq<char>, Seq<char>)>::empty());
        assert(ser_source_items(aquarium_views(list@).take(0)) =~= Seq::<u8>::empty());
        assert(out@ =~= ser_u64(n as u64) + ser_source_items(aquarium_views(list@).take(0)));
    }
    let mut i: usize = 0;
    while i < n
        invariant
            i <= n,
            out@ == ser_u64(n as u64) + ser_source_items(aquarium_views(list@).take(i as int)),
            forall|k: int|
                0 <= k < i ==> str_wf(#[trigger] aquarium_views(list@)[k].0) && str_wf(
                    aquarium_views(list@)[k].1,
                ),
        decreases n - i,
    {
        enc_str(&mut out, list[i].id.as_str());
        enc_str(&mut out, list[i].name.as_str());
        proof {
            assert(aquarium_views(list@)[i as int] == (list@[i as int].id@, list@[i as int].name@));
            assert(aquarium_views(list@).take(i + 1) =~= aquarium_views(list@).take(i as int).push(
                aquarium_views(list@)[i as int],
            ));
            lemma_ser_source_items_push(
                aquarium_views(list@).take(i as int),
                aquarium_views(list@)[i as int],
            );
            assert(out@ =~= ser_u64(n as u64) + ser_source_items(
                aquarium_views(list@).take(i + 1),
            ));
        }
        i += 1;
    }
    proof {
        assert(aquarium_views(list@).take(n as int) =~= aquarium_views(list@));
        assert(out@ =~= ser_sources(aquarium_views(list@)));
    }
    if compress {
        brotli_compress(&out).unwrap()
    } else {
        out
    }
}

/// One listed source taken from a byte run: two strings in order.
pub open spec fn dec_source_at(s: Seq<u8>, i: int) -> Option<((Seq<char>, Seq<char>), int)> {
    match dec_str_at(s, i) {
        Some((id, j)) => match dec_str_at(s, j) {
            Some((name, k)) => Some(((id, name), k)),
            None => None,
        },
        None => None,
    }
}

/// A counted run of listed sources.
pub open spec fn dec_sources_items_at(s: Seq<u8>, i: int, n: nat) -> Option<
    (Seq<(Seq<char>, Seq<char>)>, int),
>
    decreases n,
{
    if n == 0 {
        if 0 <= i <= s.len() {
            Some((Seq::empty(), i))
        } else {
            None
        }
    } else {
        match dec_source_at(s, i) {
            Some((p, j)) => match dec_sources_items_at(s, j, (n - 1) as nat) {
                Some((ps, k)) => Some((seq![p] + ps, k)),
                None => None,
            },
            None => None,
        }
    }
}

/// What a conforming reader takes from a whole listing body: a count,
/// then exactly that many id/name pairs, consuming every byte.
pub open spec fn dec_source_list_spec(s: Seq<u8>) -> Option<Seq<(Seq<char>, Seq<char>)>> {
    match dec_u64_at(s, 0) {
        Some((c, j)) => match dec_sources_items_at(s, j, c as nat) {
            Some((ps, k)) => if k == s.len() {
                Some(ps)
            } else {
                None
            },
            None => None,
        },
        None => None,
    }
}

proof fn lemma_dec_source(s: Seq<u8>, i: int, p: (Seq<char>, Seq<char>))
    requires
        str_wf(p.0),
        str_wf(p.1),
        0 <= i,
        i + ser_source(p).len() <= s.len(),
        s.subrange(i, i + ser_source(p).len()) == ser_source(p),
    ensures
        dec_source_at(s, i) == Some((p, i + ser_source(p).len())),
{
    let e = ser_source(p);
    let a = ser_str(p.0);
    lemma_subrange_piece(s, i, 0, a, e);
    lemma_dec_str(s, i, p.0);
    lemma_subrange_piece(s, i, a.len() as int, ser_str(p.1), e);
    lemma_dec_str(s, i + a.len(), p.1);
}

proof fn lemma_dec_sources_items(s: Seq<u8>, i: int, xs: Seq<(Seq<char>, Seq<char>)>)
    requires
        forall|k: int| 0 <= k < xs.len() ==> str_wf(#[trigger] xs[k].0) && str_wf(xs[k].1),
        0 <= i,
        i + ser_source_items(xs).len() <= s.len(),
        s.subrange(i, i + ser_source_items(xs).len()) == ser_source_items(xs),
    ensures
        dec_sources_items_at(s, i, xs.len()) == Some((xs, i + ser_source_items(xs).len())),
    decreases xs.len(),
{
    if xs.len() == 0 {
        assert(Seq::<(Seq<char>, Seq<char>)>::empty() =~= xs);
    } else {
        let e = ser_source_items(xs);
        let a = ser_source(xs[0]);
        let rest = ser_source_items(xs.drop_first());
        lemma_subrange_piece(s, i, 0, a, e);
        lemma_dec_source(s, i, xs[0]);
        lemma_subrange_piece(s, i, a.len() as int, rest, e);
        assert(forall|k: int|
            0 <= k < xs.drop_first().len() ==> str_wf(#[trigger] xs.drop_first()[k].0) && str_wf(
                xs.drop_first()[k].1,
            ));
        lemma_dec_sources_items(s, i + a.len(), xs.drop_first());
        assert(seq![xs[0]] + xs.drop_first() =~= xs);
    }
}

/// Listing round trip: a conforming reader recovers every listed
/// source, id and name, from the encoded body.
pub proof fn lemma_source_list_round_trip(xs: Seq<(Seq<char>, Seq<char>)>)
    requires
        sources_wf(xs),
    ensures
        dec_source_list_spec(ser_sources(xs)) == Some(xs),
{
    let s = ser_sources(xs);
    assert(s.subrange(0, s.len() as int) =~= s);
    lemma_subrange_piece(s, 0, 0, ser_u64(xs.len() as u64), s);
    lemma_dec_u64(s, 0, xs.len() as u64);
    lemma_subrange_piece(s, 0, 8, ser_source_items(xs), s);
    lemma_dec_sources_items(s, 8, xs);
}

/// The characters of the compression token.
pub open spec fn br_chars() -> Seq<char> {
    seq!['b', 'r']
}

/// Compression is negotiated once per connection: the client asked
/// for it exactly when its accept-encoding header names `br`.
pub fn wants_brotli(accept_encoding: Option<&str>) -> (r: bool)
    ensures
        r == match accept_encoding {
            Some(h) => contains_sub(h@, br_chars()),
            None => false,
        },
{
    match accept_encoding {
        Some(h) => {
            let hc = str_chars(h);
            let bc = str_chars("br");
            proof {
                reveal_strlit("br");
                assert("br"@ =~= br_chars());
            }
            contains_pattern(&hc, &bc)
        },
        None => false,
    }
}

} // verus!
