//! Probe availability: whether a widget's query should be attempted,
//! decided from the set of probes known for the source and window.
use vstd::prelude::*;

use crate::template::first_index_of;
use crate::template::lemma_first_index_of;
use crate::text::chars_to_string;
use crate::text::find_first;
use crate::text::first_match;
use crate::text::matches_at;
use crate::text::str_chars;

verus! {

/// Identity of a sensor feed: the (type, name) pair.
pub struct ProbeMetadata {
    pub probe_type: String,
    pub name: String,
}

/// The quoted predicate `"tag"='` that precedes a tag value in a query.
pub open spec fn tag_pattern(tag: Seq<char>) -> Seq<char> {
    seq!['"'] + tag + seq!['"', '=', '\'']
}

/// The value bound to `tag` in the query text: the characters between
/// the first `"tag"='` occurrence and the next single quote.
pub open spec fn tag_value_of(q: Seq<char>, tag: Seq<char>) -> Option<Seq<char>> {
    match first_match(q, tag_pattern(tag)) {
        Some(s) => {
            let start = s + tag_pattern(tag).len();
            match first_index_of(q, '\'', start) {
                Some(e) => Some(q.subrange(start, e)),
                None => None,
            }
        },
        None => None,
    }
}

/// The characters of the `probe_type` tag.
pub open spec fn probe_type_tag() -> Seq<char> {
    seq!['p', 'r', 'o', 'b', 'e', '_', 't', 'y', 'p', 'e']
}

/// The characters of the `name` tag.
pub open spec fn name_tag() -> Seq<char> {
    seq!['n', 'a', 'm', 'e']
}

/// Some probe with exactly this type and name is known.
pub open spec fn probe_in_set(probes: Seq<ProbeMetadata>, pt: Seq<char>, n: Seq<char>) -> bool {
    exists|i: int| 0 <= i < probes.len() && probes[i].probe_type@ == pt && probes[i].name@ == n
}

/// Some probe with this type is known, whatever its name.
pub open spec fn type_in_set(probes: Seq<ProbeMetadata>, pt: Seq<char>) -> bool {
    exists|i: int| 0 <= i < probes.len() && probes[i].probe_type@ == pt
}

/// The availability decision for a query against a known probe set:
/// both tags extracted — exact pair membership; only the type — any
/// probe of that type; no type extracted — fail open.
pub open spec fn available(q: Seq<char>, probes: Seq<ProbeMetadata>) -> bool {
    match (tag_value_of(q, probe_type_tag()), tag_value_of(q, name_tag())) {
        (Some(pt), Some(n)) => probe_in_set(probes, pt, n),
        (Some(pt), None) => type_in_set(probes, pt),
        (None, _) => true,
    }
}

/// Builds the executable `"tag"='` pattern for a tag.
fn build_tag_pattern(tag: &Vec<char>) -> (r: Vec<char>)
    ensures
        r@ == tag_pattern(tag@),
{
    let mut r: Vec<char> = Vec::new();
    r.push('"');
    let n: usize = tag.len();
    let mut i: usize = 0;
    while i < n
        invariant
            n == tag@.len(),
            i <= n,
            r@ == seq!['"'] + tag@.take(i as int),
        decreases n - i,
    {
        r.push(tag[i]);
        proof {
            assert(r@ =~= seq!['"'] + tag@.take(i + 1));
        }
        i += 1;
    }
    r.push('"');
    r.push('=');
    r.push('\'');
    proof {
        assert(tag@.take(n as int) =~= tag@);
        assert(r@ =~= tag_pattern(tag@));
    }
    r
}

/// Extracts the quoted value of a tag from the query text, scanning for
/// the first `"tag"='` and reading up to the next single quote.
#[verifier::rlimit(60)]
#[verifier::loop_isolation(false)]
pub fn extract_tag_value(query: &str, tag: &str) -> (r: Option<String>)
    ensures
        match r {
            Some(v) => tag_value_of(query@, tag@) == Some(v@),
            None => tag_value_of(query@, tag@) is None,
        },
{
    let q = str_chars(query);
    let tagc = str_chars(tag);
    let pat = build_tag_pattern(&tagc);
    match find_first(&q, &pat) {
        Some(s) => {
            let n: usize = q.len();
            let start: usize = s + pat.len();
            let mut e: usize = start;
            while e < n
                invariant
                    n == q@.len(),
                    start <= e <= n || (start > n && e == start),
                    forall|k: int| start <= k < e ==> q@[k] != '\'',
                decreases n - e,
            {
                if q[e] == '\'' {
                    proof {
                        lemma_first_index_of(q@, '\'', start as int, e as int);
                    }
                    let mut val: Vec<char> = Vec::new();
                    let mut k: usize = start;
                    while k < e
                        invariant
                            start <= k <= e,
                            e < q@.len(),
                            val@ == q@.subrange(start as int, k as int),
                        decreases e - k,
                    {
                        val.push(q[k]);
                        proof {
                            assert(val@ =~= q@.subrange(start as int, k + 1));
                        }
                        k += 1;
                    }
                    return Some(chars_to_string(&val));
                }
                e += 1;
            }
            proof {
                assert(forall|k: int| !crate::template::is_first_at(q@, '\'', start as int, k));
            }
            None
        },
        None => None,
    }
}

/// Scans the probe set for an exact (type, name) pair.
fn set_contains_pair(probes: &Vec<ProbeMetadata>, pt: &String, nm: &String) -> (r: bool)
    ensures
        r == probe_in_set(probes@, pt@, nm@),
{
    let n: usize = probes.len();
    let mut i: usize = 0;
    while i < n
        invariant
            n == probes@.len(),
            i <= n,
            forall|j: int| 0 <= j < i ==> !(probes@[j].probe_type@ == pt@ && probes@[j].name@ == nm@),
        decreases n - i,
    {
        if probes[i].probe_type.eq(pt) && probes[i].name.eq(nm) {
            proof {
                assert(probes@[i as int].probe_type@ == pt@ && probes@[i as int].name@ == nm@);
            }
            return true;
        }
        i += 1;
    }
    false
}

/// Scans the probe set for any probe of the given type.
fn set_contains_type(probes: &Vec<ProbeMetadata>, pt: &String) -> (r: bool)
    ensures
        r == type_in_set(probes@, pt@),
{
    let n: usize = probes.len();
    let mut i: usize = 0;
    while i < n
        invariant
            n == probes@.len(),
            i <= n,
            forall|j: int| 0 <= j < i ==> probes@[j].probe_type@ != pt@,
        decreases n - i,
    {
        if probes[i].probe_type.eq(pt) {
            proof {
                assert(probes@[i as int].probe_type@ == pt@);
            }
            return true;
        }
        i += 1;
    }
    false
}

/// Decides whether a widget's probe is available, following the
/// decision table: exact (type, name) match when both tags are in the
/// query, any probe of the type when only the type is, and fail-open
/// when no type can be extracted.
pub fn is_probe_available(query: &str, probes: &Vec<ProbeMetadata>) -> (r: bool)
    ensures
        r == available(query@, probes@),
{
    let pt = extract_tag_value(query, "probe_type");
    let nm = extract_tag_value(query, "name");
    proof {
        reveal_strlit("probe_type");
        reveal_strlit("name");
        assert("probe_type"@ =~= probe_type_tag());
        assert("name"@ =~= name_tag());
    }
    match (pt, nm) {
        (Some(ptv), Some(nmv)) => set_contains_pair(probes, &ptv, &nmv),
        (Some(ptv), None) => set_contains_type(probes, &ptv),
        (None, _) => true,
    }
}

} // verus!
