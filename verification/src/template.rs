//! Template resolution: `${key}` placeholders in a widget query template
//! are replaced by their values; unresolved placeholders stay verbatim.
use vstd::prelude::*;

use crate::text::chars_to_string;
use crate::text::str_chars;

verus! {

/// Value bound to `key` in the variable list: first match wins.
pub open spec fn lookup(vars: Seq<(Seq<char>, Seq<char>)>, key: Seq<char>) -> Option<Seq<char>>
    decreases vars.len(),
{
    if vars.len() == 0 {
        None
    } else if vars[0].0 == key {
        Some(vars[0].1)
    } else {
        lookup(vars.drop_first(), key)
    }
}

/// `j` is the first index at or after `from` where `c` occurs in `t`.
pub open spec fn is_first_at(t: Seq<char>, c: char, from: int, j: int) -> bool {
    from <= j < t.len() && t[j] == c && (forall|k: int| from <= k < j ==> t[k] != c)
}

/// The first index at or after `from` where `c` occurs in `t`, if any.
pub open spec fn first_index_of(t: Seq<char>, c: char, from: int) -> Option<int> {
    if exists|j: int| is_first_at(t, c, from, j) {
        Some(choose|j: int| is_first_at(t, c, from, j))
    } else {
        None
    }
}

pub proof fn lemma_first_index_of(t: Seq<char>, c: char, from: int, j: int)
    requires
        is_first_at(t, c, from, j),
    ensures
        first_index_of(t, c, from) == Some(j),
{
    let k = choose|k: int| is_first_at(t, c, from, k);
    if k < j {
        assert(t[k] != c);
    }
    if j < k {
        assert(t[j] != c);
    }
}

/// A resolvable placeholder stands at the head of `t`: it opens with
/// `${`, a closing brace follows, and the key between them is bound.
pub open spec fn placeholder_at_head(t: Seq<char>, vars: Seq<(Seq<char>, Seq<char>)>) -> bool {
    t.len() >= 2 && t[0] == '$' && t[1] == '{' && match first_index_of(t, '}', 2) {
        Some(j) => lookup(vars, t.subrange(2, j)) is Some,
        None => false,
    }
}

/// Left-to-right resolution of a template: each `${key}` whose key is
/// bound becomes its value; every other character is kept verbatim.
pub open spec fn resolve(t: Seq<char>, vars: Seq<(Seq<char>, Seq<char>)>) -> Seq<char>
    decreases t.len(),
{
    if t.len() == 0 {
        Seq::empty()
    } else if placeholder_at_head(t, vars) {
        let j = first_index_of(t, '}', 2)->Some_0;
        lookup(vars, t.subrange(2, j))->Some_0 + resolve(t.subrange(j + 1, t.len() as int), vars)
    } else {
        seq![t[0]] + resolve(t.drop_first(), vars)
    }
}

/// The variable list seen as sequences of characters.
pub open spec fn vars_view(vars: Seq<(String, String)>) -> Seq<(Seq<char>, Seq<char>)> {
    vars.map_values(|p: (String, String)| (p.0@, p.1@))
}

/// Character-wise equality of two vectors.
pub fn chars_eq(a: &Vec<char>, b: &Vec<char>) -> (r: bool)
    ensures
        r == (a@ == b@),
{
    if a.len() != b.len() {
        return false;
    }
    let n: usize = a.len();
    let mut i: usize = 0;
    while i < n
        invariant
            n == a@.len(),
            n == b@.len(),
            i <= n,
            forall|j: int| 0 <= j < i ==> a@[j] == b@[j],
        decreases n - i,
    {
        if a[i] != b[i] {
            return false;
        }
        i += 1;
    }
    proof {
        assert(a@ =~= b@);
    }
    true
}

/// First value bound to `key`, if any.
pub fn lookup_var(vars: &Vec<(String, String)>, key: &Vec<char>) -> (r: Option<String>)
    ensures
        match r {
            Some(v) => lookup(vars_view(vars@), key@) == Some(v@),
            None => lookup(vars_view(vars@), key@) is None,
        },
{
    let n: usize = vars.len();
    let mut i: usize = 0;
    proof {
        assert(vars_view(vars@).subrange(0, n as int) =~= vars_view(vars@));
    }
    while i < n
        invariant
            n == vars@.len(),
            i <= n,
            lookup(vars_view(vars@), key@) == lookup(vars_view(vars@).subrange(i as int, n as int), key@),
        decreases n - i,
    {
        let ks = str_chars(vars[i].0.as_str());
        proof {
            assert(vars_view(vars@).subrange(i as int, n as int)[0] == (vars@[i as int].0@, vars@[i as int].1@));
        }
        if chars_eq(&ks, key) {
            return Some(vars[i].1.clone());
        }
        proof {
            assert(vars_view(vars@).subrange(i as int, n as int).drop_first()
                =~= vars_view(vars@).subrange(i + 1, n as int));
        }
        i += 1;
    }
    proof {
        assert(vars_view(vars@).subrange(n as int, n as int) =~= Seq::<(Seq<char>, Seq<char>)>::empty());
    }
    None
}

/// First index of `c` in `t` at or after `from`.
fn find_char_from(t: &Vec<char>, c: char, from: usize) -> (r: Option<usize>)
    ensures
        match r {
            Some(j) => first_index_of(t@, c, from as int) == Some(j as int),
            None => first_index_of(t@, c, from as int) is None,
        },
{
    let n: usize = t.len();
    let mut j: usize = from;
    while j < n
        invariant
            n == t@.len(),
            from <= j <= n || (from > n && j == from),
            forall|k: int| from <= k < j ==> t@[k] != c,
        decreases n - j,
    {
        if t[j] == c {
            proof {
                lemma_first_index_of(t@, c, from as int, j as int);
            }
            return Some(j);
        }
        j += 1;
    }
    proof {
        assert(forall|k: int| !is_first_at(t@, c, from as int, k));
    }
    None
}

/// Replaces every bound `${key}` placeholder in `query` by its value;
/// placeholders whose key is unbound are kept verbatim.
pub fn prepare_query(query: &str, vars: &Vec<(String, String)>) -> (r: String)
    ensures
        r@ == resolve(query@, vars_view(vars@)),
{
    let t = str_chars(query);
    let ghost tv = t@;
    let ghost vv = vars_view(vars@);
    let n: usize = t.len();
    let mut out: Vec<char> = Vec::new();
    let mut i: usize = 0;
    proof {
        assert(tv.subrange(0, n as int) =~= tv);
        assert(Seq::<char>::empty() + resolve(tv, vv) =~= resolve(tv, vv));
    }
    while i < n
        invariant
            tv == t@,
            vv == vars_view(vars@),
            n == tv.len(),
            i <= n,
            resolve(tv, vv) == out@ + resolve(tv.subrange(i as int, n as int), vv),
        decreases n - i,
    {
        let ghost suffix = tv.subrange(i as int, n as int);
        let mut plain = true;
        if t[i] == '$' && i + 1 < n {
            if t[i + 1] == '{' {
                match find_char_from(&t, '}', i + 2) {
                    Some(j) => {
                        let mut key: Vec<char> = Vec::new();
                        let mut k: usize = i + 2;
                        while k < j
                            invariant
                                tv == t@,
                                i + 2 <= k <= j,
                                j < n == tv.len(),
                                key@ == tv.subrange(i + 2, k as int),
                            decreases j - k,
                        {
                            key.push(t[k]);
                            proof {
                                assert(key@ =~= tv.subrange(i + 2, k + 1));
                            }
                            k += 1;
                        }
                        proof {
                            // the first closing brace, relative to the suffix
                            let jj = first_index_of(tv, '}', i + 2)->Some_0;
                            assert(jj == j);
                            assert(is_first_at(suffix, '}', 2, j - i)) by {
                                assert(suffix[j - i] == tv[j as int]);
                                assert(forall|k2: int| 2 <= k2 < j - i ==> suffix[k2] == tv[i + k2]);
                            }
                            lemma_first_index_of(suffix, '}', 2, j - i);
                            assert(suffix.subrange(2, j - i) =~= tv.subrange(i + 2, j as int));
                        }
                        match lookup_var(vars, &key) {
                            Some(val) => {
                                plain = false;
                                let vc = str_chars(val.as_str());
                                let mut p: usize = 0;
                                let ghost out_before = out@;
                                while p < vc.len()
                                    invariant
                                        p <= vc@.len(),
                                        out@ == out_before + vc@.take(p as int),
                                    decreases vc@.len() - p,
                                {
                                    out.push(vc[p]);
                                    proof {
                                        assert(out@ =~= out_before + vc@.take(p + 1));
                                    }
                                    p += 1;
                                }
                                proof {
                                    assert(vc@.take(vc@.len() as int) =~= vc@);
                                    assert(placeholder_at_head(suffix, vv));
                                    assert(suffix.subrange((j - i) + 1, suffix.len() as int)
                                        =~= tv.subrange(j + 1, n as int));
                                    assert(resolve(suffix, vv) == val@ + resolve(tv.subrange(j + 1, n as int), vv));
                                }
                                i = j + 1;
                            },
                            None => {
                                proof {
                                    assert(!placeholder_at_head(suffix, vv));
                                }
                            },
                        }
                    },
                    None => {
                        proof {
                            if first_index_of(suffix, '}', 2) is Some {
                                let jr = first_index_of(suffix, '}', 2)->Some_0;
                                assert(is_first_at(suffix, '}', 2, jr));
                                assert(is_first_at(tv, '}', i + 2, i + jr)) by {
                                    assert(tv[i + jr] == suffix[jr]);
                                    assert(forall|k2: int| i + 2 <= k2 < i + jr ==> tv[k2] == suffix[k2 - i]);
                                }
                                lemma_first_index_of(tv, '}', i + 2, i + jr);
                            }
                            assert(!placeholder_at_head(suffix, vv));
                        }
                    },
                }
            } else {
                proof {
                    assert(suffix[1] == tv[i + 1]);
                    assert(!placeholder_at_head(suffix, vv));
                }
            }
        } else {
            proof {
                if suffix.len() >= 2 {
                    assert(suffix[1] == tv[i + 1]);
                }
                assert(!placeholder_at_head(suffix, vv));
            }
        }
        if plain {
            proof {
                assert(suffix.drop_first() =~= tv.subrange(i + 1, n as int));
                assert(resolve(suffix, vv) == seq![tv[i as int]] + resolve(tv.subrange(i + 1, n as int), vv));
            }
            out.push(t[i]);
            i += 1;
        }
    }
    proof {
        assert(tv.subrange(n as int, n as int) =~= Seq::<char>::empty());
        assert(out@ + Seq::<char>::empty() =~= out@);
    }
    chars_to_string(&out)
}

} // verus!
