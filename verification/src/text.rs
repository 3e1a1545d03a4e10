//! Character-level helpers shared by the template resolver, the
//! availability filter and the display-name logic.
use vstd::prelude::*;

verus! {

/// Turns a sequence of characters back into an owned `String`.
///
/// Relies on `String`'s `FromIterator<char>` implementation: collecting
/// characters yields the string made of exactly those characters in order.
#[verifier::external_body]
pub fn chars_to_string(v: &Vec<char>) -> (r: String)
    ensures
        r@ == v@,
{
    v.iter().collect()
}

/// Copies the characters of a string slice into a vector.
pub fn str_chars(s: &str) -> (r: Vec<char>)
    ensures
        r@ == s@,
{
    let n: usize = s.unicode_len();
    let mut r: Vec<char> = Vec::new();
    let mut i: usize = 0;
    while i < n
        invariant
            n == s@.len(),
            i <= n,
            r@ == s@.take(i as int),
        decreases n - i,
    {
        r.push(s.get_char(i));
        proof {
            assert(r@ =~= s@.take(i + 1));
        }
        i += 1;
    }
    proof {
        assert(s@.take(n as int) =~= s@);
    }
    r
}

/// True when `pat` occurs in `s` starting at index `i`.
pub open spec fn matches_at(s: Seq<char>, pat: Seq<char>, i: int) -> bool {
    0 <= i && i + pat.len() <= s.len() && s.subrange(i, i + pat.len()) == pat
}

/// Index of the first occurrence of `pat` in `s`, if any.
pub open spec fn first_match(s: Seq<char>, pat: Seq<char>) -> Option<int> {
    if exists|i: int| matches_at(s, pat, i) {
        Some(choose|i: int| matches_at(s, pat, i) && forall|j: int| 0 <= j < i ==> !matches_at(s, pat, j))
    } else {
        None
    }
}

proof fn lemma_first_match_exists(s: Seq<char>, pat: Seq<char>, i: int)
    requires
        matches_at(s, pat, i),
        forall|j: int| 0 <= j < i ==> !matches_at(s, pat, j),
    ensures
        first_match(s, pat) == Some(i),
{
    let k = choose|k: int| matches_at(s, pat, k) && forall|j: int| 0 <= j < k ==> !matches_at(s, pat, j);
    if k < i {
        assert(!matches_at(s, pat, k));
    }
    if i < k {
        assert(!matches_at(s, pat, i));
    }
}

/// True when the characters of `a` starting at `i` equal `pat`.
fn slice_matches_at(a: &Vec<char>, pat: &Vec<char>, i: usize) -> (r: bool)
    requires
        i + pat@.len() <= a@.len(),
    ensures
        r == matches_at(a@, pat@, i as int),
{
    let n: usize = a.len();
    let m: usize = pat.len();
    let mut k: usize = 0;
    while k < m
        invariant
            n == a@.len(),
            m == pat@.len(),
            i + m <= n,
            k <= m,
            forall|j: int| 0 <= j < k ==> a@[i + j] == pat@[j],
        decreases m - k,
    {
        if a[i + k] != pat[k] {
            proof {
                assert(a@.subrange(i as int, i + m) != pat@) by {
                    assert(a@.subrange(i as int, i + m)[k as int] != pat@[k as int]);
                }
            }
            return false;
        }
        k += 1;
    }
    proof {
        assert(a@.subrange(i as int, i + m) =~= pat@);
    }
    true
}

/// Finds the first occurrence of `pat` in `a`.
pub fn find_first(a: &Vec<char>, pat: &Vec<char>) -> (r: Option<usize>)
    ensures
        match r {
            Some(i) => first_match(a@, pat@) == Some(i as int) && matches_at(a@, pat@, i as int),
            None => first_match(a@, pat@) is None,
        },
{
    let n: usize = a.len();
    let m: usize = pat.len();
    if m > n {
        proof {
            assert(forall|i: int| !matches_at(a@, pat@, i));
        }
        return None;
    }
    if m == 0 {
        proof {
            assert(a@.subrange(0, 0) =~= pat@);
            lemma_first_match_exists(a@, pat@, 0);
        }
        return Some(0);
    }
    let mut i: usize = 0;
    while i <= n - m
        invariant
            n == a@.len(),
            m == pat@.len(),
            1 <= m <= n,
            i <= n - m + 1,
            forall|j: int| 0 <= j < i ==> !matches_at(a@, pat@, j),
        decreases n - i,
    {
        if slice_matches_at(a, pat, i) {
            proof {
                lemma_first_match_exists(a@, pat@, i as int);
            }
            return Some(i);
        }
        i += 1;
    }
    proof {
        assert(forall|j: int| #![auto] matches_at(a@, pat@, j) ==> 0 <= j <= n - m);
        assert(forall|j: int| !matches_at(a@, pat@, j));
    }
    None
}

/// True when `pat` occurs somewhere in `s`.
pub open spec fn contains_sub(s: Seq<char>, pat: Seq<char>) -> bool {
    exists|i: int| matches_at(s, pat, i)
}

/// Substring test on character vectors.
pub fn contains_pattern(a: &Vec<char>, pat: &Vec<char>) -> (r: bool)
    ensures
        r == contains_sub(a@, pat@),
{
    match find_first(a, pat) {
        Some(_) => true,
        None => false,
    }
}


/// The character for one decimal digit.
pub open spec fn digit_char(d: nat) -> char {
    if d == 0 { '0' } else if d == 1 { '1' } else if d == 2 { '2' } else if d == 3 { '3' }
    else if d == 4 { '4' } else if d == 5 { '5' } else if d == 6 { '6' } else if d == 7 { '7' }
    else if d == 8 { '8' } else { '9' }
}

/// Decimal digits of a natural number, most significant first.
pub open spec fn dec_digits(n: nat) -> Seq<char>
    decreases n,
{
    if n < 10 {
        seq![digit_char(n)]
    } else {
        dec_digits(n / 10) + seq![digit_char(n % 10)]
    }
}

/// Decimal notation of an integer: a minus sign for negatives, then
/// the digits.
pub open spec fn int_str(v: int) -> Seq<char> {
    if v < 0 {
        seq!['-'] + dec_digits((-v) as nat)
    } else {
        dec_digits(v as nat)
    }
}

/// One decimal digit, as a character.
fn digit_char_of(d: u64) -> (r: char)
    requires
        d < 10,
    ensures
        r == digit_char(d as nat),
{
    if d == 0 { '0' } else if d == 1 { '1' } else if d == 2 { '2' } else if d == 3 { '3' }
    else if d == 4 { '4' } else if d == 5 { '5' } else if d == 6 { '6' } else if d == 7 { '7' }
    else if d == 8 { '8' } else { '9' }
}

/// Appends the decimal digits of `x`.
fn push_digits(out: &mut Vec<char>, x: u64)
    ensures
        final(out)@ == old(out)@ + dec_digits(x as nat),
    decreases x,
{
    if x < 10 {
        out.push(digit_char_of(x));
        proof {
            assert(out@ =~= old(out)@ + dec_digits(x as nat));
        }
    } else {
        push_digits(out, x / 10);
        out.push(digit_char_of(x % 10));
        proof {
            assert(out@ =~= old(out)@ + dec_digits(x as nat));
        }
    }
}

/// Decimal notation of a signed integer.
pub fn i64_to_string(v: i64) -> (r: String)
    ensures
        r@ == int_str(v as int),
{
    let mut out: Vec<char> = Vec::new();
    if v < 0 {
        out.push('-');
        let m: u64 = (-(v as i128)) as u64;
        push_digits(&mut out, m);
        proof {
            assert(out@ =~= int_str(v as int));
        }
    } else {
        push_digits(&mut out, v as u64);
        proof {
            assert(out@ =~= int_str(v as int));
        }
    }
    chars_to_string(&out)
}

} // verus!
