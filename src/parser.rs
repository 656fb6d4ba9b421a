//! Reading attribute strings of the form `padding:4, margin:2`.
use vstd::prelude::*;
use crate::text::{chars_of, split, split_chars, pieces_view, string_of, trim, trim_chars};

verus! {

/// The first position from `i` on where `c` occurs in `s`.
pub open spec fn first_from(s: Seq<char>, c: char, i: int) -> Option<int>
    decreases s.len() - i,
{
    if i < 0 || i >= s.len() {
        None
    } else if s[i] == c {
        Some(i)
    } else {
        first_from(s, c, i + 1)
    }
}

/// The (key, value) pair of one attribute, split at its first `:` and
/// trimmed; none when it holds no `:`.
pub open spec fn attribute_pair(part: Seq<char>) -> Option<(Seq<char>, Seq<char>)> {
    let t = trim(part);
    match first_from(t, ':', 0) {
        Some(k) => Some((trim(t.subrange(0, k)), trim(t.subrange(k + 1, t.len() as int)))),
        None => None,
    }
}

/// The pairs of the first `n` comma-separated parts.
pub open spec fn attribute_pairs(parts: Seq<Seq<char>>, n: int) -> Seq<(Seq<char>, Seq<char>)>
    decreases n,
{
    if n <= 0 {
        Seq::empty()
    } else {
        match attribute_pair(parts[n - 1]) {
            Some(p) => attribute_pairs(parts, n - 1).push(p),
            None => attribute_pairs(parts, n - 1),
        }
    }
}

/// The pairs of an attribute string.
pub open spec fn attributes(attr: Seq<char>) -> Seq<(Seq<char>, Seq<char>)> {
    attribute_pairs(split(attr, ','), split(attr, ',').len() as int)
}

/// The view of a pair of strings.
pub open spec fn pair_view(p: (String, String)) -> (Seq<char>, Seq<char>) {
    (p.0@, p.1@)
}

/// The view of a list of string pairs.
pub open spec fn pairs_view(v: Seq<(String, String)>) -> Seq<(Seq<char>, Seq<char>)> {
    v.map_values(|p: (String, String)| pair_view(p))
}

fn slice(s: &Vec<char>, a: usize, b: usize) -> (r: Vec<char>)
    requires
        a <= b <= s.len(),
    ensures
        r@ == s@.subrange(a as int, b as int),
{
    let mut r: Vec<char> = Vec::new();
    let mut k: usize = a;
    while k < b
        invariant
            a <= k <= b <= s.len(),
            r@ == s@.subrange(a as int, k as int),
        decreases b - k,
    {
        r.push(s[k]);
        k += 1;
        assert(r@ =~= s@.subrange(a as int, k as int));
    }
    r
}

fn pair_of(part: &Vec<char>) -> (r: Option<(String, String)>)
    ensures
        r is Some <==> attribute_pair(part@) is Some,
        r is Some ==> pair_view(r->0) == attribute_pair(part@)->0,
{
    let t = trim_chars(part);
    let mut k: usize = 0;
    while k < t.len() && t[k] != ':'
        invariant
            k <= t.len(),
            first_from(t@, ':', 0) == first_from(t@, ':', k as int),
        decreases t.len() - k,
    {
        k += 1;
    }
    if k == t.len() {
        return None;
    }
    let key = trim_chars(&slice(&t, 0, k));
    let value = trim_chars(&slice(&t, k + 1, t.len()));
    Some((string_of(&key), string_of(&value)))
}

/// Reads `key:value` pairs separated by commas; parts without `:` are skipped.
pub fn parse_reed_attributes(attr: &str) -> (r: Vec<(String, String)>)
    ensures
        pairs_view(r@) == attributes(attr@),
{
    let parts = split_chars(&chars_of(attr), ',');
    let ghost pv = pieces_view(parts@);
    let mut r: Vec<(String, String)> = Vec::new();
    let mut i: usize = 0;
    while i < parts.len()
        invariant
            i <= parts.len(),
            pv == pieces_view(parts@),
            pv == split(attr@, ','),
            pairs_view(r@) == attribute_pairs(pv, i as int),
        decreases parts.len() - i,
    {
        assert(pv[i as int] == parts@[i as int]@);
        match pair_of(&parts[i]) {
            Some(p) => {
                let ghost before = pairs_view(r@);
                r.push(p);
                assert(pairs_view(r@) =~= before.push(attribute_pair(pv[i as int])->0));
            },
            None => {},
        }
        i += 1;
    }
    r
}

} // verus!
