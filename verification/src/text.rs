//! Character-level helpers shared by the parser, the queries and the
//! renderer: conversions between `String` and `Vec<char>`, and comparisons.

use vstd::prelude::*;

verus! {

/// Turns a string slice into its characters, one `char` per element.
pub fn str_to_chars(s: &str) -> (r: Vec<char>)
    ensures
        r@ == s@,
{
    let n = s.unicode_len();
    let mut r: Vec<char> = Vec::new();
    let mut i: usize = 0;
    while i < n
        invariant
            n == s@.len(),
            i <= n,
            r@ == s@.subrange(0, i as int),
        decreases n - i,
    {
        r.push(s.get_char(i));
        i = i + 1;
    }
    proof {
        assert(r@ =~= s@);
    }
    r
}

/// Builds an owned string out of a character vector.
///
/// Relies on `core::iter::Iterator::collect` for `String`: the collected
/// string holds exactly the characters of the iterator, in order.
#[verifier::external_body]
pub fn chars_to_string(v: &Vec<char>) -> (r: String)
    ensures
        r@ == v@,
{
    v.iter().collect()
}

/// The index of the first occurrence of `c` at or after `s`, or the length
/// of `u` when there is none.
pub open spec fn find_from(u: Seq<char>, s: int, c: char) -> int
    decreases u.len() - s when 0 <= s <= u.len()
{
    if s >= u.len() {
        s
    } else if u[s] == c {
        s
    } else {
        find_from(u, s + 1, c)
    }
}

/// What [`find_from`] returns: the first occurrence of `c` in `u[s..]`, or
/// the length of `u`.
pub proof fn lemma_find_from(u: Seq<char>, s: int, c: char)
    requires
        0 <= s <= u.len(),
    ensures
        s <= find_from(u, s, c) <= u.len(),
        find_from(u, s, c) < u.len() ==> u[find_from(u, s, c)] == c,
        forall|k: int| s <= k < find_from(u, s, c) ==> u[k] != c,
    decreases u.len() - s,
{
    if s < u.len() && u[s] != c {
        lemma_find_from(u, s + 1, c);
    }
}

/// Finds the first occurrence of `c` in `v` at or after `s`.
pub fn find_char(v: &Vec<char>, s: usize, c: char) -> (r: usize)
    requires
        s <= v@.len(),
    ensures
        r == find_from(v@, s as int, c),
        s <= r <= v@.len(),
        r < v@.len() ==> v@[r as int] == c,
{
    let mut j: usize = s;
    while j < v.len() && v[j] != c
        invariant
            s <= j <= v@.len(),
            find_from(v@, s as int, c) == find_from(v@, j as int, c),
        decreases v@.len() - j,
    {
        j = j + 1;
    }
    j
}

/// Copies the characters of `v` between `from` and `to` into a new vector.
pub fn subvec(v: &Vec<char>, from: usize, to: usize) -> (r: Vec<char>)
    requires
        from <= to <= v@.len(),
    ensures
        r@ == v@.subrange(from as int, to as int),
{
    let mut r: Vec<char> = Vec::new();
    let mut i: usize = from;
    while i < to
        invariant
            from <= i <= to <= v@.len(),
            r@ == v@.subrange(from as int, i as int),
        decreases to - i,
    {
        r.push(v[i]);
        proof {
            assert(r@ =~= v@.subrange(from as int, i + 1));
        }
        i = i + 1;
    }
    r
}

/// Compares two character vectors for equality.
pub fn chars_eq(a: &Vec<char>, b: &Vec<char>) -> (r: bool)
    ensures
        r == (a@ == b@),
{
    if a.len() != b.len() {
        proof {
            assert(a@ != b@);
        }
        return false;
    }
    let mut i: usize = 0;
    while i < a.len()
        invariant
            a@.len() == b@.len(),
            i <= a@.len(),
            forall|j: int| 0 <= j < i ==> a@[j] == b@[j],
        decreases a@.len() - i,
    {
        if a[i] != b[i] {
            return false;
        }
        i = i + 1;
    }
    proof {
        assert(a@ =~= b@);
    }
    true
}

/// Compares a string against a character vector.
pub fn str_eq_chars(s: &str, v: &Vec<char>) -> (r: bool)
    ensures
        r == (s@ == v@),
{
    let cs = str_to_chars(s);
    chars_eq(&cs, v)
}

} // verus!
