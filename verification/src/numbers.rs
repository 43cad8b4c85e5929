//! Number literals. A parsed number keeps the text it was written as: a run
//! of decimal digits with an optional leading `-` and at most one `.`
//! (exponent notation is not part of the grammar). Two literals are equal
//! when they denote the same decimal value, which the normal form below
//! decides.

use vstd::prelude::*;

verus! {

/// A decimal digit.
pub open spec fn is_digit(c: char) -> bool {
    '0' <= c && c <= '9'
}

/// Whether `t` is a well-formed number literal: an optional leading `-`,
/// then at least one digit, with at most one `.` among the digits.
pub open spec fn valid_number(t: Seq<char>) -> bool {
    let u = strip_sign(t);
    &&& u.len() > 0
    &&& forall|i: int| 0 <= i < u.len() ==> is_digit(#[trigger] u[i]) || u[i] == '.'
    &&& forall|i: int, j: int|
        0 <= i < j < u.len() && u[i] == '.' ==> u[j] != '.'
    &&& exists|i: int| 0 <= i < u.len() && is_digit(#[trigger] u[i])
}

/// Whether the literal carries a leading minus sign.
pub open spec fn is_negative(t: Seq<char>) -> bool {
    t.len() > 0 && t[0] == '-'
}

/// The literal without its sign.
pub open spec fn strip_sign(t: Seq<char>) -> Seq<char> {
    if is_negative(t) {
        t.skip(1)
    } else {
        t
    }
}

/// The digits before the first `.` (the whole run when there is no `.`).
pub open spec fn int_part(u: Seq<char>) -> Seq<char> {
    u.take(crate::text::find_from(u, 0, '.'))
}

/// The digits after the first `.`, empty when there is no `.`.
pub open spec fn frac_part(u: Seq<char>) -> Seq<char> {
    if crate::text::find_from(u, 0, '.') < u.len() {
        u.skip(crate::text::find_from(u, 0, '.') + 1)
    } else {
        Seq::empty()
    }
}

/// `s` without its leading `0` characters.
pub open spec fn trim_leading_zeros(s: Seq<char>) -> Seq<char>
    decreases s.len(),
{
    if s.len() > 0 && s[0] == '0' {
        trim_leading_zeros(s.skip(1))
    } else {
        s
    }
}

/// `s` without its trailing `0` characters.
pub open spec fn trim_trailing_zeros(s: Seq<char>) -> Seq<char>
    decreases s.len(),
{
    if s.len() > 0 && s[s.len() - 1] == '0' {
        trim_trailing_zeros(s.take(s.len() - 1))
    } else {
        s
    }
}

/// The normal form of a number literal: its sign, its integer digits with
/// leading zeros dropped, and its fractional digits with trailing zeros
/// dropped. Every literal that denotes zero normalizes to `(false, "0", "")`,
/// so `-0` and `0.00` are the same number.
pub open spec fn normal_form(t: Seq<char>) -> (bool, Seq<char>, Seq<char>) {
    let u = strip_sign(t);
    let ip = trim_leading_zeros(int_part(u));
    let fp = trim_trailing_zeros(frac_part(u));
    if ip.len() == 0 && fp.len() == 0 {
        (false, seq!['0'], Seq::empty())
    } else {
        (is_negative(t), if ip.len() == 0 { seq!['0'] } else { ip }, fp)
    }
}

/// Two number literals are equal when they denote the same decimal value.
pub open spec fn num_eq(a: Seq<char>, b: Seq<char>) -> bool {
    normal_form(a) == normal_form(b)
}

/// Decides [`is_digit`].
pub fn digit(c: char) -> (r: bool)
    ensures
        r == is_digit(c),
{
    '0' <= c && c <= '9'
}

proof fn lemma_trim_leading(s: Seq<char>, j: int)
    requires
        0 <= j <= s.len(),
        forall|k: int| 0 <= k < j ==> s[k] == '0',
        j == s.len() || s[j] != '0',
    ensures
        trim_leading_zeros(s) == s.skip(j),
    decreases j,
{
    if j == 0 {
        assert(s.skip(0) =~= s);
    } else {
        lemma_trim_leading(s.skip(1), j - 1);
        assert(s.skip(1).skip(j - 1) =~= s.skip(j));
    }
}

proof fn lemma_trim_trailing(s: Seq<char>, j: int)
    requires
        0 <= j <= s.len(),
        forall|k: int| j <= k < s.len() ==> s[k] == '0',
        j == 0 || s[j - 1] != '0',
    ensures
        trim_trailing_zeros(s) == s.take(j),
    decreases s.len() - j,
{
    if j == s.len() {
        assert(s.take(j) =~= s);
    } else {
        lemma_trim_trailing(s.take(s.len() - 1), j);
        assert(s.take(s.len() - 1).take(j) =~= s.take(j));
    }
}

/// Drops the leading `0` characters of `v`.
fn trim_leading_exec(v: &Vec<char>) -> (r: Vec<char>)
    ensures
        r@ == trim_leading_zeros(v@),
{
    let mut j: usize = 0;
    while j < v.len() && v[j] == '0'
        invariant
            0 <= j <= v@.len(),
            forall|k: int| 0 <= k < j ==> v@[k] == '0',
        decreases v@.len() - j,
    {
        j = j + 1;
    }
    proof {
        lemma_trim_leading(v@, j as int);
        assert(v@.subrange(j as int, v@.len() as int) =~= v@.skip(j as int));
    }
    crate::text::subvec(v, j, v.len())
}

/// Drops the trailing `0` characters of `v`.
fn trim_trailing_exec(v: &Vec<char>) -> (r: Vec<char>)
    ensures
        r@ == trim_trailing_zeros(v@),
{
    let mut j: usize = v.len();
    while j > 0 && v[j - 1] == '0'
        invariant
            0 <= j <= v@.len(),
            forall|k: int| j <= k < v@.len() ==> v@[k] == '0',
        decreases j,
    {
        j = j - 1;
    }
    proof {
        lemma_trim_trailing(v@, j as int);
        assert(v@.subrange(0, j as int) =~= v@.take(j as int));
    }
    crate::text::subvec(v, 0, j)
}

/// Computes [`normal_form`] of the literal held in `t`.
fn normalize(t: &Vec<char>) -> (r: (bool, Vec<char>, Vec<char>))
    ensures
        (r.0, r.1@, r.2@) == normal_form(t@),
{
    let neg = t.len() > 0 && t[0] == '-';
    let off: usize = if neg { 1 } else { 0 };
    let u = crate::text::subvec(t, off, t.len());
    proof {
        assert(u@ =~= strip_sign(t@));
    }
    let d = crate::text::find_char(&u, 0, '.');
    let ip_raw = crate::text::subvec(&u, 0, d);
    let fp_raw = if d < u.len() {
        crate::text::subvec(&u, d + 1, u.len())
    } else {
        Vec::new()
    };
    proof {
        assert(ip_raw@ =~= int_part(u@));
        if crate::text::find_from(u@, 0, '.') < u@.len() {
            assert(fp_raw@ =~= frac_part(u@));
        } else {
            assert(fp_raw@ =~= frac_part(u@));
        }
    }
    let ip = trim_leading_exec(&ip_raw);
    let fp = trim_trailing_exec(&fp_raw);
    if ip.len() == 0 && fp.len() == 0 {
        let zero: Vec<char> = vec!['0'];
        proof {
            assert(zero@ =~= seq!['0']);
        }
        (false, zero, Vec::new())
    } else if ip.len() == 0 {
        let zero: Vec<char> = vec!['0'];
        proof {
            assert(zero@ =~= seq!['0']);
        }
        (neg, zero, fp)
    } else {
        (neg, ip, fp)
    }
}

/// Decides [`num_eq`] on two literals.
pub fn num_eq_chars(a: &Vec<char>, b: &Vec<char>) -> (r: bool)
    ensures
        r == num_eq(a@, b@),
{
    let na = normalize(a);
    let nb = normalize(b);
    na.0 == nb.0 && crate::text::chars_eq(&na.1, &nb.1) && crate::text::chars_eq(&na.2, &nb.2)
}

/// Decides [`valid_number`] on a scanned literal.
pub fn check_number(t: &Vec<char>) -> (r: bool)
    ensures
        r == valid_number(t@),
{
    let neg = t.len() > 0 && t[0] == '-';
    let off: usize = if neg { 1 } else { 0 };
    proof {
        assert(strip_sign(t@) =~= t@.subrange(off as int, t@.len() as int));
    }
    if t.len() == off {
        return false;
    }
    let mut i: usize = off;
    let mut seen_dot = false;
    let mut seen_digit = false;
    while i < t.len()
        invariant
            off <= i <= t@.len(),
            off <= 1,
            strip_sign(t@) == t@.subrange(off as int, t@.len() as int),
            forall|k: int|
                0 <= k < i - off ==> is_digit(#[trigger] strip_sign(t@)[k]) || strip_sign(
                    t@,
                )[k] == '.',
            forall|k1: int, k2: int|
                0 <= k1 < k2 < i - off && strip_sign(t@)[k1] == '.' ==> strip_sign(t@)[k2] != '.',
            seen_dot == exists|k: int| 0 <= k < i - off && strip_sign(t@)[k] == '.',
            seen_digit == exists|k: int|
                0 <= k < i - off && is_digit(#[trigger] strip_sign(t@)[k]),
        decreases t@.len() - i,
    {
        let c = t[i];
        proof {
            assert(strip_sign(t@)[i - off] == c);
        }
        if digit(c) {
            seen_digit = true;
        } else if c == '.' {
            if seen_dot {
                proof {
                    let k = choose|k: int| 0 <= k < i - off && strip_sign(t@)[k] == '.';
                    assert(strip_sign(t@)[k] == '.');
                    assert(!valid_number(t@)) by {
                        if valid_number(t@) {
                            assert(strip_sign(t@)[i - off] != '.');
                        }
                    }
                }
                return false;
            }
            seen_dot = true;
        } else {
            proof {
                let idx = i - off;
                assert(!(is_digit(strip_sign(t@)[idx]) || strip_sign(t@)[idx] == '.'));
                assert(!valid_number(t@)) by {
                    if valid_number(t@) {
                        assert(is_digit(strip_sign(t@)[idx]) || strip_sign(t@)[idx] == '.');
                    }
                }
            }
            return false;
        }
        i = i + 1;
    }
    proof {
        assert(strip_sign(t@).len() == t@.len() - off);
    }
    seen_digit
}

} // verus!
