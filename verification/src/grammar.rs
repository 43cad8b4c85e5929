//! The grammar, as a mathematical function from a character sequence and a
//! cursor to a parse outcome. The executable parser is proved to compute
//! exactly this function. The grammar is strict recursive descent with one
//! character of lookahead and no backtracking: the cursor only moves
//! forward.

use vstd::prelude::*;
use crate::value::JsonView;
use crate::numbers::{is_digit, valid_number};
use crate::text::find_from;

verus! {

/// Why a parse failed. Each variant is terminal: the first violation ends
/// the whole parse.
#[derive(Clone, Copy, Debug, PartialEq, Eq, Structural)]
pub enum ParseError {
    /// No value can start at the cursor: end of input or a stray character.
    InvalidJson,
    /// An object needed a `"`-delimited key.
    ExpectedStringKey,
    /// An object key was not followed by `:`.
    ExpectedColon,
    /// An object entry was not followed by `,` or `}`.
    ExpectedCommaOrBrace,
    /// An array element was not followed by `,` or `]`.
    ExpectedCommaOrBracket,
    /// A string ran to the end of the input without a closing `"`.
    UnterminatedString,
    /// A number literal was malformed.
    InvalidNumber,
    /// A `t`/`f` did not begin `true` or `false`.
    InvalidBoolean,
    /// An `n` did not begin `null`.
    InvalidNull,
}

/// A parse outcome: the value or the error, and the cursor after the
/// attempt.
pub type SpecParsed = (Result<JsonView, ParseError>, int);

/// A whitespace character: one with the Unicode `White_Space` property.
pub open spec fn is_ws(c: char) -> bool {
    ||| c == ' '
    ||| c == '\u{9}'
    ||| c == '\u{a}'
    ||| c == '\u{b}'
    ||| c == '\u{c}'
    ||| c == '\u{d}'
    ||| c == '\u{85}'
    ||| c == '\u{a0}'
    ||| c == '\u{1680}'
    ||| ('\u{2000}' <= c && c <= '\u{200a}')
    ||| c == '\u{2028}'
    ||| c == '\u{2029}'
    ||| c == '\u{202f}'
    ||| c == '\u{205f}'
    ||| c == '\u{3000}'
}

/// The first index at or after `i` holding something other than
/// whitespace, or the length of `s`.
pub open spec fn skip_ws(s: Seq<char>, i: int) -> int
    decreases s.len() - i when 0 <= i <= s.len()
{
    if i < s.len() && is_ws(s[i]) {
        skip_ws(s, i + 1)
    } else {
        i
    }
}

/// What [`skip_ws`] returns: the first non-whitespace index at or after
/// `i`.
pub proof fn lemma_skip_ws(s: Seq<char>, i: int)
    requires
        0 <= i <= s.len(),
    ensures
        i <= skip_ws(s, i) <= s.len(),
        skip_ws(s, i) < s.len() ==> !is_ws(s[skip_ws(s, i)]),
        forall|k: int| i <= k < skip_ws(s, i) ==> is_ws(s[k]),
    decreases s.len() - i,
{
    if i < s.len() && is_ws(s[i]) {
        lemma_skip_ws(s, i + 1);
    }
}

/// A character a number literal may contain.
pub open spec fn is_num_char(c: char) -> bool {
    is_digit(c) || c == '.' || c == '-'
}

/// The first index at or after `i` holding no number character, or the
/// length of `s`.
pub open spec fn scan_num(s: Seq<char>, i: int) -> int
    decreases s.len() - i when 0 <= i <= s.len()
{
    if i < s.len() && is_num_char(s[i]) {
        scan_num(s, i + 1)
    } else {
        i
    }
}

/// What [`scan_num`] returns: the end of the number-character run at `i`.
pub proof fn lemma_scan_num(s: Seq<char>, i: int)
    requires
        0 <= i <= s.len(),
    ensures
        i <= scan_num(s, i) <= s.len(),
        scan_num(s, i) < s.len() ==> !is_num_char(s[scan_num(s, i)]),
        forall|k: int| i <= k < scan_num(s, i) ==> is_num_char(s[k]),
    decreases s.len() - i,
{
    if i < s.len() && is_num_char(s[i]) {
        lemma_scan_num(s, i + 1);
    }
}

/// Whether `p` occurs in `s` starting at `j`.
pub open spec fn has_prefix(s: Seq<char>, j: int, p: Seq<char>) -> bool {
    0 <= j && j + p.len() <= s.len() && s.subrange(j, j + p.len()) == p
}

/// A string literal: the opening `"`, its raw contents up to the next `"`
/// (escape sequences are not interpreted), and the closing `"`.
pub open spec fn spec_parse_string(s: Seq<char>, j: int) -> SpecParsed {
    if !(0 <= j < s.len()) {
        (Err(ParseError::UnterminatedString), j)
    } else {
        let e = find_from(s, j + 1, '"');
        if e == s.len() {
            (Err(ParseError::UnterminatedString), e)
        } else {
            (Ok(JsonView::String(s.subrange(j + 1, e))), e + 1)
        }
    }
}

/// Where [`spec_parse_string`] leaves the cursor.
pub proof fn lemma_spec_parse_string_pos(s: Seq<char>, j: int)
    requires
        0 <= j <= s.len(),
    ensures
        j <= spec_parse_string(s, j).1 <= s.len(),
        spec_parse_string(s, j).0 is Ok ==> j + 2 <= spec_parse_string(s, j).1,
        spec_parse_string(s, j).0 is Ok ==> spec_parse_string(s, j).0->Ok_0 is String,
{
    if j < s.len() {
        crate::text::lemma_find_from(s, j + 1, '"');
    }
}

/// A number literal: the maximal run of digits, `.` and `-` at the cursor,
/// accepted when [`valid_number`] holds of it.
pub open spec fn spec_parse_number(s: Seq<char>, j: int) -> SpecParsed {
    let e = scan_num(s, j);
    let tok = s.subrange(j, e);
    if valid_number(tok) {
        (Ok(JsonView::Number(tok)), e)
    } else {
        (Err(ParseError::InvalidNumber), e)
    }
}

/// `true` or `false`, written out exactly.
pub open spec fn spec_parse_boolean(s: Seq<char>, j: int) -> SpecParsed {
    if has_prefix(s, j, seq!['t', 'r', 'u', 'e']) {
        (Ok(JsonView::Boolean(true)), j + 4)
    } else if has_prefix(s, j, seq!['f', 'a', 'l', 's', 'e']) {
        (Ok(JsonView::Boolean(false)), j + 5)
    } else {
        (Err(ParseError::InvalidBoolean), j)
    }
}

/// `null`, written out exactly.
pub open spec fn spec_parse_null(s: Seq<char>, j: int) -> SpecParsed {
    if has_prefix(s, j, seq!['n', 'u', 'l', 'l']) {
        (Ok(JsonView::Null), j + 4)
    } else {
        (Err(ParseError::InvalidNull), j)
    }
}

/// A value: whitespace, then one character of lookahead picks the
/// production.
pub open spec fn spec_parse(s: Seq<char>, i: int) -> SpecParsed
    decreases s.len() - i, 1int when 0 <= i via spec_parse_dec
{
    if i > s.len() {
        (Err(ParseError::InvalidJson), i)
    } else {
        let j = skip_ws(s, i);
        if j == s.len() {
            (Err(ParseError::InvalidJson), j)
        } else if s[j] == '{' {
            spec_parse_object(s, j)
        } else if s[j] == '[' {
            spec_parse_array(s, j)
        } else if s[j] == '"' {
            spec_parse_string(s, j)
        } else if is_digit(s[j]) || s[j] == '-' {
            spec_parse_number(s, j)
        } else if s[j] == 't' || s[j] == 'f' {
            spec_parse_boolean(s, j)
        } else if s[j] == 'n' {
            spec_parse_null(s, j)
        } else {
            (Err(ParseError::InvalidJson), j)
        }
    }
}

#[via_fn]
proof fn spec_parse_dec(s: Seq<char>, i: int) {
    if 0 <= i <= s.len() {
        lemma_skip_ws(s, i);
    }
}

/// An object: `{`, then either an immediate `}` for the empty object, or
/// its members.
pub open spec fn spec_parse_object(s: Seq<char>, j: int) -> SpecParsed
    decreases s.len() - j, 0int when 0 <= j <= s.len() via spec_parse_object_dec
{
    if j >= s.len() {
        (Err(ParseError::ExpectedStringKey), j)
    } else {
        let k = skip_ws(s, j + 1);
        if k < s.len() && s[k] == '}' {
            (Ok(JsonView::Object(Seq::empty())), k + 1)
        } else {
            spec_parse_members(s, k, Seq::empty())
        }
    }
}

#[via_fn]
proof fn spec_parse_object_dec(s: Seq<char>, j: int) {
    if 0 <= j < s.len() {
        lemma_skip_ws(s, j + 1);
    }
}

/// The members of an object from the start of a key on: `"key": value`,
/// then `,` and further members, or `}`.
pub open spec fn spec_parse_members(
    s: Seq<char>,
    k: int,
    acc: Seq<(Seq<char>, JsonView)>,
) -> SpecParsed
    decreases s.len() - k, 2int when 0 <= k <= s.len() via spec_parse_members_dec
{
    if k == s.len() || s[k] != '"' {
        (Err(ParseError::ExpectedStringKey), k)
    } else {
        let (kr, k2) = spec_parse_string(s, k);
        match kr {
            Err(e) => (Err(e), k2),
            Ok(kv) => {
                let c1 = skip_ws(s, k2);
                if c1 == s.len() {
                    (Err(ParseError::ExpectedColon), c1)
                } else if s[c1] != ':' {
                    (Err(ParseError::ExpectedColon), c1 + 1)
                } else {
                    let (vr, p) = spec_parse(s, c1 + 1);
                    match vr {
                        Err(e) => (Err(e), p),
                        Ok(v) => if !(c1 < p <= s.len()) {
                            (Err(ParseError::InvalidJson), p)
                        } else {
                            let acc2 = acc.push((kv->String_0, v));
                            let q = skip_ws(s, p);
                            if q < s.len() && s[q] == ',' {
                                spec_parse_members(s, skip_ws(s, q + 1), acc2)
                            } else if q < s.len() && s[q] == '}' {
                                (Ok(JsonView::Object(acc2)), q + 1)
                            } else {
                                (Err(ParseError::ExpectedCommaOrBrace), q)
                            }
                        },
                    }
                }
            },
        }
    }
}

#[via_fn]
proof fn spec_parse_members_dec(s: Seq<char>, k: int, acc: Seq<(Seq<char>, JsonView)>) {
    assert forall|x: int| 0 <= x <= s.len() implies x <= #[trigger] skip_ws(s, x) <= s.len() by {
        lemma_skip_ws(s, x);
    }
    if 0 <= k < s.len() && s[k] == '"' {
        lemma_spec_parse_string_pos(s, k);
    }
}

/// An array: `[`, then either an immediate `]` for the empty array, or its
/// elements.
pub open spec fn spec_parse_array(s: Seq<char>, j: int) -> SpecParsed
    decreases s.len() - j, 0int when 0 <= j <= s.len() via spec_parse_array_dec
{
    if j >= s.len() {
        (Err(ParseError::InvalidJson), j)
    } else {
        let k = skip_ws(s, j + 1);
        if k < s.len() && s[k] == ']' {
            (Ok(JsonView::Array(Seq::empty())), k + 1)
        } else {
            spec_parse_elements(s, k, Seq::empty())
        }
    }
}

#[via_fn]
proof fn spec_parse_array_dec(s: Seq<char>, j: int) {
    if 0 <= j < s.len() {
        lemma_skip_ws(s, j + 1);
    }
}

/// The elements of an array from the start of a value on: `value`, then
/// `,` and further elements, or `]`.
pub open spec fn spec_parse_elements(s: Seq<char>, k: int, acc: Seq<JsonView>) -> SpecParsed
    decreases s.len() - k, 2int when 0 <= k <= s.len() via spec_parse_elements_dec
{
    let (vr, p) = spec_parse(s, k);
    match vr {
        Err(e) => (Err(e), p),
        Ok(v) => if !(k < p <= s.len()) {
            (Err(ParseError::InvalidJson), p)
        } else {
            let acc2 = acc.push(v);
            let q = skip_ws(s, p);
            if q < s.len() && s[q] == ',' {
                spec_parse_elements(s, q + 1, acc2)
            } else if q < s.len() && s[q] == ']' {
                (Ok(JsonView::Array(acc2)), q + 1)
            } else {
                (Err(ParseError::ExpectedCommaOrBracket), q)
            }
        },
    }
}

#[via_fn]
proof fn spec_parse_elements_dec(s: Seq<char>, k: int, acc: Seq<JsonView>) {
    assert forall|x: int| 0 <= x <= s.len() implies x <= #[trigger] skip_ws(s, x) <= s.len() by {
        lemma_skip_ws(s, x);
    }
}

/// Every parse leaves the cursor between where it started and the end of
/// the input, and a successful parse moves it forward.
pub proof fn lemma_spec_parse_pos(s: Seq<char>, i: int)
    requires
        0 <= i <= s.len(),
    ensures
        i <= spec_parse(s, i).1 <= s.len(),
        spec_parse(s, i).0 is Ok ==> i < spec_parse(s, i).1,
    decreases s.len() - i, 1int,
{
    lemma_skip_ws(s, i);
    let j = skip_ws(s, i);
    if j < s.len() {
        if s[j] == '{' {
            lemma_spec_parse_object_pos(s, j);
        } else if s[j] == '[' {
            lemma_spec_parse_array_pos(s, j);
        } else if s[j] == '"' {
            lemma_spec_parse_string_pos(s, j);
        } else if is_digit(s[j]) || s[j] == '-' {
            lemma_scan_num(s, j);
            let e = scan_num(s, j);
            if spec_parse_number(s, j).0 is Ok {
                let tok = s.subrange(j, e);
                assert(valid_number(tok));
                assert(tok.len() > 0) by {
                    if tok.len() == 0 {
                        assert(crate::numbers::strip_sign(tok) =~= tok);
                    }
                }
            }
        }
    }
}

/// Cursor bounds for objects.
pub proof fn lemma_spec_parse_object_pos(s: Seq<char>, j: int)
    requires
        0 <= j <= s.len(),
    ensures
        j <= spec_parse_object(s, j).1 <= s.len(),
        spec_parse_object(s, j).0 is Ok ==> j < spec_parse_object(s, j).1,
    decreases s.len() - j, 0int,
{
    if j < s.len() {
        lemma_skip_ws(s, j + 1);
        let k = skip_ws(s, j + 1);
        if !(k < s.len() && s[k] == '}') {
            lemma_spec_parse_members_pos(s, k, Seq::empty());
        }
    }
}

/// Cursor bounds for object members.
pub proof fn lemma_spec_parse_members_pos(s: Seq<char>, k: int, acc: Seq<(Seq<char>, JsonView)>)
    requires
        0 <= k <= s.len(),
    ensures
        k <= spec_parse_members(s, k, acc).1 <= s.len(),
    decreases s.len() - k, 2int,
{
    if k == s.len() || s[k] != '"' {
    } else {
        lemma_spec_parse_string_pos(s, k);
        let (kr, k2) = spec_parse_string(s, k);
        if kr is Ok {
            lemma_skip_ws(s, k2);
            let c1 = skip_ws(s, k2);
            if c1 < s.len() && s[c1] == ':' {
                lemma_spec_parse_pos(s, c1 + 1);
                let (vr, p) = spec_parse(s, c1 + 1);
                if vr is Ok && c1 < p <= s.len() {
                    lemma_skip_ws(s, p);
                    let q = skip_ws(s, p);
                    if q < s.len() && s[q] == ',' {
                        lemma_skip_ws(s, q + 1);
                        lemma_spec_parse_members_pos(
                            s,
                            skip_ws(s, q + 1),
                            acc.push((kr->Ok_0->String_0, vr->Ok_0)),
                        );
                    }
                }
            }
        }
    }
}

/// Cursor bounds for arrays.
pub proof fn lemma_spec_parse_array_pos(s: Seq<char>, j: int)
    requires
        0 <= j <= s.len(),
    ensures
        j <= spec_parse_array(s, j).1 <= s.len(),
        spec_parse_array(s, j).0 is Ok ==> j < spec_parse_array(s, j).1,
    decreases s.len() - j, 0int,
{
    if j < s.len() {
        lemma_skip_ws(s, j + 1);
        let k = skip_ws(s, j + 1);
        if !(k < s.len() && s[k] == ']') {
            lemma_spec_parse_elements_pos(s, k, Seq::empty());
        }
    }
}

/// Cursor bounds for array elements.
pub proof fn lemma_spec_parse_elements_pos(s: Seq<char>, k: int, acc: Seq<JsonView>)
    requires
        0 <= k <= s.len(),
    ensures
        k <= spec_parse_elements(s, k, acc).1 <= s.len(),
    decreases s.len() - k, 2int,
{
    lemma_spec_parse_pos(s, k);
    let (vr, p) = spec_parse(s, k);
    if vr is Ok && k < p <= s.len() {
        lemma_skip_ws(s, p);
        let q = skip_ws(s, p);
        if q < s.len() && s[q] == ',' {
            lemma_spec_parse_elements_pos(s, q + 1, acc.push(vr->Ok_0));
        }
    }
}

} // verus!
