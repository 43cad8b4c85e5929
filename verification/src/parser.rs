//! The executable parser: a cursor over the input characters, moved only
//! forward, with one recursive-descent method per grammar production. Each
//! method computes exactly what the grammar functions in [`crate::grammar`]
//! say.

use vstd::prelude::*;
use crate::value::{JsonValue, pairs_view, elems_view, lemma_object_view, lemma_array_view};
use crate::grammar::{ParseError, is_ws, is_num_char, skip_ws, scan_num, has_prefix, spec_parse,
    spec_parse_object, spec_parse_members, spec_parse_array, spec_parse_elements,
    spec_parse_string, spec_parse_number, spec_parse_boolean, spec_parse_null,
    lemma_spec_parse_pos};
use crate::text::{find_char, subvec, chars_to_string, str_to_chars};

verus! {

/// Decides [`is_ws`].
fn white(c: char) -> (r: bool)
    ensures
        r == is_ws(c),
{
    c == ' ' || c == '\u{9}' || c == '\u{a}' || c == '\u{b}' || c == '\u{c}' || c == '\u{d}'
        || c == '\u{85}' || c == '\u{a0}' || c == '\u{1680}' || ('\u{2000}' <= c && c
        <= '\u{200a}') || c == '\u{2028}' || c == '\u{2029}' || c == '\u{202f}' || c == '\u{205f}'
        || c == '\u{3000}'
}

/// Decides [`is_num_char`].
fn num_char(c: char) -> (r: bool)
    ensures
        r == is_num_char(c),
{
    crate::numbers::digit(c) || c == '.' || c == '-'
}

/// Decides [`has_prefix`].
fn has_prefix_exec(v: &Vec<char>, at: usize, p: &[char]) -> (r: bool)
    ensures
        r == has_prefix(v@, at as int, p@),
{
    let n = v.len();
    let m = p.len();
    if n < m || at > n - m {
        return false;
    }
    let mut i: usize = 0;
    while i < m
        invariant
            n == v@.len(),
            m == p@.len(),
            i <= m,
            at + m <= n,
            forall|k: int| 0 <= k < i ==> v@[at + k] == p@[k],
        decreases p@.len() - i,
    {
        if v[at + i] != p[i] {
            proof {
                assert(v@.subrange(at as int, at + p@.len())[i as int] != p@[i as int]);
            }
            return false;
        }
        i = i + 1;
    }
    proof {
        assert(v@.subrange(at as int, at + p@.len()) =~= p@);
    }
    true
}

/// The text of each parse error, one line apiece.
pub open spec fn message_of(e: ParseError) -> Seq<char> {
    match e {
        ParseError::InvalidJson => "Invalid JSON format"@,
        ParseError::ExpectedStringKey => "Expected a string key"@,
        ParseError::ExpectedColon => "Expected ':' after key"@,
        ParseError::ExpectedCommaOrBrace => "Expected ',' or '}'"@,
        ParseError::ExpectedCommaOrBracket => "Expected ',' or ']'"@,
        ParseError::UnterminatedString => "Unterminated string"@,
        ParseError::InvalidNumber => "Invalid number format"@,
        ParseError::InvalidBoolean => "Invalid boolean"@,
        ParseError::InvalidNull => "Invalid null"@,
    }
}

impl ParseError {
    /// The human-readable description of the error.
    pub fn message(&self) -> (r: String)
        ensures
            r@ == message_of(*self),
    {
        match self {
            ParseError::InvalidJson => String::from_str("Invalid JSON format"),
            ParseError::ExpectedStringKey => String::from_str("Expected a string key"),
            ParseError::ExpectedColon => String::from_str("Expected ':' after key"),
            ParseError::ExpectedCommaOrBrace => String::from_str("Expected ',' or '}'"),
            ParseError::ExpectedCommaOrBracket => String::from_str("Expected ',' or ']'"),
            ParseError::UnterminatedString => String::from_str("Unterminated string"),
            ParseError::InvalidNumber => String::from_str("Invalid number format"),
            ParseError::InvalidBoolean => String::from_str("Invalid boolean"),
            ParseError::InvalidNull => String::from_str("Invalid null"),
        }
    }
}

/// The parser state: the input characters and the cursor. The cursor only
/// moves forward, one character at a time.
pub struct JsonParser {
    pub input: Vec<char>,
    pub position: usize,
}

impl JsonParser {
    /// A fresh parser over `input`, cursor at the start.
    pub fn new(input: &str) -> (r: Self)
        ensures
            r.input@ == input@,
            r.position == 0,
    {
        JsonParser { input: str_to_chars(input), position: 0 }
    }

    /// The character at the cursor, if any; the cursor does not move.
    pub fn peek_char(&self) -> (r: Option<char>)
        ensures
            r == (if self.position < self.input@.len() {
                Some(self.input@[self.position as int])
            } else {
                None::<char>
            }),
    {
        if self.position < self.input.len() {
            Some(self.input[self.position])
        } else {
            None
        }
    }

    /// Takes the character at the cursor, moving the cursor one character
    /// forward; at the end of the input, nothing.
    pub fn consume_char(&mut self) -> (r: Option<char>)
        ensures
            final(self).input@ == old(self).input@,
            old(self).position < old(self).input@.len() ==> r == Some(
                old(self).input@[old(self).position as int],
            ) && final(self).position == old(self).position + 1,
            old(self).position >= old(self).input@.len() ==> r == None::<char> && final(self).position == old(self).position,
    {
        if self.position < self.input.len() {
            let c = self.input[self.position];
            self.position = self.position + 1;
            Some(c)
        } else {
            None
        }
    }

    /// Moves the cursor past any whitespace.
    pub fn skip_whitespace(&mut self)
        ensures
            final(self).input@ == old(self).input@,
            final(self).position >= old(self).position,
            old(self).position <= old(self).input@.len() ==> final(self).position
                <= old(self).input@.len(),
            old(self).position <= old(self).input@.len() ==> final(self).position as int == skip_ws(
                old(self).input@,
                old(self).position as int,
            ),
            old(self).position > old(self).input@.len() ==> final(self).position == old(
                self,
            ).position,
    {
        while self.position < self.input.len() && white(self.input[self.position])
            invariant
                self.input == old(self).input,
                self.position >= old(self).position,
                old(self).position <= old(self).input@.len() ==> (self.position
                    <= self.input@.len() && skip_ws(old(self).input@, old(self).position as int)
                    == skip_ws(self.input@, self.position as int)),
                old(self).position > old(self).input@.len() ==> self.position == old(
                    self,
                ).position,
            decreases self.input@.len() - self.position,
        {
            self.position = self.position + 1;
        }
    }

    /// Parses one value at the cursor: whitespace, then the production the
    /// next character picks, as [`spec_parse`] says.
    pub fn parse(&mut self) -> (r: Result<JsonValue, ParseError>)
        ensures
            final(self).input@ == old(self).input@,
            final(self).position as int == spec_parse(
                old(self).input@,
                old(self).position as int,
            ).1,
            match r {
                Ok(v) => spec_parse(old(self).input@, old(self).position as int).0 == Ok::<
                    _,
                    ParseError,
                >(v@),
                Err(e) => spec_parse(old(self).input@, old(self).position as int).0
                    == Err::<crate::value::JsonView, _>(e),
            },
        decreases self.input@.len() - self.position, 1int,
    {
        self.skip_whitespace();
        match self.peek_char() {
            None => Err(ParseError::InvalidJson),
            Some(c) => {
                if c == '{' {
                    self.parse_object()
                } else if c == '[' {
                    self.parse_array()
                } else if c == '"' {
                    self.parse_string()
                } else if crate::numbers::digit(c) || c == '-' {
                    self.parse_number()
                } else if c == 't' || c == 'f' {
                    self.parse_boolean()
                } else if c == 'n' {
                    self.parse_null()
                } else {
                    Err(ParseError::InvalidJson)
                }
            },
        }
    }

    /// Parses an object at the cursor, as [`spec_parse_object`] says.
    #[verifier::loop_isolation(false)]
    #[verifier::rlimit(60)]
    pub fn parse_object(&mut self) -> (r: Result<JsonValue, ParseError>)
        ensures
            final(self).input@ == old(self).input@,
            old(self).position <= old(self).input@.len() ==> ({
                let sp = spec_parse_object(old(self).input@, old(self).position as int);
                &&& final(self).position as int == sp.1
                &&& match r {
                    Ok(v) => sp.0 == Ok::<_, ParseError>(v@),
                    Err(e) => sp.0 == Err::<crate::value::JsonView, _>(e),
                }
            }),
            old(self).position > old(self).input@.len() ==> final(self).position == old(
                self,
            ).position,
        decreases self.input@.len() - self.position, 0int,
    {
        let ghost s = self.input@;
        let ghost j0 = self.position as int;
        if self.position >= self.input.len() {
            return Err(ParseError::ExpectedStringKey);
        }
        self.consume_char();
        self.skip_whitespace();
        let at_close = match self.peek_char() {
            Some(c) => c == '}',
            None => false,
        };
        if at_close {
            self.consume_char();
            let empty: Vec<(String, JsonValue)> = Vec::new();
            proof {
                lemma_object_view(empty);
                assert(pairs_view(empty@) =~= Seq::<(Seq<char>, crate::value::JsonView)>::empty());
            }
            return Ok(JsonValue::Object(empty));
        }
        let mut acc: Vec<(String, JsonValue)> = Vec::new();
        proof {
            assert(pairs_view(acc@) =~= Seq::<(Seq<char>, crate::value::JsonView)>::empty());
        }
        loop
            invariant
                self.input@ == s,
                j0 < self.position <= s.len(),
                spec_parse_members(s, self.position as int, pairs_view(acc@))
                    == spec_parse_object(s, j0),
            decreases s.len() - self.position,
        {
            let ghost k = self.position as int;
            let ghost accv = pairs_view(acc@);
            match self.peek_char() {
                Some(c) => {
                    if c != '"' {
                        return Err(ParseError::ExpectedStringKey);
                    }
                },
                None => {
                    return Err(ParseError::ExpectedStringKey);
                },
            }
            proof {
                crate::grammar::lemma_spec_parse_string_pos(s, k);
            }
            let key = match self.parse_string() {
                Err(e) => {
                    return Err(e);
                },
                Ok(JsonValue::String(key)) => key,
                Ok(_) => {
                    proof {
                        assert(false);
                    }
                    return Err(ParseError::ExpectedStringKey);
                },
            };
            let ghost k2 = self.position as int;
            self.skip_whitespace();
            let ghost c1 = self.position as int;
            match self.consume_char() {
                Some(c) => {
                    if c != ':' {
                        return Err(ParseError::ExpectedColon);
                    }
                },
                None => {
                    return Err(ParseError::ExpectedColon);
                },
            }
            proof {
                lemma_spec_parse_pos(s, c1 + 1);
            }
            let value = match self.parse() {
                Ok(v) => v,
                Err(e) => {
                    return Err(e);
                },
            };
            let ghost p = self.position as int;
            acc.push((key, value));
            proof {
                assert(pairs_view(acc@) =~= accv.push(
                    (spec_parse_string(s, k).0->Ok_0->String_0, spec_parse(s, c1 + 1).0->Ok_0),
                ));
            }
            self.skip_whitespace();
            let ghost q = self.position as int;
            match self.peek_char() {
                Some(c) => {
                    if c == ',' {
                        self.consume_char();
                        self.skip_whitespace();
                    } else if c == '}' {
                        self.consume_char();
                        proof {
                            lemma_object_view(acc);
                        }
                        return Ok(JsonValue::Object(acc));
                    } else {
                        return Err(ParseError::ExpectedCommaOrBrace);
                    }
                },
                None => {
                    return Err(ParseError::ExpectedCommaOrBrace);
                },
            }
        }
    }

    /// Parses an array at the cursor, as [`spec_parse_array`] says.
    #[verifier::loop_isolation(false)]
    #[verifier::rlimit(60)]
    pub fn parse_array(&mut self) -> (r: Result<JsonValue, ParseError>)
        ensures
            final(self).input@ == old(self).input@,
            old(self).position <= old(self).input@.len() ==> ({
                let sp = spec_parse_array(old(self).input@, old(self).position as int);
                &&& final(self).position as int == sp.1
                &&& match r {
                    Ok(v) => sp.0 == Ok::<_, ParseError>(v@),
                    Err(e) => sp.0 == Err::<crate::value::JsonView, _>(e),
                }
            }),
            old(self).position > old(self).input@.len() ==> final(self).position == old(
                self,
            ).position,
        decreases self.input@.len() - self.position, 0int,
    {
        let ghost s = self.input@;
        let ghost j0 = self.position as int;
        if self.position >= self.input.len() {
            return Err(ParseError::InvalidJson);
        }
        self.consume_char();
        self.skip_whitespace();
        let at_close = match self.peek_char() {
            Some(c) => c == ']',
            None => false,
        };
        if at_close {
            self.consume_char();
            let empty: Vec<JsonValue> = Vec::new();
            proof {
                lemma_array_view(empty);
                assert(elems_view(empty@) =~= Seq::<crate::value::JsonView>::empty());
            }
            return Ok(JsonValue::Array(empty));
        }
        let mut acc: Vec<JsonValue> = Vec::new();
        proof {
            assert(elems_view(acc@) =~= Seq::<crate::value::JsonView>::empty());
        }
        loop
            invariant
                self.input@ == s,
                j0 < self.position <= s.len(),
                spec_parse_elements(s, self.position as int, elems_view(acc@))
                    == spec_parse_array(s, j0),
            decreases s.len() - self.position,
        {
            let ghost k = self.position as int;
            let ghost accv = elems_view(acc@);
            proof {
                lemma_spec_parse_pos(s, k);
            }
            let value = match self.parse() {
                Ok(v) => v,
                Err(e) => {
                    return Err(e);
                },
            };
            acc.push(value);
            proof {
                assert(elems_view(acc@) =~= accv.push(spec_parse(s, k).0->Ok_0));
            }
            self.skip_whitespace();
            match self.peek_char() {
                Some(c) => {
                    if c == ',' {
                        self.consume_char();
                    } else if c == ']' {
                        self.consume_char();
                        proof {
                            lemma_array_view(acc);
                        }
                        return Ok(JsonValue::Array(acc));
                    } else {
                        return Err(ParseError::ExpectedCommaOrBracket);
                    }
                },
                None => {
                    return Err(ParseError::ExpectedCommaOrBracket);
                },
            }
        }
    }

    /// Parses a string literal at the cursor, as [`spec_parse_string`]
    /// says: the raw characters up to the next `"`, escapes left verbatim.
    pub fn parse_string(&mut self) -> (r: Result<JsonValue, ParseError>)
        ensures
            final(self).input@ == old(self).input@,
            final(self).position as int == spec_parse_string(
                old(self).input@,
                old(self).position as int,
            ).1,
            match r {
                Ok(v) => spec_parse_string(old(self).input@, old(self).position as int).0 == Ok::<
                    _,
                    ParseError,
                >(v@),
                Err(e) => spec_parse_string(old(self).input@, old(self).position as int).0
                    == Err::<crate::value::JsonView, _>(e),
            },
    {
        if self.position >= self.input.len() {
            return Err(ParseError::UnterminatedString);
        }
        self.consume_char();
        let e = find_char(&self.input, self.position, '"');
        if e == self.input.len() {
            self.position = e;
            return Err(ParseError::UnterminatedString);
        }
        let tok = subvec(&self.input, self.position, e);
        let contents = chars_to_string(&tok);
        self.position = e + 1;
        Ok(JsonValue::String(contents))
    }

    /// Parses a number literal at the cursor, as [`spec_parse_number`]
    /// says: the maximal run of digits, `.` and `-`, accepted when it is a
    /// well-formed literal.
    pub fn parse_number(&mut self) -> (r: Result<JsonValue, ParseError>)
        ensures
            final(self).input@ == old(self).input@,
            old(self).position <= old(self).input@.len() ==> ({
                let sp = spec_parse_number(old(self).input@, old(self).position as int);
                &&& final(self).position as int == sp.1
                &&& match r {
                    Ok(v) => sp.0 == Ok::<_, ParseError>(v@),
                    Err(e) => sp.0 == Err::<crate::value::JsonView, _>(e),
                }
            }),
            old(self).position > old(self).input@.len() ==> final(self).position == old(
                self,
            ).position,
    {
        if self.position > self.input.len() {
            return Err(ParseError::InvalidNumber);
        }
        let start = self.position;
        while self.position < self.input.len() && num_char(self.input[self.position])
            invariant
                self.input == old(self).input,
                start <= self.position <= self.input@.len(),
                scan_num(self.input@, start as int) == scan_num(
                    self.input@,
                    self.position as int,
                ),
            decreases self.input@.len() - self.position,
        {
            self.position = self.position + 1;
        }
        let tok = subvec(&self.input, start, self.position);
        if crate::numbers::check_number(&tok) {
            Ok(JsonValue::Number(chars_to_string(&tok)))
        } else {
            Err(ParseError::InvalidNumber)
        }
    }

    /// Parses `true` or `false` at the cursor, as [`spec_parse_boolean`]
    /// says.
    pub fn parse_boolean(&mut self) -> (r: Result<JsonValue, ParseError>)
        ensures
            final(self).input@ == old(self).input@,
            final(self).position as int == spec_parse_boolean(
                old(self).input@,
                old(self).position as int,
            ).1,
            match r {
                Ok(v) => spec_parse_boolean(old(self).input@, old(self).position as int).0 == Ok::<
                    _,
                    ParseError,
                >(v@),
                Err(e) => spec_parse_boolean(old(self).input@, old(self).position as int).0
                    == Err::<crate::value::JsonView, _>(e),
            },
    {
        let t: [char; 4] = ['t', 'r', 'u', 'e'];
        let f: [char; 5] = ['f', 'a', 'l', 's', 'e'];
        proof {
            assert(t@ =~= seq!['t', 'r', 'u', 'e']);
            assert(f@ =~= seq!['f', 'a', 'l', 's', 'e']);
        }
        let n = self.input.len();
        if has_prefix_exec(&self.input, self.position, t.as_slice()) {
            proof {
                assert(self.position + 4 <= n);
            }
            self.position = self.position + 4;
            Ok(JsonValue::Boolean(true))
        } else if has_prefix_exec(&self.input, self.position, f.as_slice()) {
            proof {
                assert(self.position + 5 <= n);
            }
            self.position = self.position + 5;
            Ok(JsonValue::Boolean(false))
        } else {
            Err(ParseError::InvalidBoolean)
        }
    }

    /// Parses `null` at the cursor, as [`spec_parse_null`] says.
    pub fn parse_null(&mut self) -> (r: Result<JsonValue, ParseError>)
        ensures
            final(self).input@ == old(self).input@,
            final(self).position as int == spec_parse_null(
                old(self).input@,
                old(self).position as int,
            ).1,
            match r {
                Ok(v) => spec_parse_null(old(self).input@, old(self).position as int).0 == Ok::<
                    _,
                    ParseError,
                >(v@),
                Err(e) => spec_parse_null(old(self).input@, old(self).position as int).0 == Err::<
                    crate::value::JsonView,
                    _,
                >(e),
            },
    {
        let n: [char; 4] = ['n', 'u', 'l', 'l'];
        proof {
            assert(n@ =~= seq!['n', 'u', 'l', 'l']);
        }
        let len = self.input.len();
        if has_prefix_exec(&self.input, self.position, n.as_slice()) {
            proof {
                assert(self.position + 4 <= len);
            }
            self.position = self.position + 4;
            Ok(JsonValue::Null)
        } else {
            Err(ParseError::InvalidNull)
        }
    }
}

} // verus!
