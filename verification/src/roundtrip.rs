//! Round trip: parsing the plain rendering of a well-formed tree gives
//! back exactly that tree. Well-formed means what every parsed tree
//! satisfies: strings and keys hold no `"`, and number literals are valid
//! and start with a digit or `-`.

use vstd::prelude::*;
use crate::value::JsonView;
use crate::numbers::{is_digit, valid_number};
use crate::grammar::{ParseError, is_ws, is_num_char, skip_ws, scan_num, has_prefix, spec_parse,
    spec_parse_object, spec_parse_members, spec_parse_array, spec_parse_elements,
    spec_parse_string, spec_parse_number, spec_parse_boolean, spec_parse_null,
    lemma_spec_parse_pos};
use crate::render::{SchemeView, plain_scheme, render_v, render_pairs, render_elems, deeper};
use crate::text::find_from;

verus! {

/// No `"` anywhere in the text.
pub open spec fn no_quote(t: Seq<char>) -> bool {
    forall|k: int| 0 <= k < t.len() ==> t[k] != '"'
}

/// A tree as the parser builds it: strings and keys hold no `"`, number
/// literals are valid and start with a digit or `-`.
pub open spec fn wf(v: JsonView) -> bool
    decreases v, 0int,
{
    match v {
        JsonView::Object(ps) => forall|i: int|
            0 <= i < ps.len() ==> no_quote((#[trigger] ps[i]).0) && wf(ps[i].1),
        JsonView::Array(es) => forall|i: int| 0 <= i < es.len() ==> wf(#[trigger] es[i]),
        JsonView::String(t) => no_quote(t),
        JsonView::Number(t) => valid_number(t) && (is_digit(t[0]) || t[0] == '-'),
        JsonView::Boolean(_) => true,
        JsonView::Null => true,
    }
}

/// Only spaces.
pub open spec fn all_spaces(p: Seq<char>) -> bool {
    forall|k: int| 0 <= k < p.len() ==> p[k] == ' '
}

/// Skipping whitespace from `from` lands exactly on `e` when everything
/// before `e` is whitespace and `e` is not.
proof fn lemma_skip_to(s: Seq<char>, from: int, e: int)
    requires
        0 <= from <= e < s.len(),
        forall|k: int| from <= k < e ==> is_ws(s[k]),
        !is_ws(s[e]),
    ensures
        skip_ws(s, from) == e,
    decreases e - from,
{
    if from < e {
        lemma_skip_to(s, from + 1, e);
    }
}

/// Finding `c` from `from` lands exactly on `e` when everything before `e`
/// differs from `c` and `s[e]` is `c`.
proof fn lemma_find_to(s: Seq<char>, from: int, e: int, c: char)
    requires
        0 <= from <= e < s.len(),
        forall|k: int| from <= k < e ==> s[k] != c,
        s[e] == c,
    ensures
        find_from(s, from, c) == e,
    decreases e - from,
{
    if from < e {
        lemma_find_to(s, from + 1, e, c);
    }
}

/// Scanning number characters from `from` stops exactly at `e` when
/// everything before `e` is a number character and `e` is not (or is the
/// end).
proof fn lemma_scan_to(s: Seq<char>, from: int, e: int)
    requires
        0 <= from <= e <= s.len(),
        forall|k: int| from <= k < e ==> is_num_char(s[k]),
        e == s.len() || !is_num_char(s[e]),
    ensures
        scan_num(s, from) == e,
    decreases e - from,
{
    if from < e {
        lemma_scan_to(s, from + 1, e);
    }
}

/// The first character of a plain rendering: never whitespace, never a
/// closing bracket, never a comma, and it picks the right production.
proof fn lemma_render_head(v: JsonView, sc: SchemeView, pad: Seq<char>)
    requires
        wf(v),
        plain_scheme(sc),
    ensures
        render_v(v, sc, pad).len() > 0,
        !is_ws(render_v(v, sc, pad)[0]),
        render_v(v, sc, pad)[0] != '}',
        render_v(v, sc, pad)[0] != ']',
        render_v(v, sc, pad)[0] != ',',
        v is Object ==> render_v(v, sc, pad)[0] == '{',
        v is Array ==> render_v(v, sc, pad)[0] == '[',
        v is String ==> render_v(v, sc, pad)[0] == '"',
        v is Number ==> (is_digit(render_v(v, sc, pad)[0]) || render_v(v, sc, pad)[0] == '-'),
        v is Boolean ==> (render_v(v, sc, pad)[0] == 't' || render_v(v, sc, pad)[0] == 'f'),
        v is Null ==> render_v(v, sc, pad)[0] == 'n',
{
    let r = render_v(v, sc, pad);
    match v {
        JsonView::Object(ps) => {
            assert(r[0] == '{');
        },
        JsonView::Array(es) => {
            assert(r[0] == '[');
        },
        JsonView::String(t) => {
            assert(r[0] == '"');
        },
        JsonView::Number(t) => {
            assert(crate::numbers::strip_sign(t).len() > 0);
            assert(t.len() > 0);
            assert(r[0] == t[0]);
            assert(!is_ws(t[0]) && t[0] != '}' && t[0] != ']' && t[0] != ',');
        },
        JsonView::Boolean(b) => {
            if b {
                assert(r[0] == 't');
            } else {
                assert(r[0] == 'f');
            }
        },
        JsonView::Null => {
            assert(r[0] == 'n');
        },
    }
}

/// Parsing at `i0` inside `s`, where whitespace runs from `i0` to the
/// plain rendering of a well-formed tree, gives back exactly that tree,
/// with the cursor at the end of the rendering. The suffix may be anything
/// that does not extend a number literal.
#[verifier::rlimit(100)]
pub proof fn lemma_parse_render(
    v: JsonView,
    sc: SchemeView,
    pad: Seq<char>,
    pre: Seq<char>,
    suf: Seq<char>,
    s: Seq<char>,
    i0: int,
)
    requires
        wf(v),
        plain_scheme(sc),
        all_spaces(pad),
        s == pre + render_v(v, sc, pad) + suf,
        0 <= i0 <= pre.len(),
        forall|k: int| i0 <= k < pre.len() ==> is_ws(s[k]),
        suf.len() == 0 || !is_num_char(suf[0]),
    ensures
        spec_parse(s, i0) == (
            Ok::<JsonView, ParseError>(v),
            pre.len() + render_v(v, sc, pad).len() as int,
        ),
    decreases v, 0int, 0int,
{
    let r = render_v(v, sc, pad);
    let b = pre.len() as int;
    lemma_render_head(v, sc, pad);
    assert(s[b] == r[0]);
    lemma_skip_to(s, i0, b);
    assert(skip_ws(s, i0) == b);
    match v {
        JsonView::String(t) => {
            let n = t.len() as int;
            assert(r =~= seq!['"'] + t + seq!['"']);
            assert(r.len() == n + 2);
            assert forall|k: int| b + 1 <= k < b + 1 + n implies s[k] != '"' by {
                assert(s[k] == t[k - (b + 1)]);
            }
            assert(s[b + 1 + n] == '"');
            lemma_find_to(s, b + 1, b + 1 + n, '"');
            assert(s.subrange(b + 1, b + 1 + n) =~= t);
            assert(spec_parse_string(s, b) == (
                Ok::<JsonView, ParseError>(JsonView::String(t)),
                b + n + 2,
            ));
        },
        JsonView::Number(t) => {
            let n = t.len() as int;
            assert(r =~= t);
            assert forall|k: int| b <= k < b + n implies is_num_char(s[k]) by {
                assert(s[k] == t[k - b]);
                let u = crate::numbers::strip_sign(t);
                if t[0] == '-' {
                    if k > b {
                        assert(u[k - b - 1] == t[k - b]);
                        assert(is_digit(u[k - b - 1]) || u[k - b - 1] == '.');
                    }
                } else {
                    assert(u[k - b] == t[k - b]);
                    assert(is_digit(u[k - b]) || u[k - b] == '.');
                }
            }
            assert(b + n == s.len() - suf.len());
            if suf.len() == 0 {
                lemma_scan_to(s, b, b + n);
            } else {
                assert(s[b + n] == suf[0]);
                lemma_scan_to(s, b, b + n);
            }
            assert(s.subrange(b, b + n) =~= t);
            assert(spec_parse_number(s, b) == (
                Ok::<JsonView, ParseError>(JsonView::Number(t)),
                b + n,
            ));
        },
        JsonView::Boolean(bv) => {
            if bv {
                assert(r =~= seq!['t', 'r', 'u', 'e']);
                assert(s.subrange(b, b + 4) =~= seq!['t', 'r', 'u', 'e']);
                assert(has_prefix(s, b, seq!['t', 'r', 'u', 'e']));
            } else {
                assert(r =~= seq!['f', 'a', 'l', 's', 'e']);
                assert(s.subrange(b, b + 5) =~= seq!['f', 'a', 'l', 's', 'e']);
                assert(has_prefix(s, b, seq!['f', 'a', 'l', 's', 'e']));
                assert(!has_prefix(s, b, seq!['t', 'r', 'u', 'e'])) by {
                    if has_prefix(s, b, seq!['t', 'r', 'u', 'e']) {
                        assert(s.subrange(b, b + 4)[0] == 't');
                    }
                }
            }
        },
        JsonView::Null => {
            assert(r =~= seq!['n', 'u', 'l', 'l']);
            assert(s.subrange(b, b + 4) =~= seq!['n', 'u', 'l', 'l']);
            assert(has_prefix(s, b, seq!['n', 'u', 'l', 'l']));
        },
        JsonView::Object(ps) => {
            assert(r =~= seq!['{', '\n'] + render_pairs(ps, sc, pad, 0) + seq!['\n'] + pad + seq![
                '}',
            ]);
            let rp = render_pairs(ps, sc, pad, 0);
            let plen = pad.len() as int;
            if ps.len() == 0 {
                assert(rp =~= Seq::<char>::empty());
                let e = b + 3 + plen;
                assert(s[e] == '}');
                assert forall|k: int| b + 1 <= k < e implies is_ws(s[k]) by {
                    if k == b + 1 || k == b + 2 {
                        assert(is_ws('\n'));
                    } else {
                        assert(s[k] == pad[k - (b + 3)] || s[k] == pad[k - (b + 2)]);
                    }
                }
                lemma_skip_to(s, b + 1, e);
                assert(ps =~= Seq::<(Seq<char>, JsonView)>::empty());
                assert(spec_parse_object(s, b) == (
                    Ok::<JsonView, ParseError>(JsonView::Object(Seq::empty())),
                    e + 1,
                ));
                assert(e + 1 == b + r.len());
            } else {
                let pre_m = pre + seq!['{', '\n'];
                let km = pre_m.len() + plen + 4;
                assert(s =~= pre_m + rp + seq!['\n'] + pad + seq!['}'] + suf);
                lemma_members_render(ps, sc, pad, 0, pre_m, suf, s, Seq::empty());
                assert(s[km] == '"') by {
                    assert(rp[plen + 4] == '"');
                }
                assert forall|k: int| b + 1 <= k < km implies is_ws(s[k]) by {
                    if k >= b + 2 {
                        assert(s[k] == rp[k - (b + 2)]);
                        assert(rp[k - (b + 2)] == deeper(pad)[k - (b + 2)]);
                        if k - (b + 2) < plen {
                            assert(deeper(pad)[k - (b + 2)] == pad[k - (b + 2)]);
                        } else {
                            assert(deeper(pad)[k - (b + 2)] == ' ');
                        }
                    } else {
                        assert(s[k] == '\n');
                    }
                }
                lemma_skip_to(s, b + 1, km);
                assert(Seq::<(Seq<char>, JsonView)>::empty() + ps.skip(0) =~= ps);
                assert(spec_parse_object(s, b) == (
                    Ok::<JsonView, ParseError>(JsonView::Object(ps)),
                    pre_m.len() + rp.len() + 2 + plen,
                ));
                assert(pre_m.len() + rp.len() + 2 + plen == b + r.len());
            }
        },
        JsonView::Array(es) => {
            assert(r =~= seq!['[', '\n'] + render_elems(es, sc, pad, 0) + seq!['\n'] + pad + seq![
                ']',
            ]);
            let re = render_elems(es, sc, pad, 0);
            let plen = pad.len() as int;
            if es.len() == 0 {
                assert(re =~= Seq::<char>::empty());
                let e = b + 3 + plen;
                assert(s[e] == ']');
                assert forall|k: int| b + 1 <= k < e implies is_ws(s[k]) by {
                    if k == b + 1 || k == b + 2 {
                        assert(is_ws('\n'));
                    } else {
                        assert(s[k] == pad[k - (b + 3)] || s[k] == pad[k - (b + 2)]);
                    }
                }
                lemma_skip_to(s, b + 1, e);
                assert(es =~= Seq::<JsonView>::empty());
                assert(spec_parse_array(s, b) == (
                    Ok::<JsonView, ParseError>(JsonView::Array(Seq::empty())),
                    e + 1,
                ));
                assert(e + 1 == b + r.len());
            } else {
                let pre_e = pre + seq!['[', '\n'];
                let vstart = pre_e.len() + plen + 4;
                assert(s =~= pre_e + re + seq!['\n'] + pad + seq![']'] + suf);
                lemma_render_head(es[0], sc, deeper(pad));
                assert(s[vstart] == render_v(es[0], sc, deeper(pad))[0]) by {
                    assert(re[plen + 4] == render_v(es[0], sc, deeper(pad))[0]);
                }
                assert forall|k: int| b + 1 <= k < vstart implies is_ws(s[k]) by {
                    if k >= b + 2 {
                        assert(s[k] == re[k - (b + 2)]);
                        assert(re[k - (b + 2)] == deeper(pad)[k - (b + 2)]);
                        if k - (b + 2) < plen {
                            assert(deeper(pad)[k - (b + 2)] == pad[k - (b + 2)]);
                        } else {
                            assert(deeper(pad)[k - (b + 2)] == ' ');
                        }
                    } else {
                        assert(s[k] == '\n');
                    }
                }
                lemma_skip_to(s, b + 1, vstart);
                assert(s[vstart] != ']');
                lemma_elems_render(es, sc, pad, 0, pre_e, suf, s, Seq::empty(), vstart);
                assert(Seq::<JsonView>::empty() + es.skip(0) =~= es);
                assert(spec_parse_array(s, b) == (
                    Ok::<JsonView, ParseError>(JsonView::Array(es)),
                    pre_e.len() + re.len() + 2 + plen,
                ));
                assert(pre_e.len() + re.len() + 2 + plen == b + r.len());
            }
        },
    }
}

/// Parsing object members against their rendering from entry `i` on: the
/// remaining pairs are read back exactly, and the cursor ends just past
/// the closing `}`.
#[verifier::rlimit(100)]
proof fn lemma_members_render(
    ps: Seq<(Seq<char>, JsonView)>,
    sc: SchemeView,
    pad: Seq<char>,
    i: int,
    pre: Seq<char>,
    suf: Seq<char>,
    s: Seq<char>,
    acc: Seq<(Seq<char>, JsonView)>,
)
    requires
        plain_scheme(sc),
        all_spaces(pad),
        forall|j: int| 0 <= j < ps.len() ==> no_quote((#[trigger] ps[j]).0) && wf(ps[j].1),
        0 <= i < ps.len(),
        s == pre + render_pairs(ps, sc, pad, i) + seq!['\n'] + pad + seq!['}'] + suf,
    ensures
        spec_parse_members(s, pre.len() + pad.len() + 4int, acc) == (
            Ok::<JsonView, ParseError>(JsonView::Object(acc + ps.skip(i))),
            pre.len() + render_pairs(ps, sc, pad, i).len() + 2 + pad.len() as int,
        ),
    decreases ps, ps.len() - i, 0int,
{
    let plen = pad.len() as int;
    let rp = render_pairs(ps, sc, pad, i);
    let key = ps[i].0;
    let n = key.len() as int;
    let rv = render_v(ps[i].1, sc, deeper(pad));
    let flat = deeper(pad) + seq!['"'] + key + seq!['"'] + seq![':', ' '] + rv;
    let entry = deeper(pad) + sc.key + seq!['"'] + ps[i].0 + seq!['"'] + sc.reset + seq![':', ' ']
        + rv;
    assert(entry =~= flat);
    let k = pre.len() + plen + 4;
    let k2 = k + n + 2;
    let vstart = k2 + 2;
    if i == ps.len() - 1 {
        assert(rp == entry);
    } else {
        assert(rp == entry + seq![',', '\n'] + render_pairs(ps, sc, pad, i + 1));
    }
    // the key string
    assert(s[k] == '"') by {
        assert(rp[plen + 4] == '"');
    }
    assert forall|m: int| k + 1 <= m < k + 1 + n implies s[m] != '"' by {
        assert(s[m] == rp[m - pre.len()]);
        assert(rp[m - pre.len()] == key[m - (k + 1)]);
    }
    assert(s[k + 1 + n] == '"') by {
        assert(rp[plen + 4 + n + 1] == '"');
    }
    lemma_find_to(s, k + 1, k + 1 + n, '"');
    assert(s.subrange(k + 1, k + 1 + n) =~= key);
    assert(spec_parse_string(s, k) == (
        Ok::<JsonView, ParseError>(JsonView::String(key)),
        k2,
    ));
    // the colon
    assert(s[k2] == ':') by {
        assert(rp[plen + 4 + n + 2] == ':');
    }
    assert(s[k2 + 1] == ' ') by {
        assert(rp[plen + 4 + n + 3] == ' ');
    }
    lemma_skip_to(s, k2, k2);
    // the value
    let pre_v = pre + (deeper(pad) + seq!['"'] + key + seq!['"'] + seq![':', ' ']);
    let suf_v = if i == ps.len() - 1 {
        seq!['\n'] + pad + seq!['}'] + suf
    } else {
        seq![',', '\n'] + render_pairs(ps, sc, pad, i + 1) + seq!['\n'] + pad + seq!['}'] + suf
    };
    assert(s =~= pre_v + rv + suf_v);
    assert(pre_v.len() == vstart);
    assert(suf_v[0] == '\n' || suf_v[0] == ',');
    lemma_parse_render(ps[i].1, sc, deeper(pad), pre_v, suf_v, s, k2 + 1);
    let p = vstart + rv.len();
    assert(spec_parse(s, k2 + 1) == (Ok::<JsonView, ParseError>(ps[i].1), p));
    if i == ps.len() - 1 {
        // '\n' + pad + '}' closes the object
        let e = p + 1 + plen;
        assert(s[e] == '}') by {
            assert(s =~= pre + rp + seq!['\n'] + pad + seq!['}'] + suf);
        }
        assert forall|m: int| p <= m < e implies is_ws(s[m]) by {
            if m == p {
                assert(s[m] == '\n');
            } else {
                assert(s[m] == pad[m - (p + 1)]);
            }
        }
        lemma_skip_to(s, p, e);
        assert(acc.push(ps[i]) =~= acc + ps.skip(i));
        assert((JsonView::String(key))->String_0 == key);
        assert(spec_parse_members(s, k, acc) == (
            Ok::<JsonView, ParseError>(JsonView::Object(acc.push(ps[i]))),
            e + 1,
        ));
        assert(e + 1 == pre.len() + rp.len() + 2 + plen);
        assert(JsonView::Object(acc.push(ps[i])) == JsonView::Object(acc + ps.skip(i)));
    } else {
        // ',' then the next entry
        assert(s[p] == ',') by {
            assert(rp[entry.len() as int] == ',');
        }
        assert(s[p + 1] == '\n') by {
            assert(rp[entry.len() + 1int] == '\n');
        }
        lemma_skip_to(s, p, p);
        let pre2 = pre + entry + seq![',', '\n'];
        let k_next = pre2.len() + plen + 4;
        assert(s =~= pre2 + render_pairs(ps, sc, pad, i + 1) + seq!['\n'] + pad + seq!['}'] + suf);
        lemma_members_render(ps, sc, pad, i + 1, pre2, suf, s, acc.push(ps[i]));
        assert(s[k_next] == '"') by {
            assert(render_pairs(ps, sc, pad, i + 1)[plen + 4] == '"');
        }
        assert forall|m: int| p + 2 <= m < k_next implies is_ws(s[m]) by {
            assert(s[m] == render_pairs(ps, sc, pad, i + 1)[m - pre2.len()]);
            assert(render_pairs(ps, sc, pad, i + 1)[m - pre2.len()] == deeper(pad)[m
                - pre2.len()]);
            if m - pre2.len() < plen {
                assert(deeper(pad)[m - pre2.len()] == pad[m - pre2.len()]);
            } else {
                assert(deeper(pad)[m - pre2.len()] == ' ');
            }
        }
        lemma_skip_to(s, p + 1, k_next);
        assert(acc.push(ps[i]) + ps.skip(i + 1) =~= acc + ps.skip(i));
        assert((JsonView::String(key))->String_0 == key);
        assert(spec_parse_members(s, k, acc) == spec_parse_members(s, k_next, acc.push(ps[i])));
        assert(JsonView::Object(acc.push(ps[i]) + ps.skip(i + 1)) == JsonView::Object(
            acc + ps.skip(i),
        ));
        assert(pre2.len() + render_pairs(ps, sc, pad, i + 1).len() + 2 + plen == pre.len()
            + rp.len() + 2 + plen);
    }
}

/// Parsing array elements against their rendering from element `i` on:
/// the remaining elements are read back exactly, and the cursor ends just
/// past the closing `]`. `k` may sit anywhere in the whitespace before
/// the element.
#[verifier::rlimit(100)]
proof fn lemma_elems_render(
    es: Seq<JsonView>,
    sc: SchemeView,
    pad: Seq<char>,
    i: int,
    pre: Seq<char>,
    suf: Seq<char>,
    s: Seq<char>,
    acc: Seq<JsonView>,
    k: int,
)
    requires
        plain_scheme(sc),
        all_spaces(pad),
        forall|j: int| 0 <= j < es.len() ==> wf(#[trigger] es[j]),
        0 <= i < es.len(),
        s == pre + render_elems(es, sc, pad, i) + seq!['\n'] + pad + seq![']'] + suf,
        0 <= k <= pre.len() + pad.len() + 4,
        forall|m: int| k <= m < pre.len() + pad.len() + 4 ==> is_ws(s[m]),
    ensures
        spec_parse_elements(s, k, acc) == (
            Ok::<JsonView, ParseError>(JsonView::Array(acc + es.skip(i))),
            pre.len() + render_elems(es, sc, pad, i).len() + 2 + pad.len() as int,
        ),
    decreases es, es.len() - i, 0int,
{
    let plen = pad.len() as int;
    let re = render_elems(es, sc, pad, i);
    let rv = render_v(es[i], sc, deeper(pad));
    let entry = deeper(pad) + rv;
    let vstart = pre.len() + plen + 4;
    if i == es.len() - 1 {
        assert(re == entry);
    } else {
        assert(re == entry + seq![',', '\n'] + render_elems(es, sc, pad, i + 1));
    }
    // the value
    let pre_v = pre + deeper(pad);
    let suf_v = if i == es.len() - 1 {
        seq!['\n'] + pad + seq![']'] + suf
    } else {
        seq![',', '\n'] + render_elems(es, sc, pad, i + 1) + seq!['\n'] + pad + seq![']'] + suf
    };
    assert(s =~= pre_v + rv + suf_v);
    assert(pre_v.len() == vstart);
    assert(suf_v[0] == '\n' || suf_v[0] == ',');
    lemma_parse_render(es[i], sc, deeper(pad), pre_v, suf_v, s, k);
    let p = vstart + rv.len();
    assert(spec_parse(s, k) == (Ok::<JsonView, ParseError>(es[i]), p));
    lemma_spec_parse_pos(s, k);
    assert(k < p <= s.len());
    if i == es.len() - 1 {
        let e = p + 1 + plen;
        assert(s[e] == ']') by {
            assert(s =~= pre + re + seq!['\n'] + pad + seq![']'] + suf);
        }
        assert forall|m: int| p <= m < e implies is_ws(s[m]) by {
            if m == p {
                assert(s[m] == '\n');
            } else {
                assert(s[m] == pad[m - (p + 1)]);
            }
        }
        lemma_skip_to(s, p, e);
        assert(acc.push(es[i]) =~= acc + es.skip(i));
        assert(spec_parse_elements(s, k, acc) == (
            Ok::<JsonView, ParseError>(JsonView::Array(acc.push(es[i]))),
            e + 1,
        ));
        assert(e + 1 == pre.len() + re.len() + 2 + plen);
        assert(JsonView::Array(acc.push(es[i])) == JsonView::Array(acc + es.skip(i)));
    } else {
        assert(s[p] == ',') by {
            assert(re[entry.len() as int] == ',');
        }
        assert(s[p + 1] == '\n') by {
            assert(re[entry.len() + 1int] == '\n');
        }
        lemma_skip_to(s, p, p);
        let pre2 = pre + entry + seq![',', '\n'];
        let vstart2 = pre2.len() + plen + 4;
        assert(s =~= pre2 + render_elems(es, sc, pad, i + 1) + seq!['\n'] + pad + seq![']'] + suf);
        assert forall|m: int| p + 1 <= m < vstart2 implies is_ws(s[m]) by {
            if m == p + 1 {
                assert(s[m] == '\n');
            } else {
                assert(s[m] == render_elems(es, sc, pad, i + 1)[m - pre2.len()]);
                assert(render_elems(es, sc, pad, i + 1)[m - pre2.len()] == deeper(pad)[m
                    - pre2.len()]);
                if m - pre2.len() < plen {
                    assert(deeper(pad)[m - pre2.len()] == pad[m - pre2.len()]);
                } else {
                    assert(deeper(pad)[m - pre2.len()] == ' ');
                }
            }
        }
        lemma_elems_render(es, sc, pad, i + 1, pre2, suf, s, acc.push(es[i]), p + 1);
        assert(acc.push(es[i]) + es.skip(i + 1) =~= acc + es.skip(i));
        assert(spec_parse_elements(s, k, acc) == spec_parse_elements(s, p + 1, acc.push(es[i])));
        assert(JsonView::Array(acc.push(es[i]) + es.skip(i + 1)) == JsonView::Array(
            acc + es.skip(i),
        ));
        assert(pre2.len() + render_elems(es, sc, pad, i + 1).len() + 2 + plen == pre.len()
            + re.len() + 2 + plen);
    }
}

/// Every tree a parse returns is well-formed: its strings and keys hold
/// no `"`, and its number literals are valid and start with a digit or
/// `-`.
pub proof fn lemma_spec_parse_wf(s: Seq<char>, i: int)
    requires
        0 <= i <= s.len(),
    ensures
        spec_parse(s, i).0 matches Ok(v) ==> wf(v),
    decreases s.len() - i, 1int,
{
    crate::grammar::lemma_skip_ws(s, i);
    let j = skip_ws(s, i);
    if j < s.len() {
        if s[j] == '{' {
            lemma_spec_parse_object_wf(s, j);
        } else if s[j] == '[' {
            lemma_spec_parse_array_wf(s, j);
        } else if s[j] == '"' {
            lemma_spec_parse_string_wf(s, j);
        } else if is_digit(s[j]) || s[j] == '-' {
            crate::grammar::lemma_scan_num(s, j);
            let e = scan_num(s, j);
            let tok = s.subrange(j, e);
            if valid_number(tok) {
                assert(crate::numbers::strip_sign(tok).len() > 0);
                assert(tok.len() > 0);
                assert(tok[0] == s[j]);
            }
        }
    }
}

/// A parsed string literal holds no `"`.
proof fn lemma_spec_parse_string_wf(s: Seq<char>, j: int)
    requires
        0 <= j <= s.len(),
    ensures
        spec_parse_string(s, j).0 matches Ok(v) ==> wf(v),
{
    if j < s.len() {
        crate::text::lemma_find_from(s, j + 1, '"');
    }
}

/// A parsed object is well-formed.
proof fn lemma_spec_parse_object_wf(s: Seq<char>, j: int)
    requires
        0 <= j <= s.len(),
    ensures
        spec_parse_object(s, j).0 matches Ok(v) ==> wf(v),
    decreases s.len() - j, 0int,
{
    if j < s.len() {
        crate::grammar::lemma_skip_ws(s, j + 1);
        let k = skip_ws(s, j + 1);
        if k < s.len() && s[k] == '}' {
            assert(wf(JsonView::Object(Seq::empty())));
        } else {
            lemma_spec_parse_members_wf(s, k, Seq::empty());
        }
    }
}

/// Parsed object members extend a well-formed pair list into a
/// well-formed object.
proof fn lemma_spec_parse_members_wf(s: Seq<char>, k: int, acc: Seq<(Seq<char>, JsonView)>)
    requires
        0 <= k <= s.len(),
        forall|j: int| 0 <= j < acc.len() ==> no_quote((#[trigger] acc[j]).0) && wf(acc[j].1),
    ensures
        spec_parse_members(s, k, acc).0 matches Ok(v) ==> wf(v),
    decreases s.len() - k, 2int,
{
    if k == s.len() || s[k] != '"' {
    } else {
        crate::grammar::lemma_spec_parse_string_pos(s, k);
        crate::text::lemma_find_from(s, k + 1, '"');
        let (kr, k2) = spec_parse_string(s, k);
        if kr is Ok {
            let key = kr->Ok_0->String_0;
            assert(no_quote(key));
            crate::grammar::lemma_skip_ws(s, k2);
            let c1 = skip_ws(s, k2);
            if c1 < s.len() && s[c1] == ':' {
                lemma_spec_parse_pos(s, c1 + 1);
                lemma_spec_parse_wf(s, c1 + 1);
                let (vr, p) = spec_parse(s, c1 + 1);
                if vr is Ok && c1 < p <= s.len() {
                    let acc2 = acc.push((key, vr->Ok_0));
                    assert(forall|j: int|
                        0 <= j < acc2.len() ==> no_quote((#[trigger] acc2[j]).0) && wf(
                            acc2[j].1,
                        ));
                    crate::grammar::lemma_skip_ws(s, p);
                    let q = skip_ws(s, p);
                    if q < s.len() && s[q] == ',' {
                        crate::grammar::lemma_skip_ws(s, q + 1);
                        lemma_spec_parse_members_wf(s, skip_ws(s, q + 1), acc2);
                    } else if q < s.len() && s[q] == '}' {
                        assert(wf(JsonView::Object(acc2)));
                    }
                }
            }
        }
    }
}

/// A parsed array is well-formed.
proof fn lemma_spec_parse_array_wf(s: Seq<char>, j: int)
    requires
        0 <= j <= s.len(),
    ensures
        spec_parse_array(s, j).0 matches Ok(v) ==> wf(v),
    decreases s.len() - j, 0int,
{
    if j < s.len() {
        crate::grammar::lemma_skip_ws(s, j + 1);
        let k = skip_ws(s, j + 1);
        if k < s.len() && s[k] == ']' {
            assert(wf(JsonView::Array(Seq::empty())));
        } else {
            lemma_spec_parse_elements_wf(s, k, Seq::empty());
        }
    }
}

/// Parsed array elements extend a well-formed element list into a
/// well-formed array.
proof fn lemma_spec_parse_elements_wf(s: Seq<char>, k: int, acc: Seq<JsonView>)
    requires
        0 <= k <= s.len(),
        forall|j: int| 0 <= j < acc.len() ==> wf(#[trigger] acc[j]),
    ensures
        spec_parse_elements(s, k, acc).0 matches Ok(v) ==> wf(v),
    decreases s.len() - k, 2int,
{
    lemma_spec_parse_pos(s, k);
    lemma_spec_parse_wf(s, k);
    let (vr, p) = spec_parse(s, k);
    if vr is Ok && k < p <= s.len() {
        let acc2 = acc.push(vr->Ok_0);
        assert(forall|j: int| 0 <= j < acc2.len() ==> wf(#[trigger] acc2[j]));
        crate::grammar::lemma_skip_ws(s, p);
        let q = skip_ws(s, p);
        if q < s.len() && s[q] == ',' {
            lemma_spec_parse_elements_wf(s, q + 1, acc2);
        } else if q < s.len() && s[q] == ']' {
            assert(wf(JsonView::Array(acc2)));
        }
    }
}

/// Round trip: parsing the plain rendering of any well-formed tree gives
/// back exactly that tree, consuming the whole text.
pub proof fn lemma_render_parse_round_trip(v: JsonView, sc: SchemeView)
    requires
        wf(v),
        plain_scheme(sc),
    ensures
        spec_parse(render_v(v, sc, Seq::empty()), 0) == (
            Ok::<JsonView, ParseError>(v),
            render_v(v, sc, Seq::empty()).len() as int,
        ),
{
    let r = render_v(v, sc, Seq::empty());
    assert(r =~= Seq::<char>::empty() + r + Seq::<char>::empty());
    lemma_parse_render(
        v,
        sc,
        Seq::empty(),
        Seq::empty(),
        Seq::empty(),
        Seq::empty() + r + Seq::empty(),
        0,
    );
}

/// Round trip from text: whatever tree a parse of any text returns,
/// rendering that tree plain and parsing the rendering gives the same
/// tree back.
pub proof fn lemma_parsed_tree_round_trips(s: Seq<char>, i: int, sc: SchemeView)
    requires
        0 <= i <= s.len(),
        plain_scheme(sc),
        spec_parse(s, i).0 is Ok,
    ensures
        spec_parse(render_v(spec_parse(s, i).0->Ok_0, sc, Seq::empty()), 0) == (
            spec_parse(s, i).0,
            render_v(spec_parse(s, i).0->Ok_0, sc, Seq::empty()).len() as int,
        ),
{
    lemma_spec_parse_wf(s, i);
    lemma_render_parse_round_trip(spec_parse(s, i).0->Ok_0, sc);
}

} // verus!
