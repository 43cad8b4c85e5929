//! The renderer: turns a tree back into indented text, four spaces per
//! nesting level, with a color code around each token class. A scheme with
//! empty codes renders plain text.

use vstd::prelude::*;
use crate::value::{JsonValue, JsonView, pairs_view, elems_view, lemma_object_view,
    lemma_array_view};

verus! {

/// The color codes put around each token class. Empty codes mean plain
/// text.
pub struct ColorScheme {
    pub reset: String,
    pub key: String,
    pub string: String,
    pub number: String,
    pub boolean: String,
    pub null: String,
    pub bracket: String,
}

/// The mathematical view of a [`ColorScheme`].
pub struct SchemeView {
    pub reset: Seq<char>,
    pub key: Seq<char>,
    pub string: Seq<char>,
    pub number: Seq<char>,
    pub boolean: Seq<char>,
    pub null: Seq<char>,
    pub bracket: Seq<char>,
}

impl View for ColorScheme {
    type V = SchemeView;

    open spec fn view(&self) -> SchemeView {
        SchemeView {
            reset: self.reset@,
            key: self.key@,
            string: self.string@,
            number: self.number@,
            boolean: self.boolean@,
            null: self.null@,
            bracket: self.bracket@,
        }
    }
}

/// A scheme whose codes are all empty: plain text.
pub open spec fn plain_scheme(sc: SchemeView) -> bool {
    sc.reset.len() == 0 && sc.key.len() == 0 && sc.string.len() == 0 && sc.number.len() == 0
        && sc.boolean.len() == 0 && sc.null.len() == 0 && sc.bracket.len() == 0
}

impl ColorScheme {
    /// The scheme with no codes at all: renders plain text.
    pub fn plain() -> (r: ColorScheme)
        ensures
            plain_scheme(r@),
    {
        ColorScheme {
            reset: String::new(),
            key: String::new(),
            string: String::new(),
            number: String::new(),
            boolean: String::new(),
            null: String::new(),
            bracket: String::new(),
        }
    }

    /// The terminal color codes: green keys, yellow strings, blue numbers,
    /// magenta booleans, red null, cyan brackets.
    pub fn ansi() -> (r: ColorScheme)
        ensures
            r@.reset == "\u{1b}[0m"@,
            r@.key == "\u{1b}[32m"@,
            r@.string == "\u{1b}[33m"@,
            r@.number == "\u{1b}[34m"@,
            r@.boolean == "\u{1b}[35m"@,
            r@.null == "\u{1b}[31m"@,
            r@.bracket == "\u{1b}[36m"@,
    {
        ColorScheme {
            reset: String::from_str("\u{1b}[0m"),
            key: String::from_str("\u{1b}[32m"),
            string: String::from_str("\u{1b}[33m"),
            number: String::from_str("\u{1b}[34m"),
            boolean: String::from_str("\u{1b}[35m"),
            null: String::from_str("\u{1b}[31m"),
            bracket: String::from_str("\u{1b}[36m"),
        }
    }
}

/// Four more spaces than `pad`: the padding one nesting level deeper.
pub open spec fn deeper(pad: Seq<char>) -> Seq<char> {
    pad + seq![' ', ' ', ' ', ' ']
}

/// The text a tree renders to, under scheme `sc`, at nesting padding
/// `pad`.
pub open spec fn render_v(v: JsonView, sc: SchemeView, pad: Seq<char>) -> Seq<char>
    decreases v, 0int,
{
    match v {
        JsonView::Object(ps) => sc.bracket + seq!['{', '\n'] + render_pairs(ps, sc, pad, 0) + seq![
            '\n',
        ] + pad + sc.bracket + seq!['}'] + sc.bracket + sc.reset,
        JsonView::Array(es) => sc.bracket + seq!['[', '\n'] + render_elems(es, sc, pad, 0) + seq![
            '\n',
        ] + pad + sc.reset + sc.bracket + seq![']'] + sc.reset,
        JsonView::String(str) => sc.string + seq!['"'] + str + seq!['"'] + sc.reset,
        JsonView::Number(t) => sc.number + t + sc.reset,
        JsonView::Boolean(b) => sc.boolean + (if b {
            seq!['t', 'r', 'u', 'e']
        } else {
            seq!['f', 'a', 'l', 's', 'e']
        }) + sc.reset,
        JsonView::Null => sc.null + seq!['n', 'u', 'l', 'l'] + sc.reset,
    }
}

/// The object entries from `i` on, each on its own line one level deeper,
/// joined with `,` and a line break.
pub open spec fn render_pairs(
    ps: Seq<(Seq<char>, JsonView)>,
    sc: SchemeView,
    pad: Seq<char>,
    i: int,
) -> Seq<char>
    decreases ps, ps.len() - i, 1int,
{
    if i < 0 || i >= ps.len() {
        Seq::empty()
    } else {
        let entry = deeper(pad) + sc.key + seq!['"'] + ps[i].0 + seq!['"'] + sc.reset + seq![
            ':',
            ' ',
        ] + render_v(ps[i].1, sc, deeper(pad));
        if i == ps.len() - 1 {
            entry
        } else {
            entry + seq![',', '\n'] + render_pairs(ps, sc, pad, i + 1)
        }
    }
}

/// The array elements from `i` on, each on its own line one level deeper,
/// joined with `,` and a line break.
pub open spec fn render_elems(es: Seq<JsonView>, sc: SchemeView, pad: Seq<char>, i: int) -> Seq<
    char,
>
    decreases es, es.len() - i, 1int,
{
    if i < 0 || i >= es.len() {
        Seq::empty()
    } else {
        let entry = deeper(pad) + render_v(es[i], sc, deeper(pad));
        if i == es.len() - 1 {
            entry
        } else {
            entry + seq![',', '\n'] + render_elems(es, sc, pad, i + 1)
        }
    }
}

/// Appends the rendering of `v` to `out`.
#[verifier::loop_isolation(false)]
fn render_into(v: &JsonValue, sc: &ColorScheme, pad: &String, out: &mut String)
    ensures
        final(out)@ == old(out)@ + render_v(v@, sc@, pad@),
    decreases *v,
{
    match v {
        JsonValue::Object(pa) => {
            proof {
                lemma_object_view(*pa);
                assert(decreases_to!(*v => (*v)->Object_0));
                assert(*pa == (*v)->Object_0);
            }
            render_object_into(pa, sc, pad, out);
            proof {
                assert(out@ =~= old(out)@ + render_v(v@, sc@, pad@));
            }
        },
        JsonValue::Array(ea) => {
            proof {
                lemma_array_view(*ea);
                assert(decreases_to!(*v => (*v)->Array_0));
                assert(*ea == (*v)->Array_0);
            }
            render_array_into(ea, sc, pad, out);
            proof {
                assert(out@ =~= old(out)@ + render_v(v@, sc@, pad@));
            }
        },
        JsonValue::String(str) => {
            proof {
                reveal_strlit("\"");
            }
            out.append(sc.string.as_str());
            out.append("\"");
            out.append(str.as_str());
            out.append("\"");
            out.append(sc.reset.as_str());
            proof {
                assert(out@ =~= old(out)@ + render_v(v@, sc@, pad@));
            }
        },
        JsonValue::Number(t) => {
            out.append(sc.number.as_str());
            out.append(t.as_str());
            out.append(sc.reset.as_str());
            proof {
                assert(out@ =~= old(out)@ + render_v(v@, sc@, pad@));
            }
        },
        JsonValue::Boolean(b) => {
            out.append(sc.boolean.as_str());
            if *b {
                proof {
                    reveal_strlit("true");
                }
                out.append("true");
                proof {
                    assert("true"@ =~= seq!['t', 'r', 'u', 'e']);
                }
            } else {
                proof {
                    reveal_strlit("false");
                }
                out.append("false");
                proof {
                    assert("false"@ =~= seq!['f', 'a', 'l', 's', 'e']);
                }
            }
            out.append(sc.reset.as_str());
            proof {
                assert(out@ =~= old(out)@ + render_v(v@, sc@, pad@));
            }
        },
        JsonValue::Null => {
            proof {
                reveal_strlit("null");
            }
            out.append(sc.null.as_str());
            out.append("null");
            out.append(sc.reset.as_str());
            proof {
                assert("null"@ =~= seq!['n', 'u', 'l', 'l']);
                assert(out@ =~= old(out)@ + render_v(v@, sc@, pad@));
            }
        },
    }
}

/// Appends the rendering of an object with pairs `pa` to `out`.
#[verifier::loop_isolation(false)]
#[verifier::rlimit(100)]
fn render_object_into(
    pa: &Vec<(String, JsonValue)>,
    sc: &ColorScheme,
    pad: &String,
    out: &mut String,
)
    ensures
        final(out)@ == old(out)@ + render_v(JsonView::Object(pairs_view(pa@)), sc@, pad@),
    decreases *pa,
{
    proof {
        reveal_strlit("{");
        reveal_strlit("}");
        reveal_strlit("\n");
        reveal_strlit("\"");
        reveal_strlit(": ");
        reveal_strlit(",\n");
        reveal_strlit("    ");
    }
    let ghost ps = pairs_view(pa@);
    let mut pad4 = pad.clone();
    pad4.append("    ");
    proof {
        assert(pad4@ =~= deeper(pad@));
    }
    out.append(sc.bracket.as_str());
    out.append("{");
    out.append("\n");
    let ghost head = out@;
    proof {
        assert(head =~= old(out)@ + sc@.bracket + seq!['{', '\n']);
    }
    let mut i: usize = 0;
    while i < pa.len()
        invariant
            i <= pa@.len(),
            pad4@ == deeper(pad@),
            i == 0 ==> out@ == head,
            i > 0 ==> out@ + (if i < pa@.len() {
                seq![',', '\n'] + render_pairs(ps, sc@, pad@, i as int)
            } else {
                Seq::<char>::empty()
            }) =~= head + render_pairs(ps, sc@, pad@, 0),
        decreases pa@.len() - i,
    {
        let ghost before = out@;
        if i > 0 {
            out.append(",\n");
        }
        out.append(pad4.as_str());
        out.append(sc.key.as_str());
        out.append("\"");
        out.append(pa[i].0.as_str());
        out.append("\"");
        out.append(sc.reset.as_str());
        out.append(": ");
        proof {
            assert(decreases_to!(*pa => pa@));
            assert(decreases_to!(pa@ => pa@[i as int]));
            assert(decreases_to!(pa@[i as int] => pa@[i as int].1));
            assert(decreases_to!(*pa => pa@[i as int].1));
        }
        render_into(&pa[i].1, sc, &pad4, out);
        proof {
            let entry = deeper(pad@) + sc@.key + seq!['\"'] + ps[i as int].0 + seq!['\"']
                + sc@.reset + seq![':', ' '] + render_v(ps[i as int].1, sc@, deeper(pad@));
            if i > 0 {
                assert(out@ =~= before + seq![',', '\n'] + entry);
            } else {
                assert(out@ =~= before + entry);
            }
        }
        i = i + 1;
    }
    let ghost body_done = out@;
    out.append("\n");
    out.append(pad.as_str());
    out.append(sc.bracket.as_str());
    out.append("}");
    out.append(sc.bracket.as_str());
    out.append(sc.reset.as_str());
    proof {
        assert(body_done =~= head + render_pairs(ps, sc@, pad@, 0));
        assert(out@ =~= old(out)@ + render_v(JsonView::Object(ps), sc@, pad@));
    }
}

/// Appends the rendering of an array with elements `ea` to `out`.
#[verifier::loop_isolation(false)]
#[verifier::rlimit(100)]
fn render_array_into(ea: &Vec<JsonValue>, sc: &ColorScheme, pad: &String, out: &mut String)
    ensures
        final(out)@ == old(out)@ + render_v(JsonView::Array(elems_view(ea@)), sc@, pad@),
    decreases *ea,
{
    proof {
        reveal_strlit("[");
        reveal_strlit("]");
        reveal_strlit("\n");
        reveal_strlit(",\n");
        reveal_strlit("    ");
    }
    let ghost es = elems_view(ea@);
    let mut pad4 = pad.clone();
    pad4.append("    ");
    proof {
        assert(pad4@ =~= deeper(pad@));
    }
    out.append(sc.bracket.as_str());
    out.append("[");
    out.append("\n");
    let ghost head = out@;
    proof {
        assert(head =~= old(out)@ + sc@.bracket + seq!['[', '\n']);
    }
    let mut i: usize = 0;
    while i < ea.len()
        invariant
            i <= ea@.len(),
            pad4@ == deeper(pad@),
            i == 0 ==> out@ == head,
            i > 0 ==> out@ + (if i < ea@.len() {
                seq![',', '\n'] + render_elems(es, sc@, pad@, i as int)
            } else {
                Seq::<char>::empty()
            }) =~= head + render_elems(es, sc@, pad@, 0),
        decreases ea@.len() - i,
    {
        let ghost before = out@;
        if i > 0 {
            out.append(",\n");
        }
        out.append(pad4.as_str());
        proof {
            assert(decreases_to!(*ea => ea@));
            assert(decreases_to!(ea@ => ea@[i as int]));
            assert(decreases_to!(*ea => ea@[i as int]));
        }
        render_into(&ea[i], sc, &pad4, out);
        proof {
            let entry = deeper(pad@) + render_v(es[i as int], sc@, deeper(pad@));
            if i > 0 {
                assert(out@ =~= before + seq![',', '\n'] + entry);
            } else {
                assert(out@ =~= before + entry);
            }
        }
        i = i + 1;
    }
    let ghost body_done = out@;
    out.append("\n");
    out.append(pad.as_str());
    out.append(sc.reset.as_str());
    out.append(sc.bracket.as_str());
    out.append("]");
    out.append(sc.reset.as_str());
    proof {
        assert(body_done =~= head + render_elems(es, sc@, pad@, 0));
        assert(out@ =~= old(out)@ + render_v(JsonView::Array(es), sc@, pad@));
    }
}

impl JsonValue {
    /// Renders the tree as indented text under the given color scheme.
    pub fn render(&self, scheme: &ColorScheme) -> (r: String)
        ensures
            r@ == render_v(self@, scheme@, Seq::empty()),
    {
        let mut out = String::new();
        let pad = String::new();
        render_into(self, scheme, &pad, &mut out);
        proof {
            assert(out@ =~= render_v(self@, scheme@, Seq::empty()));
        }
        out
    }
}

} // verus!
