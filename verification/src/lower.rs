//! Lowercasing a tree, used to make the deep search case-insensitive on
//! string values. Only `String` leaves change; object keys are kept as they
//! are.

use vstd::prelude::*;
use crate::value::{JsonValue, JsonView, pairs_view, elems_view, lemma_object_view,
    lemma_array_view};

verus! {

/// The lowercase form of a piece of text, as `str::to_lowercase` computes
/// it. The form depends on the characters alone.
pub uninterp spec fn lower_of(s: Seq<char>) -> Seq<char>;

/// Relies on `str::to_lowercase`: returns the lowercase equivalent of the
/// string, a function of its characters alone.
#[verifier::external_body]
fn lowercase_str(s: &String) -> (r: String)
    ensures
        r@ == lower_of(s@),
{
    s.to_lowercase()
}

/// The tree with every string value lowercased: object keys, numbers,
/// booleans and null are kept as they are.
pub open spec fn lower_view(v: JsonView) -> JsonView
    decreases v,
{
    match v {
        JsonView::Object(ps) => JsonView::Object(
            Seq::new(
                ps.len(),
                |i: int|
                    if 0 <= i < ps.len() {
                        (ps[i].0, lower_view(ps[i].1))
                    } else {
                        (Seq::empty(), JsonView::Null)
                    },
            ),
        ),
        JsonView::Array(es) => JsonView::Array(
            Seq::new(
                es.len(),
                |i: int| if 0 <= i < es.len() { lower_view(es[i]) } else { JsonView::Null },
            ),
        ),
        JsonView::String(s) => JsonView::String(lower_of(s)),
        JsonView::Number(t) => JsonView::Number(t),
        JsonView::Boolean(b) => JsonView::Boolean(b),
        JsonView::Null => JsonView::Null,
    }
}

impl JsonValue {
    /// Builds a new tree in which every string value is lowercased; keys and
    /// the other leaves are kept unchanged.
    #[verifier::loop_isolation(false)]
    pub fn to_lowercase(&self) -> (r: JsonValue)
        ensures
            r@ == lower_view(self@),
        decreases *self,
    {
        match self {
            JsonValue::Object(pa) => {
                proof {
                    lemma_object_view(*pa);
                }
                let mut out: Vec<(String, JsonValue)> = Vec::new();
                let mut i: usize = 0;
                while i < pa.len()
                    invariant
                        i <= pa@.len(),
                        out@.len() == i,
                        forall|j: int|
                            0 <= j < i ==> #[trigger] pairs_view(out@)[j] == (
                                pairs_view(pa@)[j].0,
                                lower_view(pairs_view(pa@)[j].1),
                            ),
                    decreases pa@.len() - i,
                {
                    proof {
                        assert(*pa == (*self)->Object_0);
                        assert(decreases_to!(*self => (*self)->Object_0));
                        assert(decreases_to!(*pa => pa@));
                        assert(decreases_to!(pa@ => pa@[i as int]));
                        assert(decreases_to!(pa@[i as int] => pa@[i as int].1));
                        assert(decreases_to!(*self => pa@[i as int].1));
                    }
                    let low = pa[i].1.to_lowercase();
                    let key = pa[i].0.clone();
                    let ghost prev = out@;
                    out.push((key, low));
                    proof {
                        assert forall|j: int| 0 <= j < i + 1 implies #[trigger] pairs_view(
                            out@,
                        )[j] == (pairs_view(pa@)[j].0, lower_view(pairs_view(pa@)[j].1)) by {
                            if j < i {
                                assert(out@[j] == prev[j]);
                                assert(pairs_view(prev)[j] == (
                                    pairs_view(pa@)[j].0,
                                    lower_view(pairs_view(pa@)[j].1),
                                ));
                            } else {
                                assert(out@[j].0@ == pa@[i as int].0@);
                                assert(out@[j].1@ == lower_view(pa@[i as int].1@));
                            }
                        }
                    }
                    i = i + 1;
                }
                proof {
                    lemma_object_view(out);
                    assert(pairs_view(out@) =~= lower_view(self@)->Object_0);
                }
                JsonValue::Object(out)
            },
            JsonValue::Array(ea) => {
                proof {
                    lemma_array_view(*ea);
                }
                let mut out: Vec<JsonValue> = Vec::new();
                let mut i: usize = 0;
                while i < ea.len()
                    invariant
                        i <= ea@.len(),
                        out@.len() == i,
                        forall|j: int|
                            0 <= j < i ==> #[trigger] elems_view(out@)[j] == lower_view(
                                elems_view(ea@)[j],
                            ),
                    decreases ea@.len() - i,
                {
                    proof {
                        assert(*ea == (*self)->Array_0);
                        assert(decreases_to!(*self => (*self)->Array_0));
                        assert(decreases_to!(*ea => ea@));
                        assert(decreases_to!(ea@ => ea@[i as int]));
                        assert(decreases_to!(*self => ea@[i as int]));
                    }
                    let low = ea[i].to_lowercase();
                    let ghost prev = out@;
                    out.push(low);
                    proof {
                        assert forall|j: int| 0 <= j < i + 1 implies #[trigger] elems_view(
                            out@,
                        )[j] == lower_view(elems_view(ea@)[j]) by {
                            if j < i {
                                assert(out@[j] == prev[j]);
                                assert(elems_view(prev)[j] == lower_view(elems_view(ea@)[j]));
                            } else {
                                assert(out@[j]@ == lower_view(ea@[i as int]@));
                            }
                        }
                    }
                    i = i + 1;
                }
                proof {
                    lemma_array_view(out);
                    assert(elems_view(out@) =~= lower_view(self@)->Array_0);
                }
                JsonValue::Array(out)
            },
            JsonValue::String(s) => JsonValue::String(lowercase_str(s)),
            JsonValue::Number(t) => JsonValue::Number(t.clone()),
            JsonValue::Boolean(b) => JsonValue::Boolean(*b),
            JsonValue::Null => JsonValue::Null,
        }
    }
}

} // verus!
