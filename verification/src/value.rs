//! The value model: the tree type a parsed document becomes, and its
//! mathematical view.

use vstd::prelude::*;

verus! {

broadcast use vstd::std_specs::vec::group_vec_axioms;

/// A parsed JSON document: a closed tagged union.
///
/// An `Object` keeps its pairs in insertion order; keys need not be unique,
/// and lookup takes the first match. A `String` holds the raw text between
/// the quotes, with escape sequences left verbatim. A `Number` holds the
/// literal it was written as: a run of digits with an optional leading `-`
/// and at most one `.` (exponent notation is not part of the grammar).
#[derive(Debug)]
pub enum JsonValue {
    Object(Vec<(String, JsonValue)>),
    Array(Vec<JsonValue>),
    String(String),
    Number(String),
    Boolean(bool),
    Null,
}

/// The mathematical view of a [`JsonValue`]: the same tree over `Seq<char>`.
pub enum JsonView {
    Object(Seq<(Seq<char>, JsonView)>),
    Array(Seq<JsonView>),
    String(Seq<char>),
    Number(Seq<char>),
    Boolean(bool),
    Null,
}

/// The view of a tree, one node at a time.
pub open spec fn view_of(v: JsonValue) -> JsonView
    decreases v,
{
    match v {
        JsonValue::Object(pairs) => JsonView::Object(
            Seq::new(
                pairs@.len(),
                |i: int|
                    if 0 <= i < pairs@.len() {
                        (pairs@[i].0@, view_of(pairs@[i].1))
                    } else {
                        (Seq::empty(), JsonView::Null)
                    },
            ),
        ),
        JsonValue::Array(items) => JsonView::Array(
            Seq::new(
                items@.len(),
                |i: int| if 0 <= i < items@.len() { view_of(items@[i]) } else { JsonView::Null },
            ),
        ),
        JsonValue::String(s) => JsonView::String(s@),
        JsonValue::Number(t) => JsonView::Number(t@),
        JsonValue::Boolean(b) => JsonView::Boolean(b),
        JsonValue::Null => JsonView::Null,
    }
}

impl View for JsonValue {
    type V = JsonView;

    open spec fn view(&self) -> JsonView {
        view_of(*self)
    }
}

/// The view of an object's pair list.
pub open spec fn pairs_view(ps: Seq<(String, JsonValue)>) -> Seq<(Seq<char>, JsonView)> {
    Seq::new(ps.len(), |i: int| (ps[i].0@, ps[i].1@))
}

/// The view of an array's element list.
pub open spec fn elems_view(es: Seq<JsonValue>) -> Seq<JsonView> {
    Seq::new(es.len(), |i: int| es[i]@)
}

/// The view of an object is the object of the pairs' views.
pub proof fn lemma_object_view(ps: Vec<(String, JsonValue)>)
    ensures
        JsonValue::Object(ps)@ == JsonView::Object(pairs_view(ps@)),
{
    let v = JsonValue::Object(ps)@;
    let s = v->Object_0;
    assert(s.len() == ps@.len());
    assert forall|i: int| 0 <= i < ps@.len() implies s[i] == (ps@[i].0@, ps@[i].1@) by {}
    assert(s =~= pairs_view(ps@));
}

/// The view of an array is the array of the elements' views.
pub proof fn lemma_array_view(es: Vec<JsonValue>)
    ensures
        JsonValue::Array(es)@ == JsonView::Array(elems_view(es@)),
{
    let v = JsonValue::Array(es)@;
    let s = v->Array_0;
    assert(s.len() == es@.len());
    assert forall|i: int| 0 <= i < es@.len() implies s[i] == es@[i]@ by {}
    assert(s =~= elems_view(es@));
}

/// Structural equality on value trees: objects and arrays are compared
/// pairwise in order, object keys exactly, strings exactly, booleans and
/// null exactly, and numbers by the decimal value their literals denote.
pub open spec fn val_eq(a: JsonView, b: JsonView) -> bool
    decreases a,
{
    match (a, b) {
        (JsonView::Object(pa), JsonView::Object(pb)) => {
            &&& pa.len() == pb.len()
            &&& forall|i: int| 0 <= i < pa.len() ==> (#[trigger] pa[i]).0 == pb[i].0
            &&& forall|i: int| 0 <= i < pa.len() ==> val_eq((#[trigger] pa[i]).1, pb[i].1)
        },
        (JsonView::Array(ea), JsonView::Array(eb)) => {
            &&& ea.len() == eb.len()
            &&& forall|i: int| 0 <= i < ea.len() ==> val_eq(#[trigger] ea[i], eb[i])
        },
        (JsonView::String(sa), JsonView::String(sb)) => sa == sb,
        (JsonView::Number(na), JsonView::Number(nb)) => crate::numbers::num_eq(na, nb),
        (JsonView::Boolean(ba), JsonView::Boolean(bb)) => ba == bb,
        (JsonView::Null, JsonView::Null) => true,
        _ => false,
    }
}

impl JsonValue {
    /// Decides [`val_eq`] on two trees.
    #[verifier::loop_isolation(false)]
    pub fn equals(&self, other: &JsonValue) -> (r: bool)
        ensures
            r == val_eq(self@, other@),
        decreases *self,
    {
        match self {
            JsonValue::Object(pa) => {
                let pb = match other {
                    JsonValue::Object(pb) => pb,
                    _ => {
                        return false;
                    },
                };
                proof {
                    assert(self@ == JsonView::Object(pairs_view(pa@))) by {
                        lemma_object_view(*pa);
                    }
                    assert(other@ == JsonView::Object(pairs_view(pb@))) by {
                        lemma_object_view(*pb);
                    }
                }
                if pa.len() != pb.len() {
                    return false;
                }
                let mut i: usize = 0;
                while i < pa.len()
                    invariant
                        pa@.len() == pb@.len(),
                        i <= pa@.len(),
                        self@ == JsonView::Object(pairs_view(pa@)),
                        other@ == JsonView::Object(pairs_view(pb@)),
                        forall|j: int|
                            0 <= j < i ==> (#[trigger] pairs_view(pa@)[j]).0 == pairs_view(
                                pb@,
                            )[j].0,
                        forall|j: int|
                            0 <= j < i ==> val_eq(
                                (#[trigger] pairs_view(pa@)[j]).1,
                                pairs_view(pb@)[j].1,
                            ),
                    decreases pa@.len() - i,
                {
                    let ka = &pa[i].0;
                    let kb = &pb[i].0;
                    if !ka.eq(kb) {
                        proof {
                            assert(pairs_view(pa@)[i as int].0 != pairs_view(pb@)[i as int].0);
                        }
                        return false;
                    }
                    proof {
                        assert(*pa == (*self)->Object_0);
                        assert(decreases_to!(*self => (*self)->Object_0));
                        assert(decreases_to!(*pa => pa@));
                        assert(decreases_to!(pa@ => pa@[i as int]));
                        assert(decreases_to!(pa@[i as int] => pa@[i as int].1));
                        assert(decreases_to!(*self => pa@[i as int].1));
                    }
                    if !pa[i].1.equals(&pb[i].1) {
                        proof {
                            assert(!val_eq(
                                pairs_view(pa@)[i as int].1,
                                pairs_view(pb@)[i as int].1,
                            ));
                        }
                        return false;
                    }
                    i = i + 1;
                }
                true
            },
            JsonValue::Array(ea) => {
                let eb = match other {
                    JsonValue::Array(eb) => eb,
                    _ => {
                        return false;
                    },
                };
                proof {
                    assert(self@ == JsonView::Array(elems_view(ea@))) by {
                        lemma_array_view(*ea);
                    }
                    assert(other@ == JsonView::Array(elems_view(eb@))) by {
                        lemma_array_view(*eb);
                    }
                }
                if ea.len() != eb.len() {
                    return false;
                }
                let mut i: usize = 0;
                while i < ea.len()
                    invariant
                        ea@.len() == eb@.len(),
                        i <= ea@.len(),
                        self@ == JsonView::Array(elems_view(ea@)),
                        other@ == JsonView::Array(elems_view(eb@)),
                        forall|j: int|
                            0 <= j < i ==> val_eq(
                                #[trigger] elems_view(ea@)[j],
                                elems_view(eb@)[j],
                            ),
                    decreases ea@.len() - i,
                {
                    proof {
                        assert(*ea == (*self)->Array_0);
                        assert(decreases_to!(*self => (*self)->Array_0));
                        assert(decreases_to!(*ea => ea@));
                        assert(decreases_to!(ea@ => ea@[i as int]));
                        assert(decreases_to!(*self => ea@[i as int]));
                    }
                    if !ea[i].equals(&eb[i]) {
                        proof {
                            assert(!val_eq(elems_view(ea@)[i as int], elems_view(eb@)[i as int]));
                        }
                        return false;
                    }
                    i = i + 1;
                }
                true
            },
            JsonValue::String(sa) => {
                match other {
                    JsonValue::String(sb) => sa.eq(sb),
                    _ => false,
                }
            },
            JsonValue::Number(na) => {
                match other {
                    JsonValue::Number(nb) => {
                        let ca = crate::text::str_to_chars(na.as_str());
                        let cb = crate::text::str_to_chars(nb.as_str());
                        crate::numbers::num_eq_chars(&ca, &cb)
                    },
                    _ => false,
                }
            },
            JsonValue::Boolean(ba) => {
                match other {
                    JsonValue::Boolean(bb) => *ba == *bb,
                    _ => false,
                }
            },
            JsonValue::Null => {
                match other {
                    JsonValue::Null => true,
                    _ => false,
                }
            },
        }
    }
}

} // verus!
