//! The deep search: a pre-order walk over the whole tree that records every
//! entry whose value equals the (lowercased) target, with the dotted path
//! to it. Matching compares the lowercased value against the lowercased
//! target, so string values match case-insensitively; object keys are never
//! compared, they only name the path. Inside arrays the path does not grow,
//! so siblings share a path and are told apart by their index.

use vstd::prelude::*;
use crate::value::{JsonValue, JsonView, val_eq, pairs_view, elems_view, lemma_object_view,
    lemma_array_view};
use crate::lower::lower_view;

verus! {

/// One occurrence: the dotted path to the matching entry, and the array
/// index of the match when it sat in an array.
pub type Occurrence = (Seq<char>, Option<int>);

/// The dotted path of an entry under `path` named `key`.
pub open spec fn child_path(path: Seq<char>, key: Seq<char>) -> Seq<char> {
    if path.len() == 0 {
        key
    } else {
        path + seq!['.'] + key
    }
}

/// The occurrences of `tl` in `v` (already lowercased), in walk order.
/// The root itself is not an occurrence: only entries of containers are.
pub open spec fn occ(v: JsonView, tl: JsonView, path: Seq<char>) -> Seq<Occurrence>
    decreases v, 0int, 0int,
{
    match v {
        JsonView::Object(ps) => occ_pairs(ps, tl, path, 0),
        JsonView::Array(es) => occ_elems(es, tl, path, 0),
        _ => Seq::empty(),
    }
}

/// The occurrences contributed by the pairs of an object from `i` on: for
/// each pair, a record when its lowercased value equals `tl`, then the
/// occurrences inside that value.
pub open spec fn occ_pairs(
    ps: Seq<(Seq<char>, JsonView)>,
    tl: JsonView,
    path: Seq<char>,
    i: int,
) -> Seq<Occurrence>
    decreases ps, ps.len() - i, 1int,
{
    if i < 0 || i >= ps.len() {
        Seq::empty()
    } else {
        (if val_eq(lower_view(ps[i].1), tl) {
            seq![(child_path(path, ps[i].0), Option::<int>::None)]
        } else {
            Seq::empty()
        }) + occ(ps[i].1, tl, child_path(path, ps[i].0)) + occ_pairs(ps, tl, path, i + 1)
    }
}

/// The occurrences contributed by the elements of an array from `i` on:
/// the path does not grow, the element index tells matches apart.
pub open spec fn occ_elems(es: Seq<JsonView>, tl: JsonView, path: Seq<char>, i: int) -> Seq<
    Occurrence,
>
    decreases es, es.len() - i, 1int,
{
    if i < 0 || i >= es.len() {
        Seq::empty()
    } else {
        (if val_eq(lower_view(es[i]), tl) {
            seq![(path, Option::Some(i))]
        } else {
            Seq::empty()
        }) + occ(es[i], tl, path) + occ_elems(es, tl, path, i + 1)
    }
}

/// The paths of a list of occurrences.
pub open spec fn occ_paths(os: Seq<Occurrence>) -> Seq<Seq<char>> {
    Seq::new(os.len(), |i: int| os[i].0)
}

/// The indexes of a list of occurrences.
pub open spec fn occ_indexes(os: Seq<Occurrence>) -> Seq<Option<int>> {
    Seq::new(os.len(), |i: int| os[i].1)
}

/// The texts of a list of strings.
pub open spec fn key_views(ks: Seq<String>) -> Seq<Seq<char>> {
    Seq::new(ks.len(), |i: int| ks[i]@)
}

/// Optional indexes, as mathematical integers.
pub open spec fn idx_views(is: Seq<Option<usize>>) -> Seq<Option<int>> {
    Seq::new(
        is.len(),
        |i: int|
            match is[i] {
                Option::Some(u) => Option::Some(u as int),
                Option::None => Option::<int>::None,
            },
    )
}

/// Builds the dotted path of a child entry.
fn child_path_exec(path: &String, key: &String) -> (r: String)
    ensures
        r@ == child_path(path@, key@),
{
    if path.as_str().is_empty() {
        key.clone()
    } else {
        proof {
            reveal_strlit(".");
        }
        let r = path.clone().concat(".").concat(key.as_str());
        proof {
            assert(r@ =~= path@ + seq!['.'] + key@);
        }
        r
    }
}

/// The walk itself. Appends to `keys` and `indexes` one record per
/// occurrence of `tl` in `v`, in walk order, and keeps `count` equal to the
/// number of records.
#[verifier::loop_isolation(false)]
#[verifier::rlimit(60)]
fn search_rec(
    v: &JsonValue,
    tl: &JsonValue,
    path: &String,
    count: &mut usize,
    keys: &mut Vec<String>,
    indexes: &mut Vec<Option<usize>>,
)
    requires
        *old(count) == old(keys)@.len(),
        old(indexes)@.len() == old(keys)@.len(),
    ensures
        key_views(final(keys)@) == key_views(old(keys)@) + occ_paths(occ(v@, tl@, path@)),
        idx_views(final(indexes)@) == idx_views(old(indexes)@) + occ_indexes(
            occ(v@, tl@, path@),
        ),
        *final(count) == final(keys)@.len(),
        final(indexes)@.len() == final(keys)@.len(),
    decreases *v,
{
    match v {
        JsonValue::Object(pa) => {
            proof {
                lemma_object_view(*pa);
            }
            let ghost ps = pairs_view(pa@);
            let mut i: usize = 0;
            while i < pa.len()
                invariant
                    i <= pa@.len(),
                    *count == keys@.len(),
                    indexes@.len() == keys@.len(),
                    key_views(old(keys)@) + occ_paths(occ_pairs(ps, tl@, path@, 0)) =~= key_views(
                        keys@,
                    ) + occ_paths(occ_pairs(ps, tl@, path@, i as int)),
                    idx_views(old(indexes)@) + occ_indexes(occ_pairs(ps, tl@, path@, 0))
                        =~= idx_views(indexes@) + occ_indexes(
                        occ_pairs(ps, tl@, path@, i as int),
                    ),
                decreases pa@.len() - i,
            {
                let cp = child_path_exec(path, &pa[i].0);
                let low = pa[i].1.to_lowercase();
                let ghost keys_before = keys@;
                let ghost idx_before = indexes@;
                if low.equals(tl) {
                    keys.push(cp.clone());
                    indexes.push(None);
                    *count = keys.len();
                }
                let ghost keys_mid = keys@;
                let ghost idx_mid = indexes@;
                proof {
                    assert(*pa == (*v)->Object_0);
                    assert(decreases_to!(*v => (*v)->Object_0));
                    assert(decreases_to!(*pa => pa@));
                    assert(decreases_to!(pa@ => pa@[i as int]));
                    assert(decreases_to!(pa@[i as int] => pa@[i as int].1));
                    assert(decreases_to!(*v => pa@[i as int].1));
                }
                search_rec(&pa[i].1, tl, &cp, count, keys, indexes);
                proof {
                    let m = if val_eq(lower_view(ps[i as int].1), tl@) {
                        seq![(child_path(path@, ps[i as int].0), Option::<int>::None)]
                    } else {
                        Seq::<Occurrence>::empty()
                    };
                    let rec = occ(ps[i as int].1, tl@, child_path(path@, ps[i as int].0));
                    assert(occ_pairs(ps, tl@, path@, i as int) == m + rec + occ_pairs(
                        ps,
                        tl@,
                        path@,
                        i + 1,
                    ));
                    assert(key_views(keys_mid) =~= key_views(keys_before) + occ_paths(m));
                    assert(idx_views(idx_mid) =~= idx_views(idx_before) + occ_indexes(m));
                    assert(key_views(keys@) =~= key_views(keys_mid) + occ_paths(rec));
                    assert(idx_views(indexes@) =~= idx_views(idx_mid) + occ_indexes(rec));
                    assert(occ_paths(m + rec + occ_pairs(ps, tl@, path@, i + 1)) =~= occ_paths(m)
                        + occ_paths(rec) + occ_paths(occ_pairs(ps, tl@, path@, i + 1)));
                    assert(occ_indexes(m + rec + occ_pairs(ps, tl@, path@, i + 1)) =~= occ_indexes(
                        m,
                    ) + occ_indexes(rec) + occ_indexes(occ_pairs(ps, tl@, path@, i + 1)));
                }
                i = i + 1;
            }
            proof {
                assert(occ_pairs(ps, tl@, path@, pa@.len() as int) =~= Seq::<Occurrence>::empty());
                assert(occ_paths(Seq::<Occurrence>::empty()) =~= Seq::<Seq<char>>::empty());
                assert(occ_indexes(Seq::<Occurrence>::empty()) =~= Seq::<Option<int>>::empty());
                assert(key_views(keys@) =~= key_views(old(keys)@) + occ_paths(
                    occ(v@, tl@, path@),
                ));
                assert(idx_views(indexes@) =~= idx_views(old(indexes)@) + occ_indexes(
                    occ(v@, tl@, path@),
                ));
            }
        },
        JsonValue::Array(ea) => {
            proof {
                lemma_array_view(*ea);
            }
            let ghost es = elems_view(ea@);
            let mut i: usize = 0;
            while i < ea.len()
                invariant
                    i <= ea@.len(),
                    *count == keys@.len(),
                    indexes@.len() == keys@.len(),
                    key_views(old(keys)@) + occ_paths(occ_elems(es, tl@, path@, 0)) =~= key_views(
                        keys@,
                    ) + occ_paths(occ_elems(es, tl@, path@, i as int)),
                    idx_views(old(indexes)@) + occ_indexes(occ_elems(es, tl@, path@, 0))
                        =~= idx_views(indexes@) + occ_indexes(
                        occ_elems(es, tl@, path@, i as int),
                    ),
                decreases ea@.len() - i,
            {
                let low = ea[i].to_lowercase();
                let ghost keys_before = keys@;
                let ghost idx_before = indexes@;
                if low.equals(tl) {
                    keys.push(path.clone());
                    indexes.push(Some(i));
                    *count = keys.len();
                }
                let ghost keys_mid = keys@;
                let ghost idx_mid = indexes@;
                proof {
                    assert(*ea == (*v)->Array_0);
                    assert(decreases_to!(*v => (*v)->Array_0));
                    assert(decreases_to!(*ea => ea@));
                    assert(decreases_to!(ea@ => ea@[i as int]));
                    assert(decreases_to!(*v => ea@[i as int]));
                }
                search_rec(&ea[i], tl, path, count, keys, indexes);
                proof {
                    let m = if val_eq(lower_view(es[i as int]), tl@) {
                        seq![(path@, Option::<int>::Some(i as int))]
                    } else {
                        Seq::<Occurrence>::empty()
                    };
                    let rec = occ(es[i as int], tl@, path@);
                    assert(occ_elems(es, tl@, path@, i as int) == m + rec + occ_elems(
                        es,
                        tl@,
                        path@,
                        i + 1,
                    ));
                    assert(key_views(keys_mid) =~= key_views(keys_before) + occ_paths(m));
                    assert(idx_views(idx_mid) =~= idx_views(idx_before) + occ_indexes(m));
                    assert(key_views(keys@) =~= key_views(keys_mid) + occ_paths(rec));
                    assert(idx_views(indexes@) =~= idx_views(idx_mid) + occ_indexes(rec));
                    assert(occ_paths(m + rec + occ_elems(es, tl@, path@, i + 1)) =~= occ_paths(m)
                        + occ_paths(rec) + occ_paths(occ_elems(es, tl@, path@, i + 1)));
                    assert(occ_indexes(m + rec + occ_elems(es, tl@, path@, i + 1)) =~= occ_indexes(
                        m,
                    ) + occ_indexes(rec) + occ_indexes(occ_elems(es, tl@, path@, i + 1)));
                }
                i = i + 1;
            }
            proof {
                assert(occ_elems(es, tl@, path@, ea@.len() as int) =~= Seq::<Occurrence>::empty());
                assert(key_views(keys@) =~= key_views(old(keys)@) + occ_paths(
                    occ(v@, tl@, path@),
                ));
                assert(idx_views(indexes@) =~= idx_views(old(indexes)@) + occ_indexes(
                    occ(v@, tl@, path@),
                ));
            }
        },
        _ => {
            proof {
                assert(occ(v@, tl@, path@) =~= Seq::<Occurrence>::empty());
                assert(key_views(keys@) =~= key_views(old(keys)@) + occ_paths(
                    occ(v@, tl@, path@),
                ));
                assert(idx_views(indexes@) =~= idx_views(old(indexes)@) + occ_indexes(
                    occ(v@, tl@, path@),
                ));
            }
        },
    }
}

impl JsonValue {
    /// Walks the whole tree and reports every entry whose value equals the
    /// lowercased target, value lowercased before the comparison too: the
    /// count of occurrences, the dotted path of each, and, for matches that
    /// sat in an array, the element index.
    pub fn get_all_occurrences(&self, target: &JsonValue) -> (r: (
        usize,
        Vec<String>,
        Vec<Option<usize>>,
    ))
        ensures
            r.0 == r.1@.len(),
            r.2@.len() == r.1@.len(),
            key_views(r.1@) == occ_paths(occ(self@, lower_view(target@), Seq::empty())),
            idx_views(r.2@) == occ_indexes(occ(self@, lower_view(target@), Seq::empty())),
    {
        let target_low = target.to_lowercase();
        let path = String::new();
        let mut count: usize = 0;
        let mut keys: Vec<String> = Vec::new();
        let mut indexes: Vec<Option<usize>> = Vec::new();
        search_rec(self, &target_low, &path, &mut count, &mut keys, &mut indexes);
        proof {
            assert(key_views(Seq::<String>::empty()) =~= Seq::<Seq<char>>::empty());
            assert(idx_views(Seq::<Option<usize>>::empty()) =~= Seq::<Option<int>>::empty());
            assert(key_views(keys@) =~= occ_paths(occ(self@, lower_view(target@), Seq::empty())));
            assert(idx_views(indexes@) =~= occ_indexes(
                occ(self@, lower_view(target@), Seq::empty()),
            ));
        }
        (count, keys, indexes)
    }
}

} // verus!
