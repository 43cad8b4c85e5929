//! Laws that relate the query functions to the value model.

use vstd::prelude::*;
use crate::value::{JsonView, val_eq};
use crate::query::{first_key, split_dots, path_lookup};
use crate::search::{occ, occ_pairs, occ_elems};
use crate::lower::lower_view;
use crate::text::{find_from, lemma_find_from};

verus! {

/// The first pair holding `key` is found: when `ps[i].0` is `key` and no
/// earlier pair has it, lookup gives `ps[i].1`.
proof fn lemma_first_key_at(ps: Seq<(Seq<char>, JsonView)>, key: Seq<char>, i: int)
    requires
        0 <= i < ps.len(),
        ps[i].0 == key,
        forall|j: int| 0 <= j < i ==> ps[j].0 != key,
    ensures
        first_key(ps, key) == Some(ps[i].1),
    decreases i,
{
    if i > 0 {
        lemma_first_key_at(ps.drop_first(), key, i - 1);
    }
}

/// A path of one segment without dots splits into just that segment.
proof fn lemma_split_single(key: Seq<char>)
    requires
        forall|k: int| 0 <= k < key.len() ==> key[k] != '.',
    ensures
        split_dots(key) == seq![key],
{
    lemma_find_from(key, 0, '.');
    assert(find_from(key, 0, '.') == key.len());
    assert(key.subrange(0, key.len() as int) =~= key);
}

/// Looking a single top-level key up in an object with pairwise distinct
/// keys gives that key's value unchanged.
pub proof fn lemma_get_top_level_key(ps: Seq<(Seq<char>, JsonView)>, i: int)
    requires
        0 <= i < ps.len(),
        forall|a: int, b: int| 0 <= a < b < ps.len() ==> (#[trigger] ps[a]).0 != (#[trigger] ps[b]).0,
        forall|k: int| 0 <= k < ps[i].0.len() ==> ps[i].0[k] != '.',
    ensures
        path_lookup(JsonView::Object(ps), split_dots(ps[i].0)) == Some(ps[i].1),
{
    lemma_split_single(ps[i].0);
    lemma_first_key_at(ps, ps[i].0, i);
    assert(seq![ps[i].0].drop_first() =~= Seq::<Seq<char>>::empty());
    reveal_with_fuel(path_lookup, 3);
}

/// Case-insensitive matching on string values: a stored string matches a
/// string target exactly when their lowercase forms agree.
pub proof fn lemma_string_match_is_case_insensitive(s: Seq<char>, q: Seq<char>)
    ensures
        val_eq(lower_view(JsonView::String(s)), lower_view(JsonView::String(q))) <==> crate::lower::lower_of(
            s,
        ) == crate::lower::lower_of(q),
{
}

/// Whether some container value inside `v`, compared lowercased, equals
/// the target. Keys play no part.
pub open spec fn some_value_matches(v: JsonView, tl: JsonView) -> bool
    decreases v, 0int, 0int,
{
    match v {
        JsonView::Object(ps) => exists|i: int|
            0 <= i < ps.len() && (val_eq(lower_view((#[trigger] ps[i]).1), tl)
                || some_value_matches(ps[i].1, tl)),
        JsonView::Array(es) => exists|i: int|
            0 <= i < es.len() && (val_eq(lower_view(#[trigger] es[i]), tl) || some_value_matches(
                es[i],
                tl,
            )),
        _ => false,
    }
}

/// The search matches values alone: it finds an occurrence exactly when
/// some container value, compared lowercased, equals the target. Object
/// keys never make a match; they only name its path, so the outcome is
/// the same under any path prefix.
pub proof fn lemma_search_matches_values_only(v: JsonView, tl: JsonView, path: Seq<char>)
    ensures
        occ(v, tl, path).len() > 0 <==> some_value_matches(v, tl),
    decreases v, 0int, 0int,
{
    match v {
        JsonView::Object(ps) => {
            lemma_occ_pairs_matches(ps, tl, path, 0);
        },
        JsonView::Array(es) => {
            lemma_occ_elems_matches(es, tl, path, 0);
        },
        _ => {},
    }
}

/// The object half of [`lemma_search_matches_values_only`].
proof fn lemma_occ_pairs_matches(
    ps: Seq<(Seq<char>, JsonView)>,
    tl: JsonView,
    path: Seq<char>,
    i: int,
)
    requires
        0 <= i,
    ensures
        occ_pairs(ps, tl, path, i).len() > 0 <==> exists|j: int|
            i <= j < ps.len() && (val_eq(lower_view((#[trigger] ps[j]).1), tl)
                || some_value_matches(ps[j].1, tl)),
    decreases ps, ps.len() - i, 1int,
{
    if i < ps.len() {
        lemma_search_matches_values_only(ps[i].1, tl, crate::search::child_path(path, ps[i].0));
        lemma_occ_pairs_matches(ps, tl, path, i + 1);
        if val_eq(lower_view(ps[i].1), tl) || some_value_matches(ps[i].1, tl) {
            assert(exists|j: int|
                i <= j < ps.len() && (val_eq(lower_view((#[trigger] ps[j]).1), tl)
                    || some_value_matches(ps[j].1, tl)));
        }
        if occ_pairs(ps, tl, path, i).len() == 0 {
            assert(occ_pairs(ps, tl, path, i + 1).len() == 0);
            assert(!val_eq(lower_view(ps[i].1), tl));
            assert(occ(ps[i].1, tl, crate::search::child_path(path, ps[i].0)).len() == 0);
        }
    }
}

/// The array half of [`lemma_search_matches_values_only`].
proof fn lemma_occ_elems_matches(es: Seq<JsonView>, tl: JsonView, path: Seq<char>, i: int)
    requires
        0 <= i,
    ensures
        occ_elems(es, tl, path, i).len() > 0 <==> exists|j: int|
            i <= j < es.len() && (val_eq(lower_view(#[trigger] es[j]), tl) || some_value_matches(
                es[j],
                tl,
            )),
    decreases es, es.len() - i, 1int,
{
    if i < es.len() {
        lemma_search_matches_values_only(es[i], tl, path);
        lemma_occ_elems_matches(es, tl, path, i + 1);
        if val_eq(lower_view(es[i]), tl) || some_value_matches(es[i], tl) {
            assert(exists|j: int|
                i <= j < es.len() && (val_eq(lower_view(#[trigger] es[j]), tl)
                    || some_value_matches(es[j], tl)));
        }
        if occ_elems(es, tl, path, i).len() == 0 {
            assert(occ_elems(es, tl, path, i + 1).len() == 0);
            assert(!val_eq(lower_view(es[i]), tl));
            assert(occ(es[i], tl, path).len() == 0);
        }
    }
}

} // verus!
