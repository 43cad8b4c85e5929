//! The query engine: array indexing, dotted-path lookup, and the combined
//! lookup outcome the caller acts on.

use vstd::prelude::*;
use crate::value::{JsonValue, JsonView, pairs_view, elems_view, lemma_object_view,
    lemma_array_view};
use crate::text::{find_from, find_char, subvec, str_eq_chars, str_to_chars};

verus! {

/// The value under the first pair whose key is `key`, or `None` when no
/// pair has that key.
pub open spec fn first_key(ps: Seq<(Seq<char>, JsonView)>, key: Seq<char>) -> Option<JsonView>
    decreases ps.len(),
{
    if ps.len() == 0 {
        None
    } else if ps[0].0 == key {
        Some(ps[0].1)
    } else {
        first_key(ps.drop_first(), key)
    }
}

/// The `.`-separated segments of `p` from position `s` on. An empty piece
/// of text is one empty segment, as splitting on `.` gives it.
pub open spec fn split_dots_from(p: Seq<char>, s: int) -> Seq<Seq<char>>
    decreases p.len() - s when 0 <= s <= p.len() via split_dots_from_dec
{
    if find_from(p, s, '.') == p.len() {
        seq![p.subrange(s, p.len() as int)]
    } else {
        seq![p.subrange(s, find_from(p, s, '.'))] + split_dots_from(p, find_from(p, s, '.') + 1)
    }
}

#[via_fn]
proof fn split_dots_from_dec(p: Seq<char>, s: int) {
    crate::text::lemma_find_from(p, s, '.');
}

/// The `.`-separated segments of a dotted path.
pub open spec fn split_dots(p: Seq<char>) -> Seq<Seq<char>> {
    split_dots_from(p, 0)
}

/// Walks `v` down the given key segments: every step requires an object
/// holding the segment as a key (first match wins), and any failure is
/// `None`.
pub open spec fn path_lookup(v: JsonView, segs: Seq<Seq<char>>) -> Option<JsonView>
    decreases segs.len(),
{
    if segs.len() == 0 {
        Some(v)
    } else {
        match v {
            JsonView::Object(ps) => match first_key(ps, segs[0]) {
                Some(w) => path_lookup(w, segs.drop_first()),
                None => None,
            },
            _ => None,
        }
    }
}

/// What a combined path-and-index lookup came to.
pub enum LookupOutcome<'a> {
    /// The resolved node.
    Found(&'a JsonValue),
    /// Some path segment did not resolve.
    KeyNotFound,
    /// The path resolved, but the index did not pick an element.
    IndexNotFound,
}

impl JsonValue {
    /// Resolves the optional dotted path and optional one-based index
    /// against the tree: no path means the whole tree; a resolved path
    /// without an index means that node; with an index, the node must be an
    /// array holding a `index - 1`-th element.
    pub fn lookup<'a>(&'a self, key: Option<&String>, index: Option<usize>) -> (r: LookupOutcome<
        'a,
    >)
        ensures
            key is None ==> (r matches LookupOutcome::Found(v) && v@ == self@),
            key matches Some(k) ==> match path_lookup(self@, split_dots(k@)) {
                Option::None => r is KeyNotFound,
                Option::Some(node) => match index {
                    Option::None => (r matches LookupOutcome::Found(v) && v@ == node),
                    Option::Some(ix) => if node is Array && 1 <= ix <= node->Array_0.len() {
                        (r matches LookupOutcome::Found(v) && v@ == node->Array_0[ix - 1])
                    } else {
                        r is IndexNotFound
                    },
                },
            },
    {
        let k = match key {
            Some(k) => k,
            None => {
                return LookupOutcome::Found(self);
            },
        };
        let node = match self.get(k.as_str()) {
            Some(node) => node,
            None => {
                return LookupOutcome::KeyNotFound;
            },
        };
        let ix = match index {
            Some(ix) => ix,
            None => {
                return LookupOutcome::Found(node);
            },
        };
        if ix == 0 {
            return LookupOutcome::IndexNotFound;
        }
        match node.get_index(ix - 1) {
            Some(item) => LookupOutcome::Found(item),
            None => LookupOutcome::IndexNotFound,
        }
    }

    /// The `index`-th element of an array, and `None` exactly when `self`
    /// is not an array or `index` is out of bounds.
    pub fn get_index(&self, index: usize) -> (r: Option<&JsonValue>)
        ensures
            r is Some <==> (self@ is Array && index < self@->Array_0.len()),
            r is Some ==> r->0@ == self@->Array_0[index as int],
    {
        match self {
            JsonValue::Array(arr) => {
                proof {
                    lemma_array_view(*arr);
                }
                if index < arr.len() {
                    Some(&arr[index])
                } else {
                    None
                }
            },
            _ => None,
        }
    }

    /// Resolves a dotted key path, first match winning at every step; `None`
    /// exactly when some step fails.
    #[verifier::loop_isolation(false)]
    pub fn get(&self, key_path: &str) -> (r: Option<&JsonValue>)
        ensures
            match r {
                Some(v) => path_lookup(self@, split_dots(key_path@)) == Some(v@),
                None => path_lookup(self@, split_dots(key_path@)) is None,
            },
    {
        let p = str_to_chars(key_path);
        let mut cur: &JsonValue = self;
        let mut s: usize = 0;
        loop
            invariant
                s <= p@.len(),
                p@ == key_path@,
                path_lookup(self@, split_dots(key_path@)) == path_lookup(
                    cur@,
                    split_dots_from(p@, s as int),
                ),
            decreases p@.len() - s,
        {
            let e = find_char(&p, s, '.');
            let seg = subvec(&p, s, e);
            proof {
                crate::text::lemma_find_from(p@, s as int, '.');
            }
            let pairs = match cur {
                JsonValue::Object(pairs) => pairs,
                _ => {
                    proof {
                        assert(split_dots_from(p@, s as int).len() > 0);
                    }
                    return None;
                },
            };
            proof {
                lemma_object_view(*pairs);
            }
            proof {
                assert(pairs_view(pairs@).skip(0) =~= pairs_view(pairs@));
            }
            let mut j: usize = 0;
            let mut found: Option<&JsonValue> = None;
            while j < pairs.len()
                invariant
                    j <= pairs@.len(),
                    found is None ==> first_key(pairs_view(pairs@), seg@) == first_key(
                        pairs_view(pairs@).skip(j as int),
                        seg@,
                    ),
                    match found {
                        Some(w) => first_key(pairs_view(pairs@), seg@) == Some(w@),
                        None => true,
                    },
                    found is Some ==> j == pairs@.len(),
                decreases pairs@.len() - j,
            {
                if str_eq_chars(pairs[j].0.as_str(), &seg) {
                    proof {
                        assert(pairs_view(pairs@).skip(j as int)[0] == pairs_view(
                            pairs@,
                        )[j as int]);
                    }
                    found = Some(&pairs[j].1);
                    j = pairs.len();
                } else {
                    proof {
                        assert(pairs_view(pairs@).skip(j as int)[0] == pairs_view(
                            pairs@,
                        )[j as int]);
                        assert(pairs_view(pairs@).skip(j as int).drop_first() =~= pairs_view(
                            pairs@,
                        ).skip(j + 1));
                    }
                    j = j + 1;
                }
            }
            let w = match found {
                Some(w) => w,
                None => {
                    proof {
                        assert(pairs_view(pairs@).skip(pairs@.len() as int) =~= Seq::<(
                            Seq<char>,
                            JsonView,
                        )>::empty());
                        assert(split_dots_from(p@, s as int)[0] == seg@);
                    }
                    return None;
                },
            };
            proof {
                assert(split_dots_from(p@, s as int)[0] == seg@);
            }
            if e == p.len() {
                proof {
                    reveal_with_fuel(path_lookup, 3);
                    assert(split_dots_from(p@, s as int) =~= seq![seg@]);
                    assert(seq![seg@].drop_first() =~= Seq::<Seq<char>>::empty());
                    assert(path_lookup(cur@, split_dots_from(p@, s as int)) == Some(w@));
                }
                return Some(w);
            }
            proof {
                assert(split_dots_from(p@, s as int).drop_first() =~= split_dots_from(
                    p@,
                    e + 1,
                ));
            }
            cur = w;
            s = e + 1;
        }
    }
}

} // verus!
