//! Association lists keyed by strings: a `Vec` of `(key, value)` pairs with
//! distinct keys, viewed as a `Map`.

use vstd::prelude::*;
use crate::text::str_eq;

verus! {

/// No key occurs twice.
pub open spec fn keys_unique<V>(v: Seq<(String, V)>) -> bool {
    forall|i: int, j: int|
        0 <= i < v.len() && 0 <= j < v.len() && i != j ==> (#[trigger] v[i]).0@ != (#[trigger] v[j]).0@
}

/// Whether some pair has the key `k`.
pub open spec fn has_key<V>(v: Seq<(String, V)>, k: Seq<char>) -> bool {
    exists|i: int| 0 <= i < v.len() && (#[trigger] v[i]).0@ == k
}

/// The map from each key to its value.
pub open spec fn as_map<V>(v: Seq<(String, V)>) -> Map<Seq<char>, V> {
    Map::new(
        |k: Seq<char>| has_key(v, k),
        |k: Seq<char>| v[choose|i: int| 0 <= i < v.len() && (#[trigger] v[i]).0@ == k].1,
    )
}

pub proof fn lemma_as_map_at<V>(v: Seq<(String, V)>, i: int)
    requires
        keys_unique(v),
        0 <= i < v.len(),
    ensures
        as_map(v).contains_key(v[i].0@),
        as_map(v)[v[i].0@] == v[i].1,
{
    let k = v[i].0@;
    assert(has_key(v, k));
    let j = choose|j: int| 0 <= j < v.len() && (#[trigger] v[j]).0@ == k;
    assert(j == i);
}

/// Position of the pair with key `k`.
pub fn find_key<V>(v: &Vec<(String, V)>, k: &str) -> (r: Option<usize>)
    requires
        keys_unique(v@),
    ensures
        match r {
            Some(i) => i < v@.len() && v@[i as int].0@ == k@ && as_map(v@).contains_key(k@) && as_map(
                v@,
            )[k@] == v@[i as int].1,
            None => !has_key(v@, k@) && !as_map(v@).contains_key(k@),
        },
{
    let mut i: usize = 0;
    while i < v.len()
        invariant
            i <= v@.len(),
            keys_unique(v@),
            forall|j: int| 0 <= j < i ==> (#[trigger] v@[j]).0@ != k@,
        decreases v@.len() - i,
    {
        if str_eq(v[i].0.as_str(), k) {
            proof {
                lemma_as_map_at(v@, i as int);
            }
            return Some(i);
        }
        i = i + 1;
    }
    None
}

/// Sets the value of `k` to `val`, replacing any earlier value.
pub fn insert_key<V>(v: &mut Vec<(String, V)>, k: String, val: V)
    requires
        keys_unique(old(v)@),
    ensures
        keys_unique(final(v)@),
        as_map(final(v)@) == as_map(old(v)@).insert(k@, val),
{
    let ghost k0 = k@;
    match find_key(v, k.as_str()) {
        Some(i) => {
            let _ = v.remove(i);
            v.insert(i, (k, val));
            proof {
                let o = old(v)@;
                let n = v@;
                assert(n =~= o.update(i as int, (n[i as int].0, val)));
                assert forall|a: int, b: int|
                    0 <= a < n.len() && 0 <= b < n.len() && a != b implies (#[trigger] n[a]).0@
                    != (#[trigger] n[b]).0@ by {
                    if a != i && b != i {
                        assert(n[a] == o[a] && n[b] == o[b]);
                    } else if a == i {
                        assert(n[b] == o[b]);
                        assert(o[i as int].0@ != o[b].0@);
                    } else {
                        assert(n[a] == o[a]);
                        assert(o[i as int].0@ != o[a].0@);
                    }
                }
                assert forall|key: Seq<char>| #[trigger] has_key(n, key) == has_key(o, key)
                    || key == k0 by {
                    if has_key(n, key) {
                        let j = choose|j: int| 0 <= j < n.len() && (#[trigger] n[j]).0@ == key;
                        if j != i {
                            assert(o[j] == n[j]);
                        }
                    }
                    if has_key(o, key) {
                        let j = choose|j: int| 0 <= j < o.len() && (#[trigger] o[j]).0@ == key;
                        if j != i {
                            assert(o[j] == n[j]);
                        } else {
                            assert(n[j].0@ == key);
                        }
                    }
                }
                assert forall|key: Seq<char>| #[trigger]
                    as_map(n).contains_key(key) implies as_map(n)[key] == as_map(o).insert(
                    k0,
                    val,
                )[key] by {
                    let j = choose|j: int| 0 <= j < n.len() && (#[trigger] n[j]).0@ == key;
                    lemma_as_map_at(n, j);
                    if j != i {
                        assert(o[j] == n[j]);
                        lemma_as_map_at(o, j);
                    }
                }
                assert(as_map(n) =~= as_map(o).insert(k0, val));
            }
        },
        None => {
            v.push((k, val));
            proof {
                let o = old(v)@;
                let n = v@;
                let last = (n.len() - 1) as int;
                assert forall|a: int, b: int|
                    0 <= a < n.len() && 0 <= b < n.len() && a != b implies (#[trigger] n[a]).0@
                    != (#[trigger] n[b]).0@ by {
                    if a != last && b != last {
                        assert(n[a] == o[a] && n[b] == o[b]);
                    } else if a == last {
                        assert(n[b] == o[b]);
                    } else {
                        assert(n[a] == o[a]);
                    }
                }
                assert forall|key: Seq<char>| #[trigger]
                    has_key(n, key) == (has_key(o, key) || key == k0) by {
                    if has_key(n, key) {
                        let j = choose|j: int| 0 <= j < n.len() && (#[trigger] n[j]).0@ == key;
                        if j != last {
                            assert(o[j] == n[j]);
                        }
                    }
                    if has_key(o, key) {
                        let j = choose|j: int| 0 <= j < o.len() && (#[trigger] o[j]).0@ == key;
                        assert(n[j] == o[j]);
                    }
                    if key == k0 {
                        assert(n[last].0@ == key);
                    }
                }
                assert forall|key: Seq<char>| #[trigger]
                    as_map(n).contains_key(key) implies as_map(n)[key] == as_map(o).insert(
                    k0,
                    val,
                )[key] by {
                    let j = choose|j: int| 0 <= j < n.len() && (#[trigger] n[j]).0@ == key;
                    lemma_as_map_at(n, j);
                    if j != last {
                        assert(o[j] == n[j]);
                        lemma_as_map_at(o, j);
                    }
                }
                assert(as_map(n) =~= as_map(o).insert(k0, val));
            }
        },
    }
}

/// Drops the pair with key `k`, if there is one.
pub fn remove_key<V>(v: &mut Vec<(String, V)>, k: &str)
    requires
        keys_unique(old(v)@),
    ensures
        keys_unique(final(v)@),
        as_map(final(v)@) == as_map(old(v)@).remove(k@),
{
    match find_key(v, k) {
        Some(i) => {
            let _ = v.remove(i);
            proof {
                let o = old(v)@;
                let n = v@;
                assert(n =~= o.remove(i as int));
                assert forall|a: int, b: int|
                    0 <= a < n.len() && 0 <= b < n.len() && a != b implies (#[trigger] n[a]).0@
                    != (#[trigger] n[b]).0@ by {
                    let a2 = if a < i { a } else { a + 1 };
                    let b2 = if b < i { b } else { b + 1 };
                    assert(n[a] == o[a2] && n[b] == o[b2]);
                }
                assert forall|key: Seq<char>| #[trigger]
                    has_key(n, key) == (has_key(o, key) && key != k@) by {
                    if has_key(n, key) {
                        let j = choose|j: int| 0 <= j < n.len() && (#[trigger] n[j]).0@ == key;
                        let j2 = if j < i { j } else { j + 1 };
                        assert(n[j] == o[j2]);
                    }
                    if has_key(o, key) && key != k@ {
                        let j = choose|j: int| 0 <= j < o.len() && (#[trigger] o[j]).0@ == key;
                        let j2 = if j < i { j } else { j - 1 };
                        assert(n[j2] == o[j]);
                    }
                }
                assert forall|key: Seq<char>| #[trigger]
                    as_map(n).contains_key(key) implies as_map(n)[key] == as_map(o)[key] by {
                    let j = choose|j: int| 0 <= j < n.len() && (#[trigger] n[j]).0@ == key;
                    lemma_as_map_at(n, j);
                    let j2 = if j < i { j } else { j + 1 };
                    assert(n[j] == o[j2]);
                    lemma_as_map_at(o, j2);
                }
                assert(as_map(n) =~= as_map(o).remove(k@));
            }
        },
        None => {
            proof {
                assert(as_map(v@) =~= as_map(v@).remove(k@));
            }
        },
    }
}

} // verus!
