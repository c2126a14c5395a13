//! Association lists keyed by strings: the maps of the tools, with
//! `insert` replacing the value of a key that is already there.

use vstd::prelude::*;

verus! {

/// The first index `>= start` holding key `k`.
pub open spec fn key_index_from<V>(s: Seq<(Seq<char>, V)>, k: Seq<char>, start: int) -> Option<int>
    decreases s.len() - start,
{
    if start < 0 || start >= s.len() {
        None
    } else if s[start].0 == k {
        Some(start)
    } else {
        key_index_from(s, k, start + 1)
    }
}

/// The index holding key `k`.
pub open spec fn key_index<V>(s: Seq<(Seq<char>, V)>, k: Seq<char>) -> Option<int> {
    key_index_from(s, k, 0)
}

/// Whether key `k` is present.
pub open spec fn has_key<V>(s: Seq<(Seq<char>, V)>, k: Seq<char>) -> bool {
    key_index(s, k) is Some
}

/// The value of key `k`.
pub open spec fn get<V>(s: Seq<(Seq<char>, V)>, k: Seq<char>) -> Option<V> {
    match key_index(s, k) {
        Some(i) => Some(s[i].1),
        None => None,
    }
}

/// `insert`: replaces the value of `k`, or adds `k` at the end.
pub open spec fn put<V>(s: Seq<(Seq<char>, V)>, k: Seq<char>, v: V) -> Seq<(Seq<char>, V)> {
    match key_index(s, k) {
        Some(i) => s.update(i, (k, v)),
        None => s.push((k, v)),
    }
}

/// `remove`: takes `k` out.
pub open spec fn del<V>(s: Seq<(Seq<char>, V)>, k: Seq<char>) -> Seq<(Seq<char>, V)> {
    match key_index(s, k) {
        Some(i) => s.remove(i),
        None => s,
    }
}

/// No key occurs twice.
pub open spec fn unique_keys<V>(s: Seq<(Seq<char>, V)>) -> bool {
    forall|i: int, j: int| 0 <= i < j < s.len() ==> #[trigger] s[i].0 != #[trigger] s[j].0
}

pub proof fn lemma_key_index_from<V>(s: Seq<(Seq<char>, V)>, k: Seq<char>, start: int)
    requires
        start >= 0,
    ensures
        key_index_from(s, k, start) matches Some(i) ==> start <= i < s.len() && s[i].0 == k
            && forall|j: int| start <= j < i ==> s[j].0 != k,
        key_index_from(s, k, start) is None ==> forall|j: int| start <= j < s.len() ==> s[j].0 != k,
    decreases s.len() - start,
{
    if start < s.len() && s[start].0 != k {
        lemma_key_index_from(s, k, start + 1);
    }
}

pub proof fn lemma_key_index<V>(s: Seq<(Seq<char>, V)>, k: Seq<char>)
    ensures
        key_index(s, k) matches Some(i) ==> 0 <= i < s.len() && s[i].0 == k && forall|j: int|
            0 <= j < i ==> s[j].0 != k,
        key_index(s, k) is None ==> forall|j: int| 0 <= j < s.len() ==> s[j].0 != k,
{
    lemma_key_index_from(s, k, 0);
}

/// What `put` does to the value of each key.
pub proof fn lemma_get_put<V>(s: Seq<(Seq<char>, V)>, k: Seq<char>, v: V, k2: Seq<char>)
    ensures
        get(put(s, k, v), k2) == (if k2 == k { Some(v) } else { get(s, k2) }),
{
    lemma_key_index(s, k);
    lemma_key_index(s, k2);
    let t = put(s, k, v);
    lemma_key_index(t, k2);
    match key_index(s, k) {
        Some(i) => {
            assert(t.len() == s.len());
            assert forall|j: int| 0 <= j < t.len() && j != i implies #[trigger] t[j] == s[j] by {}
            assert(t[i] == (k, v));
            if k2 == k {
                assert(key_index(t, k2) == Some(i)) by {
                    if let Some(x) = key_index(t, k2) {
                        if x < i {
                            assert(t[x] == s[x]);
                        } else if x > i {
                            assert(t[i].0 == k2);
                        }
                    } else {
                        assert(t[i].0 == k2);
                    }
                }
            } else {
                match key_index(s, k2) {
                    Some(y) => {
                        assert(y != i);
                        assert(t[y] == s[y]);
                        if let Some(x) = key_index(t, k2) {
                            if x != y {
                                if x < y {
                                    assert(x != i);
                                    assert(t[x] == s[x]);
                                } else {
                                    assert(t[y].0 == k2);
                                }
                            }
                        }
                    },
                    None => {
                        if let Some(x) = key_index(t, k2) {
                            if x != i {
                                assert(t[x] == s[x]);
                            }
                        }
                    },
                }
            }
        },
        None => {
            assert(t == s.push((k, v)));
            if k2 == k {
                if let Some(x) = key_index(t, k2) {
                    if x < s.len() {
                        assert(t[x] == s[x]);
                    }
                }
                assert(t[s.len() as int].0 == k2);
            } else {
                match key_index(s, k2) {
                    Some(y) => {
                        assert(t[y] == s[y]);
                        if let Some(x) = key_index(t, k2) {
                            if x < y {
                                assert(t[x] == s[x]);
                            }
                        }
                    },
                    None => {
                        if let Some(x) = key_index(t, k2) {
                            if x < s.len() {
                                assert(t[x] == s[x]);
                            }
                        }
                    },
                }
            }
        },
    }
}

/// `put` keeps keys unique, and adds its key to the keys present.
pub proof fn lemma_put_keys<V>(s: Seq<(Seq<char>, V)>, k: Seq<char>, v: V)
    requires
        unique_keys(s),
    ensures
        unique_keys(put(s, k, v)),
        forall|x: Seq<char>| has_key(put(s, k, v), x) <==> (has_key(s, x) || x == k),
{
    lemma_key_index(s, k);
    let t = put(s, k, v);
    assert forall|x: Seq<char>| has_key(t, x) <==> (has_key(s, x) || x == k) by {
        lemma_get_put(s, k, v, x);
    }
    match key_index(s, k) {
        Some(i) => {
            assert forall|a: int, b: int| 0 <= a < b < t.len() implies #[trigger] t[a].0 != #[trigger] t[b].0 by {
                assert(s[a].0 != s[b].0);
            }
        },
        None => {
            assert forall|a: int, b: int| 0 <= a < b < t.len() implies #[trigger] t[a].0 != #[trigger] t[b].0 by {
                if b == s.len() {
                    assert(t[a] == s[a]);
                } else {
                    assert(s[a].0 != s[b].0);
                }
            }
        },
    }
}

/// `del` on unique keys removes exactly its key.
pub proof fn lemma_del_keys<V>(s: Seq<(Seq<char>, V)>, k: Seq<char>)
    requires
        unique_keys(s),
    ensures
        unique_keys(del(s, k)),
        forall|x: Seq<char>| has_key(del(s, k), x) <==> (has_key(s, x) && x != k),
{
    lemma_key_index(s, k);
    let t = del(s, k);
    match key_index(s, k) {
        Some(i) => {
            assert(t =~= s.remove(i));
            assert forall|a: int, b: int| 0 <= a < b < t.len() implies #[trigger] t[a].0 != #[trigger] t[b].0 by {
                let a2 = if a < i { a } else { a + 1 };
                let b2 = if b < i { b } else { b + 1 };
                assert(t[a] == s[a2] && t[b] == s[b2]);
                assert(s[a2].0 != s[b2].0);
            }
            assert forall|x: Seq<char>| has_key(t, x) <==> (has_key(s, x) && x != k) by {
                lemma_key_index(s, x);
                lemma_key_index(t, x);
                if has_key(t, x) {
                    let j = key_index(t, x)->0;
                    let j2 = if j < i { j } else { j + 1 };
                    assert(t[j] == s[j2]);
                    assert(j2 != i ==> s[j2].0 != s[i].0);
                    if key_index(s, x) is None {
                        assert(s[j2].0 != x);
                    }
                }
                if has_key(s, x) && x != k {
                    let j = key_index(s, x)->0;
                    assert(j != i);
                    let j2 = if j < i { j } else { j - 1 };
                    assert(t[j2] == s[j]);
                    if key_index(t, x) is None {
                        assert(t[j2].0 != x);
                    }
                }
            }
        },
        None => {
            assert forall|x: Seq<char>| has_key(t, x) <==> (has_key(s, x) && x != k) by {
                if x == k {
                    assert(!has_key(s, x));
                }
            }
        },
    }
}

/// `del` leaves the value of every other key as it was.
pub proof fn lemma_get_del<V>(s: Seq<(Seq<char>, V)>, k: Seq<char>, k2: Seq<char>)
    requires
        k2 != k,
    ensures
        get(del(s, k), k2) == get(s, k2),
{
    lemma_key_index(s, k);
    lemma_key_index(s, k2);
    let t = del(s, k);
    lemma_key_index(t, k2);
    if let Some(i) = key_index(s, k) {
        assert(t =~= s.remove(i));
        assert forall|j: int| 0 <= j < t.len() implies #[trigger] t[j] == (if j < i { s[j] } else { s[j + 1] }) by {}
        match key_index(s, k2) {
            Some(y) => {
                let y2 = if y < i { y } else { y - 1 };
                assert(y != i);
                assert(t[y2] == s[y]);
                if let Some(x) = key_index(t, k2) {
                    if x < y2 {
                        let x2 = if x < i { x } else { x + 1 };
                        assert(t[x] == s[x2]);
                    } else if x > y2 {
                        assert(t[y2].0 == k2);
                    }
                } else {
                    assert(t[y2].0 == k2);
                }
            },
            None => {
                if let Some(x) = key_index(t, k2) {
                    let x2 = if x < i { x } else { x + 1 };
                    assert(t[x] == s[x2]);
                }
            },
        }
    }
}

/// The position of key `k`, or `None`.
pub fn find_key<V: DeepView>(v: &Vec<(String, V)>, k: &str) -> (res: Option<usize>)
    ensures
        res matches Some(i) ==> key_index(v.deep_view(), k@) == Some(i as int),
        res is None ==> key_index(v.deep_view(), k@) is None,
{
    let mut i: usize = 0;
    while i < v.len()
        invariant
            i <= v.len(),
            key_index(v.deep_view(), k@) == key_index_from(v.deep_view(), k@, i as int),
        decreases v.len() - i,
    {
        assert(v.deep_view()[i as int] == (v@[i as int].0@, v@[i as int].1.deep_view()));
        if crate::text::str_eq(v[i].0.as_str(), k) {
            return Some(i);
        }
        i += 1;
    }
    None
}

/// Inserts `val` under `k`, replacing any earlier value of `k`.
pub fn insert<V: DeepView>(v: &mut Vec<(String, V)>, k: String, val: V)
    ensures
        final(v).deep_view() == put(old(v).deep_view(), k@, val.deep_view()),
{
    let ghost ov = v.deep_view();
    let found = find_key(v, k.as_str());
    proof {
        lemma_key_index(ov, k@);
    }
    match found {
        Some(i) => {
            let ghost kv = k@;
            let ghost vv = val.deep_view();
            v.set(i, (k, val));
            proof {
                assert(v.deep_view() =~= ov.update(i as int, (kv, vv)));
            }
        },
        None => {
            let ghost kv = k@;
            let ghost vv = val.deep_view();
            v.push((k, val));
            proof {
                assert(v.deep_view() =~= ov.push((kv, vv)));
            }
        },
    }
}

/// Removes `k` and returns its value, if it is there.
pub fn remove<V: DeepView>(v: &mut Vec<(String, V)>, k: &str) -> (res: Option<V>)
    ensures
        final(v).deep_view() == del(old(v).deep_view(), k@),
        res matches Some(x) ==> get(old(v).deep_view(), k@) == Some(x.deep_view()),
        res is None ==> get(old(v).deep_view(), k@) is None,
{
    let ghost ov = v.deep_view();
    let found = find_key(v, k);
    proof {
        lemma_key_index(ov, k@);
    }
    match found {
        Some(i) => {
            let ghost old_v = v@;
            let (_, x) = v.remove(i);
            proof {
                assert(v@ == old_v.remove(i as int));
                assert(v.deep_view() =~= ov.remove(i as int));
            }
            Some(x)
        },
        None => None,
    }
}

} // verus!
