//! The order of `String`s (byte order of UTF-8, which is the order of the
//! characters' code points), and sorting a list of distinct names.

use vstd::prelude::*;
use crate::text::{chars_of, views};

verus! {

/// `a` sorts strictly before `b`.
pub open spec fn lex_lt(a: Seq<char>, b: Seq<char>) -> bool
    decreases a.len(),
{
    if a.len() == 0 {
        b.len() > 0
    } else if b.len() == 0 {
        false
    } else if a[0] != b[0] {
        (a[0] as u32) < (b[0] as u32)
    } else {
        lex_lt(a.drop_first(), b.drop_first())
    }
}

pub proof fn lemma_lex_irreflexive(a: Seq<char>)
    ensures
        !lex_lt(a, a),
    decreases a.len(),
{
    if a.len() > 0 {
        lemma_lex_irreflexive(a.drop_first());
    }
}

pub proof fn lemma_lex_asymmetric(a: Seq<char>, b: Seq<char>)
    ensures
        lex_lt(a, b) ==> !lex_lt(b, a),
    decreases a.len(),
{
    if a.len() > 0 && b.len() > 0 && a[0] == b[0] {
        lemma_lex_asymmetric(a.drop_first(), b.drop_first());
    }
}

pub proof fn lemma_lex_transitive(a: Seq<char>, b: Seq<char>, c: Seq<char>)
    requires
        lex_lt(a, b),
        lex_lt(b, c),
    ensures
        lex_lt(a, c),
    decreases a.len(),
{
    if a.len() > 0 && b.len() > 0 && c.len() > 0 {
        if a[0] == b[0] && b[0] == c[0] {
            lemma_lex_transitive(a.drop_first(), b.drop_first(), c.drop_first());
        }
    }
}

pub proof fn lemma_lex_total(a: Seq<char>, b: Seq<char>)
    ensures
        a != b ==> lex_lt(a, b) || lex_lt(b, a),
    decreases a.len(),
{
    if a.len() > 0 && b.len() > 0 {
        if a[0] == b[0] {
            lemma_lex_total(a.drop_first(), b.drop_first());
            if a.drop_first() == b.drop_first() {
                assert(a =~= seq![a[0]] + a.drop_first());
                assert(b =~= seq![b[0]] + b.drop_first());
            }
        } else {
            vstd::utf8::char_u32_cast(a[0], a[0] as u32);
            vstd::utf8::char_u32_cast(b[0], b[0] as u32);
        }
    } else if a.len() == 0 && b.len() == 0 {
        assert(a =~= b);
    }
}

/// Whether `a` sorts strictly before `b`.
pub fn less_than(a: &str, b: &str) -> (res: bool)
    ensures
        res == lex_lt(a@, b@),
{
    let x = chars_of(a);
    let y = chars_of(b);
    let mut i: usize = 0;
    proof {
        assert(a@.skip(0) =~= a@);
        assert(b@.skip(0) =~= b@);
    }
    while i < x.len() && i < y.len() && x[i] == y[i]
        invariant
            i <= x.len(),
            i <= y.len(),
            lex_lt(a@, b@) == lex_lt(a@.skip(i as int), b@.skip(i as int)),
            x@ == a@,
            y@ == b@,
        decreases x.len() - i,
    {
        proof {
            let sa = a@.skip(i as int);
            let sb = b@.skip(i as int);
            assert(sa.drop_first() =~= a@.skip(i + 1));
            assert(sb.drop_first() =~= b@.skip(i + 1));
        }
        i += 1;
    }
    proof {
        let sa = a@.skip(i as int);
        let sb = b@.skip(i as int);
        if i < x.len() {
            assert(sa[0] == x@[i as int]);
        }
        if i < y.len() {
            assert(sb[0] == y@[i as int]);
        }
    }
    if i == x.len() {
        i < y.len()
    } else if i == y.len() {
        false
    } else {
        (x[i] as u32) < (y[i] as u32)
    }
}

/// Strictly increasing: sorted, without repeats.
pub open spec fn strictly_sorted(s: Seq<Seq<char>>) -> bool {
    forall|i: int, j: int| 0 <= i < j < s.len() ==> lex_lt(#[trigger] s[i], #[trigger] s[j])
}

/// Sorts distinct names (the keys of a map) in increasing order.
pub fn sort_names(names: &Vec<String>) -> (res: Vec<String>)
    ensures
        strictly_sorted(views(res@)),
        forall|k: Seq<char>| views(res@).contains(k) <==> views(names@).contains(k),
{
    let mut res: Vec<String> = Vec::new();
    let mut i: usize = 0;
    while i < names.len()
        invariant
            i <= names.len(),
            strictly_sorted(views(res@)),
            forall|k: Seq<char>| views(res@).contains(k) <==> views(names@).take(i as int).contains(k),
        decreases names.len() - i,
    {
        let name = &names[i];
        proof {
            assert(views(names@).take(i + 1) =~= views(names@).take(i as int).push(name@));
        }
        // find the insertion point: first position whose name is not below `name`
        let mut p: usize = 0;
        while p < res.len() && less_than(res[p].as_str(), name.as_str())
            invariant
                p <= res.len(),
                forall|q: int| 0 <= q < p ==> lex_lt(#[trigger] views(res@)[q], name@),
            decreases res.len() - p,
        {
            p += 1;
        }
        let ghost old_res = views(res@);
        let present = p < res.len() && !less_than(name.as_str(), res[p].as_str());
        proof {
            if !present && p < old_res.len() {
                assert(lex_lt(name@, old_res[p as int]));
            }
            assert forall|k: Seq<char>| views(names@).take(i + 1).contains(k) <==> (old_res.contains(k) || k == name@) by {
                if views(names@).take(i + 1).contains(k) {
                    let t = views(names@).take(i + 1);
                    let j = choose|j: int| 0 <= j < t.len() && t[j] == k;
                    if j < i {
                        assert(views(names@).take(i as int)[j] == k);
                    }
                }
                if views(names@).take(i as int).contains(k) {
                    let t = views(names@).take(i as int);
                    let j = choose|j: int| 0 <= j < t.len() && t[j] == k;
                    assert(views(names@).take(i + 1)[j] == k);
                }
                if k == name@ {
                    assert(views(names@).take(i + 1)[i as int] == k);
                }
            }
        }
        if present {
            // res[p] is neither below nor above `name`: it is `name`
            proof {
                lemma_lex_total(old_res[p as int], name@);
                assert(old_res[p as int] == name@);
                assert forall|k: Seq<char>| views(res@).contains(k) <==> views(names@).take(i + 1).contains(k) by {
                    if k == name@ {
                        assert(views(res@)[p as int] == k);
                    }
                }
            }
        } else {
            res.insert(p, name.clone());
            proof {
                let nr = views(res@);
                assert(nr =~= old_res.insert(p as int, name@));
                assert forall|a: int, b: int| 0 <= a < b < nr.len() implies lex_lt(#[trigger] nr[a], #[trigger] nr[b]) by {
                    if b < p {
                    } else if a < p && b == p {
                    } else if a < p && b > p {
                        assert(nr[b] == old_res[b - 1]);
                        assert(nr[a] == old_res[a]);
                        if b - 1 > p {
                            lemma_lex_transitive(name@, old_res[p as int], old_res[b - 1]);
                        }
                        assert(lex_lt(old_res[a], name@));
                        lemma_lex_transitive(nr[a], name@, old_res[b - 1]);
                    } else if a == p {
                        assert(nr[b] == old_res[b - 1]);
                        if b - 1 > p {
                            lemma_lex_transitive(name@, old_res[p as int], old_res[b - 1]);
                        }
                    } else {
                        assert(nr[a] == old_res[a - 1]);
                        assert(nr[b] == old_res[b - 1]);
                    }
                }
                assert forall|k: Seq<char>| nr.contains(k) <==> views(names@).take(i + 1).contains(k) by {
                    if nr.contains(k) {
                        let j = choose|j: int| 0 <= j < nr.len() && nr[j] == k;
                        if j < p {
                            assert(old_res[j] == k);
                        } else if j > p {
                            assert(old_res[j - 1] == k);
                        }
                    }
                    if old_res.contains(k) {
                        let j = choose|j: int| 0 <= j < old_res.len() && old_res[j] == k;
                        if j < p {
                            assert(nr[j] == k);
                        } else {
                            assert(nr[j + 1] == k);
                        }
                    }
                    if k == name@ {
                        assert(nr[p as int] == k);
                    }
                }
            }
        }
        i += 1;
    }
    proof {
        assert(views(names@).take(names@.len() as int) =~= views(names@));
    }
    res
}


/// A sorted listing is determined by what it holds: two strictly increasing
/// sequences with the same elements are equal.
pub proof fn law_sorted_unique(a: Seq<Seq<char>>, b: Seq<Seq<char>>)
    requires
        strictly_sorted(a),
        strictly_sorted(b),
        forall|k: Seq<char>| a.contains(k) <==> b.contains(k),
    ensures
        a == b,
    decreases a.len(),
{
    if a.len() == 0 {
        if b.len() > 0 {
            assert(b.contains(b[0]));
        }
        assert(a =~= b);
    } else {
        assert(a.contains(a[0]));
        assert(b.len() > 0);
        assert(b.contains(b[0]));
        let j = choose|j: int| 0 <= j < b.len() && b[j] == a[0];
        let i = choose|i: int| 0 <= i < a.len() && a[i] == b[0];
        if a[0] != b[0] {
            assert(j > 0 && i > 0);
            assert(lex_lt(b[0], b[j]));
            assert(lex_lt(a[0], a[i]));
            lemma_lex_asymmetric(a[0], b[0]);
        }
        let ta = a.drop_first();
        let tb = b.drop_first();
        assert forall|k: Seq<char>| ta.contains(k) <==> tb.contains(k) by {
            if ta.contains(k) {
                let x = choose|x: int| 0 <= x < ta.len() && ta[x] == k;
                assert(a[x + 1] == k);
                assert(lex_lt(a[0], k));
                lemma_lex_irreflexive(k);
                assert(a.contains(k));
                let y = choose|y: int| 0 <= y < b.len() && b[y] == k;
                assert(y != 0);
                assert(tb[y - 1] == k);
            }
            if tb.contains(k) {
                let y = choose|y: int| 0 <= y < tb.len() && tb[y] == k;
                assert(b[y + 1] == k);
                assert(lex_lt(b[0], k));
                lemma_lex_irreflexive(k);
                assert(b.contains(k));
                let x = choose|x: int| 0 <= x < a.len() && a[x] == k;
                assert(x != 0);
                assert(ta[x - 1] == k);
            }
        }
        assert forall|p: int, q: int| 0 <= p < q < ta.len() implies lex_lt(#[trigger] ta[p], #[trigger] ta[q]) by {
            assert(ta[p] == a[p + 1] && ta[q] == a[q + 1]);
        }
        assert forall|p: int, q: int| 0 <= p < q < tb.len() implies lex_lt(#[trigger] tb[p], #[trigger] tb[q]) by {
            assert(tb[p] == b[p + 1] && tb[q] == b[q + 1]);
        }
        law_sorted_unique(ta, tb);
        assert(a =~= seq![a[0]] + ta);
        assert(b =~= seq![b[0]] + tb);
    }
}
} // verus!
