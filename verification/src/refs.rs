//! Reading refs: the `<sha> <ref>` lines of `git show-ref` and of snapshot
//! files, and what changed between a recorded snapshot and the current refs.

use vstd::prelude::*;
use crate::assoc::{del, get, has_key, insert, key_index, lemma_get_put, put, remove, unique_keys};
use crate::git::{lines, split_lines};
use crate::text::{
    byte_len, find, find_bytes, has_prefix, lemma_byte_offset_full, lemma_find_in_bounds,
    spec_substring, starts_with, str_eq, str_len, substring, views,
};

verus! {

/// A ref line split at its first space: the sha before it and the ref name
/// after it (`None` when there is no space).  The byte offset of the space is
/// used as a character position, as the tools do.
pub open spec fn ref_line_of(v: Seq<char>) -> Option<(Seq<char>, Seq<char>)> {
    match find_bytes(v, " "@) {
        None => None,
        Some(b) => Some((spec_substring(v, 0, b), spec_substring(v, b + 1, byte_len(v)))),
    }
}

/// Splits a `<sha> <ref>` line.
pub fn parse_ref_line(v: &str) -> (res: Option<(String, String)>)
    ensures
        res matches Some(p) ==> ref_line_of(v@) == Some((p.0@, p.1@)),
        res is None ==> ref_line_of(v@) is None,
{
    let n = str_len(v);
    match find(v, " ") {
        None => None,
        Some(b) => {
            proof {
                lemma_find_in_bounds(v@, " "@);
            }
            Some((substring(v, 0, b), substring(v, b + 1, n)))
        },
    }
}

/// The prefix of branch refs.
pub open spec fn heads_prefix() -> Seq<char> {
    "refs/heads/"@
}

/// The prefix of tag refs.
pub open spec fn tags_prefix() -> Seq<char> {
    "refs/tags/"@
}

/// A ref name without its first `n` characters (`substring(n, len)`).
pub open spec fn without(obj: Seq<char>, n: int) -> Seq<char> {
    if obj.len() >= n {
        obj.skip(n)
    } else {
        Seq::empty()
    }
}

/// `obj.substring(n, obj.len())`.
pub fn strip_front(obj: &str, n: usize) -> (res: String)
    ensures
        res@ == without(obj@, n as int),
{
    let len = str_len(obj);
    proof {
        lemma_byte_offset_full(obj@);
        assert(obj@.skip(n as int) =~= obj@.subrange(n as int, obj@.len() as int));
    }
    substring(obj, n, len)
}

/// Whether a list of strings holds `s`.
pub fn contains_str(v: &Vec<String>, s: &str) -> (res: bool)
    ensures
        res == views(v@).contains(s@),
{
    let mut i: usize = 0;
    while i < v.len()
        invariant
            i <= v.len(),
            forall|j: int| 0 <= j < i ==> v@[j]@ != s@,
        decreases v.len() - i,
    {
        if str_eq(v[i].as_str(), s) {
            assert(views(v@)[i as int] == s@);
            return true;
        }
        i += 1;
    }
    proof {
        if views(v@).contains(s@) {
            let j = choose|j: int| 0 <= j < views(v@).len() && views(v@)[j] == s@;
            assert(v@[j]@ == s@);
        }
    }
    false
}

// ---------------------------------------------------------------------------
// Snapshot comparison
// ---------------------------------------------------------------------------

/// Reading a recorded snapshot: each line's ref is mapped to its sha (a later
/// line for the same ref wins), and the shas of branches are remembered as
/// visited, in order.  `None` when a line has no space.
pub open spec fn recorded(ls: Seq<Seq<char>>) -> Option<(Seq<(Seq<char>, Seq<char>)>, Seq<Seq<char>>)>
    decreases ls.len(),
{
    if ls.len() == 0 {
        Some((Seq::empty(), Seq::empty()))
    } else {
        match (recorded(ls.drop_last()), ref_line_of(ls.last())) {
            (Some((mapping, visited)), Some((id, obj))) => Some(
                (
                    put(mapping, obj, id),
                    if has_prefix(obj, heads_prefix()) {
                        visited.push(id)
                    } else {
                        visited
                    },
                ),
            ),
            _ => None,
        }
    }
}

/// What the comparison builds up: the refs of the snapshot not yet seen
/// (ref to sha), the changed branches and tags (name to previous and current
/// sha; previous is empty for a new ref), and the shas of changed branches
/// in order of first appearance.
pub type Progress = (
    Seq<(Seq<char>, Seq<char>)>,
    Seq<(Seq<char>, (Seq<char>, Seq<char>))>,
    Seq<(Seq<char>, (Seq<char>, Seq<char>))>,
    Seq<Seq<char>>,
);

/// One current ref compared with the snapshot.
pub open spec fn compare_step(p: Progress, id: Seq<char>, obj: Seq<char>) -> Progress {
    let previous = match get(p.0, obj) {
        Some(x) => x,
        None => Seq::empty(),
    };
    let remaining = del(p.0, obj);
    if previous == id {
        (remaining, p.1, p.2, p.3)
    } else {
        let is_head = has_prefix(obj, heads_prefix());
        let is_tag = has_prefix(obj, tags_prefix());
        (
            remaining,
            if is_head { put(p.1, without(obj, 11), (previous, id)) } else { p.1 },
            if is_tag { put(p.2, without(obj, 10), (previous, id)) } else { p.2 },
            if is_head && !p.3.contains(id) { p.3.push(id) } else { p.3 },
        )
    }
}

/// Comparing one current ref with the snapshot: a ref whose sha is the one
/// recorded for it is no change; a branch or a tag whose sha differs from the
/// recorded one (or that the snapshot lacks, its recorded sha then being
/// empty) is among the changed branches or tags under its name, with the
/// recorded and the current sha, a changed branch's sha joining the changed
/// heads unless already there; the ref leaves the snapshot refs not yet seen
/// either way.
pub proof fn law_compare_ref(p: Progress, id: Seq<char>, obj: Seq<char>)
    ensures
        ({
            let recorded_sha = match get(p.0, obj) {
                Some(x) => x,
                None => Seq::empty(),
            };
            let q = compare_step(p, id, obj);
            &&& q.0 == del(p.0, obj)
            &&& recorded_sha == id ==> q.1 == p.1 && q.2 == p.2 && q.3 == p.3
            &&& recorded_sha != id && has_prefix(obj, tags_prefix()) ==> get(q.2, without(obj, 10)) == Some(
                (recorded_sha, id),
            )
            &&& recorded_sha != id && has_prefix(obj, heads_prefix()) ==> get(q.1, without(obj, 11)) == Some(
                (recorded_sha, id),
            ) && q.3 == (if p.3.contains(id) { p.3 } else { p.3.push(id) })
            &&& !has_prefix(obj, tags_prefix()) ==> q.2 == p.2
            &&& !has_prefix(obj, heads_prefix()) ==> q.1 == p.1
        }),
{
    let recorded_sha = match get(p.0, obj) {
        Some(x) => x,
        None => Seq::empty(),
    };
    lemma_get_put(p.2, without(obj, 10), (recorded_sha, id), without(obj, 10));
    lemma_get_put(p.1, without(obj, 11), (recorded_sha, id), without(obj, 11));
}

/// Comparing the current ref lines, in order, against the snapshot; empty
/// lines are skipped, and `None` when a line has no space.
pub open spec fn compared(start: Progress, ls: Seq<Seq<char>>) -> Option<Progress>
    decreases ls.len(),
{
    if ls.len() == 0 {
        Some(start)
    } else {
        match compared(start, ls.drop_last()) {
            None => None,
            Some(p) => if ls.last().len() == 0 {
                Some(p)
            } else {
                match ref_line_of(ls.last()) {
                    None => None,
                    Some((id, obj)) => Some(compare_step(p, id, obj)),
                }
            },
        }
    }
}

/// The snapshot refs under `prefix` that are gone: name (without the first
/// `n` characters) and sha, in the order of the remaining map.
pub open spec fn retired_under(rem: Seq<(Seq<char>, Seq<char>)>, prefix: Seq<char>, n: int) -> Seq<(Seq<char>, Seq<char>)>
    decreases rem.len(),
{
    if rem.len() == 0 {
        Seq::empty()
    } else {
        let r = retired_under(rem.drop_last(), prefix, n);
        if has_prefix(rem.last().0, prefix) {
            r.push((without(rem.last().0, n), rem.last().1))
        } else {
            r
        }
    }
}

/// What changed between a recorded snapshot and the current refs.
pub struct SnapshotDiff {
    /// Shas of the branches recorded in the snapshot.
    pub visited: Vec<String>,
    /// Changed or new branches: name, previous sha (empty when new), current sha.
    pub branches: Vec<(String, (String, String))>,
    /// Changed or new tags.
    pub tags: Vec<(String, (String, String))>,
    /// Shas of changed branches, in order of first appearance.
    pub heads: Vec<String>,
    /// Branches of the snapshot that are gone: name and recorded sha.
    pub retired_branches: Vec<(String, String)>,
    /// Tags of the snapshot that are gone.
    pub retired_tags: Vec<(String, String)>,
}

/// The comparison of a snapshot text with the current refs text, as the
/// pack export computes it before walking the changed branches.
pub open spec fn diff_of(previous: Seq<char>, current: Seq<char>) -> Option<(Seq<Seq<char>>, Progress)> {
    match recorded(lines(previous)) {
        None => None,
        Some((mapping, visited)) => match compared(
            (mapping, Seq::empty(), Seq::empty(), Seq::empty()),
            lines(current),
        ) {
            None => None,
            Some(p) => Some((visited, p)),
        },
    }
}

fn record_lines(ls: &Vec<String>) -> (res: Option<(Vec<(String, String)>, Vec<String>)>)
    ensures
        res matches Some(r) ==> recorded(views(ls@)) == Some((r.0.deep_view(), views(r.1@))),
        res is None ==> recorded(views(ls@)) is None,
{
    let mut mapping: Vec<(String, String)> = Vec::new();
    let mut visited: Vec<String> = Vec::new();
    let mut i: usize = 0;
    while i < ls.len()
        invariant
            i <= ls.len(),
            recorded(views(ls@).take(i as int)) == Some((mapping.deep_view(), views(visited@))),
        decreases ls.len() - i,
    {
        proof {
            assert(views(ls@).take(i + 1).drop_last() =~= views(ls@).take(i as int));
            assert(views(ls@).take(i + 1).last() == ls@[i as int]@);
        }
        match parse_ref_line(ls[i].as_str()) {
            None => {
                proof {
                    lemma_recorded_none(views(ls@), i as int);
                }
                return None;
            },
            Some((id, obj)) => {
                if starts_with(obj.as_str(), "refs/heads/") {
                    let ghost ov = views(visited@);
                    visited.push(id.clone());
                    proof {
                        assert(views(visited@) =~= ov.push(id@));
                    }
                }
                insert(&mut mapping, obj, id);
            },
        }
        i += 1;
    }
    proof {
        assert(views(ls@).take(ls@.len() as int) =~= views(ls@));
    }
    Some((mapping, visited))
}

proof fn lemma_recorded_none(ls: Seq<Seq<char>>, i: int)
    requires
        0 <= i < ls.len(),
        recorded(ls.take(i + 1)) is None,
    ensures
        recorded(ls) is None,
    decreases ls.len() - i,
{
    if i + 1 < ls.len() {
        assert(ls.take(i + 2).drop_last() =~= ls.take(i + 1));
        lemma_recorded_none(ls, i + 1);
    } else {
        assert(ls.take(i + 1) =~= ls);
    }
}

proof fn lemma_compared_none(start: Progress, ls: Seq<Seq<char>>, i: int)
    requires
        0 <= i < ls.len(),
        compared(start, ls.take(i + 1)) is None,
    ensures
        compared(start, ls) is None,
    decreases ls.len() - i,
{
    if i + 1 < ls.len() {
        assert(ls.take(i + 2).drop_last() =~= ls.take(i + 1));
        lemma_compared_none(start, ls, i + 1);
    } else {
        assert(ls.take(i + 1) =~= ls);
    }
}

fn retire(rem: &Vec<(String, String)>, prefix: &str, n: usize) -> (res: Vec<(String, String)>)
    ensures
        res.deep_view() == retired_under(rem.deep_view(), prefix@, n as int),
{
    let mut res: Vec<(String, String)> = Vec::new();
    let mut i: usize = 0;
    while i < rem.len()
        invariant
            i <= rem.len(),
            res.deep_view() == retired_under(rem.deep_view().take(i as int), prefix@, n as int),
        decreases rem.len() - i,
    {
        proof {
            assert(rem.deep_view().take(i + 1).drop_last() =~= rem.deep_view().take(i as int));
            assert(rem.deep_view().take(i + 1).last() == (rem@[i as int].0@, rem@[i as int].1@));
        }
        if starts_with(rem[i].0.as_str(), prefix) {
            let name = strip_front(rem[i].0.as_str(), n);
            let ghost old_res = res.deep_view();
            res.push((name, rem[i].1.clone()));
            proof {
                assert(res.deep_view() =~= old_res.push((name@, rem@[i as int].1@)));
            }
        }
        i += 1;
    }
    proof {
        assert(rem.deep_view().take(rem@.len() as int) =~= rem.deep_view());
    }
    res
}

/// Compares a recorded snapshot with the current refs (`git show-ref`
/// output).  `None` where the tool stops: a line without a space.
pub fn snapshot_diff(previous: &str, current: &str) -> (res: Option<SnapshotDiff>)
    ensures
        res is None <==> diff_of(previous@, current@) is None,
        res matches Some(d) ==> ({
            let (visited, p) = diff_of(previous@, current@)->0;
            &&& views(d.visited@) == visited
            &&& d.branches.deep_view() == p.1
            &&& d.tags.deep_view() == p.2
            &&& views(d.heads@) == p.3
            &&& d.retired_branches.deep_view() == retired_under(p.0, heads_prefix(), 11)
            &&& d.retired_tags.deep_view() == retired_under(p.0, tags_prefix(), 10)
        }),
{
    let prev_lines = split_lines(previous);
    let (mut remaining, visited) = match record_lines(&prev_lines) {
        None => return None,
        Some(r) => r,
    };
    let cur_lines = split_lines(current);
    let mut branches: Vec<(String, (String, String))> = Vec::new();
    let mut tags: Vec<(String, (String, String))> = Vec::new();
    let mut heads: Vec<String> = Vec::new();
    let ghost start: Progress = (remaining.deep_view(), Seq::empty(), Seq::empty(), Seq::empty());
    let mut i: usize = 0;
    while i < cur_lines.len()
        invariant
            i <= cur_lines.len(),
            views(cur_lines@) == lines(current@),
            recorded(lines(previous@)) == Some((start.0, views(visited@))),
            start == (start.0, Seq::<(Seq<char>, (Seq<char>, Seq<char>))>::empty(), Seq::<(Seq<char>, (Seq<char>, Seq<char>))>::empty(), Seq::<Seq<char>>::empty()),
            compared(start, views(cur_lines@).take(i as int)) == Some(
                (remaining.deep_view(), branches.deep_view(), tags.deep_view(), views(heads@)),
            ),
        decreases cur_lines.len() - i,
    {
        proof {
            assert(views(cur_lines@).take(i + 1).drop_last() =~= views(cur_lines@).take(i as int));
            assert(views(cur_lines@).take(i + 1).last() == cur_lines@[i as int]@);
        }
        if !cur_lines[i].as_str().is_empty() {
            match parse_ref_line(cur_lines[i].as_str()) {
                None => {
                    proof {
                        lemma_compared_none(start, views(cur_lines@), i as int);
                    }
                    return None;
                },
                Some((id, obj)) => {
                    let ghost p: Progress = (remaining.deep_view(), branches.deep_view(), tags.deep_view(), views(heads@));
                    let previous_id = match remove(&mut remaining, obj.as_str()) {
                        Some(x) => x,
                        None => String::new(),
                    };
                    if !str_eq(previous_id.as_str(), id.as_str()) {
                        let is_head = starts_with(obj.as_str(), "refs/heads/");
                        let is_tag = starts_with(obj.as_str(), "refs/tags/");
                        if is_head {
                            insert(&mut branches, strip_front(obj.as_str(), 11), (previous_id.clone(), id.clone()));
                            if !contains_str(&heads, id.as_str()) {
                                let ghost oh = views(heads@);
                                heads.push(id.clone());
                                proof {
                                    assert(views(heads@) =~= oh.push(id@));
                                }
                            }
                        }
                        if is_tag {
                            insert(&mut tags, strip_front(obj.as_str(), 10), (previous_id.clone(), id.clone()));
                        }
                    }
                    proof {
                        let q = compare_step(p, id@, obj@);
                        assert(remaining.deep_view() == q.0);
                        assert(branches.deep_view() == q.1);
                        assert(tags.deep_view() == q.2);
                        assert(views(heads@) == q.3);
                    }
                },
            }
        }
        i += 1;
    }
    proof {
        assert(views(cur_lines@).take(cur_lines@.len() as int) =~= views(cur_lines@));
    }
    let retired_branches = retire(&remaining, "refs/heads/", 11);
    let retired_tags = retire(&remaining, "refs/tags/", 10);
    Some(SnapshotDiff { visited, branches, tags, heads, retired_branches, retired_tags })
}


// ---------------------------------------------------------------------------
// A snapshot against itself
// ---------------------------------------------------------------------------

/// Every line is a non-empty `<sha> <ref>` line.
pub open spec fn ref_lines(ls: Seq<Seq<char>>) -> bool {
    forall|i: int| 0 <= i < ls.len() ==> #[trigger] ls[i].len() > 0 && ref_line_of(ls[i]) is Some
}

/// The ref named on a line.
pub open spec fn ref_of(l: Seq<char>) -> Seq<char> {
    match ref_line_of(l) {
        Some((_, r)) => r,
        None => Seq::empty(),
    }
}

/// The sha on a line.
pub open spec fn sha_of(l: Seq<char>) -> Seq<char> {
    match ref_line_of(l) {
        Some((id, _)) => id,
        None => Seq::empty(),
    }
}

/// No ref is named on two lines.
pub open spec fn distinct_refs(ls: Seq<Seq<char>>) -> bool {
    forall|i: int, j: int| 0 <= i < j < ls.len() ==> #[trigger] ref_of(ls[i]) != #[trigger] ref_of(ls[j])
}

/// The (ref, sha) pairs of the lines, in order.
pub open spec fn ref_pairs(ls: Seq<Seq<char>>) -> Seq<(Seq<char>, Seq<char>)> {
    ls.map_values(|l: Seq<char>| (ref_of(l), sha_of(l)))
}

proof fn lemma_recorded_pairs(ls: Seq<Seq<char>>)
    requires
        ref_lines(ls),
        distinct_refs(ls),
    ensures
        recorded(ls) is Some,
        recorded(ls).unwrap().0 == ref_pairs(ls),
    decreases ls.len(),
{
    if ls.len() > 0 {
        let r = ls.drop_last();
        assert forall|i: int| 0 <= i < r.len() implies #[trigger] r[i].len() > 0 && ref_line_of(r[i]) is Some by {
            assert(r[i] == ls[i]);
        }
        assert forall|i: int, j: int| 0 <= i < j < r.len() implies #[trigger] ref_of(r[i]) != #[trigger] ref_of(r[j]) by {
            assert(r[i] == ls[i] && r[j] == ls[j]);
        }
        lemma_recorded_pairs(r);
        let last = ls.last();
        assert(last == ls[ls.len() - 1]);
        let id = sha_of(last);
        let obj = ref_of(last);
        let m = ref_pairs(r);
        crate::assoc::lemma_key_index(m, obj);
        assert forall|j: int| 0 <= j < m.len() implies m[j].0 != obj by {
            assert(m[j].0 == ref_of(ls[j]));
        }
        assert(m.push((obj, id)) =~= ref_pairs(ls));
    }
}

proof fn lemma_compared_self(ls: Seq<Seq<char>>, k: int)
    requires
        ref_lines(ls),
        0 <= k <= ls.len(),
    ensures
        compared((ref_pairs(ls), Seq::empty(), Seq::empty(), Seq::empty()), ls.take(k)) == Some(
            (ref_pairs(ls).skip(k), Seq::<(Seq<char>, (Seq<char>, Seq<char>))>::empty(), Seq::<(Seq<char>, (Seq<char>, Seq<char>))>::empty(), Seq::<Seq<char>>::empty()),
        ),
    decreases k,
{
    let start: Progress = (ref_pairs(ls), Seq::empty(), Seq::empty(), Seq::empty());
    if k == 0 {
        assert(ref_pairs(ls).skip(0) =~= ref_pairs(ls));
        assert(ls.take(0).len() == 0);
    } else {
        lemma_compared_self(ls, k - 1);
        assert(ls.take(k).drop_last() =~= ls.take(k - 1));
        assert(ls.take(k).last() == ls[k - 1]);
        assert(ls[k - 1].len() > 0 && ref_line_of(ls[k - 1]) is Some);
        let id = sha_of(ls[k - 1]);
        let obj = ref_of(ls[k - 1]);
        let rem = ref_pairs(ls).skip(k - 1);
        assert(rem[0] == (obj, id));
        assert(key_index(rem, obj) == Some(0int));
        assert(get(rem, obj) == Some(id));
        assert(del(rem, obj) =~= ref_pairs(ls).skip(k));
    }
}

/// A snapshot compared with the refs it recorded shows no change: nothing
/// changed, nothing new and nothing retired, for a snapshot text of
/// `<sha> <ref>` lines naming distinct refs.
pub proof fn law_snapshot_unchanged(ls: Seq<Seq<char>>)
    requires
        ls.len() >= 1,
        ref_lines(ls),
        distinct_refs(ls),
        forall|i: int| 0 <= i < ls.len() ==> crate::text::lacks_char(#[trigger] ls[i], '\n'),
    ensures
        ({
            let t = crate::text::join_with(ls, "\n"@);
            let p = diff_of(t, t).unwrap().1;
            &&& diff_of(t, t) is Some
            &&& p.0.len() == 0
            &&& p.1.len() == 0
            &&& p.2.len() == 0
            &&& p.3.len() == 0
        }),
{
    reveal_strlit("\n");
    assert("\n"@ =~= seq!['\n']);
    crate::text::law_split_join(ls);
    let t = crate::text::join_with(ls, "\n"@);
    assert(lines(t) == ls);
    lemma_recorded_pairs(ls);
    lemma_compared_self(ls, ls.len() as int);
    assert(ls.take(ls.len() as int) =~= ls);
    assert(ref_pairs(ls).skip(ls.len() as int).len() == 0);
}
} // verus!
