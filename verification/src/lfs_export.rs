//! The lfs export: which lfs objects an export carries (by snapshot, by
//! file, or by the files that changed in some commits), and reading the
//! listings git gives for it.

use vstd::prelude::*;
use crate::assoc::{del, find_key, get, has_key, insert, lemma_del_keys, lemma_key_index, lemma_put_keys, put, remove, unique_keys};
use crate::git::{lines, split_lines};
use crate::listing::{group_pairs, keyed_pairs, MapBy};
use crate::shared::Outcome;
use crate::text::{byte_len, find, find_bytes, lemma_find_in_bounds, spec_substring, str_len, substring, views};

verus! {

// ---------------------------------------------------------------------------
// The blobs changed in a range
// ---------------------------------------------------------------------------

/// The paths of the blobs that `git rev-list --objects
/// --filter=object:type=blob` lists: of each line with a space, what follows
/// the first space; lines without one are skipped.
pub open spec fn blob_paths(ls: Seq<Seq<char>>) -> Seq<Seq<char>>
    decreases ls.len(),
{
    if ls.len() == 0 {
        Seq::empty()
    } else {
        let r = blob_paths(ls.drop_last());
        match find_bytes(ls.last(), " "@) {
            Some(b) => r.push(spec_substring(ls.last(), b + 1, byte_len(ls.last()))),
            None => r,
        }
    }
}

/// The files changed in a range, from the output of `git rev-list --objects
/// --filter=object:type=blob` (see [`blob_paths`]).  The tool stops when
/// git fails, so the command must have succeeded.
pub fn get_objs(output: &Outcome) -> (res: Vec<String>)
    requires
        output.status,
    ensures
        views(res@) == blob_paths(lines(output.out@)),
{
    proof {
        reveal_strlit(" ");
    }
    let ls = split_lines(output.out.as_str());
    let mut objs: Vec<String> = Vec::new();
    let mut i: usize = 0;
    while i < ls.len()
        invariant
            i <= ls.len(),
            views(objs@) == blob_paths(views(ls@).take(i as int)),
        decreases ls.len() - i,
    {
        proof {
            assert(views(ls@).take(i + 1).drop_last() =~= views(ls@).take(i as int));
            assert(views(ls@).take(i + 1).last() == ls@[i as int]@);
        }
        let line = ls[i].as_str();
        match find(line, " ") {
            Some(index) => {
                let n = str_len(line);
                proof {
                    lemma_find_in_bounds(line@, " "@);
                }
                let ghost o = views(objs@);
                objs.push(substring(line, index + 1, n));
                proof {
                    assert(views(objs@) =~= o.push(spec_substring(line@, index + 1, byte_len(line@))));
                }
            },
            None => {},
        }
        i += 1;
    }
    proof {
        assert(views(ls@).take(ls@.len() as int) =~= views(ls@));
    }
    objs
}

// ---------------------------------------------------------------------------
// Snapshots of the lfs objects
// ---------------------------------------------------------------------------

/// A line of an lfs snapshot read as (object id, path): the id up to one
/// character before the first `-`, the path from two characters after it.
/// `None` where the tool stops: no `-`, or one at the very start.
pub open spec fn snapshot_entry(v: Seq<char>) -> Option<(Seq<char>, Seq<char>)> {
    match find_bytes(v, "-"@) {
        Some(b) => if b >= 1 {
            Some((spec_substring(v, 0, b - 1), spec_substring(v, b + 2, byte_len(v))))
        } else {
            None
        },
        None => None,
    }
}

/// The objects of a snapshot's lines: id to path, a later line for the same
/// id replacing an earlier one.
pub open spec fn snapshot_contents(ls: Seq<Seq<char>>) -> Option<Seq<(Seq<char>, Seq<char>)>>
    decreases ls.len(),
{
    if ls.len() == 0 {
        Some(Seq::empty())
    } else {
        match (snapshot_contents(ls.drop_last()), snapshot_entry(ls.last())) {
            (Some(c), Some((id, obj))) => Some(put(c, id, obj)),
            _ => None,
        }
    }
}

/// The objects recorded in an lfs snapshot text (id to path).  `None` where
/// the tool stops on a line (see [`snapshot_entry`]).
pub fn read_snapshot(text: &str) -> (res: Option<Vec<(String, String)>>)
    ensures
        match res {
            Some(c) => snapshot_contents(lines(text@)) == Some(c.deep_view()),
            None => snapshot_contents(lines(text@)) is None,
        },
{
    proof {
        reveal_strlit("-");
    }
    let ls = split_lines(text);
    let mut contents: Vec<(String, String)> = Vec::new();
    proof {
        assert(contents.deep_view() =~= Seq::<(Seq<char>, Seq<char>)>::empty());
    }
    let mut i: usize = 0;
    while i < ls.len()
        invariant
            i <= ls.len(),
            views(ls@) == lines(text@),
            snapshot_contents(views(ls@).take(i as int)) == Some(contents.deep_view()),
        decreases ls.len() - i,
    {
        proof {
            assert(views(ls@).take(i + 1).drop_last() =~= views(ls@).take(i as int));
            assert(views(ls@).take(i + 1).last() == ls@[i as int]@);
        }
        let line = ls[i].as_str();
        match find(line, "-") {
            Some(b) => {
                if b < 1 {
                    proof {
                        lemma_contents_none(views(ls@), i as int);
                    }
                    return None;
                }
                let n = str_len(line);
                proof {
                    lemma_find_in_bounds(line@, "-"@);
                }
                let id = substring(line, 0, b - 1);
                let obj = substring(line, b + 2, n);
                insert(&mut contents, id, obj);
            },
            None => {
                proof {
                    lemma_contents_none(views(ls@), i as int);
                }
                return None;
            },
        }
        i += 1;
    }
    proof {
        assert(views(ls@).take(ls@.len() as int) =~= views(ls@));
    }
    Some(contents)
}

proof fn lemma_contents_none(ls: Seq<Seq<char>>, i: int)
    requires
        0 <= i < ls.len(),
        snapshot_contents(ls.take(i + 1)) is None,
    ensures
        snapshot_contents(ls) is None,
    decreases ls.len() - i,
{
    if i + 1 < ls.len() {
        assert(ls.take(i + 2).drop_last() =~= ls.take(i + 1));
        lemma_contents_none(ls, i + 1);
    } else {
        assert(ls.take(i + 1) =~= ls);
    }
}

/// The id that a line of an earlier snapshot names, for taking it out of the
/// export: read as [`snapshot_entry`] reads it, up to one character before
/// the first `-`.  `None` where the tool stops: no `-`, or one at the very
/// start.
pub open spec fn snapshot_key(v: Seq<char>) -> Option<Seq<char>> {
    match find_bytes(v, "-"@) {
        Some(b) => if b >= 1 {
            Some(spec_substring(v, 0, b - 1))
        } else {
            None
        },
        None => None,
    }
}

/// The objects left after taking out those that an earlier snapshot's lines
/// name.
pub open spec fn pruned(contents: Seq<(Seq<char>, Seq<char>)>, ls: Seq<Seq<char>>) -> Option<Seq<(Seq<char>, Seq<char>)>>
    decreases ls.len(),
{
    if ls.len() == 0 {
        Some(contents)
    } else {
        match (pruned(contents, ls.drop_last()), snapshot_key(ls.last())) {
            (Some(c), Some(id)) => Some(del(c, id)),
            _ => None,
        }
    }
}

proof fn lemma_pruned_none(contents: Seq<(Seq<char>, Seq<char>)>, ls: Seq<Seq<char>>, i: int)
    requires
        0 <= i < ls.len(),
        pruned(contents, ls.take(i + 1)) is None,
    ensures
        pruned(contents, ls) is None,
    decreases ls.len() - i,
{
    if i + 1 < ls.len() {
        assert(ls.take(i + 2).drop_last() =~= ls.take(i + 1));
        lemma_pruned_none(contents, ls, i + 1);
    } else {
        assert(ls.take(i + 1) =~= ls);
    }
}

/// A snapshot export: takes out of `contents` the objects that the earlier
/// snapshot text `previous` records (see [`snapshot_key`]).  `None` where
/// the tool stops on a line.
pub fn prune_snapshot(contents: Vec<(String, String)>, previous: &str) -> (res: Option<Vec<(String, String)>>)
    ensures
        match res {
            Some(c) => pruned(contents.deep_view(), lines(previous@)) == Some(c.deep_view()),
            None => pruned(contents.deep_view(), lines(previous@)) is None,
        },
{
    proof {
        reveal_strlit("-");
    }
    let ghost c0 = contents.deep_view();
    let mut left = contents;
    let ls = split_lines(previous);
    let mut i: usize = 0;
    while i < ls.len()
        invariant
            i <= ls.len(),
            views(ls@) == lines(previous@),
            c0 == contents.deep_view(),
            pruned(c0, views(ls@).take(i as int)) == Some(left.deep_view()),
        decreases ls.len() - i,
    {
        proof {
            assert(views(ls@).take(i + 1).drop_last() =~= views(ls@).take(i as int));
            assert(views(ls@).take(i + 1).last() == ls@[i as int]@);
        }
        let line = ls[i].as_str();
        match find(line, "-") {
            Some(b) => {
                if b < 1 {
                    proof {
                        lemma_pruned_none(c0, views(ls@), i as int);
                    }
                    return None;
                }
                let id = substring(line, 0, b - 1);
                let _ = remove(&mut left, id.as_str());
            },
            None => {
                proof {
                    lemma_pruned_none(c0, views(ls@), i as int);
                }
                return None;
            },
        }
        i += 1;
    }
    proof {
        assert(views(ls@).take(ls@.len() as int) =~= views(ls@));
    }
    Some(left)
}

// ---------------------------------------------------------------------------
// The lfs files and their objects
// ---------------------------------------------------------------------------

/// A line of `git lfs ls-files -al` read as (path, object id): the id up to
/// and with the first `-`, the path from two characters after the first
/// space.  `None` where the tool stops: no `-` or no space.
pub open spec fn ls_entry(line: Seq<char>) -> Option<(Seq<char>, Seq<char>)> {
    match (find_bytes(line, "-"@), find_bytes(line, " "@)) {
        (Some(a), Some(b)) => Some((spec_substring(line, b + 2, byte_len(line)), spec_substring(line, 0, a + 1))),
        _ => None,
    }
}

/// The (path, id) pairs of all the lines, `None` if any line fails.
pub open spec fn ls_pairs(ls: Seq<Seq<char>>) -> Option<Seq<(Seq<char>, Seq<char>)>>
    decreases ls.len(),
{
    if ls.len() == 0 {
        Some(Seq::empty())
    } else {
        match (ls_pairs(ls.drop_last()), ls_entry(ls.last())) {
            (Some(p), Some(e)) => Some(p.push(e)),
            _ => None,
        }
    }
}

proof fn lemma_ls_pairs_none(ls: Seq<Seq<char>>, i: int)
    requires
        0 <= i < ls.len(),
        ls_pairs(ls.take(i + 1)) is None,
    ensures
        ls_pairs(ls) is None,
    decreases ls.len() - i,
{
    if i + 1 < ls.len() {
        assert(ls.take(i + 2).drop_last() =~= ls.take(i + 1));
        lemma_ls_pairs_none(ls, i + 1);
    } else {
        assert(ls.take(i + 1) =~= ls);
    }
}

/// The objects of each lfs file, from the lines of `git lfs ls-files -al`:
/// each path with its ids in the order of the lines.  `None` where the
/// tool stops on a line (see [`ls_entry`]).
pub fn path_mapping(ls: &Vec<String>) -> (res: Option<Vec<(String, Vec<String>)>>)
    ensures
        match res {
            Some(m) => ls_pairs(views(ls@)) matches Some(p) && m.deep_view() == group_pairs(p),
            None => ls_pairs(views(ls@)) is None,
        },
{
    proof {
        reveal_strlit("-");
        reveal_strlit(" ");
    }
    let mut pairs: Vec<(String, String)> = Vec::new();
    proof {
        assert(pairs.deep_view() =~= Seq::<(Seq<char>, Seq<char>)>::empty());
    }
    let mut i: usize = 0;
    while i < ls.len()
        invariant
            i <= ls.len(),
            ls_pairs(views(ls@).take(i as int)) == Some(pairs.deep_view()),
        decreases ls.len() - i,
    {
        proof {
            assert(views(ls@).take(i + 1).drop_last() =~= views(ls@).take(i as int));
            assert(views(ls@).take(i + 1).last() == ls@[i as int]@);
        }
        let line = ls[i].as_str();
        let a = find(line, "-");
        let b = find(line, " ");
        if a.is_none() || b.is_none() {
            proof {
                lemma_ls_pairs_none(views(ls@), i as int);
            }
            return None;
        }
        let a = a.unwrap();
        let b = b.unwrap();
        let n = str_len(line);
        proof {
            lemma_find_in_bounds(line@, "-"@);
            lemma_find_in_bounds(line@, " "@);
        }
        let id = substring(line, 0, a + 1);
        let obj = substring(line, b + 2, n);
        let ghost o = pairs.deep_view();
        let ghost e = (obj@, id@);
        pairs.push((obj, id));
        proof {
            assert(pairs.deep_view() =~= o.push(e));
        }
        i += 1;
    }
    proof {
        assert(views(ls@).take(ls@.len() as int) =~= views(ls@));
        assert(keyed_pairs(pairs.deep_view(), MapBy::Hash) =~= pairs.deep_view());
    }
    Some(crate::listing::group_exec(&pairs, MapBy::Hash))
}

/// Each of `shas` mapped to `file`, in order.
pub open spec fn put_each(c: Seq<(Seq<char>, Seq<char>)>, shas: Seq<Seq<char>>, file: Seq<char>) -> Seq<(Seq<char>, Seq<char>)>
    decreases shas.len(),
{
    if shas.len() == 0 {
        c
    } else {
        put(put_each(c, shas.drop_last(), file), shas.last(), file)
    }
}

/// The objects to export for some files: every object of each file, mapped
/// to that file.  A file with no lfs objects stops the export (`strict`, a
/// files export) or is passed over.
pub open spec fn shas_for(mapping: Seq<(Seq<char>, Seq<Seq<char>>)>, files: Seq<Seq<char>>, strict: bool) -> Option<Seq<(Seq<char>, Seq<char>)>>
    decreases files.len(),
{
    if files.len() == 0 {
        Some(Seq::empty())
    } else {
        match shas_for(mapping, files.drop_last(), strict) {
            None => None,
            Some(c) => match get(mapping, files.last()) {
                Some(shas) => Some(put_each(c, shas, files.last())),
                None => if strict {
                    None
                } else {
                    Some(c)
                },
            },
        }
    }
}

proof fn lemma_shas_none(mapping: Seq<(Seq<char>, Seq<Seq<char>>)>, files: Seq<Seq<char>>, strict: bool, i: int)
    requires
        0 <= i < files.len(),
        shas_for(mapping, files.take(i + 1), strict) is None,
    ensures
        shas_for(mapping, files, strict) is None,
    decreases files.len() - i,
{
    if i + 1 < files.len() {
        assert(files.take(i + 2).drop_last() =~= files.take(i + 1));
        lemma_shas_none(mapping, files, strict, i + 1);
    } else {
        assert(files.take(i + 1) =~= files);
    }
}

fn shas_exec(mapping: &Vec<(String, Vec<String>)>, files: &Vec<String>, strict: bool) -> (res: Option<Vec<(String, String)>>)
    ensures
        match res {
            Some(c) => shas_for(mapping.deep_view(), views(files@), strict) == Some(c.deep_view()),
            None => shas_for(mapping.deep_view(), views(files@), strict) is None,
        },
{
    let mut contents: Vec<(String, String)> = Vec::new();
    proof {
        assert(contents.deep_view() =~= Seq::<(Seq<char>, Seq<char>)>::empty());
    }
    let mut i: usize = 0;
    while i < files.len()
        invariant
            i <= files.len(),
            shas_for(mapping.deep_view(), views(files@).take(i as int), strict) == Some(contents.deep_view()),
        decreases files.len() - i,
    {
        proof {
            assert(views(files@).take(i + 1).drop_last() =~= views(files@).take(i as int));
            assert(views(files@).take(i + 1).last() == files@[i as int]@);
        }
        let file = &files[i];
        match find_key(mapping, file.as_str()) {
            None => {
                if strict {
                    proof {
                        lemma_shas_none(mapping.deep_view(), views(files@), strict, i as int);
                    }
                    return None;
                }
            },
            Some(j) => {
                proof {
                    lemma_key_index(mapping.deep_view(), file@);
                }
                let shas = &mapping[j].1;
                proof {
                    assert(mapping.deep_view()[j as int] == (mapping@[j as int].0@, mapping@[j as int].1.deep_view()));
                    assert(shas.deep_view() =~= views(shas@));
                }
                let ghost c0 = contents.deep_view();
                let mut k: usize = 0;
                while k < shas.len()
                    invariant
                        k <= shas.len(),
                        contents.deep_view() == put_each(c0, views(shas@).take(k as int), file@),
                    decreases shas.len() - k,
                {
                    proof {
                        assert(views(shas@).take(k + 1).drop_last() =~= views(shas@).take(k as int));
                        assert(views(shas@).take(k + 1).last() == shas@[k as int]@);
                    }
                    insert(&mut contents, shas[k].clone(), file.clone());
                    k += 1;
                }
                proof {
                    assert(views(shas@).take(shas@.len() as int) =~= views(shas@));
                }
            },
        }
        i += 1;
    }
    proof {
        assert(views(files@).take(files@.len() as int) =~= views(files@));
    }
    Some(contents)
}

/// A files export: every object of each named file, mapped to it (object id
/// to path).  `None` where the tool stops: a file with no lfs objects.
pub fn files_contents(mapping: &Vec<(String, Vec<String>)>, files: &Vec<String>) -> (res: Option<Vec<(String, String)>>)
    ensures
        match res {
            Some(c) => shas_for(mapping.deep_view(), views(files@), true) == Some(c.deep_view()),
            None => shas_for(mapping.deep_view(), views(files@), true) is None,
        },
{
    shas_exec(mapping, files, true)
}

/// The objects of the files that changed in the exported commits, mapped to
/// their paths; changed files that lfs does not hold are passed over.
pub fn changed_contents(mapping: &Vec<(String, Vec<String>)>, files: &Vec<String>) -> (res: Vec<(String, String)>)
    ensures
        shas_for(mapping.deep_view(), views(files@), false) == Some(res.deep_view()),
{
    match shas_exec(mapping, files, false) {
        Some(c) => c,
        None => {
            proof {
                lemma_lenient_some(mapping.deep_view(), views(files@));
            }
            Vec::new()
        },
    }
}

proof fn lemma_lenient_some(mapping: Seq<(Seq<char>, Seq<Seq<char>>)>, files: Seq<Seq<char>>)
    ensures
        shas_for(mapping, files, false) is Some,
    decreases files.len(),
{
    if files.len() > 0 {
        lemma_lenient_some(mapping, files.drop_last());
    }
}

/// A chosen (id, path) pair: the path is a requested file and lfs lists the
/// id among its objects.
pub open spec fn chosen_pair(p: (Seq<char>, Seq<char>), mapping: Seq<(Seq<char>, Seq<Seq<char>>)>, files: Seq<Seq<char>>) -> bool {
    files.contains(p.1) && match get(mapping, p.1) {
        Some(s) => s.contains(p.0),
        None => false,
    }
}

/// Every chosen pair is one of the requested files' objects.
pub open spec fn all_chosen(c: Seq<(Seq<char>, Seq<char>)>, mapping: Seq<(Seq<char>, Seq<Seq<char>>)>, files: Seq<Seq<char>>) -> bool {
    forall|i: int| 0 <= i < c.len() ==> #[trigger] chosen_pair(c[i], mapping, files)
}

proof fn lemma_put_each_chosen(c: Seq<(Seq<char>, Seq<char>)>, shas: Seq<Seq<char>>, all: Seq<Seq<char>>, file: Seq<char>, mapping: Seq<(Seq<char>, Seq<Seq<char>>)>, files: Seq<Seq<char>>)
    requires
        get(mapping, file) == Some(all),
        forall|j: int| 0 <= j < shas.len() ==> all.contains(#[trigger] shas[j]),
        files.contains(file),
        all_chosen(c, mapping, files),
    ensures
        all_chosen(put_each(c, shas, file), mapping, files),
    decreases shas.len(),
{
    if shas.len() > 0 {
        let prefix = shas.drop_last();
        assert forall|j: int| 0 <= j < prefix.len() implies all.contains(#[trigger] prefix[j]) by {
            assert(prefix[j] == shas[j]);
        }
        lemma_put_each_chosen(c, prefix, all, file, mapping, files);
        let m = put_each(c, prefix, file);
        let sha = shas.last();
        assert(all.contains(shas[shas.len() - 1]));
        assert(chosen_pair((sha, file), mapping, files));
        crate::assoc::lemma_key_index(m, sha);
        let r = put(m, sha, file);
        assert forall|i: int| 0 <= i < r.len() implies #[trigger] chosen_pair(r[i], mapping, files) by {
            match crate::assoc::key_index(m, sha) {
                Some(k) => {
                    if i != k {
                        assert(r[i] == m[i]);
                    }
                },
                None => {
                    if i < m.len() {
                        assert(r[i] == m[i]);
                    }
                },
            }
        }
    }
}

/// The objects chosen for some files are objects of those files: each
/// chosen id is one that lfs lists for a requested file, and it is mapped to
/// that file.
pub proof fn law_shas_for_sound(mapping: Seq<(Seq<char>, Seq<Seq<char>>)>, files: Seq<Seq<char>>, strict: bool)
    ensures
        shas_for(mapping, files, strict) matches Some(c) ==> all_chosen(c, mapping, files),
    decreases files.len(),
{
    if files.len() > 0 {
        let prev = files.drop_last();
        law_shas_for_sound(mapping, prev, strict);
        if let Some(c) = shas_for(mapping, prev, strict) {
            assert forall|i: int| 0 <= i < c.len() implies #[trigger] chosen_pair(c[i], mapping, files) by {
                assert(chosen_pair(c[i], mapping, prev));
                let j = choose|j: int| 0 <= j < prev.len() && prev[j] == c[i].1;
                assert(files[j] == prev[j]);
            }
            let f = files.last();
            assert(files.contains(f)) by {
                assert(files[files.len() - 1] == f);
            }
            if let Some(shas) = get(mapping, f) {
                assert forall|j: int| 0 <= j < shas.len() implies shas.contains(#[trigger] shas[j]) by {}
                lemma_put_each_chosen(c, shas, shas, f, mapping, files);
            }
        }
    }
}

/// Every line reads as an lfs snapshot entry.
pub open spec fn snapshot_lines(ls: Seq<Seq<char>>) -> bool {
    forall|i: int| 0 <= i < ls.len() ==> #[trigger] snapshot_entry(ls[i]) is Some
}

/// The object id a snapshot line names.
pub open spec fn entry_id(v: Seq<char>) -> Seq<char> {
    match snapshot_entry(v) {
        Some((id, _)) => id,
        None => Seq::empty(),
    }
}

/// The path a snapshot line names.
pub open spec fn entry_path(v: Seq<char>) -> Seq<char> {
    match snapshot_entry(v) {
        Some((_, obj)) => obj,
        None => Seq::empty(),
    }
}

/// The object ids a snapshot's lines name.
pub open spec fn snapshot_ids(ls: Seq<Seq<char>>) -> Seq<Seq<char>> {
    ls.map_values(|v: Seq<char>| entry_id(v))
}

proof fn lemma_entry_key(v: Seq<char>)
    requires
        snapshot_entry(v) is Some,
    ensures
        snapshot_key(v) == Some(entry_id(v)),
{
}

proof fn lemma_snapshot_contents_keys(ls: Seq<Seq<char>>)
    requires
        snapshot_lines(ls),
    ensures
        snapshot_contents(ls) is Some,
        unique_keys(snapshot_contents(ls)->0),
        forall|x: Seq<char>| has_key(snapshot_contents(ls)->0, x) ==> snapshot_ids(ls).contains(x),
    decreases ls.len(),
{
    if ls.len() > 0 {
        let r = ls.drop_last();
        assert forall|i: int| 0 <= i < r.len() implies #[trigger] snapshot_entry(r[i]) is Some by {
            assert(r[i] == ls[i]);
        }
        lemma_snapshot_contents_keys(r);
        assert(snapshot_entry(ls.last()) is Some) by {
            assert(ls.last() == ls[ls.len() - 1]);
        }
        let c = snapshot_contents(r)->0;
        let id = entry_id(ls.last());
        let obj = entry_path(ls.last());
        lemma_put_keys(c, id, obj);
        assert forall|x: Seq<char>| has_key(put(c, id, obj), x) implies snapshot_ids(ls).contains(x) by {
            if x == id {
                assert(snapshot_ids(ls)[ls.len() - 1] == id);
            } else {
                assert(snapshot_ids(r).contains(x));
                let j = choose|j: int| 0 <= j < snapshot_ids(r).len() && snapshot_ids(r)[j] == x;
                assert(snapshot_ids(ls)[j] == snapshot_ids(r)[j]);
            }
        }
    }
}

proof fn lemma_pruned_keys(c: Seq<(Seq<char>, Seq<char>)>, ls: Seq<Seq<char>>)
    requires
        snapshot_lines(ls),
        unique_keys(c),
    ensures
        pruned(c, ls) is Some,
        unique_keys(pruned(c, ls)->0),
        forall|x: Seq<char>| has_key(pruned(c, ls)->0, x) <==> (has_key(c, x) && !snapshot_ids(ls).contains(x)),
    decreases ls.len(),
{
    if ls.len() > 0 {
        let r = ls.drop_last();
        assert forall|i: int| 0 <= i < r.len() implies #[trigger] snapshot_entry(r[i]) is Some by {
            assert(r[i] == ls[i]);
        }
        lemma_pruned_keys(c, r);
        assert(ls.last() == ls[ls.len() - 1]);
        lemma_entry_key(ls.last());
        let p = pruned(c, r)->0;
        let id = entry_id(ls.last());
        lemma_del_keys(p, id);
        assert forall|x: Seq<char>| has_key(del(p, id), x) <==> (has_key(c, x) && !snapshot_ids(ls).contains(x)) by {
            assert(snapshot_ids(ls)[ls.len() - 1] == id);
            assert(has_key(p, x) <==> (has_key(c, x) && !snapshot_ids(r).contains(x)));
            assert(has_key(del(p, id), x) <==> (has_key(p, x) && x != id));
            if x == id {
                assert(snapshot_ids(ls).contains(x));
            }
            if snapshot_ids(ls).contains(x) && x != id {
                let j = choose|j: int| 0 <= j < snapshot_ids(ls).len() && snapshot_ids(ls)[j] == x;
                assert(j < r.len());
                assert(snapshot_ids(r)[j] == x);
                assert(snapshot_ids(r).contains(x));
            }
            if snapshot_ids(r).contains(x) {
                let j = choose|j: int| 0 <= j < snapshot_ids(r).len() && snapshot_ids(r)[j] == x;
                assert(snapshot_ids(ls)[j] == x);
                assert(snapshot_ids(ls).contains(x));
            }
        }
    }
}

/// A snapshot export carries only what is new: the objects a snapshot text
/// records, pruned by that same text, leave nothing, for a text whose lines
/// all read as snapshot entries.
pub proof fn law_snapshot_prunes_itself(ls: Seq<Seq<char>>)
    requires
        snapshot_lines(ls),
    ensures
        snapshot_contents(ls) is Some,
        pruned(snapshot_contents(ls)->0, ls) == Some(Seq::<(Seq<char>, Seq<char>)>::empty()),
{
    lemma_snapshot_contents_keys(ls);
    let c = snapshot_contents(ls)->0;
    lemma_pruned_keys(c, ls);
    let p = pruned(c, ls)->0;
    if p.len() > 0 {
        lemma_key_index(p, p[0].0);
        assert(has_key(p, p[0].0));
        assert(has_key(c, p[0].0));
    }
    assert(p =~= Seq::<(Seq<char>, Seq<char>)>::empty());
}

} // verus!
