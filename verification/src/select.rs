//! Choosing what to export: telling commit ids from branch and tag names,
//! validating the date and time of a timestamp export, and reading the
//! commit log of a timestamp export.

use vstd::prelude::*;
use crate::assoc::{insert, put};
use crate::git::{parent_list, parents_of};
use crate::refs::{contains_str, strip_front, without};
use crate::text::{
    byte_len, find, find_bytes, has_prefix, lemma_find_in_bounds, spec_substring, split,
    split_by, starts_with, str_eq, str_len, substring, views,
};

verus! {

/// Whether the `regex` crate finds a match of `pattern` in `text`; `None`
/// when the pattern does not compile.
pub uninterp spec fn regex_match(pattern: Seq<char>, text: Seq<char>) -> Option<bool>;

/// `Regex::new(pattern)` then `Regex::is_match(text)` of the `regex` crate:
/// the contract names the answer; a pattern that the crate refuses gives
/// `None`.
#[verifier::external_body]
pub(crate) fn regex_is_match(pattern: &str, text: &str) -> (res: Option<bool>)
    ensures
        res == regex_match(pattern@, text@),
{
    match regex::Regex::new(pattern) {
        Ok(re) => Some(re.is_match(text)),
        Err(_) => None,
    }
}

/// The pattern of an abbreviated or full commit id.
pub open spec fn commit_id_pattern() -> Seq<char> {
    "^[0-9a-f]{4,40}([0-9a-f]{1,24}([0-9a-f]{1,88})?)?$"@
}

/// The pattern of a date `YYYY-MM-DD`.
pub open spec fn date_pattern() -> Seq<char> {
    "^(19|20|21)[0-9]{2}-(1[0-2]|0[1-9])-(3[01]|[12][0-9]|0[1-9])$"@
}

/// The pattern of a time `HH:MM:SS`.
pub open spec fn time_pattern() -> Seq<char> {
    "^(2[0-3]|[0-1][0-9])(:[0-5][0-9]){2}$"@
}

/// Whether `obj` looks like a commit id.
pub fn looks_like_commit(obj: &str) -> (res: Option<bool>)
    ensures
        res == regex_match(commit_id_pattern(), obj@),
{
    regex_is_match("^[0-9a-f]{4,40}([0-9a-f]{1,24}([0-9a-f]{1,88})?)?$", obj)
}

/// Whether `value` is a date `YYYY-MM-DD` of the years 1900 to 2199.
pub fn valid_date(value: &str) -> (res: Option<bool>)
    ensures
        res == regex_match(date_pattern(), value@),
{
    regex_is_match("^(19|20|21)[0-9]{2}-(1[0-2]|0[1-9])-(3[01]|[12][0-9]|0[1-9])$", value)
}

/// Whether `value` is a time `HH:MM:SS`.
pub fn valid_time(value: &str) -> (res: Option<bool>)
    ensures
        res == regex_match(time_pattern(), value@),
{
    regex_is_match("^(2[0-3]|[0-1][0-9])(:[0-5][0-9]){2}$", value)
}

// ---------------------------------------------------------------------------
// Telling commits, branches and tags apart
// ---------------------------------------------------------------------------

/// What a name given on the command line stands for.
pub enum RefKind {
    Commit,
    Branch,
    Tag,
}

/// What a name given on the command line was resolved to, before git is
/// asked for the sha.
pub enum Resolution {
    /// A commit id: ask `git rev-list -n 1` for it.
    Commit(String),
    /// A branch or tag of this name: ask `git show-ref -s` for it.
    Named(String, RefKind),
    /// Named as a branch, but no such branch.
    NoBranch(String),
    /// Named as a tag, but no such tag.
    NoTag(String),
    /// Neither a commit id nor a branch or tag.
    Unknown,
}

/// Taken as a commit id: neither a branch nor a tag, and shaped like one.
pub open spec fn as_commit(obj: Seq<char>, branches: Seq<Seq<char>>, tags: Seq<Seq<char>>, commit_like: bool) -> bool {
    !branches.contains(obj) && !tags.contains(obj) && commit_like
}

/// Taken as a branch.
pub open spec fn as_branch(obj: Seq<char>, expected: Seq<char>, branches: Seq<Seq<char>>) -> bool {
    !has_prefix(obj, "refs/tags"@) && expected != "tag"@ && (branches.contains(obj) || has_prefix(
        obj,
        "refs/heads"@,
    ))
}

/// Taken as a tag.
pub open spec fn as_tag(obj: Seq<char>, expected: Seq<char>, tags: Seq<Seq<char>>) -> bool {
    !has_prefix(obj, "refs/branches"@) && expected != "branch"@ && (tags.contains(obj) || has_prefix(
        obj,
        "refs/tags"@,
    ))
}

/// The branch name: without `refs/heads/` where it starts with `refs/heads`.
pub open spec fn branch_name(obj: Seq<char>) -> Seq<char> {
    if has_prefix(obj, "refs/heads"@) {
        without(obj, 11)
    } else {
        obj
    }
}

/// The tag name: without `refs/tags/` where it starts with `refs/tags`.
pub open spec fn tag_name(obj: Seq<char>) -> Seq<char> {
    if has_prefix(obj, "refs/tags"@) {
        without(obj, 10)
    } else {
        obj
    }
}

/// A name that is one of the local tags, is not a local branch and carries
/// none of the `refs/heads`, `refs/tags` and `refs/branches` prefixes is
/// taken as a tag of that very name unless a branch is expected, whether or
/// not it is shaped like a commit id; a local branch's name likewise as a
/// branch unless a tag is expected.
pub proof fn law_plain_names(obj: Seq<char>, expected: Seq<char>, branches: Seq<Seq<char>>, tags: Seq<Seq<char>>, commit_like: bool)
    requires
        !has_prefix(obj, "refs/heads"@),
        !has_prefix(obj, "refs/tags"@),
        !has_prefix(obj, "refs/branches"@),
    ensures
        tags.contains(obj) && !branches.contains(obj) && expected != "branch"@ ==> {
            &&& !as_commit(obj, branches, tags, commit_like)
            &&& !as_branch(obj, expected, branches)
            &&& as_tag(obj, expected, tags)
            &&& tag_name(obj) == obj
            &&& tags.contains(tag_name(obj))
        },
        branches.contains(obj) && expected != "tag"@ ==> {
            &&& !as_commit(obj, branches, tags, commit_like)
            &&& as_branch(obj, expected, branches)
            &&& branch_name(obj) == obj
            &&& branches.contains(branch_name(obj))
        },
{
}

/// Resolves a name given on the command line against the local branches and
/// tags (`get_ref`): a commit id when it is neither and looks like one; a
/// branch when it is one or starts with `refs/heads` (unless a tag is
/// expected); a tag likewise (unless a branch is expected).
pub fn resolve_ref(obj: &str, expected: &str, branches: &Vec<String>, tags: &Vec<String>, commit_like: bool) -> (res: Resolution)
    ensures
        as_commit(obj@, views(branches@), views(tags@), commit_like) ==> (res matches Resolution::Commit(c) && c@ == obj@),
        !as_commit(obj@, views(branches@), views(tags@), commit_like) && as_branch(obj@, expected@, views(branches@)) ==> (
        if views(branches@).contains(branch_name(obj@)) {
            res matches Resolution::Named(n, RefKind::Branch) && n@ == branch_name(obj@)
        } else {
            res matches Resolution::NoBranch(n) && n@ == branch_name(obj@)
        }),
        !as_commit(obj@, views(branches@), views(tags@), commit_like) && !as_branch(obj@, expected@, views(branches@))
            && as_tag(obj@, expected@, views(tags@)) ==> (if views(tags@).contains(tag_name(obj@)) {
            res matches Resolution::Named(n, RefKind::Tag) && n@ == tag_name(obj@)
        } else {
            res matches Resolution::NoTag(n) && n@ == tag_name(obj@)
        }),
        !as_commit(obj@, views(branches@), views(tags@), commit_like) && !as_branch(obj@, expected@, views(branches@))
            && !as_tag(obj@, expected@, views(tags@)) ==> res is Unknown,
        views(tags@).contains(obj@) && !views(branches@).contains(obj@) && expected@ != "branch"@ && !has_prefix(
            obj@,
            "refs/heads"@,
        ) && !has_prefix(obj@, "refs/tags"@) && !has_prefix(obj@, "refs/branches"@) ==> (res matches Resolution::Named(
            n,
            RefKind::Tag,
        ) && n@ == obj@),
        views(branches@).contains(obj@) && expected@ != "tag"@ && !has_prefix(obj@, "refs/heads"@) && !has_prefix(
            obj@,
            "refs/tags"@,
        ) ==> (res matches Resolution::Named(n, RefKind::Branch) && n@ == obj@),
{
    proof {
        if !has_prefix(obj@, "refs/heads"@) && !has_prefix(obj@, "refs/tags"@) && !has_prefix(obj@, "refs/branches"@) {
            law_plain_names(obj@, expected@, views(branches@), views(tags@), commit_like);
        }
    }
    let in_branches = contains_str(branches, obj);
    let in_tags = contains_str(tags, obj);
    if !in_branches && !in_tags && commit_like {
        return Resolution::Commit(crate::text::to_owned(obj));
    }
    if !starts_with(obj, "refs/tags") && !str_eq(expected, "tag") && (in_branches || starts_with(obj, "refs/heads")) {
        let name = if starts_with(obj, "refs/heads") {
            strip_front(obj, 11)
        } else {
            crate::text::to_owned(obj)
        };
        if contains_str(branches, name.as_str()) {
            Resolution::Named(name, RefKind::Branch)
        } else {
            Resolution::NoBranch(name)
        }
    } else if !starts_with(obj, "refs/branches") && !str_eq(expected, "branch") && (in_tags || starts_with(obj, "refs/tags")) {
        let name = if starts_with(obj, "refs/tags") {
            strip_front(obj, 10)
        } else {
            crate::text::to_owned(obj)
        };
        if contains_str(tags, name.as_str()) {
            Resolution::Named(name, RefKind::Tag)
        } else {
            Resolution::NoTag(name)
        }
    } else {
        Resolution::Unknown
    }
}

/// The commit of a tag and whether the tag is annotated (`tag_commit`): a
/// tag whose object is a commit is light and names that commit; otherwise it
/// is annotated and its commit is what `git rev-list -n 1` peels it to.
/// `None` where the tool stops: no object type, or an annotated tag
/// that could not be peeled.
pub fn tag_commit(ref_id: &str, object_type: Option<String>, peeled: Option<String>) -> (res: Option<(String, bool)>)
    ensures
        object_type is None ==> res is None,
        object_type matches Some(t) && t@ == "commit"@ ==> (res matches Some(r) && r.0@ == ref_id@ && !r.1),
        object_type matches Some(t) && t@ != "commit"@ ==> (match peeled {
            Some(p) => res matches Some(r) && r.0@ == p@ && r.1,
            None => res is None,
        }),
{
    match object_type {
        None => None,
        Some(t) => {
            if str_eq(t.as_str(), "commit") {
                Some((crate::text::to_owned(ref_id), false))
            } else {
                match peeled {
                    Some(p) => Some((p, true)),
                    None => None,
                }
            }
        },
    }
}

} // verus!

verus! {

// ---------------------------------------------------------------------------
// The commit log of a timestamp export
// ---------------------------------------------------------------------------

/// A branch decoration: `HEAD -> name` gives `name` (from three characters
/// past the `->`), any other decoration is taken as it is.
pub open spec fn decoration_branch(d: Seq<char>) -> Seq<char> {
    if has_prefix(d, "HEAD -> "@) {
        match find_bytes(d, "->"@) {
            Some(b) => spec_substring(d, b + 3, byte_len(d)),
            None => d,
        }
    } else {
        d
    }
}

/// The tags among the decorations (`tag: name`), in order.
pub open spec fn decoration_tags(ds: Seq<Seq<char>>) -> Seq<Seq<char>>
    decreases ds.len(),
{
    if ds.len() == 0 {
        Seq::empty()
    } else {
        let r = decoration_tags(ds.drop_last());
        if has_prefix(ds.last(), "tag: "@) {
            r.push(without(ds.last(), 5))
        } else {
            r
        }
    }
}

/// The branches among the decorations, in order.
pub open spec fn decoration_branches(ds: Seq<Seq<char>>) -> Seq<Seq<char>>
    decreases ds.len(),
{
    if ds.len() == 0 {
        Seq::empty()
    } else {
        let r = decoration_branches(ds.drop_last());
        if has_prefix(ds.last(), "tag: "@) {
            r
        } else {
            r.push(decoration_branch(ds.last()))
        }
    }
}

/// The decorations of a log line, split at `, ` (none when empty).
pub open spec fn decorations(text: Seq<char>) -> Seq<Seq<char>> {
    if text.len() == 0 {
        Seq::empty()
    } else {
        split_by(text, ", "@)
    }
}

/// A line of `git log --pretty=format:%H=%P=%D` (or `%H=%P`) read as: the
/// commit before the first `=`, its parents (split at spaces, none when
/// empty) up to the next `=` or the end, and (when `decorated` and a second
/// `=` is there) the tags and branches named after it.  `None` when the line
/// has no `=`.
pub open spec fn log_entry_of(line: Seq<char>, decorated: bool) -> Option<(Seq<char>, Seq<Seq<char>>, Seq<Seq<char>>, Seq<Seq<char>>)> {
    match find_bytes(line, "="@) {
        None => None,
        Some(a) => {
            let rest = spec_substring(line, a + 1, byte_len(line));
            match find_bytes(rest, "="@) {
                None => Some((spec_substring(line, 0, a), parents_of(rest), Seq::empty(), Seq::empty())),
                Some(b) => {
                    let ds = if decorated {
                        decorations(spec_substring(rest, b + 1, byte_len(rest)))
                    } else {
                        Seq::empty()
                    };
                    Some(
                        (
                            spec_substring(line, 0, a),
                            parents_of(spec_substring(rest, 0, b)),
                            decoration_tags(ds),
                            decoration_branches(ds),
                        ),
                    )
                },
            }
        },
    }
}

/// One commit of the log.
pub struct LogEntry {
    pub commit: String,
    pub parents: Vec<String>,
    pub tags: Vec<String>,
    pub branches: Vec<String>,
}

fn split_decorations(ds: &Vec<String>) -> (res: (Vec<String>, Vec<String>))
    ensures
        views(res.0@) == decoration_tags(views(ds@)),
        views(res.1@) == decoration_branches(views(ds@)),
{
    let mut tags: Vec<String> = Vec::new();
    let mut branches: Vec<String> = Vec::new();
    let mut i: usize = 0;
    while i < ds.len()
        invariant
            i <= ds.len(),
            views(tags@) == decoration_tags(views(ds@).take(i as int)),
            views(branches@) == decoration_branches(views(ds@).take(i as int)),
        decreases ds.len() - i,
    {
        proof {
            assert(views(ds@).take(i + 1).drop_last() =~= views(ds@).take(i as int));
            assert(views(ds@).take(i + 1).last() == ds@[i as int]@);
        }
        let d = &ds[i];
        if starts_with(d.as_str(), "tag: ") {
            let ghost ot = views(tags@);
            tags.push(strip_front(d.as_str(), 5));
            proof {
                assert(views(tags@) =~= ot.push(without(d@, 5)));
            }
        } else {
            let dn = str_len(d.as_str());
            let b = if starts_with(d.as_str(), "HEAD -> ") {
                match find(d.as_str(), "->") {
                    Some(k) => {
                        proof {
                            lemma_find_in_bounds(d@, "->"@);
                        }
                        substring(d.as_str(), k + 3, dn)
                    },
                    None => d.clone(),
                }
            } else {
                d.clone()
            };
            let ghost ob = views(branches@);
            branches.push(b);
            proof {
                assert(views(branches@) =~= ob.push(decoration_branch(d@)));
            }
        }
        i += 1;
    }
    proof {
        assert(views(ds@).take(ds@.len() as int) =~= views(ds@));
    }
    (tags, branches)
}

/// Reads one line of the commit log.
pub fn parse_log_line(line: &str, decorated: bool) -> (res: Option<LogEntry>)
    ensures
        res is None <==> log_entry_of(line@, decorated) is None,
        res matches Some(e) ==> log_entry_of(line@, decorated) == Some(
            (e.commit@, views(e.parents@), views(e.tags@), views(e.branches@)),
        ),
{
    let n = str_len(line);
    let a = match find(line, "=") {
        None => return None,
        Some(a) => a,
    };
    proof {
        lemma_find_in_bounds(line@, "="@);
    }
    let rest = substring(line, a + 1, n);
    let rn = str_len(rest.as_str());
    let commit = substring(line, 0, a);
    let b = match find(rest.as_str(), "=") {
        None => {
            let parents = parent_list(rest.as_str());
            let e = LogEntry { commit, parents, tags: Vec::new(), branches: Vec::new() };
            proof {
                assert(views(e.tags@) =~= Seq::<Seq<char>>::empty());
                assert(views(e.branches@) =~= Seq::<Seq<char>>::empty());
            }
            return Some(e);
        },
        Some(b) => b,
    };
    proof {
        lemma_find_in_bounds(rest@, "="@);
        reveal_strlit(" ");
        reveal_strlit(", ");
    }
    let parents = parent_list(substring(rest.as_str(), 0, b).as_str());
    let ds: Vec<String> = if decorated {
        let text = substring(rest.as_str(), b + 1, rn);
        if text.as_str().is_empty() {
            Vec::new()
        } else {
            split(text.as_str(), ", ")
        }
    } else {
        Vec::new()
    };
    proof {
        if ds@.len() == 0 {
            assert(views(ds@) =~= Seq::<Seq<char>>::empty());
        }
    }
    let (tags, branches) = split_decorations(&ds);
    Some(LogEntry { commit, parents, tags, branches })
}

/// A log entry as values.
pub open spec fn entry_view(e: LogEntry) -> (Seq<char>, Seq<Seq<char>>, Seq<Seq<char>>, Seq<Seq<char>>) {
    (e.commit@, views(e.parents@), views(e.tags@), views(e.branches@))
}

/// The entries of a commit log's lines, in order, empty lines skipped (a log
/// with no commits has none); `None` when a line has no `=`.
pub open spec fn log_of(ls: Seq<Seq<char>>, decorated: bool) -> Option<Seq<(Seq<char>, Seq<Seq<char>>, Seq<Seq<char>>, Seq<Seq<char>>)>>
    decreases ls.len(),
{
    if ls.len() == 0 {
        Some(Seq::empty())
    } else {
        match log_of(ls.drop_last(), decorated) {
            None => None,
            Some(es) => if ls.last().len() == 0 {
                Some(es)
            } else {
                match log_entry_of(ls.last(), decorated) {
                    None => None,
                    Some(e) => Some(es.push(e)),
                }
            },
        }
    }
}

proof fn lemma_log_none(ls: Seq<Seq<char>>, decorated: bool, i: int)
    requires
        0 <= i < ls.len(),
        log_of(ls.take(i + 1), decorated) is None,
    ensures
        log_of(ls, decorated) is None,
    decreases ls.len() - i,
{
    if i + 1 < ls.len() {
        assert(ls.take(i + 2).drop_last() =~= ls.take(i + 1));
        lemma_log_none(ls, decorated, i + 1);
    } else {
        assert(ls.take(i + 1) =~= ls);
    }
}

/// Reads the commit log of a timestamp export (see [`log_of`]).
pub fn parse_log(out: &str, decorated: bool) -> (res: Option<Vec<LogEntry>>)
    ensures
        match res {
            Some(v) => log_of(crate::git::lines(out@), decorated) == Some(v@.map_values(|e: LogEntry| entry_view(e))),
            None => log_of(crate::git::lines(out@), decorated) is None,
        },
{
    let ls = crate::git::split_lines(out);
    let mut res: Vec<LogEntry> = Vec::new();
    let mut i: usize = 0;
    proof {
        assert(res@.map_values(|e: LogEntry| entry_view(e)) =~= Seq::empty());
    }
    while i < ls.len()
        invariant
            i <= ls.len(),
            views(ls@) == crate::git::lines(out@),
            log_of(views(ls@).take(i as int), decorated) == Some(res@.map_values(|e: LogEntry| entry_view(e))),
        decreases ls.len() - i,
    {
        proof {
            assert(views(ls@).take(i + 1).drop_last() =~= views(ls@).take(i as int));
            assert(views(ls@).take(i + 1).last() == ls@[i as int]@);
        }
        if !ls[i].as_str().is_empty() {
            match parse_log_line(ls[i].as_str(), decorated) {
                None => {
                    proof {
                        lemma_log_none(views(ls@), decorated, i as int);
                    }
                    return None;
                },
                Some(e) => {
                    let ghost o = res@.map_values(|e: LogEntry| entry_view(e));
                    let ghost ev = entry_view(e);
                    res.push(e);
                    proof {
                        assert(res@.map_values(|e: LogEntry| entry_view(e)) =~= o.push(ev));
                    }
                },
            }
        }
        i += 1;
    }
    proof {
        assert(views(ls@).take(ls@.len() as int) =~= views(ls@));
    }
    Some(res)
}

/// The refs named by a timestamp export, each new (no previous sha): the
/// names in order, a later name replacing an earlier one of the same name.
pub open spec fn new_refs_of(names: Seq<Seq<char>>, shas: Seq<Seq<char>>) -> Seq<(Seq<char>, (Seq<char>, Seq<char>))>
    decreases names.len(),
{
    if names.len() == 0 {
        Seq::empty()
    } else {
        put(
            new_refs_of(names.drop_last(), shas),
            names.last(),
            (Seq::empty(), shas[names.len() - 1]),
        )
    }
}

/// Records refs as new ones pointing at the given shas (`insert(name, ("", sha))`).
pub fn new_refs(names: &Vec<String>, shas: &Vec<String>) -> (res: Vec<(String, (String, String))>)
    requires
        names.len() == shas.len(),
    ensures
        res.deep_view() == new_refs_of(views(names@), views(shas@)),
{
    let mut res: Vec<(String, (String, String))> = Vec::new();
    let mut i: usize = 0;
    while i < names.len()
        invariant
            i <= names.len() == shas.len(),
            res.deep_view() == new_refs_of(views(names@).take(i as int), views(shas@)),
        decreases names.len() - i,
    {
        proof {
            assert(views(names@).take(i + 1).drop_last() =~= views(names@).take(i as int));
            assert(views(names@).take(i + 1).last() == names@[i as int]@);
        }
        insert(&mut res, names[i].clone(), (String::new(), shas[i].clone()));
        i += 1;
    }
    proof {
        assert(views(names@).take(names@.len() as int) =~= views(names@));
    }
    res
}

} // verus!
