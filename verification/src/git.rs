//! The git commands the tools run, and what they read from their outcomes.
//!
//! Running a command is input/output and happens outside this library: a
//! [`Request`] says which `git` command to run, and the functions named after
//! the tools' git helpers read the [`Outcome`] that came back.

use vstd::prelude::*;
use crate::shared::Outcome;
use crate::text::{
    byte_len, find, find_bytes, lemma_byte_offset_full, lemma_find_in_bounds, spec_substring, split,
    split_by, str_len, substring, to_owned, views,
};

verus! {

/// A `git` command that one of the tools runs.
pub enum Request {
    /// `git show-ref --tags --heads`
    AllRef,
    /// `git show-ref -s <obj>`
    ShowRef { obj: String },
    /// `git branch -l`
    ListBranches,
    /// `git remote show origin`
    DefaultBranch,
    /// `git tag -l`
    ListTags,
    /// `git rev-list -n 1 <obj>`
    GetCommit { obj: String },
    /// `git show -s --pretty=%P <commit>`
    GetParents { commit: String },
    /// `git merge-base --is-ancestor <ancestor> <commit>`
    IsAncestor { commit: String, ancestor: String },
    /// `git cat-file -t <sha>`
    ShaType { sha: String },
    /// `git rev-list --objects --no-object-names <range>`
    GetObjs { commit: String, ancestor: String },
    /// `git update-ref <ref_path> <commit>`
    UpdateRef { commit: String, ref_path: String },
    /// `git branch -D <branch>`
    DeleteBranch { branch: String },
    /// `git tag <tag> <commit>`
    CreateLightTag { tag: String, commit: String },
    /// `git tag -d <tag>`
    DeleteTag { tag: String },
    /// `git branch <name> <commit>`
    CreateBranch { name: String, commit: String },
    /// `git lfs ls-files -al`
    LfsList,
    /// `git lfs fetch --all`
    LfsFetch,
    /// `git lfs push --all <remote>`
    LfsPush { remote: String },
    /// `git rev-list --objects --filter=object:type=blob <range>`
    LfsBlobs { commit: String, ancestor: String },
    /// `git log --all --after="<date>T<time>+00:00" --pretty=format:%H=%P[=%D]`
    LogAfter { date: String, time: String, decorations: bool },
}

/// The revision range of `rev-list`: `ancestor..commit`, or the commit alone
/// when no ancestor is given.
pub open spec fn range_arg(commit: Seq<char>, ancestor: Seq<char>) -> Seq<char> {
    if ancestor.len() == 0 {
        commit
    } else {
        ancestor + ".."@ + commit
    }
}

/// The `--after` argument of `git log`.
pub open spec fn after_arg(date: Seq<char>, time: Seq<char>) -> Seq<char> {
    "--after=\""@ + date + "T"@ + time + "+00:00\""@
}

/// The arguments given to `git` for a request.
pub open spec fn request_args(r: Request) -> Seq<Seq<char>> {
    match r {
        Request::AllRef => seq!["show-ref"@, "--tags"@, "--heads"@],
        Request::ShowRef { obj } => seq!["show-ref"@, "-s"@, obj@],
        Request::ListBranches => seq!["branch"@, "-l"@],
        Request::DefaultBranch => seq!["remote"@, "show"@, "origin"@],
        Request::ListTags => seq!["tag"@, "-l"@],
        Request::GetCommit { obj } => seq!["rev-list"@, "-n"@, "1"@, obj@],
        Request::GetParents { commit } => seq!["show"@, "-s"@, "--pretty=%P"@, commit@],
        Request::IsAncestor { commit, ancestor } => seq![
            "merge-base"@,
            "--is-ancestor"@,
            ancestor@,
            commit@,
        ],
        Request::ShaType { sha } => seq!["cat-file"@, "-t"@, sha@],
        Request::GetObjs { commit, ancestor } => seq![
            "rev-list"@,
            "--objects"@,
            "--no-object-names"@,
            range_arg(commit@, ancestor@),
        ],
        Request::UpdateRef { commit, ref_path } => seq!["update-ref"@, ref_path@, commit@],
        Request::DeleteBranch { branch } => seq!["branch"@, "-D"@, branch@],
        Request::CreateLightTag { tag, commit } => seq!["tag"@, tag@, commit@],
        Request::DeleteTag { tag } => seq!["tag"@, "-d"@, tag@],
        Request::CreateBranch { name, commit } => seq!["branch"@, name@, commit@],
        Request::LfsList => seq!["lfs"@, "ls-files"@, "-al"@],
        Request::LfsFetch => seq!["lfs"@, "fetch"@, "--all"@],
        Request::LfsPush { remote } => seq!["lfs"@, "push"@, "--all"@, remote@],
        Request::LfsBlobs { commit, ancestor } => seq![
            "rev-list"@,
            "--objects"@,
            "--filter=object:type=blob"@,
            range_arg(commit@, ancestor@),
        ],
        Request::LogAfter { date, time, decorations } => seq![
            "log"@,
            "--all"@,
            after_arg(date@, time@),
            if decorations {
                "--pretty=format:%H=%P=%D"@
            } else {
                "--pretty=format:%H=%P"@
            },
        ],
    }
}

fn range_exec(commit: &String, ancestor: &String) -> (res: String)
    ensures
        res@ == range_arg(commit@, ancestor@),
{
    if ancestor.as_str().is_empty() {
        commit.clone()
    } else {
        let mut a = ancestor.clone();
        a.append("..");
        a.append(commit.as_str());
        a
    }
}

impl Request {
    /// The arguments to give to `git` (the program is always `git`).
    pub fn args(&self) -> (res: Vec<String>)
        ensures
            views(res@) == request_args(*self),
    {
        let v: Vec<String> = match self {
            Request::AllRef => vec![to_owned("show-ref"), to_owned("--tags"), to_owned("--heads")],
            Request::ShowRef { obj } => vec![to_owned("show-ref"), to_owned("-s"), obj.clone()],
            Request::ListBranches => vec![to_owned("branch"), to_owned("-l")],
            Request::DefaultBranch => vec![to_owned("remote"), to_owned("show"), to_owned("origin")],
            Request::ListTags => vec![to_owned("tag"), to_owned("-l")],
            Request::GetCommit { obj } => vec![to_owned("rev-list"), to_owned("-n"), to_owned("1"), obj.clone()],
            Request::GetParents { commit } => vec![
                to_owned("show"),
                to_owned("-s"),
                to_owned("--pretty=%P"),
                commit.clone(),
            ],
            Request::IsAncestor { commit, ancestor } => vec![
                to_owned("merge-base"),
                to_owned("--is-ancestor"),
                ancestor.clone(),
                commit.clone(),
            ],
            Request::ShaType { sha } => vec![to_owned("cat-file"), to_owned("-t"), sha.clone()],
            Request::GetObjs { commit, ancestor } => vec![
                to_owned("rev-list"),
                to_owned("--objects"),
                to_owned("--no-object-names"),
                range_exec(commit, ancestor),
            ],
            Request::UpdateRef { commit, ref_path } => vec![to_owned("update-ref"), ref_path.clone(), commit.clone()],
            Request::DeleteBranch { branch } => vec![to_owned("branch"), to_owned("-D"), branch.clone()],
            Request::CreateLightTag { tag, commit } => vec![to_owned("tag"), tag.clone(), commit.clone()],
            Request::DeleteTag { tag } => vec![to_owned("tag"), to_owned("-d"), tag.clone()],
            Request::CreateBranch { name, commit } => vec![to_owned("branch"), name.clone(), commit.clone()],
            Request::LfsList => vec![to_owned("lfs"), to_owned("ls-files"), to_owned("-al")],
            Request::LfsFetch => vec![to_owned("lfs"), to_owned("fetch"), to_owned("--all")],
            Request::LfsPush { remote } => vec![to_owned("lfs"), to_owned("push"), to_owned("--all"), remote.clone()],
            Request::LfsBlobs { commit, ancestor } => vec![
                to_owned("rev-list"),
                to_owned("--objects"),
                to_owned("--filter=object:type=blob"),
                range_exec(commit, ancestor),
            ],
            Request::LogAfter { date, time, decorations } => {
                let mut after = to_owned("--after=\"");
                after.append(date.as_str());
                after.append("T");
                after.append(time.as_str());
                after.append("+00:00\"");
                let format = if *decorations {
                    to_owned("--pretty=format:%H=%P=%D")
                } else {
                    to_owned("--pretty=format:%H=%P")
                };
                vec![to_owned("log"), to_owned("--all"), after, format]
            },
        };
        proof {
            assert(views(v@) =~= request_args(*self));
        }
        v
    }
}

} // verus!

verus! {

/// The lines of a command's output (`split("\n")`).
pub open spec fn lines(out: Seq<char>) -> Seq<Seq<char>> {
    split_by(out, "\n"@)
}

/// The lines of `out`.
pub fn split_lines(out: &str) -> (res: Vec<String>)
    ensures
        views(res@) == lines(out@),
{
    proof {
        reveal_strlit("\n");
    }
    split(out, "\n")
}

/// A line of `git branch -l` without its two-column marker (`* ` or `  `).
pub open spec fn branch_of_line(line: Seq<char>) -> Seq<char> {
    if line.len() >= 2 {
        line.skip(2)
    } else {
        Seq::empty()
    }
}

/// `s.substring(2, s.len())`.
fn drop_marker(line: &String) -> (res: String)
    ensures
        res@ == branch_of_line(line@),
{
    let n = str_len(line.as_str());
    proof {
        lemma_byte_offset_full(line@);
        assert(line@.skip(2) =~= line@.subrange(2, line@.len() as int));
    }
    substring(line.as_str(), 2, n)
}

/// What one of the reading commands returns: `Some` of its lines when it
/// succeeded, `None` when it failed.
pub open spec fn lines_if_ok(output: Outcome) -> Option<Seq<Seq<char>>> {
    if output.status {
        Some(lines(output.out@))
    } else {
        None
    }
}

fn lines_of(output: &Outcome) -> (res: Option<Vec<String>>)
    ensures
        lines_if_ok(*output) == (match res {
            Some(v) => Some(views(v@)),
            None => None,
        }),
{
    if output.status {
        Some(split_lines(output.out.as_str()))
    } else {
        None
    }
}

fn out_if_ok(output: &Outcome) -> (res: Option<String>)
    ensures
        output.status ==> res == Some(output.out),
        !output.status ==> res is None,
{
    if output.status {
        Some(output.out.clone())
    } else {
        None
    }
}

/// All tags and heads (`git show-ref --tags --heads`): the lines of the
/// output, each `<sha> <ref>`.
pub fn all_ref(output: &Outcome) -> (res: Option<Vec<String>>)
    ensures
        lines_if_ok(*output) == (match res {
            Some(v) => Some(views(v@)),
            None => None,
        }),
{
    lines_of(output)
}

/// The sha a ref points to (`git show-ref -s <obj>`).
pub fn show_ref(output: &Outcome) -> (res: Option<String>)
    ensures
        output.status ==> res == Some(output.out),
        !output.status ==> res is None,
{
    out_if_ok(output)
}

/// The local branches (`git branch -l`): each line without its marker.
pub fn list_branches(output: &Outcome) -> (res: Option<Vec<String>>)
    ensures
        output.status ==> (res matches Some(v) && views(v@) == lines(output.out@).map_values(
            |l: Seq<char>| branch_of_line(l),
        )),
        !output.status ==> res is None,
{
    if !output.status {
        return None;
    }
    let ls = split_lines(output.out.as_str());
    let mut res: Vec<String> = Vec::new();
    let mut i: usize = 0;
    while i < ls.len()
        invariant
            i <= ls.len(),
            views(ls@) == lines(output.out@),
            views(res@) =~= views(ls@).take(i as int).map_values(|l: Seq<char>| branch_of_line(l)),
        decreases ls.len() - i,
    {
        let b = drop_marker(&ls[i]);
        let ghost old_res = res@;
        res.push(b);
        proof {
            assert(views(res@) =~= views(old_res).push(b@));
            assert(views(ls@).take(i + 1) =~= views(ls@).take(i as int).push(ls@[i as int]@));
            assert(views(ls@)[i as int] == ls@[i as int]@);
        }
        i += 1;
    }
    proof {
        assert(views(ls@).take(ls@.len() as int) =~= views(ls@));
    }
    Some(res)
}

/// The branch named after `HEAD branch: ` in `git remote show origin`: from
/// the first `HEAD`, skip past the first `:` and one more character, and take
/// what comes before the next line feed.  As the tools do, byte offsets
/// found by `str::find` are used as character positions; `None` when one of
/// the three markers is missing.
pub open spec fn remote_head_of(out: Seq<char>) -> Option<Seq<char>> {
    match find_bytes(out, "HEAD"@) {
        None => None,
        Some(a) => {
            let p1 = spec_substring(out, a, byte_len(out));
            match find_bytes(p1, ":"@) {
                None => None,
                Some(b) => {
                    let p2 = spec_substring(p1, b + 2, byte_len(p1));
                    match find_bytes(p2, "\n"@) {
                        None => None,
                        Some(c) => Some(spec_substring(p2, 0, c)),
                    }
                },
            }
        },
    }
}

/// The head branch named in the output of `git remote show origin`.
pub fn remote_head(out: &str) -> (res: Option<String>)
    ensures
        res matches Some(r) ==> remote_head_of(out@) == Some(r@),
        res is None ==> remote_head_of(out@) is None,
{
    let a = match find(out, "HEAD") {
        Some(a) => a,
        None => return None,
    };
    let p1 = substring(out, a, str_len(out));
    let n1 = str_len(p1.as_str());
    let b = match find(p1.as_str(), ":") {
        Some(b) => b,
        None => return None,
    };
    proof {
        lemma_find_in_bounds(p1@, ":"@);
    }
    let p2 = substring(p1.as_str(), b + 2, n1);
    let c = match find(p2.as_str(), "\n") {
        Some(c) => c,
        None => return None,
    };
    Some(substring(p2.as_str(), 0, c))
}

/// The default branch (`git remote show origin`).  The tools stop with
/// an error when the command succeeded but its output names no head branch;
/// that input is left out.
pub fn default_branch(output: &Outcome) -> (res: Option<String>)
    requires
        output.status ==> remote_head_of(output.out@) is Some,
    ensures
        output.status ==> (res matches Some(r) && remote_head_of(output.out@) == Some(r@)),
        !output.status ==> res is None,
{
    if output.status {
        remote_head(output.out.as_str())
    } else {
        None
    }
}

/// The tags (`git tag -l`).
pub fn list_tags(output: &Outcome) -> (res: Option<Vec<String>>)
    ensures
        lines_if_ok(*output) == (match res {
            Some(v) => Some(views(v@)),
            None => None,
        }),
{
    lines_of(output)
}

/// The commit of a tag, branch or commit id (`git rev-list -n 1 <obj>`).
pub fn get_commit(output: &Outcome) -> (res: Option<String>)
    ensures
        output.status ==> res == Some(output.out),
        !output.status ==> res is None,
{
    out_if_ok(output)
}

/// The parent ids named in a space-separated list: none for an empty text
/// (a root commit).
pub open spec fn parents_of(text: Seq<char>) -> Seq<Seq<char>> {
    if text.len() == 0 {
        Seq::empty()
    } else {
        split_by(text, " "@)
    }
}

/// The parent ids of a space-separated list (see [`parents_of`]).
pub fn parent_list(text: &str) -> (res: Vec<String>)
    ensures
        views(res@) == parents_of(text@),
{
    proof {
        reveal_strlit(" ");
    }
    if text.is_empty() {
        let v: Vec<String> = Vec::new();
        proof {
            assert(views(v@) =~= Seq::<Seq<char>>::empty());
        }
        v
    } else {
        split(text, " ")
    }
}

/// The parents of a commit (`git show -s --pretty=%P <commit>`): the ids of
/// the output, split at spaces, none for a root commit.
pub fn get_parents(output: &Outcome) -> (res: Option<Vec<String>>)
    ensures
        output.status ==> (res matches Some(v) && views(v@) == parents_of(output.out@)),
        !output.status ==> res is None,
{
    if output.status {
        Some(parent_list(output.out.as_str()))
    } else {
        None
    }
}

/// Whether `ancestor` is an ancestor of `commit`
/// (`git merge-base --is-ancestor`): the command's success.
pub fn is_ancestor(output: &Outcome) -> (res: bool)
    ensures
        res == output.status,
{
    output.status
}

/// The type of an object (`git cat-file -t <sha>`).
pub fn sha_type(output: &Outcome) -> (res: Option<String>)
    ensures
        output.status ==> res == Some(output.out),
        !output.status ==> res is None,
{
    out_if_ok(output)
}

/// The objects reachable in a range (`git rev-list --objects
/// --no-object-names`), one per line.
pub fn get_objs(output: &Outcome) -> (res: Option<Vec<String>>)
    ensures
        lines_if_ok(*output) == (match res {
            Some(v) => Some(views(v@)),
            None => None,
        }),
{
    lines_of(output)
}

/// Whether a ref was updated (`git update-ref`).
pub fn update_ref(output: &Outcome) -> (res: bool)
    ensures
        res == output.status,
{
    output.status
}

/// Whether a branch was deleted (`git branch -D`).
pub fn delete_branch(output: &Outcome) -> (res: bool)
    ensures
        res == output.status,
{
    output.status
}

/// Whether a light tag was created (`git tag <tag> <commit>`).
pub fn create_light_tag(output: &Outcome) -> (res: bool)
    ensures
        res == output.status,
{
    output.status
}

/// Whether a tag was deleted (`git tag -d`).
pub fn delete_tag(output: &Outcome) -> (res: bool)
    ensures
        res == output.status,
{
    output.status
}

} // verus!
