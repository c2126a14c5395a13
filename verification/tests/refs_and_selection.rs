use git_sync::refs::{parse_ref_line, snapshot_diff};
use git_sync::select::{
    looks_like_commit, new_refs, parse_log, parse_log_line, resolve_ref, tag_commit, valid_date, valid_time, RefKind, Resolution,
};
use git_sync::walk::roots_for;

fn s(v: &str) -> String {
    v.to_string()
}

fn strings(v: &[&str]) -> Vec<String> {
    v.iter().map(|x| x.to_string()).collect()
}

#[test]
fn ref_lines() {
    assert_eq!(parse_ref_line("a1 refs/heads/main"), Some((s("a1"), s("refs/heads/main"))));
    assert_eq!(parse_ref_line("a1 refs/heads/with space"), Some((s("a1"), s("refs/heads/with space"))));
    assert_eq!(parse_ref_line("nospace"), None);
}

#[test]
fn snapshot_against_current_refs() {
    let previous = "a1 refs/heads/main\nb1 refs/heads/old\nt1 refs/tags/v1\nt2 refs/tags/gone";
    let current = "a2 refs/heads/main\nt1 refs/tags/v1\nn1 refs/heads/new\nt3 refs/tags/v2\n";
    let d = snapshot_diff(previous, current).unwrap();
    assert_eq!(d.visited, strings(&["a1", "b1"]));
    assert_eq!(d.branches, vec![(s("main"), (s("a1"), s("a2"))), (s("new"), (s(""), s("n1")))]);
    assert_eq!(d.tags, vec![(s("v2"), (s(""), s("t3")))]);
    assert_eq!(d.heads, strings(&["a2", "n1"]));
    assert_eq!(d.retired_branches, vec![(s("old"), s("b1"))]);
    assert_eq!(d.retired_tags, vec![(s("gone"), s("t2"))]);
}

#[test]
fn snapshot_against_itself_shows_no_change() {
    let text = "a1 refs/heads/main\nt1 refs/tags/v1";
    let d = snapshot_diff(text, text).unwrap();
    assert_eq!(d.visited, strings(&["a1"]));
    assert!(d.branches.is_empty() && d.tags.is_empty() && d.heads.is_empty());
    assert!(d.retired_branches.is_empty() && d.retired_tags.is_empty());
}

#[test]
fn snapshot_line_without_space_stops() {
    assert!(snapshot_diff("broken", "a1 refs/heads/main").is_none());
    assert!(snapshot_diff("a1 refs/heads/main", "broken").is_none());
}

#[test]
fn date_time_and_commit_shapes() {
    assert_eq!(valid_date("2024-02-29"), Some(true));
    assert_eq!(valid_date("2024-13-01"), Some(false));
    assert_eq!(valid_date("1899-01-01"), Some(false));
    assert_eq!(valid_time("23:59:59"), Some(true));
    assert_eq!(valid_time("24:00:00"), Some(false));
    assert_eq!(looks_like_commit("abcd"), Some(true));
    assert_eq!(looks_like_commit("abc"), Some(false));
    assert_eq!(looks_like_commit("xyz12345"), Some(false));
}

#[test]
fn resolving_names() {
    let branches = strings(&["main"]);
    let tags = strings(&["v1"]);
    assert!(matches!(resolve_ref("main", "NONE", &branches, &tags, false), Resolution::Named(n, RefKind::Branch) if n == "main"));
    assert!(matches!(resolve_ref("refs/heads/main", "NONE", &branches, &tags, false), Resolution::Named(n, RefKind::Branch) if n == "main"));
    assert!(matches!(resolve_ref("refs/heads/dev", "NONE", &branches, &tags, false), Resolution::NoBranch(n) if n == "dev"));
    assert!(matches!(resolve_ref("refs/tags/v1", "NONE", &branches, &tags, false), Resolution::Named(n, RefKind::Tag) if n == "v1"));
    assert!(matches!(resolve_ref("refs/tags/v9", "NONE", &branches, &tags, false), Resolution::NoTag(n) if n == "v9"));
    assert!(matches!(resolve_ref("abcd", "NONE", &branches, &tags, true), Resolution::Commit(c) if c == "abcd"));
    assert!(matches!(resolve_ref("v1", "branch", &branches, &tags, false), Resolution::Unknown));
    assert!(matches!(resolve_ref("main", "tag", &branches, &tags, false), Resolution::Unknown));
}

#[test]
fn tags_and_their_commits() {
    assert_eq!(tag_commit("t1", Some(s("commit")), None), Some((s("t1"), false)));
    assert_eq!(tag_commit("t1", Some(s("tag")), Some(s("c9"))), Some((s("c9"), true)));
    assert_eq!(tag_commit("t1", None, Some(s("c9"))), None);
    assert_eq!(tag_commit("t1", Some(s("tag")), None), None);
}

#[test]
fn log_lines() {
    let e = parse_log_line("c1=p1 p2=HEAD -> main, tag: v1, origin/dev", true).unwrap();
    assert_eq!(e.commit, "c1");
    assert_eq!(e.parents, strings(&["p1", "p2"]));
    assert_eq!(e.tags, strings(&["v1"]));
    assert_eq!(e.branches, strings(&["main", "origin/dev"]));
    let e = parse_log_line("c1=p1=", true).unwrap();
    assert!(e.tags.is_empty() && e.branches.is_empty());
    let e = parse_log_line("c1=p1 p2", false).unwrap();
    assert_eq!(e.commit, "c1");
    assert_eq!(e.parents, strings(&["p1", "p2"]));
    assert!(e.tags.is_empty() && e.branches.is_empty());
    let e = parse_log_line("c0=", false).unwrap();
    assert!(e.parents.is_empty());
    assert!(parse_log_line("", true).is_none());
    assert!(parse_log_line("no sign", false).is_none());
}

#[test]
fn refs_named_by_the_log() {
    let r = new_refs(&strings(&["a", "b", "a"]), &strings(&["1", "2", "3"]));
    assert_eq!(r, vec![(s("a"), (s(""), s("3"))), (s("b"), (s(""), s("2")))]);
}

#[test]
fn roots_of_a_changed_branch() {
    let primary = strings(&["p1"]);
    assert!(roots_for("p1", &primary).is_empty());
    assert_eq!(roots_for("x9", &primary), primary);
}

#[test]
fn commit_logs() {
    let log = parse_log("c2=c1\nc1=\n", false).unwrap();
    assert_eq!(log.len(), 2);
    assert_eq!(log[0].commit, "c2");
    assert_eq!(log[0].parents, strings(&["c1"]));
    assert!(log[1].parents.is_empty());
    assert!(parse_log("", false).unwrap().is_empty());
    assert!(parse_log("c2=c1\nbroken", false).is_none());
}
