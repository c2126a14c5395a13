use git_sync::scan::{ChangeScan, ScanAction, ScanPhase};
use git_sync::walk::{CommitWalk, WalkAction, WalkPhase};

fn s(v: &str) -> String {
    v.to_string()
}

fn strings(v: &[&str]) -> Vec<String> {
    v.iter().map(|x| x.to_string()).collect()
}

#[test]
fn walk_stops_at_a_rooted_commit() {
    let (mut w, a) = CommitWalk::new(s("c3"), strings(&["c1"]), vec![]);
    assert!(matches!(a, WalkAction::IsAncestor { ref commit, ref ancestor } if commit == "c1" && ancestor == "c3"));
    let a = w.answer_ancestor(false);
    assert!(matches!(a, WalkAction::GetParents { ref commit } if commit == "c3"));
    let a = w.answer_parents(Some(strings(&["c2"])));
    assert!(matches!(a, WalkAction::IsAncestor { ref commit, ref ancestor } if commit == "c1" && ancestor == "c2"));
    let a = w.answer_ancestor(false);
    assert!(matches!(a, WalkAction::GetParents { ref commit } if commit == "c2"));
    let a = w.answer_parents(Some(strings(&["c1"])));
    assert!(matches!(a, WalkAction::Done));
    assert!(w.phase() == WalkPhase::Finished);
    assert_eq!(w.into_commits(), vec![(s("c3"), strings(&["c2"])), (s("c2"), strings(&["c1"]))]);
}

#[test]
fn walk_stops_at_an_ancestor_of_a_rooted_commit() {
    let (mut w, _) = CommitWalk::new(s("c3"), strings(&["r"]), vec![]);
    let a = w.answer_ancestor(true);
    assert!(matches!(a, WalkAction::Done));
    assert!(w.into_commits().is_empty());
}

#[test]
fn walk_skips_visited_commits() {
    let (mut w, a) = CommitWalk::new(s("c2"), vec![], strings(&["c1"]));
    assert!(matches!(a, WalkAction::GetParents { ref commit } if commit == "c2"));
    let a = w.answer_parents(Some(strings(&["c1"])));
    assert!(matches!(a, WalkAction::Done));
    assert_eq!(w.into_commits(), vec![(s("c2"), strings(&["c1"]))]);
}

#[test]
fn walk_fails_without_parents() {
    let (mut w, _) = CommitWalk::new(s("c2"), vec![], vec![]);
    let a = w.answer_parents(None);
    assert!(matches!(a, WalkAction::Fail { ref commit } if commit == "c2"));
    assert!(w.phase() == WalkPhase::Failed);
}

#[test]
fn walk_records_each_commit_with_its_own_parents() {
    let (mut w, a) = CommitWalk::new(s("c"), vec![], vec![]);
    assert!(matches!(a, WalkAction::GetParents { ref commit } if commit == "c"));
    let a = w.answer_parents(Some(strings(&["p"])));
    assert!(matches!(a, WalkAction::GetParents { ref commit } if commit == "p"));
    let a = w.answer_parents(Some(strings(&["q"])));
    assert!(matches!(a, WalkAction::GetParents { ref commit } if commit == "q"));
    let a = w.answer_parents(Some(vec![]));
    assert!(matches!(a, WalkAction::Done));
    assert_eq!(w.into_commits(), vec![(s("c"), strings(&["p"])), (s("p"), strings(&["q"])), (s("q"), vec![])]);
}

#[test]
fn walk_follows_both_parents_of_a_merge() {
    let (mut w, _) = CommitWalk::new(s("m"), vec![], vec![]);
    let a = w.answer_parents(Some(strings(&["a", "b"])));
    assert!(matches!(a, WalkAction::GetParents { ref commit } if commit == "b"));
    let a = w.answer_parents(Some(vec![]));
    assert!(matches!(a, WalkAction::GetParents { ref commit } if commit == "a"));
    let a = w.answer_parents(Some(vec![]));
    assert!(matches!(a, WalkAction::Done));
    assert_eq!(w.into_commits(), vec![(s("m"), strings(&["a", "b"])), (s("b"), vec![]), (s("a"), vec![])]);
}

#[test]
fn pack_scan_of_a_line_of_commits() {
    let tree = vec![(s("c2"), strings(&["c1"])), (s("c1"), vec![])];
    let (mut sc, a) = ChangeScan::new(strings(&["c2"]), tree, vec![], true);
    assert!(matches!(a, ScanAction::Objects { ref commit, ref ancestor } if commit == "c2" && ancestor == "c1"));
    let a = sc.answer(Some(strings(&["o1", "o1", "o2"])));
    assert!(matches!(a, ScanAction::Done));
    assert!(sc.phase() == ScanPhase::Finished);
    assert_eq!(sc.objects(), strings(&["o1", "o2"]));
    assert!(sc.required().is_empty());
}

#[test]
fn pack_scan_requires_the_commit_below_the_tree() {
    let tree = vec![(s("c2"), strings(&["c1"]))];
    let (mut sc, a) = ChangeScan::new(strings(&["c2"]), tree, strings(&["t0"]), true);
    assert!(matches!(a, ScanAction::Objects { ref commit, ref ancestor } if commit == "c2" && ancestor == "c1"));
    let a = sc.answer(Some(strings(&["o1"])));
    assert!(matches!(a, ScanAction::Done));
    assert_eq!(sc.required(), strings(&["t0", "c1"]));
}

#[test]
fn lfs_scan_requires_nothing() {
    let tree = vec![(s("c2"), strings(&["c1"]))];
    let (mut sc, a) = ChangeScan::new(strings(&["c2"]), tree, vec![], false);
    assert!(matches!(a, ScanAction::Objects { ref commit, ref ancestor } if commit == "c2" && ancestor == "c1"));
    let a = sc.answer(Some(strings(&["a.bin"])));
    assert!(matches!(a, ScanAction::Done));
    assert_eq!(sc.objects(), strings(&["a.bin"]));
    assert!(sc.required().is_empty());
}

#[test]
fn scan_of_a_root_commit_asks_for_everything() {
    let tree = vec![(s("c1"), vec![])];
    let (mut sc, a) = ChangeScan::new(strings(&["c1"]), tree, vec![], true);
    assert!(matches!(a, ScanAction::Objects { ref commit, ref ancestor } if commit == "c1" && ancestor == ""));
    let a = sc.answer(None);
    assert!(matches!(a, ScanAction::Fail));
    assert!(sc.phase() == ScanPhase::Failed);
}
