use git_sync::filter::filter_branches;
use git_sync::import::{
    annotated_tag_action, branch_action, get_local, light_tag_action, lookup, missing_commits, retire_branch_action,
    retire_tag_action, BranchAction, Overwrite, RetireAction, Selection, TagAction,
};

fn s(v: &str) -> String {
    v.to_string()
}

fn some(v: &str) -> Option<String> {
    Some(v.to_string())
}

fn strings(v: &[&str]) -> Vec<String> {
    v.iter().map(|x| x.to_string()).collect()
}

#[test]
fn branch_updates_by_rule() {
    assert!(branch_action("c2", &some("c1"), &None, Overwrite::Soft, false) == BranchAction::Create);
    assert!(branch_action("c2", &some("c1"), &some("c2"), Overwrite::Hard, false) == BranchAction::Keep);
    assert!(branch_action("c2", &some("c1"), &some("c1"), Overwrite::Soft, false) == BranchAction::Update);
    assert!(branch_action("c2", &None, &some("c0"), Overwrite::Soft, false) == BranchAction::Update);
    assert!(branch_action("c2", &None, &some("c2"), Overwrite::Soft, false) == BranchAction::Keep);
    assert!(branch_action("c2", &some("c1"), &some("c0"), Overwrite::Soft, false) == BranchAction::WarnExpectedFastForward);
    assert!(branch_action("c2", &some("c1"), &some("c0"), Overwrite::Soft, true) == BranchAction::WarnNotFastForward);
    assert!(branch_action("c2", &some("c1"), &some("c0"), Overwrite::Mixed, true) == BranchAction::Update);
    assert!(branch_action("c2", &some("c1"), &some("c0"), Overwrite::Mixed, false) == BranchAction::WarnExpectedFastForward);
    assert!(branch_action("c2", &some("c1"), &some("c0"), Overwrite::Hard, false) == BranchAction::Update);
}

#[test]
fn branch_retirement_by_rule() {
    assert!(retire_branch_action("c1", &None, Overwrite::Hard) == RetireAction::Absent);
    assert!(retire_branch_action("c1", &some("c1"), Overwrite::Soft) == RetireAction::Delete);
    assert!(retire_branch_action("c1", &some("c0"), Overwrite::Soft) == RetireAction::WarnSoft);
    assert!(retire_branch_action("c1", &some("c0"), Overwrite::Mixed) == RetireAction::Delete);
    assert!(retire_branch_action("c1", &some("c0"), Overwrite::Hard) == RetireAction::Delete);
}

#[test]
fn light_tags_by_rule() {
    assert!(light_tag_action("c2", &some("c1"), &some("c2"), &None, Overwrite::Soft) == TagAction::Keep);
    assert!(light_tag_action("c2", &None, &some("c1"), &None, Overwrite::Soft) == TagAction::Replace);
    assert!(light_tag_action("c2", &some("c1"), &some("c1"), &None, Overwrite::Soft) == TagAction::Replace);
    assert!(light_tag_action("c2", &some("c0"), &some("c1"), &None, Overwrite::Soft) == TagAction::WarnExists);
    assert!(light_tag_action("c2", &some("c0"), &some("c1"), &None, Overwrite::Hard) == TagAction::Replace);
    assert!(light_tag_action("c2", &None, &None, &some("a1"), Overwrite::Soft) == TagAction::WarnOtherKind);
    assert!(light_tag_action("c2", &None, &None, &some("a1"), Overwrite::Mixed) == TagAction::Replace);
    assert!(light_tag_action("c2", &None, &None, &None, Overwrite::Soft) == TagAction::Create);
}

#[test]
fn annotated_tags_by_rule() {
    assert!(annotated_tag_action("t2", &None, &None, &some("t1"), Overwrite::Hard) == TagAction::Replace);
    assert!(annotated_tag_action("t2", &None, &None, &some("t2"), Overwrite::Soft) == TagAction::Keep);
    assert!(annotated_tag_action("t2", &some("t0"), &None, &some("t1"), Overwrite::Soft) == TagAction::WarnExists);
    assert!(annotated_tag_action("t2", &some("t1"), &None, &some("t1"), Overwrite::Soft) == TagAction::Replace);
    assert!(annotated_tag_action("t2", &None, &some("c1"), &None, Overwrite::Soft) == TagAction::WarnOtherKind);
    assert!(annotated_tag_action("t2", &None, &some("c1"), &None, Overwrite::Hard) == TagAction::Replace);
    assert!(annotated_tag_action("t2", &None, &None, &None, Overwrite::Soft) == TagAction::Create);
    assert!(annotated_tag_action("t2", &None, &some("t2"), &some("t2"), Overwrite::Soft) == TagAction::Keep);
}

#[test]
fn tag_retirement_by_rule() {
    assert!(retire_tag_action("c1", &some("c1"), &None, Overwrite::Soft) == RetireAction::Delete);
    assert!(retire_tag_action("c1", &None, &some("c1"), Overwrite::Soft) == RetireAction::Delete);
    assert!(retire_tag_action("c1", &some("c0"), &None, Overwrite::Soft) == RetireAction::WarnSoft);
    assert!(retire_tag_action("c1", &some("c0"), &None, Overwrite::Mixed) == RetireAction::Delete);
    assert!(retire_tag_action("c1", &None, &None, Overwrite::Hard) == RetireAction::Absent);
}

#[test]
fn selections() {
    assert!(Selection::Both.branches() && Selection::Both.tags());
    assert!(Selection::Branches.branches() && !Selection::Branches.tags());
    assert!(!Selection::Tags.branches() && Selection::Tags.tags());
    assert!(!Selection::Nothing.branches() && !Selection::Nothing.tags());
}

#[test]
fn local_refs_by_kind() {
    let refs = strings(&["a1 refs/heads/main", "t1 refs/tags/v1", "t2 refs/tags/v2"]);
    let types = vec![None, some("commit"), some("tag")];
    let local = get_local(&refs, &types).unwrap();
    assert_eq!(local.branches, vec![(s("main"), s("a1"))]);
    assert_eq!(local.light, vec![(s("v1"), s("t1"))]);
    assert_eq!(local.annotated, vec![(s("v2"), s("t2"))]);
    assert_eq!(lookup(&local.branches, "main"), some("a1"));
    assert_eq!(lookup(&local.branches, "dev"), None);
    assert!(get_local(&strings(&["t1 refs/tags/v1"]), &vec![None]).is_none());
    assert!(get_local(&strings(&["broken"]), &vec![None]).is_none());
}

#[test]
fn missing_required_commits() {
    assert_eq!(missing_commits(&strings(&["c1", "c2", "c3"]), &vec![true, false, false]), strings(&["c2", "c3"]));
    assert!(missing_commits(&strings(&["c1"]), &vec![true]).is_empty());
}

#[test]
fn branch_filters() {
    let names = strings(&["main", "dev", "feature/x"]);
    assert_eq!(filter_branches(&names, &None, &None), Some(names.clone()));
    assert_eq!(filter_branches(&names, &None, &some("dev")), Some(strings(&["main", "feature/x"])));
    assert_eq!(filter_branches(&names, &None, &some("main,dev,feature")), Some(vec![]));
    assert_eq!(filter_branches(&strings(&["main"]), &None, &some("main")), None);
    assert_eq!(filter_branches(&names, &some("fea,ma"), &None), Some(strings(&["main"])));
    assert_eq!(filter_branches(&names, &some("zzz"), &None), None);
}
