use git_sync::git::{
    all_ref, create_light_tag, default_branch, delete_branch, delete_tag, get_commit, get_objs, get_parents,
    is_ancestor, list_branches, list_tags, remote_head, sha_type, show_ref, update_ref, Request,
};
use git_sync::lfs::{fetch, list, push};
use git_sync::shared::Outcome;

fn s(v: &str) -> String {
    v.to_string()
}

fn ok(out: &str) -> Outcome {
    Outcome { status: true, out: s(out), error: s("") }
}

fn failed() -> Outcome {
    Outcome { status: false, out: s("whatever"), error: s("fatal") }
}

#[test]
fn request_arguments() {
    assert_eq!(Request::AllRef.args(), vec![s("show-ref"), s("--tags"), s("--heads")]);
    assert_eq!(
        Request::GetObjs { commit: s("c1"), ancestor: s("") }.args(),
        vec![s("rev-list"), s("--objects"), s("--no-object-names"), s("c1")]
    );
    assert_eq!(
        Request::LfsBlobs { commit: s("c1"), ancestor: s("a0") }.args(),
        vec![s("rev-list"), s("--objects"), s("--filter=object:type=blob"), s("a0..c1")]
    );
    assert_eq!(
        Request::IsAncestor { commit: s("c"), ancestor: s("a") }.args(),
        vec![s("merge-base"), s("--is-ancestor"), s("a"), s("c")]
    );
    assert_eq!(
        Request::LogAfter { date: s("2024-01-02"), time: s("03:04:05"), decorations: true }.args(),
        vec![s("log"), s("--all"), s("--after=\"2024-01-02T03:04:05+00:00\""), s("--pretty=format:%H=%P=%D")]
    );
    assert_eq!(
        Request::LogAfter { date: s("2024-01-02"), time: s("00:00:00"), decorations: false }.args(),
        vec![s("log"), s("--all"), s("--after=\"2024-01-02T00:00:00+00:00\""), s("--pretty=format:%H=%P")]
    );
    assert_eq!(Request::UpdateRef { commit: s("c"), ref_path: s("refs/heads/x") }.args(), vec![s("update-ref"), s("refs/heads/x"), s("c")]);
    assert_eq!(Request::LfsPush { remote: s("origin") }.args(), vec![s("lfs"), s("push"), s("--all"), s("origin")]);
}

#[test]
fn reading_lists() {
    assert_eq!(all_ref(&ok("a1 refs/heads/main\nb2 refs/tags/v1")), Some(vec![s("a1 refs/heads/main"), s("b2 refs/tags/v1")]));
    assert_eq!(all_ref(&failed()), None);
    assert_eq!(list_branches(&ok("* main\n  dev")), Some(vec![s("main"), s("dev")]));
    assert_eq!(list_branches(&failed()), None);
    assert_eq!(list_tags(&ok("v1\nv2")), Some(vec![s("v1"), s("v2")]));
    assert_eq!(get_parents(&ok("p1 p2")), Some(vec![s("p1"), s("p2")]));
    assert_eq!(get_parents(&ok("p1")), Some(vec![s("p1")]));
    assert_eq!(get_parents(&ok("")), Some(vec![]));
    assert_eq!(get_parents(&failed()), None);
    assert_eq!(get_objs(&ok("o1\no2")), Some(vec![s("o1"), s("o2")]));
    assert_eq!(list(&ok("x * a.bin")), Some(vec![s("x * a.bin")]));
    assert_eq!(list(&failed()), None);
}

#[test]
fn reading_single_values() {
    assert_eq!(show_ref(&ok("abc")), Some(s("abc")));
    assert_eq!(show_ref(&failed()), None);
    assert_eq!(get_commit(&ok("c0ffee")), Some(s("c0ffee")));
    assert_eq!(sha_type(&ok("commit")), Some(s("commit")));
    assert_eq!(sha_type(&failed()), None);
    assert!(is_ancestor(&ok("")));
    assert!(!is_ancestor(&failed()));
    assert!(update_ref(&ok("")) && delete_branch(&ok("")) && create_light_tag(&ok("")) && delete_tag(&ok("")));
    assert!(!update_ref(&failed()) && !delete_branch(&failed()) && !create_light_tag(&failed()) && !delete_tag(&failed()));
    assert!(fetch(&ok("")) && !fetch(&failed()));
    assert!(push(&ok("")) && !push(&failed()));
}

#[test]
fn default_branch_of_remote() {
    let out = "* remote origin\n  Fetch URL: x\n  HEAD branch: main\n  Remote branches:";
    assert_eq!(remote_head(out), Some(s("main")));
    assert_eq!(default_branch(&ok(out)), Some(s("main")));
    assert_eq!(default_branch(&failed()), None);
    assert_eq!(remote_head("no head here"), None);
    assert_eq!(remote_head("HEAD branch: last"), None);
}
