use git_sync::listing::{list_branches, list_mapping, list_tags, Format, JsonRef, MapBy, ObjRef, Status, TagType};
use git_sync::manifest::{branch_refs, classify_tags, has_changes, merge_tree};

fn s(v: &str) -> String {
    v.to_string()
}

fn strings(v: &[&str]) -> Vec<String> {
    v.iter().map(|x| x.to_string()).collect()
}

fn text(v: &str) -> JsonRef {
    JsonRef::Text(v.to_string())
}

fn entry(current: JsonRef, previous: JsonRef) -> ObjRef {
    ObjRef { current, previous }
}

fn branches() -> (Vec<(String, ObjRef)>, Vec<(String, JsonRef)>) {
    let active = vec![
        (s("new"), entry(text("n1"), JsonRef::Null)),
        (s("main"), entry(text("a2"), text("a1"))),
    ];
    let retired = vec![(s("old"), text("b1"))];
    (active, retired)
}

#[test]
fn branch_listings() {
    let (active, retired) = branches();
    assert_eq!(list_branches(&active, &retired, Status::All, Format::Event), Some(s("M\tmain\nC\tnew\nR\told")));
    assert_eq!(list_branches(&active, &retired, Status::All, Format::Long), Some(s("main\ta1:a2\nnew\t:n1\nold\tb1:")));
    assert_eq!(list_branches(&active, &retired, Status::Active, Format::Index), Some(s("main\ta2\nnew\tn1")));
    assert_eq!(list_branches(&active, &retired, Status::Retired, Format::Simple), Some(s("old")));
    assert_eq!(list_branches(&active, &retired, Status::Retired, Format::Index), Some(s("old")));
    assert_eq!(list_branches(&vec![], &vec![], Status::All, Format::Long), Some(s("")));
}

#[test]
fn branch_listing_stops_on_a_field_that_is_not_a_string() {
    let active = vec![(s("main"), entry(JsonRef::Other, JsonRef::Null))];
    assert_eq!(list_branches(&active, &vec![], Status::Active, Format::Index), None);
    assert_eq!(list_branches(&active, &vec![], Status::Active, Format::Simple), Some(s("main")));
}

#[test]
fn tag_listings() {
    let light = vec![(s("v1"), entry(text("t1"), JsonRef::Null))];
    let annotated = vec![(s("v2"), entry(text("t2"), text("t0")))];
    let retired = vec![(s("v0"), text("tz"))];
    assert_eq!(
        list_tags(&light, &annotated, &retired, Status::All, Format::Long, TagType::All),
        Some(s(" \tv0\ttz:\nL\tv1\t:t1\nA\tv2\tt0:t2"))
    );
    assert_eq!(list_tags(&light, &annotated, &retired, Status::Active, Format::Simple, TagType::Light), Some(s("v1")));
    assert_eq!(list_tags(&light, &annotated, &retired, Status::Active, Format::Event, TagType::Annotated), Some(s("M\tv2")));
    assert_eq!(list_tags(&light, &annotated, &retired, Status::Retired, Format::Event, TagType::Light), Some(s("R\tv0")));
}

#[test]
fn mapping_listings() {
    let mapping = vec![(s("h1"), s("a.bin")), (s("h2"), s("b.bin")), (s("h3"), s("a.bin"))];
    assert_eq!(list_mapping(&mapping, MapBy::File, Format::Long), "a.bin - h1\na.bin - h3\nb.bin - h2");
    assert_eq!(list_mapping(&mapping, MapBy::File, Format::Simple), "a.bin\nb.bin");
    assert_eq!(list_mapping(&mapping, MapBy::Hash, Format::Simple), "h1\nh2\nh3");
    assert_eq!(list_mapping(&mapping, MapBy::Hash, Format::Long), "h1 - a.bin\nh2 - b.bin\nh3 - a.bin");
    assert_eq!(list_mapping(&vec![], MapBy::Hash, Format::Long), "");
}

#[test]
fn tags_sorted_into_kinds() {
    let tags = vec![(s("v1"), (s(""), s("t1"))), (s("v2"), (s("t0"), s("t2")))];
    let infos = vec![(s("t1"), false), (s("c2"), true)];
    let tree = vec![(s("t1"), vec![])];
    let c = classify_tags(&tags, &infos, &tree);
    assert_eq!(c.light.len(), 1);
    assert_eq!(c.light[0].0, "v1");
    assert!(matches!(&c.light[0].1.current, JsonRef::Text(x) if x == "t1"));
    assert!(matches!(c.light[0].1.previous, JsonRef::Null));
    assert_eq!(c.annotated.len(), 1);
    assert_eq!(c.annotated[0].0, "v2");
    assert!(matches!(&c.annotated[0].1.previous, JsonRef::Text(x) if x == "t0"));
    assert_eq!(c.objects, strings(&["t2"]));
    assert_eq!(c.required, strings(&["c2"]));
}

#[test]
fn light_tag_outside_the_tree_is_required() {
    let tags = vec![(s("v1"), (s(""), s("t1")))];
    let c = classify_tags(&tags, &vec![(s("t1"), false)], &vec![]);
    assert_eq!(c.required, strings(&["t1"]));
    assert!(c.objects.is_empty());
}

#[test]
fn branch_records_and_changes() {
    let r = branch_refs(&vec![(s("main"), (s("a1"), s("a2"))), (s("new"), (s(""), s("n1")))]);
    assert_eq!(r.len(), 2);
    assert!(matches!(&r[0].1.current, JsonRef::Text(x) if x == "a2"));
    assert!(matches!(&r[0].1.previous, JsonRef::Text(x) if x == "a1"));
    assert!(matches!(r[1].1.previous, JsonRef::Null));
    assert!(has_changes(&vec![], &vec![], &vec![], &r, &vec![]));
    assert!(has_changes(&vec![], &vec![], &vec![(s("v0"), s("t"))], &vec![], &vec![]));
    assert!(!has_changes(&vec![], &vec![], &vec![], &vec![], &vec![]));
}

#[test]
fn merging_walked_trees() {
    let from = vec![(s("c1"), strings(&["q"])), (s("c2"), vec![])];
    let mut keep = vec![(s("c1"), strings(&["p"]))];
    merge_tree(&mut keep, &from, false);
    assert_eq!(keep, vec![(s("c1"), strings(&["p"])), (s("c2"), vec![])]);
    let mut replace = vec![(s("c1"), strings(&["p"]))];
    merge_tree(&mut replace, &from, true);
    assert_eq!(replace, vec![(s("c1"), strings(&["q"])), (s("c2"), vec![])]);
}
