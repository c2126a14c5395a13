use git_sync::lfs_export::{changed_contents, files_contents, get_objs, path_mapping, prune_snapshot, read_snapshot};
use git_sync::shared::Outcome;

fn s(v: &str) -> String {
    v.to_string()
}

fn strings(v: &[&str]) -> Vec<String> {
    v.iter().map(|x| x.to_string()).collect()
}

#[test]
fn blob_paths_of_a_range() {
    let out = Outcome { status: true, out: s("o1 a.bin\no2\no3 dir/b c"), error: s("") };
    assert_eq!(get_objs(&out), strings(&["a.bin", "dir/b c"]));
}

#[test]
fn lfs_snapshots() {
    let c = read_snapshot("abc - a.bin\ndef - b.bin").unwrap();
    assert_eq!(c, vec![(s("abc"), s("a.bin")), (s("def"), s("b.bin"))]);
    assert!(read_snapshot("-x").is_none());
    assert!(read_snapshot("no dash").is_none());
    let left = prune_snapshot(vec![(s("ab"), s("x")), (s("abc"), s("y"))], "abc - a.bin").unwrap();
    assert_eq!(left, vec![(s("ab"), s("x"))]);
    let text = "abc - a.bin\ndef - b.bin";
    assert!(prune_snapshot(read_snapshot(text).unwrap(), text).unwrap().is_empty());
    assert!(prune_snapshot(vec![], "-b").is_none());
}

#[test]
fn lfs_files_and_their_objects() {
    let m = path_mapping(&strings(&["aa - a.bin", "bb - b.bin", "cc - a.bin"])).unwrap();
    assert_eq!(m, vec![(s(" a.bin"), strings(&["aa -", "cc -"])), (s(" b.bin"), strings(&["bb -"]))]);
    assert!(path_mapping(&strings(&["no-space"])).is_none());
    assert_eq!(
        files_contents(&m, &strings(&[" a.bin"])),
        Some(vec![(s("aa -"), s(" a.bin")), (s("cc -"), s(" a.bin"))])
    );
    assert_eq!(files_contents(&m, &strings(&["a.bin"])), None);
    assert_eq!(changed_contents(&m, &strings(&["zz", " b.bin"])), vec![(s("bb -"), s(" b.bin"))]);
}
