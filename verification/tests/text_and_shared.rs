use git_sync::shared::{can_trim, define_file_name, file_path, DotRule, NameError, OutTarget, Outcome, PathKind};
use git_sync::text::{find, join, rfind, split, starts_with};

fn s(v: &str) -> String {
    v.to_string()
}

#[test]
fn find_gives_byte_offsets() {
    assert_eq!(find("ab-cd", "-"), Some(2));
    assert_eq!(find("é-x", "-"), Some(2));
    assert_eq!(find("abc", "-"), None);
    assert_eq!(rfind("a/b/c.d.e", "."), Some(7));
    assert_eq!(rfind("a/b/c.d.e", "/"), Some(3));
    assert_eq!(rfind("abc", "/"), None);
}

#[test]
fn split_and_join_lines() {
    assert_eq!(split("a\nb\n", "\n"), vec![s("a"), s("b"), s("")]);
    assert_eq!(split("", "\n"), vec![s("")]);
    assert_eq!(split("x, y", ", "), vec![s("x"), s("y")]);
    let lines = vec![s("aa 1"), s("bb 2")];
    let text = join(&lines, "\n");
    assert_eq!(text, "aa 1\nbb 2");
    assert_eq!(split(&text, "\n"), lines);
    assert!(starts_with("refs/heads/main", "refs/heads"));
    assert!(!starts_with("refs", "refs/heads"));
}

#[test]
fn outcome_trims_one_line_ending() {
    let o = Outcome::from_output(true, s("abc\r\n"), s("err\r\n"));
    assert!(o.status);
    assert_eq!(o.out, "abc");
    assert_eq!(o.error, "err\r");
    let o = Outcome::from_output(false, s("x\n\n"), s("e"));
    assert!(!o.status);
    assert_eq!(o.out, "x\n");
    assert_eq!(o.error, "e");
    let o = Outcome::from_output(true, s("x\r\r\n"), s("e\r\n"));
    assert_eq!(o.out, "x\r");
    assert_eq!(o.error, "e");
}

#[test]
fn trimming_the_error_needs_a_carriage_return() {
    assert!(can_trim("abc\n", "e\n"));
    assert!(can_trim("x\r\r\n", "e\r\n"));
    assert!(!can_trim("x\r\r\n", "e\n"));
}

#[test]
fn output_file_names() {
    match file_path("pack", "20240102-030405", "exp", PathKind::Directory) {
        OutTarget::Within(name) => assert_eq!(name, "pack.20240102-030405.exp"),
        OutTarget::Itself => panic!("expected a name"),
    }
    match file_path("", "20240102-030405", "snp", PathKind::Directory) {
        OutTarget::Within(name) => assert_eq!(name, "20240102-030405.snp"),
        OutTarget::Itself => panic!("expected a name"),
    }
    assert!(matches!(file_path("lfs", "t", "snp", PathKind::Missing { parent_exists: true }), OutTarget::Itself));
}

#[test]
fn inspect_output_names() {
    match define_file_name("/tmp/x/pack.2024.exp", PathKind::Directory, "json", DotRule::Last) {
        Ok(OutTarget::Within(name)) => assert_eq!(name, "pack.2024.json"),
        _ => panic!("expected a name"),
    }
    match define_file_name("/tmp/x/lfs.2024.exp", PathKind::Directory, "fl", DotRule::First) {
        Ok(OutTarget::Within(name)) => assert_eq!(name, "lfs.fl"),
        _ => panic!("expected a name"),
    }
    assert!(matches!(define_file_name("/tmp/a.exp", PathKind::Missing { parent_exists: false }, "br", DotRule::Last), Ok(OutTarget::Itself)));
    assert_eq!(define_file_name("/tmp/a.exp", PathKind::File, "br", DotRule::Last).err(), Some(NameError::IsFile));
    match define_file_name("pack.20240101-000000.exp", PathKind::Directory, "json", DotRule::Last) {
        Ok(OutTarget::Within(name)) => assert_eq!(name, "pack.20240101-000000.json"),
        _ => panic!("expected a name"),
    }
    assert_eq!(define_file_name("/tmp/noext", PathKind::Directory, "br", DotRule::First).err(), Some(NameError::NoExtension));
}
