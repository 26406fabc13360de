use rensen::path::FilePath;
use rensen::utils::{
    replace_common_prefix, strip_double_extension, strip_extension, strip_tar_gz_extension,
};

fn text(chars: Option<Vec<char>>) -> Option<String> {
    chars.map(|c| c.into_iter().collect())
}

#[test]
fn utils_test_strip_tar_gz_extension() {
    let original = FilePath::from("path/to/certain/path.tar.gz");
    let new = strip_double_extension(&original);
    assert!(new == FilePath::from("path/to/certain/path"), "{:?} - {:?}", original, new);
    assert_eq!(new.to_string(), "path/to/certain/path");
    assert!(original != new);
    assert!(strip_tar_gz_extension(&original) == new);
}

#[test]
fn parse_drops_what_spells_nothing() {
    assert_eq!(FilePath::from("a//b/./c/").to_string(), "a/b/c");
    assert_eq!(FilePath::from("/./a").to_string(), "/a");
    assert_eq!(FilePath::from("./a").to_string(), "./a");
    assert_eq!(FilePath::from("a/..").to_string(), "a/..");
    assert_eq!(FilePath::from("/").to_string(), "/");
    assert_eq!(FilePath::from("").to_string(), "");
    assert_eq!(FilePath::from("").len(), 0);
    assert_eq!(FilePath::from("/srv/data").len(), 3);
    assert!(FilePath::from("a//b") == FilePath::from("a/b/"));
    assert!(FilePath::from("a/b") != FilePath::from("a/c"));
    assert!(FilePath::from("/a").is_absolute());
    assert!(!FilePath::from("a").is_absolute());
}

#[test]
fn push_appends_or_replaces() {
    let base = FilePath::from("/var/backups");
    assert_eq!(base.join_str("10.0.0.5").to_string(), "/var/backups/10.0.0.5");
    assert_eq!(base.join_str("/etc").to_string(), "/etc");
    assert_eq!(base.join_str("./x").to_string(), "/var/backups/x");
    assert_eq!(base.join_str("").to_string(), "/var/backups");
    assert_eq!(FilePath::new().join_str("./x").to_string(), "./x");
    let mut p = FilePath::from("a");
    p.push(&FilePath::from("b/c"));
    assert_eq!(p.to_string(), "a/b/c");
}

#[test]
fn pop_stops_at_the_root() {
    let mut p = FilePath::from("/a");
    assert!(p.pop());
    assert_eq!(p.to_string(), "/");
    assert!(!p.pop());
    assert_eq!(p.to_string(), "/");
    let mut q = FilePath::from("a");
    assert!(q.pop());
    assert_eq!(q.to_string(), "");
    assert!(!q.pop());
}

#[test]
fn file_name_and_stem() {
    let p = FilePath::from("x/file.tar.gz");
    assert_eq!(text(p.file_name()), Some(String::from("file.tar.gz")));
    assert_eq!(text(p.file_stem()), Some(String::from("file.tar")));
    assert_eq!(text(FilePath::from(".bashrc").file_stem()), Some(String::from(".bashrc")));
    assert_eq!(text(FilePath::from("a/b").file_stem()), Some(String::from("b")));
    assert_eq!(text(FilePath::from("a.").file_stem()), Some(String::from("a")));
    assert_eq!(text(FilePath::from("a/..").file_name()), None);
    assert_eq!(text(FilePath::from("/").file_name()), None);
    assert_eq!(text(FilePath::from(".").file_stem()), None);
    assert_eq!(text(FilePath::from("").file_stem()), None);
}

#[test]
fn strip_extension_drops_one_extension() {
    let mut p = FilePath::from("/var/backups/h/.records/2024-06-01-00-00-00Z.json");
    strip_extension(&mut p);
    assert_eq!(p.to_string(), "/var/backups/h/.records/2024-06-01-00-00-00Z");
    strip_extension(&mut p);
    assert_eq!(p.to_string(), "/var/backups/h/.records/2024-06-01-00-00-00Z");
    let mut root = FilePath::from("/");
    strip_extension(&mut root);
    assert_eq!(root.to_string(), "/");
    let mut odd = FilePath::from("a/..x");
    strip_extension(&mut odd);
    assert_eq!(odd.to_string(), "a");
    let mut hidden = FilePath::from("a/.x");
    strip_extension(&mut hidden);
    assert_eq!(hidden.to_string(), "a/.x");
}

#[test]
fn replace_common_prefix_rebases() {
    let one = FilePath::from("/var/backups/h/T1/data/b/c.txt");
    let two = FilePath::from("/var/backups/h/T1");
    let target = FilePath::from("/tmp/out/T2");
    assert_eq!(
        replace_common_prefix(&one, &two, &target).to_string(),
        "/tmp/out/T2/data/b/c.txt"
    );
    // nothing shared but the root
    let other = FilePath::from("/etc/x");
    assert_eq!(replace_common_prefix(&other, &two, &target).to_string(), "/tmp/out/T2/etc/x");
    // nothing shared at all: an absolute path replaces the target
    let rel = FilePath::from("rel/root");
    assert_eq!(replace_common_prefix(&other, &rel, &target).to_string(), "/etc/x");
    // the whole path shared
    assert_eq!(replace_common_prefix(&two, &two, &target).to_string(), "/tmp/out/T2");
    assert_eq!(one.common_prefix_with(&two), 5);
    assert_eq!(one.tail_from(5).to_string(), "data/b/c.txt");
    assert_eq!(one.tail_from(99).to_string(), "");
}

#[test]
fn with_suffix_extends_the_last_component() {
    let root = FilePath::from("/var/backups/10.0.0.5/2024-06-01-00-00-00Z");
    assert_eq!(
        root.with_suffix(".tar.gz").to_string(),
        "/var/backups/10.0.0.5/2024-06-01-00-00-00Z.tar.gz"
    );
    assert_eq!(FilePath::from("/").with_suffix(".tar.gz").to_string(), "/.tar.gz");
    assert_eq!(FilePath::new().with_suffix(".tar.gz").to_string(), ".tar.gz");
    // the archive name and the archive root stand for each other
    assert!(strip_double_extension(&root.with_suffix(".tar.gz")) == root);
}

#[test]
fn clone_is_equal() {
    let p = FilePath::from("/a/b/c");
    let q = p.clone();
    assert!(p == q);
    assert!(p.same_as(&q));
}
