use rensen::backup::{
    after_read, plan_entry, should_fetch, EntryKind, Layout, LocalFile, ReadEvent, ReadStep,
    RemoteStat, Sftp, Stage, WalkStep, FETCH_BUFFER,
};
use rensen::compiler::{snapshot_record_path, Compiler};
use rensen::config::{GlobalConfig, HostConfig};
use rensen::logging::Trap;
use rensen::path::FilePath;
use rensen::record::Record;
use rensen::table::PathMap;
use rensen::snapshot::{FileEntry, PathBufx, PathPair, Snapshot};

const T1: &str = "2024-06-01-00-00-00Z";
const T2: &str = "2024-06-02-00-00-00Z";
const T3: &str = "2024-06-03-00-00-00Z";
const T4: &str = "2024-06-04-00-00-00Z";

fn edge() -> HostConfig {
    HostConfig::from(
        String::from("root"),
        String::from("10.0.0.5"),
        22,
        FilePath::from("/root/.ssh/id_ed25519"),
        FilePath::from("/srv/data"),
        FilePath::from("/var/backups"),
        String::from("0 0 * * *"),
    )
}

fn global() -> GlobalConfig {
    GlobalConfig {
        hosts: FilePath::from("/etc/rensen/hosts.yml"),
        backups: FilePath::from("/var/backups"),
        snapshots: FilePath::from("/tmp/out"),
        log: FilePath::from("/var/log/rensen.log"),
    }
}

fn local(time: &str, rel: &str, mtime: u64, size: u64) -> LocalFile {
    LocalFile {
        path: FilePath::from(&format!("/var/backups/10.0.0.5/{}/data/{}", time, rel)),
        mtime,
        size,
    }
}

fn key(rel: &str) -> FilePath {
    FilePath::from(&format!("/srv/data/{}", rel))
}

fn stat(perm: u32, mtime: Option<u64>) -> RemoteStat {
    RemoteStat { size: Some(1), uid: None, gid: None, perm: Some(perm), atime: None, mtime }
}

/// The record after the full run at T1.
fn after_first_run() -> Record {
    let mut sftp = Sftp::new(&edge(), &global(), Record::new(), false);
    sftp.prepare(T1);
    let files = vec![
        local(T1, "a.txt", 100, 3),
        local(T1, "b/c.txt", 200, 7),
        local(T1, "b/d.txt", 150, 5),
    ];
    sftp.update_record(&files, &Vec::new()).unwrap();
    sftp.record
}

/// The record after the incremental run at T2, in which `b/c.txt` had changed.
fn after_second_run() -> Record {
    let mut sftp = Sftp::new(&edge(), &global(), after_first_run(), false);
    sftp.incremental = true;
    sftp.prepare(T2);
    sftp.update_record(&vec![local(T2, "b/c.txt", 250, 7)], &Vec::new()).unwrap();
    sftp.record
}

/// The record after the incremental run at T3, in which `a.txt` was gone.
fn after_third_run() -> Record {
    let mut sftp = Sftp::new(&edge(), &global(), after_second_run(), false);
    sftp.incremental = true;
    sftp.prepare(T3);
    sftp.update_record(&Vec::new(), &vec![key("a.txt")]).unwrap();
    sftp.record
}

#[test]
fn layout_of_a_run() {
    let layout = Layout::compute(
        &FilePath::from("/var/backups"),
        "10.0.0.5",
        &FilePath::from("/srv/data"),
        T1,
    );
    assert_eq!(layout.host_root.to_string(), "/var/backups/10.0.0.5");
    assert_eq!(layout.snapshot_root.to_string(), "/var/backups/10.0.0.5/2024-06-01-00-00-00Z");
    assert_eq!(layout.archive_root.to_string(), "/var/backups/10.0.0.5/2024-06-01-00-00-00Z/data");
    assert_eq!(layout.records_dir.to_string(), "/var/backups/10.0.0.5/.records");
    assert_eq!(layout.canonical_record.to_string(), "/var/backups/10.0.0.5/.records/record.json");
    assert_eq!(
        layout.snapshot_record.to_string(),
        "/var/backups/10.0.0.5/.records/2024-06-01-00-00-00Z.json"
    );
    assert_eq!(
        layout.archive_file.to_string(),
        "/var/backups/10.0.0.5/2024-06-01-00-00-00Z.tar.gz"
    );
}

#[test]
fn layout_falls_back_to_the_address() {
    let layout = Layout::compute(&FilePath::from("/var/backups"), "10.0.0.5", &FilePath::from("/"), T1);
    assert_eq!(
        layout.archive_root.to_string(),
        "/var/backups/10.0.0.5/2024-06-01-00-00-00Z/10.0.0.5"
    );
    let dotted = Layout::compute(
        &FilePath::from("/var/backups"),
        "h",
        &FilePath::from("/srv/www.old"),
        T1,
    );
    assert_eq!(dotted.archive_root.to_string(), "/var/backups/h/2024-06-01-00-00-00Z/www");
}

#[test]
fn fetch_rule() {
    // a full run fetches everything
    assert!(should_fetch(false, Some(100), 50));
    assert!(should_fetch(false, None, 0));
    // an incremental run passes over what did not change
    assert!(!should_fetch(true, Some(100), 100));
    assert!(!should_fetch(true, Some(100), 99));
    assert!(should_fetch(true, Some(100), 101));
    // and fetches what the record does not know, whatever its time
    assert!(should_fetch(true, None, 0));
    assert!(should_fetch(true, None, u64::MAX));
    assert!(!should_fetch(true, Some(u64::MAX), u64::MAX));
}

#[test]
fn remote_stat_kinds() {
    assert_eq!(stat(0o100644, Some(1)).kind(), EntryKind::File);
    assert_eq!(stat(0o040755, Some(1)).kind(), EntryKind::Directory);
    assert_eq!(stat(0o120777, Some(1)).kind(), EntryKind::Other);
    assert_eq!(stat(0o000644, Some(1)).kind(), EntryKind::Other);
    assert!(stat(0o100600, None).is_file());
    assert!(!stat(0o100600, None).is_dir());
    assert!(stat(0o040700, None).is_dir());
    assert!(!stat(0o040700, None).is_file());
    let bare = RemoteStat { size: None, uid: None, gid: None, perm: None, atime: None, mtime: None };
    assert_eq!(bare.kind(), EntryKind::Other);
    assert_eq!(bare.mtime_or_latest(), u64::MAX);
    assert_eq!(stat(0o100644, Some(42)).mtime_or_latest(), 42);
}

#[test]
fn walk_steps() {
    let source = FilePath::from("/srv/data");
    let destination = FilePath::from("/var/backups/10.0.0.5/T/data");
    match plan_entry(&source, &destination, &FilePath::from("/srv/data/b"), &stat(0o040755, None)) {
        WalkStep::Descend { source, destination } => {
            assert_eq!(source.to_string(), "/srv/data/b");
            assert_eq!(destination.to_string(), "/var/backups/10.0.0.5/T/data/b");
        }
        other => panic!("{:?}", other),
    }
    match plan_entry(&source, &destination, &FilePath::from("a.txt"), &stat(0o100644, Some(100))) {
        WalkStep::Fetch { source, destination } => {
            assert_eq!(source.to_string(), "/srv/data/a.txt");
            assert_eq!(destination.to_string(), "/var/backups/10.0.0.5/T/data/a.txt");
        }
        other => panic!("{:?}", other),
    }
    assert!(matches!(
        plan_entry(&source, &destination, &FilePath::from("/srv/data/.."), &stat(0o040755, None)),
        WalkStep::Skip
    ));
    assert!(matches!(
        plan_entry(&source, &destination, &FilePath::from("/srv/data/link"), &stat(0o120777, None)),
        WalkStep::Skip
    ));
}

#[test]
fn stages_follow_each_other() {
    let ok: Result<(), Trap> = Ok(());
    let failed: Result<(), Trap> = Err(Trap::Auth(String::from("no")));
    let order = [
        Stage::Connect,
        Stage::Authenticate,
        Stage::Copy,
        Stage::Record,
        Stage::Write,
        Stage::Archive,
        Stage::Done,
    ];
    for pair in order.windows(2) {
        assert_eq!(pair[0].advance(&ok), pair[1]);
    }
    // a failed step fails the run, the packing of the archive too
    for stage in &order[..6] {
        assert_eq!(stage.advance(&failed), Stage::Failed);
    }
    assert_eq!(Stage::Archive.advance(&failed), Stage::Failed);
    assert_eq!(Stage::Archive.advance(&ok), Stage::Done);
    assert_eq!(Stage::Done.advance(&failed), Stage::Done);
    assert_eq!(Stage::Failed.advance(&ok), Stage::Failed);
    assert!(Stage::Done.is_over());
    assert!(Stage::Failed.is_over());
    assert!(!Stage::Write.is_over());
}

#[test]
fn into_source_maps_a_copy_to_its_remote_path() {
    let mut sftp = Sftp::new(&edge(), &global(), Record::new(), false);
    sftp.prepare(T1);
    let copy = FilePath::from("/var/backups/10.0.0.5/2024-06-01-00-00-00Z/data/b/c.txt");
    assert_eq!(sftp.into_source(&copy).to_string(), "/srv/data/b/c.txt");
    let dir = FilePath::from("/var/backups/10.0.0.5/2024-06-01-00-00-00Z/data");
    assert_eq!(sftp.into_source(&dir).to_string(), "/srv/data");
    let root = FilePath::from("/var/backups/10.0.0.5/2024-06-01-00-00-00Z");
    assert_eq!(sftp.into_source(&root).to_string(), "/srv/data");
}

#[test]
fn scenario_initial_full_run() {
    let mut sftp = Sftp::new(&edge(), &global(), Record::new(), false);
    let layout = sftp.prepare(T1);
    assert_eq!(
        layout.archive_file.to_string(),
        "/var/backups/10.0.0.5/2024-06-01-00-00-00Z.tar.gz"
    );
    // a full run fetches every file
    for (rel, mtime) in [("a.txt", 100), ("b/c.txt", 200), ("b/d.txt", 150)] {
        assert!(sftp.should_copy(mtime, &local(T1, rel, mtime, 0).path));
    }
    let record = after_first_run();
    assert_eq!(record.snapshot.entries.len(), 3);
    assert_eq!(record.snapshot.deleted_entries.len(), 0);
    assert_eq!(record.size, 15);
    assert_eq!(record.total_size(), 15);
    assert_eq!(record.snapshot.total_size(), 15);
    assert_eq!(record.snapshot.mtime(&key("a.txt")), Some(&100));
    assert_eq!(record.snapshot.size(&key("b/c.txt")), Some(&7));
    assert_eq!(
        record.snapshot.path(&key("b/d.txt")).unwrap().to_string(),
        "/var/backups/10.0.0.5/2024-06-01-00-00-00Z/data/b/d.txt"
    );
    let sources: Vec<String> = record.snapshot.sources().iter().map(|s| s.to_string()).collect();
    assert_eq!(sources, vec!["/srv/data/a.txt", "/srv/data/b/c.txt", "/srv/data/b/d.txt"]);
}

#[test]
fn scenario_incremental_run_fetches_what_changed() {
    let mut sftp = Sftp::new(&edge(), &global(), after_first_run(), false);
    sftp.incremental = true;
    sftp.prepare(T2);
    assert!(!sftp.should_copy(100, &local(T2, "a.txt", 100, 3).path));
    assert!(sftp.should_copy(250, &local(T2, "b/c.txt", 250, 7).path));
    assert!(!sftp.should_copy(150, &local(T2, "b/d.txt", 150, 5).path));
    let record = after_second_run();
    assert_eq!(record.snapshot.entries.len(), 3);
    assert_eq!(record.size, 15);
    let c = record.snapshot.entries.get(&key("b/c.txt")).unwrap();
    assert_eq!(c.mtime, 250);
    assert_eq!(c.snapshot_path.to_string(), "/var/backups/10.0.0.5/2024-06-02-00-00-00Z");
    assert_eq!(
        c.file_path.to_string(),
        "/var/backups/10.0.0.5/2024-06-02-00-00-00Z/data/b/c.txt"
    );
    let d = record.snapshot.entries.get(&key("b/d.txt")).unwrap();
    assert_eq!(d.mtime, 150);
    assert_eq!(d.snapshot_path.to_string(), "/var/backups/10.0.0.5/2024-06-01-00-00-00Z");
    let a = record.snapshot.entries.get(&key("a.txt")).unwrap();
    assert_eq!(a.snapshot_path.to_string(), "/var/backups/10.0.0.5/2024-06-01-00-00-00Z");
}

#[test]
fn scenario_file_gone_from_the_remote() {
    let record = after_third_run();
    assert_eq!(record.snapshot.entries.len(), 2);
    assert!(record.snapshot.mtime(&key("a.txt")).is_none());
    assert!(!record.snapshot.entries.contains(&key("a.txt")));
    assert_eq!(record.snapshot.deleted_entries.len(), 1);
    assert_eq!(
        record.snapshot.deleted_entries.get(&key("a.txt")).unwrap().to_string(),
        "/var/backups/10.0.0.5/2024-06-01-00-00-00Z/data/a.txt"
    );
    assert!(record.snapshot.is_deleted(&PathPair::from(key("a.txt"), FilePath::new())));
    assert_eq!(record.size, 12);
}

#[test]
fn scenario_file_comes_back() {
    let mut sftp = Sftp::new(&edge(), &global(), after_third_run(), false);
    sftp.incremental = true;
    sftp.prepare(T4);
    // the record knows no time for it any more: it is fetched whatever its time
    assert!(sftp.should_copy(400, &local(T4, "a.txt", 400, 3).path));
    assert!(sftp.should_copy(1, &local(T4, "a.txt", 1, 3).path));
    sftp.update_record(&vec![local(T4, "a.txt", 400, 3)], &Vec::new()).unwrap();
    let record = sftp.record;
    let a = record.snapshot.entries.get(&key("a.txt")).unwrap();
    assert_eq!(a.mtime, 400);
    assert_eq!(a.snapshot_path.to_string(), "/var/backups/10.0.0.5/2024-06-04-00-00-00Z");
    assert_eq!(record.snapshot.deleted_entries.len(), 0);
    assert!(!record.snapshot.is_deleted(&PathPair::from(key("a.txt"), FilePath::new())));
    assert_eq!(record.snapshot.entries.len(), 3);
    assert_eq!(record.size, 15);
}

#[test]
fn scenario_compile_second_snapshot() {
    let record_path = snapshot_record_path(&FilePath::from("/var/backups"), "10.0.0.5", T2);
    assert_eq!(
        record_path.to_string(),
        "/var/backups/10.0.0.5/.records/2024-06-02-00-00-00Z.json"
    );
    let compiler = Compiler::from(&record_path, after_second_run());
    assert_eq!(
        compiler.source_snapshot_path.to_string(),
        "/var/backups/10.0.0.5/.records/2024-06-02-00-00-00Z"
    );
    let out = FilePath::from("/tmp/out");
    assert_eq!(compiler.compile_target(&out).to_string(), "/tmp/out/2024-06-02-00-00-00Z");
    assert_eq!(
        compiler.compiled_archive(&out).to_string(),
        "/tmp/out/2024-06-02-00-00-00Z.tar.gz"
    );
    let steps = compiler.compile(&out);
    assert_eq!(steps.len(), 3);
    let t1 = "/var/backups/10.0.0.5/2024-06-01-00-00-00Z";
    let t2 = "/var/backups/10.0.0.5/2024-06-02-00-00-00Z";
    let expected = [
        (t1, "data/a.txt"),
        (t2, "data/b/c.txt"),
        (t1, "data/b/d.txt"),
    ];
    for (step, (root, rel)) in steps.iter().zip(expected.iter()) {
        assert_eq!(step.archive_root.to_string(), *root);
        assert_eq!(step.archive_file.to_string(), format!("{}.tar.gz", root));
        assert_eq!(step.from.to_string(), format!("{}/{}", root, rel));
        assert_eq!(step.to.to_string(), format!("/tmp/out/2024-06-02-00-00-00Z/{}", rel));
    }
    // the first step of each archive found no directory and unpacked it
    let cleanup = Compiler::cleanup(&steps, &vec![false, false, true]);
    let dirs: Vec<String> = cleanup.iter().map(|d| d.to_string()).collect();
    assert_eq!(dirs, vec![t1, t2]);
    // nothing was unpacked: nothing is deleted
    assert!(Compiler::cleanup(&steps, &vec![true, true, true]).is_empty());
}

#[test]
fn compile_into_two_targets_gives_equal_trees() {
    let record_path = snapshot_record_path(&FilePath::from("/var/backups"), "10.0.0.5", T2);
    let one = Compiler::from(&record_path, after_second_run());
    let two = Compiler::from(&record_path, after_second_run());
    let first = one.compile(&FilePath::from("/tmp/one"));
    let second = two.compile(&FilePath::from("/mnt/other/two"));
    assert_eq!(first.len(), second.len());
    for (a, b) in first.iter().zip(second.iter()) {
        assert!(a.from == b.from);
        assert_eq!(a.to.tail_from(3).to_string(), b.to.tail_from(4).to_string());
    }
}

#[test]
fn latest_is_the_current_record() {
    let backups = FilePath::from("/var/backups");
    assert_eq!(
        snapshot_record_path(&backups, "10.0.0.5", "latest").to_string(),
        "/var/backups/10.0.0.5/.records/record.json"
    );
    assert_eq!(
        snapshot_record_path(&backups, "10.0.0.5", "Latest").to_string(),
        "/var/backups/10.0.0.5/.records/Latest.json"
    );
}

#[test]
fn idle_incremental_run_changes_nothing() {
    let before = after_second_run();
    let mut sftp = Sftp::new(&edge(), &global(), after_second_run(), false);
    sftp.incremental = true;
    sftp.prepare(T3);
    for (rel, mtime) in [("a.txt", 100), ("b/c.txt", 250), ("b/d.txt", 150)] {
        assert!(!sftp.should_copy(mtime, &local(T3, rel, mtime, 0).path));
    }
    sftp.update_record(&Vec::new(), &Vec::new()).unwrap();
    let after = sftp.record;
    assert_eq!(after.size, before.size);
    assert_eq!(after.snapshot.entries.len(), before.snapshot.entries.len());
    for source in before.snapshot.sources() {
        let was = before.snapshot.entries.get(&source).unwrap();
        let is = after.snapshot.entries.get(&source).unwrap();
        assert!(was.file_path == is.file_path);
        assert!(was.snapshot_path == is.snapshot_path);
        assert_eq!((was.mtime, was.size), (is.mtime, is.size));
    }
    assert_eq!(after.snapshot.deleted_entries.len(), 0);
}

#[test]
fn empty_source_gives_an_empty_record() {
    let mut sftp = Sftp::new(&edge(), &global(), Record::new(), false);
    sftp.prepare(T1);
    sftp.update_record(&Vec::new(), &Vec::new()).unwrap();
    assert_eq!(sftp.record.snapshot.entries.len(), 0);
    assert_eq!(sftp.record.snapshot.deleted_entries.len(), 0);
    assert_eq!(sftp.record.size, 0);
}

#[test]
fn record_is_written_twice_with_the_same_text() {
    let layout = Layout::compute(
        &FilePath::from("/var/backups"),
        "10.0.0.5",
        &FilePath::from("/srv/data"),
        T1,
    );
    let (canonical, named) = Sftp::record_writes(&layout, String::from("{\"interval_n\":0}"));
    assert_eq!(canonical.0.to_string(), "/var/backups/10.0.0.5/.records/record.json");
    assert_eq!(named.0.to_string(), "/var/backups/10.0.0.5/.records/2024-06-01-00-00-00Z.json");
    assert_eq!(canonical.1, named.1);
    assert_eq!(canonical.1, "{\"interval_n\":0}");
}

#[test]
fn total_size_that_does_not_fit_is_refused() {
    let mut record = Record::new();
    record.snapshot.add_entry(
        PathPair::from(key("a"), FilePath::from("/x/a")),
        FilePath::from("/x"),
        1,
        u64::MAX,
    );
    record.snapshot.add_entry(
        PathPair::from(key("b"), FilePath::from("/x/b")),
        FilePath::from("/x"),
        1,
        1,
    );
    assert_eq!(record.snapshot.total_size(), u64::MAX as u128 + 1);
    assert!(matches!(record.recompute_size(), Err(Trap::Metadata(_))));
    assert_eq!(record.size, 0);
    record.snapshot.mark_as_deleted(PathPair::from(key("b"), FilePath::from("/x/b")));
    assert!(record.recompute_size().is_ok());
    assert_eq!(record.size, u64::MAX);
}

#[test]
fn snapshot_operations() {
    let mut s = Snapshot::new();
    let pair = PathPair::from(key("a"), FilePath::from("/x/a"));
    assert!(!s.is_deleted(&pair));
    s.add_entry(pair.clone(), FilePath::from("/x"), 10, 4);
    s.add_entry(PathPair::from(key("b"), FilePath::from("/x/b")), FilePath::from("/x"), 20, 6);
    assert_eq!(s.total_size(), 10);
    // a second entry for one source replaces the first
    s.add_entry(PathPair::from(key("a"), FilePath::from("/y/a")), FilePath::from("/y"), 11, 5);
    assert_eq!(s.entries.len(), 2);
    assert_eq!(s.total_size(), 11);
    assert_eq!(s.mtime(&key("a")), Some(&11));
    assert_eq!(s.size(&key("a")), Some(&5));
    assert_eq!(s.path(&key("a")).unwrap().to_string(), "/y/a");
    assert!(s.mtime(&key("c")).is_none());
    assert!(s.path(&key("c")).is_none());
    assert!(s.size(&key("c")).is_none());
    // deleting takes the entry out and keeps the pair
    s.mark_as_deleted(PathPair::from(key("a"), FilePath::from("/y/a")));
    assert!(s.is_deleted(&pair));
    assert!(s.mtime(&key("a")).is_none());
    assert_eq!(s.total_size(), 6);
    assert_eq!(s.deleted_entries.get(&key("a")).unwrap().to_string(), "/y/a");
    // undelete takes the pair out; the entry does not come back by itself
    s.undelete(&pair);
    assert!(!s.is_deleted(&pair));
    assert!(s.mtime(&key("a")).is_none());
    // adding an entry for a deleted source undeletes it
    s.mark_as_deleted(PathPair::from(key("b"), FilePath::from("/x/b")));
    assert!(s.is_deleted(&PathPair::from(key("b"), FilePath::new())));
    s.add_entry(PathPair::from(key("b"), FilePath::from("/z/b")), FilePath::from("/z"), 30, 1);
    assert!(!s.is_deleted(&PathPair::from(key("b"), FilePath::new())));
    assert_eq!(s.deleted_entries.len(), 0);
    assert_eq!(s.total_size(), 1);
}

#[test]
fn file_entry_constructors() {
    let empty = FileEntry::new();
    assert_eq!(empty.file_path.len(), 0);
    assert_eq!(empty.snapshot_path.len(), 0);
    assert_eq!((empty.mtime, empty.size), (0, 0));
    let e = FileEntry::from(FilePath::from("/x/a"), FilePath::from("/x"), 7, 9);
    assert_eq!(e.file_path.to_string(), "/x/a");
    assert_eq!(e.snapshot_path.to_string(), "/x");
    assert_eq!((e.mtime, e.size), (7, 9));
    let c = e.clone();
    assert!(c.file_path == e.file_path);
    let pair = PathPair::from(FilePath::from("/s"), FilePath::from("/d"));
    assert_eq!(pair.source.to_string(), "/s");
    assert_eq!(pair.destination.to_string(), "/d");
}

#[test]
fn host_endpoint() {
    let mut host = edge();
    assert_eq!(host.endpoint(), "10.0.0.5:22");
    host.port = None;
    assert_eq!(host.endpoint(), "10.0.0.5:22");
    host.port = Some(2222);
    assert_eq!(host.endpoint(), "10.0.0.5:2222");
    assert!(FETCH_BUFFER >= 4096);
}

#[test]
fn reads_are_retried_when_interrupted() {
    assert_eq!(after_read(ReadEvent::Data(0)), ReadStep::Finish);
    assert_eq!(after_read(ReadEvent::Data(4096)), ReadStep::Store(4096));
    assert_eq!(after_read(ReadEvent::Data(1)), ReadStep::Store(1));
    assert_eq!(after_read(ReadEvent::Interrupted), ReadStep::Retry);
    assert_eq!(after_read(ReadEvent::Failed), ReadStep::Abort);
}

#[test]
fn entry_without_size() {
    let empty = PathBufx::new();
    assert_eq!(empty.file_path.len(), 0);
    assert_eq!(empty.mtime, 0);
    let x = PathBufx::from(FilePath::from("/home/cbroo/files/file1"), FilePath::from("/home/cbroo"), 123897);
    assert_eq!(x.file_path.to_string(), "/home/cbroo/files/file1");
    assert_eq!(x.mtime, 123897);
    let e = x.with_size(9);
    assert_eq!((e.mtime, e.size), (123897, 9));
    assert_eq!(e.snapshot_path.to_string(), "/home/cbroo");
}

#[test]
fn compiler_test_compiler() {
    let path = FilePath::from("/home/bam/backups/192.168.1.97/.records/2024-05-15-08-10-30Z.json");
    let compiler = Compiler::from(&path, Record::new());
    assert_eq!(
        compiler.source_snapshot_path.to_string(),
        "/home/bam/backups/192.168.1.97/.records/2024-05-15-08-10-30Z"
    );
    let snapshot_path = FilePath::from("/home/bam/snapshots");
    assert_eq!(
        compiler.compile_target(&snapshot_path).to_string(),
        "/home/bam/snapshots/2024-05-15-08-10-30Z"
    );
    assert!(compiler.compile(&snapshot_path).is_empty());
    assert!(Compiler::cleanup(&Vec::new(), &Vec::new()).is_empty());
}

#[test]
fn path_map_holds_each_key_once() {
    let mut map: PathMap<FilePath> = PathMap::new();
    assert_eq!(map.len(), 0);
    assert!(!map.contains(&FilePath::from("/a")));
    assert!(map.get(&FilePath::from("/a")).is_none());
    assert!(map.find(&FilePath::from("/a")).is_none());
    assert!(map.remove(&FilePath::from("/a")).is_none());
    map.insert(FilePath::from("/a"), FilePath::from("/x"));
    map.insert(FilePath::from("/b"), FilePath::from("/y"));
    map.insert(FilePath::from("/a/"), FilePath::from("/z"));
    assert_eq!(map.len(), 2);
    assert_eq!(map.find(&FilePath::from("/b")), Some(1));
    assert_eq!(map.get(&FilePath::from("/a")).unwrap().to_string(), "/z");
    assert_eq!(map.remove(&FilePath::from("/a")).unwrap().to_string(), "/z");
    assert_eq!(map.len(), 1);
    assert!(!map.contains(&FilePath::from("/a")));
    assert!(map.contains(&FilePath::from("/b")));
    assert_eq!(map.find(&FilePath::from("/b")), Some(0));
}

#[test]
fn no_source_is_both_live_and_deleted() {
    let record = after_third_run();
    let mut sftp = Sftp::new(&edge(), &global(), record, false);
    sftp.incremental = true;
    sftp.prepare(T4);
    sftp.update_record(
        &vec![local(T4, "a.txt", 400, 3), local(T4, "new.txt", 401, 1)],
        &vec![key("b/d.txt"), key("never/seen")],
    )
    .unwrap();
    let snapshot = &sftp.record.snapshot;
    for rel in ["a.txt", "b/c.txt", "b/d.txt", "new.txt", "never/seen"] {
        let live = snapshot.entries.contains(&key(rel));
        let deleted = snapshot.deleted_entries.contains(&key(rel));
        assert!(!(live && deleted), "{}", rel);
    }
    assert!(snapshot.entries.contains(&key("a.txt")));
    assert!(snapshot.deleted_entries.contains(&key("b/d.txt")));
    assert!(!snapshot.entries.contains(&key("never/seen")));
    assert!(!snapshot.deleted_entries.contains(&key("never/seen")));
    assert_eq!(sftp.record.size, 3 + 7 + 1);
}
