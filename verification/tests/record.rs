use rensen::path::FilePath;
use rensen::logging::Trap;
use rensen::record::{DeletedDoc, EntryDoc, Record, RecordDoc};
use rensen::snapshot::PathPair;
use rensen::traits::ConvertFromPath;
use rensen::utils::{archive_name, hash_chunk, is_unsafe_entry};

fn entry(source: &str, file_path: &str, snapshot_path: &str, mtime: u64, size: u64) -> EntryDoc {
    EntryDoc {
        source: source.to_string(),
        file_path: file_path.to_string(),
        snapshot_path: snapshot_path.to_string(),
        mtime,
        size,
    }
}

fn sample() -> Record {
    let mut record = Record::new();
    record.interval_n = 3;
    record.intervals.push(FilePath::from("/var/backups/h/T1"));
    record.intervals.push(FilePath::from("/var/backups/h/T2"));
    record.snapshot.add_entry(
        PathPair::from(FilePath::from("/srv/data/a.txt"), FilePath::from("/var/backups/h/T1/data/a.txt")),
        FilePath::from("/var/backups/h/T1"),
        100,
        3,
    );
    record.snapshot.add_entry(
        PathPair::from(FilePath::from("/srv/data/b/c.txt"), FilePath::from("/var/backups/h/T2/data/b/c.txt")),
        FilePath::from("/var/backups/h/T2"),
        250,
        7,
    );
    record.snapshot.mark_as_deleted(PathPair::from(
        FilePath::from("/srv/data/old"),
        FilePath::from("/var/backups/h/T1/data/old"),
    ));
    record.recompute_size().unwrap();
    record
}

#[test]
fn record_test_serialize_record() {
    let record = Record::new();
    let doc = record.serialize_json();
    assert_eq!(doc.interval_n, 0);
    assert!(doc.intervals.is_empty());
    assert!(doc.entries.is_empty());
    assert!(doc.deleted_entries.is_empty());
    assert_eq!(doc.size, 0);
}

#[test]
fn record_test_deserialize_record() {
    let doc = RecordDoc {
        interval_n: 0,
        intervals: Vec::new(),
        entries: Vec::new(),
        deleted_entries: Vec::new(),
        size: 0,
    };
    let record: Record = Record::deserialize_json(&doc).unwrap();
    assert_eq!(record.snapshot.entries.len(), 0);
    assert_eq!(record.size, 0);
}

#[test]
fn record_as_a_document() {
    let doc = sample().serialize_json();
    assert_eq!(doc.interval_n, 3);
    assert_eq!(doc.intervals, vec!["/var/backups/h/T1", "/var/backups/h/T2"]);
    assert_eq!(doc.size, 10);
    assert_eq!(doc.entries.len(), 2);
    assert_eq!(doc.entries[0].source, "/srv/data/a.txt");
    assert_eq!(doc.entries[0].file_path, "/var/backups/h/T1/data/a.txt");
    assert_eq!(doc.entries[0].snapshot_path, "/var/backups/h/T1");
    assert_eq!((doc.entries[0].mtime, doc.entries[0].size), (100, 3));
    assert_eq!(doc.entries[1].source, "/srv/data/b/c.txt");
    assert_eq!(doc.deleted_entries.len(), 1);
    assert_eq!(doc.deleted_entries[0].source, "/srv/data/old");
    assert_eq!(doc.deleted_entries[0].destination, "/var/backups/h/T1/data/old");
}

#[test]
fn write_then_read_gives_an_equal_record() {
    let record = sample();
    let back = Record::deserialize_json(&record.serialize_json()).unwrap();
    assert_eq!(back.interval_n, record.interval_n);
    assert_eq!(back.size, record.size);
    assert_eq!(back.intervals.len(), record.intervals.len());
    for (a, b) in back.intervals.iter().zip(record.intervals.iter()) {
        assert!(a == b);
    }
    assert_eq!(back.snapshot.entries.len(), record.snapshot.entries.len());
    for source in record.snapshot.sources() {
        let was = record.snapshot.entries.get(&source).unwrap();
        let is = back.snapshot.entries.get(&source).unwrap();
        assert!(was.file_path == is.file_path);
        assert!(was.snapshot_path == is.snapshot_path);
        assert_eq!((was.mtime, was.size), (is.mtime, is.size));
    }
    assert_eq!(back.snapshot.deleted_entries.len(), 1);
    let old = FilePath::from("/srv/data/old");
    assert!(
        back.snapshot.deleted_entries.get(&old).unwrap()
            == record.snapshot.deleted_entries.get(&old).unwrap()
    );
}

#[test]
fn reading_recomputes_the_size() {
    let doc = RecordDoc {
        interval_n: 1,
        intervals: Vec::new(),
        entries: vec![entry("/s/a", "/b/T/a", "/b/T", 1, 40), entry("/s/b", "/b/T/b", "/b/T", 2, 2)],
        deleted_entries: Vec::new(),
        size: 7,
    };
    let record = Record::deserialize_json(&doc).unwrap();
    assert_eq!(record.size, 42);
    assert_eq!(record.snapshot.total_size(), 42);
}

#[test]
fn a_later_entry_for_one_path_stands_in_place_of_an_earlier_one() {
    let doc = RecordDoc {
        interval_n: 0,
        intervals: Vec::new(),
        entries: vec![
            entry("/s/a", "/b/T1/a", "/b/T1", 1, 40),
            entry("/s//a/", "/b/T2/a", "/b/T2", 2, 2),
        ],
        deleted_entries: Vec::new(),
        size: 0,
    };
    let record = Record::deserialize_json(&doc).unwrap();
    assert_eq!(record.snapshot.entries.len(), 1);
    assert_eq!(record.size, 2);
    assert_eq!(record.snapshot.mtime(&FilePath::from("/s/a")), Some(&2));
}

#[test]
fn a_path_both_live_and_deleted_is_refused() {
    let doc = RecordDoc {
        interval_n: 0,
        intervals: Vec::new(),
        entries: vec![entry("/s/a", "/b/T/a", "/b/T", 1, 1)],
        deleted_entries: vec![DeletedDoc {
            source: String::from("/s/a"),
            destination: String::from("/b/T/a"),
        }],
        size: 1,
    };
    assert!(matches!(Record::deserialize_json(&doc), Err(Trap::Deserialize(_))));
}

#[test]
fn sizes_that_do_not_add_up_are_refused() {
    let doc = RecordDoc {
        interval_n: 0,
        intervals: Vec::new(),
        entries: vec![
            entry("/s/a", "/b/T/a", "/b/T", 1, u64::MAX),
            entry("/s/b", "/b/T/b", "/b/T", 1, 1),
        ],
        deleted_entries: Vec::new(),
        size: 0,
    };
    assert!(matches!(Record::deserialize_json(&doc), Err(Trap::Deserialize(_))));
}

#[test]
fn utils_test_hash() {
    assert_eq!(
        hash_chunk(b"abc"),
        "3a985da74fe225b2045c172d6bd390bd855f086e3e9d525b46bfe24511431532"
    );
    assert_eq!(
        hash_chunk(b""),
        "a7ffc6f8bf1ed76651c14756a061d662f580ff4de43b49fa82d80a4b80f8434a"
    );
    // only the first 1024 bytes count
    let long = vec![7u8; 3000];
    assert_eq!(hash_chunk(&long), hash_chunk(&long[..1024]));
    assert_ne!(hash_chunk(&long[..1023]), hash_chunk(&long[..1024]));
}

#[test]
fn archive_entries() {
    let root = FilePath::from("/var/backups/h/T1");
    assert_eq!(
        archive_name(&FilePath::from("/var/backups/h/T1/data/b/c.txt"), &root).to_string(),
        "data/b/c.txt"
    );
    assert_eq!(archive_name(&root, &root).to_string(), "");
    assert!(is_unsafe_entry(&FilePath::from("data/../../etc/passwd")));
    assert!(is_unsafe_entry(&FilePath::from("..")));
    assert!(!is_unsafe_entry(&FilePath::from("data/b/c.txt")));
    assert!(!is_unsafe_entry(&FilePath::from("data/..c/c..")));
    assert!(!is_unsafe_entry(&FilePath::new()));
}

#[test]
fn convert_from_path() {
    let p = FilePath::from("/a/b");
    let text: String = ConvertFromPath::convert_from_path(&p);
    assert_eq!(text, "/a/b");
    let copy: FilePath = ConvertFromPath::convert_from_path(&p);
    assert!(copy == p);
}
