//! The rules of a backup run: where a run puts what it makes, which remote
//! entries it fetches, how the record takes up what was fetched and what is
//! gone, and in which order the steps of a run follow each other.

use vstd::prelude::*;
use vstd::string::*;
use crate::config::{GlobalConfig, HostConfig};
use crate::logging::Trap;
use crate::path::{
    common_prefix_len, is_normal_path, is_plain_name, lemma_parse_normal,
    lemma_parts_from_normal, lemma_plain_name, lemma_pushed_normal, name_of, parse_path,
    parts_from, pushed, stem_of_path, with_suffix, FilePath,
};
use crate::record::Record;
use crate::snapshot::{FileEntryView, PathPair};
use crate::utils::lemma_common_prefix_of_descendant;

verus! {

/// What the remote says of a file: each field is there only if the remote
/// sent it.
#[derive(Debug, Clone, Copy)]
pub struct RemoteStat {
    pub size: Option<u64>,
    pub uid: Option<u32>,
    pub gid: Option<u32>,
    /// The unix mode: file type and permissions.
    pub perm: Option<u32>,
    /// Seconds since the epoch.
    pub atime: Option<u64>,
    /// Seconds since the epoch.
    pub mtime: Option<u64>,
}

/// The file-type bits of a unix mode; a mode that was not sent counts as 0.
pub open spec fn file_type_bits(perm: Option<u32>) -> u32 {
    match perm {
        Some(p) => p & 0xf000,
        None => 0,
    }
}

/// `ssh2::FileStat::is_file` on the stat with these fields: whether the
/// file-type bits of the mode are those of a regular file.
#[verifier::external_body]
fn stat_is_file(stat: &RemoteStat) -> (r: bool)
    ensures
        r == (file_type_bits(stat.perm) == 0x8000),
{
    ssh2::FileStat {
        size: stat.size,
        uid: stat.uid,
        gid: stat.gid,
        perm: stat.perm,
        atime: stat.atime,
        mtime: stat.mtime,
    }.is_file()
}

/// `ssh2::FileStat::is_dir` on the stat with these fields: whether the
/// file-type bits of the mode are those of a directory.
#[verifier::external_body]
fn stat_is_dir(stat: &RemoteStat) -> (r: bool)
    ensures
        r == (file_type_bits(stat.perm) == 0x4000),
{
    ssh2::FileStat {
        size: stat.size,
        uid: stat.uid,
        gid: stat.gid,
        perm: stat.perm,
        atime: stat.atime,
        mtime: stat.mtime,
    }.is_dir()
}

/// What a remote directory entry is, as far as a run cares.
#[derive(Debug, Clone, Copy, PartialEq, Eq, Structural)]
pub enum EntryKind {
    File,
    Directory,
    Other,
}

impl RemoteStat {
    /// What kind of entry the mode says this is.
    pub open spec fn spec_kind(&self) -> EntryKind {
        if file_type_bits(self.perm) == 0x8000 {
            EntryKind::File
        } else if file_type_bits(self.perm) == 0x4000 {
            EntryKind::Directory
        } else {
            EntryKind::Other
        }
    }

    /// The time of last modification as a run compares it: a time that the
    /// remote did not send counts as the latest possible.
    pub open spec fn spec_mtime(&self) -> u64 {
        match self.mtime {
            Some(t) => t,
            None => u64::MAX,
        }
    }

    /// Whether this is a regular file.
    pub fn is_file(&self) -> (r: bool)
        ensures
            r == (self.spec_kind() == EntryKind::File),
    {
        stat_is_file(self)
    }

    /// Whether this is a directory.
    pub fn is_dir(&self) -> (r: bool)
        ensures
            r == (self.spec_kind() == EntryKind::Directory),
    {
        stat_is_dir(self)
    }

    /// What kind of entry this is.
    pub fn kind(&self) -> (r: EntryKind)
        ensures
            r == self.spec_kind(),
    {
        if stat_is_file(self) {
            EntryKind::File
        } else if stat_is_dir(self) {
            EntryKind::Directory
        } else {
            EntryKind::Other
        }
    }

    /// The time of last modification as a run compares it.
    pub fn mtime_or_latest(&self) -> (r: u64)
        ensures
            r == self.spec_mtime(),
    {
        match self.mtime {
            Some(t) => t,
            None => u64::MAX,
        }
    }
}

/// Whether a run fetches a file. A full run fetches every file. An
/// incremental run passes over a file that the record knows and that was not
/// modified on the remote since the time recorded.
pub open spec fn must_fetch(incremental: bool, recorded: Option<u64>, remote_mtime: u64) -> bool {
    !(incremental && recorded is Some && remote_mtime <= recorded->0)
}

/// The time of last modification recorded for `source`, if it is live.
pub open spec fn recorded_mtime(
    entries: Map<Seq<Seq<char>>, FileEntryView>,
    source: Seq<Seq<char>>,
) -> Option<u64> {
    if entries.contains_key(source) {
        Some(entries[source].mtime)
    } else {
        None
    }
}

/// Whether a run fetches a file, given the time recorded for it, if any, and
/// its time of last modification on the remote.
pub fn should_fetch(incremental: bool, recorded: Option<u64>, remote_mtime: u64) -> (r: bool)
    ensures
        r == must_fetch(incremental, recorded, remote_mtime),
{
    if !incremental {
        return true;
    }
    match recorded {
        Some(known) => remote_mtime > known,
        None => true,
    }
}

/// Size in bytes of the buffer that a remote file is read through.
pub const FETCH_BUFFER: usize = 4096;

/// What a read from the remote file's channel came back with.
#[derive(Debug, Clone, Copy, PartialEq, Eq, Structural)]
pub enum ReadEvent {
    /// So many bytes; none at the end of the file.
    Data(usize),
    /// The read was interrupted before it got anything.
    Interrupted,
    /// The stream failed.
    Failed,
}

/// What the fetch of a file does after a read.
#[derive(Debug, Clone, Copy, PartialEq, Eq, Structural)]
pub enum ReadStep {
    /// The file is complete.
    Finish,
    /// Write so many bytes to the local file and read on.
    Store(usize),
    /// Read again.
    Retry,
    /// Give the file up, with a `Channel` failure.
    Abort,
}

/// What the fetch of a file does after a read: an interrupted read is tried
/// again, any other failure of the stream ends the fetch of this file.
pub open spec fn read_step(event: ReadEvent) -> ReadStep {
    match event {
        ReadEvent::Data(n) => if n == 0 {
            ReadStep::Finish
        } else {
            ReadStep::Store(n)
        },
        ReadEvent::Interrupted => ReadStep::Retry,
        ReadEvent::Failed => ReadStep::Abort,
    }
}

/// What the fetch of a file does after a read.
pub fn after_read(event: ReadEvent) -> (r: ReadStep)
    ensures
        r == read_step(event),
{
    match event {
        ReadEvent::Data(n) => if n == 0 {
            ReadStep::Finish
        } else {
            ReadStep::Store(n)
        },
        ReadEvent::Interrupted => ReadStep::Retry,
        ReadEvent::Failed => ReadStep::Abort,
    }
}

/// The remote path that the local path `local` is the copy of: the source
/// directory, extended by what lies in `local` below the directory that the
/// remote tree was copied into, which is the one component after what
/// `local` shares with the snapshot root.
pub open spec fn source_of(
    local: Seq<Seq<char>>,
    snapshot_root: Seq<Seq<char>>,
    source_dir: Seq<Seq<char>>,
) -> Seq<Seq<char>> {
    pushed(source_dir, parts_from(local, common_prefix_len(local, snapshot_root) + 1))
}

/// A file that lies at `rel` below the archive root, itself one component
/// below the snapshot root, is the copy of the file at `rel` below the
/// source directory.
pub proof fn lemma_source_of_copy(
    snapshot_root: Seq<Seq<char>>,
    dir: Seq<char>,
    rel: Seq<Seq<char>>,
    source_dir: Seq<Seq<char>>,
)
    ensures
        source_of(snapshot_root.push(dir) + rel, snapshot_root, source_dir) == pushed(
            source_dir,
            rel,
        ),
{
    let local = snapshot_root.push(dir) + rel;
    assert(local =~= snapshot_root + (seq![dir] + rel));
    lemma_common_prefix_of_descendant(snapshot_root, seq![dir] + rel);
    let n = snapshot_root.len();
    if rel.len() > 0 {
        assert(local.skip(n as int + 1) =~= rel);
    } else {
        assert(rel =~= Seq::<Seq<char>>::empty());
    }
}

/// The remote path of a copy is normal where the copy's path and the source
/// directory are.
pub proof fn lemma_source_of_normal(
    local: Seq<Seq<char>>,
    snapshot_root: Seq<Seq<char>>,
    source_dir: Seq<Seq<char>>,
)
    requires
        is_normal_path(local),
        is_normal_path(source_dir),
    ensures
        is_normal_path(source_of(local, snapshot_root, source_dir)),
{
    let n = common_prefix_len(local, snapshot_root) + 1;
    lemma_parts_from_normal(local, n);
    lemma_pushed_normal(source_dir, parts_from(local, n));
}

/// The host's directory under the backups root.
pub open spec fn host_root_of(backups: Seq<Seq<char>>, identifier: Seq<char>) -> Seq<Seq<char>> {
    pushed(backups, parse_path(identifier))
}

/// The directory of the snapshot taken at `datetime`.
pub open spec fn snapshot_root_of(
    backups: Seq<Seq<char>>,
    identifier: Seq<char>,
    datetime: Seq<char>,
) -> Seq<Seq<char>> {
    pushed(host_root_of(backups, identifier), parse_path(datetime))
}

/// The name of the directory that the remote tree is copied into: the stem of
/// the source directory, or the host's address where the source has no stem.
pub open spec fn archive_dir_of(source: Seq<Seq<char>>, identifier: Seq<char>) -> Seq<Seq<char>> {
    match stem_of_path(source) {
        Some(stem) => parse_path(stem),
        None => parse_path(identifier),
    }
}

/// The directory that holds the host's records.
pub open spec fn records_dir_of(backups: Seq<Seq<char>>, identifier: Seq<char>) -> Seq<Seq<char>> {
    pushed(host_root_of(backups, identifier), parse_path(".records"@))
}

/// For a host address and a snapshot time that are plain names, the layout
/// is the backups root followed by the address, then the time for the
/// snapshot root or `.records` for the records; the records are
/// `record.json` and the time with `.json`, and the archive is the snapshot
/// root with `.tar.gz`.
pub proof fn lemma_layout_of_plain_names(
    backups: Seq<Seq<char>>,
    identifier: Seq<char>,
    datetime: Seq<char>,
)
    requires
        is_plain_name(identifier),
        is_plain_name(datetime),
    ensures
        host_root_of(backups, identifier) == backups.push(identifier),
        snapshot_root_of(backups, identifier, datetime) == backups.push(identifier).push(datetime),
        records_dir_of(backups, identifier) == backups.push(identifier).push(".records"@),
        pushed(records_dir_of(backups, identifier), parse_path("record.json"@)) == backups.push(
            identifier,
        ).push(".records"@).push("record.json"@),
        pushed(records_dir_of(backups, identifier), parse_path(datetime + ".json"@))
            == backups.push(identifier).push(".records"@).push(datetime + ".json"@),
        with_suffix(snapshot_root_of(backups, identifier, datetime), ".tar.gz"@) == backups.push(
            identifier,
        ).push(datetime + ".tar.gz"@),
{
    reveal_strlit(".records");
    reveal_strlit("record.json");
    reveal_strlit(".json");
    let host_root = backups.push(identifier);
    lemma_plain_name(backups, identifier);
    lemma_plain_name(host_root, datetime);
    assert(is_plain_name(".records"@)) by {
        assert(".records"@.len() == 8);
        assert(".records"@[1] == 'r');
    }
    lemma_plain_name(host_root, ".records"@);
    let records = host_root.push(".records"@);
    assert(is_plain_name("record.json"@)) by {
        assert("record.json"@.len() == 11);
    }
    lemma_plain_name(records, "record.json"@);
    let named = datetime + ".json"@;
    assert(is_plain_name(named)) by {
        assert(named.len() == datetime.len() + 5);
        assert forall|i: int| 0 <= i < named.len() implies #[trigger] named[i] != '/' by {
            if i < datetime.len() {
                assert(named[i] == datetime[i]);
            } else {
                assert(named[i] == ".json"@[i - datetime.len()]);
            }
        }
    }
    lemma_plain_name(records, named);
    let root = host_root.push(datetime);
    assert(root.last() == datetime);
    assert(datetime[0] != '/');
    assert(root.drop_last() =~= host_root);
}

/// Where a run puts what it makes.
#[derive(Debug)]
pub struct Layout {
    pub host_root: FilePath,
    pub snapshot_root: FilePath,
    /// The directory that the remote tree is copied into.
    pub archive_root: FilePath,
    pub records_dir: FilePath,
    /// The host's record, as of the last run.
    pub canonical_record: FilePath,
    /// The copy of the record under the snapshot's name.
    pub snapshot_record: FilePath,
    /// The archive that the snapshot root is packed into.
    pub archive_file: FilePath,
}

impl Layout {
    /// The paths are those of the run at `datetime` for the host at
    /// `identifier` with the source directory `source`.
    pub open spec fn is_for(
        &self,
        backups: Seq<Seq<char>>,
        identifier: Seq<char>,
        source: Seq<Seq<char>>,
        datetime: Seq<char>,
    ) -> bool {
        &&& self.host_root@ == host_root_of(backups, identifier)
        &&& self.snapshot_root@ == snapshot_root_of(backups, identifier, datetime)
        &&& self.archive_root@ == pushed(
            snapshot_root_of(backups, identifier, datetime),
            archive_dir_of(source, identifier),
        )
        &&& self.records_dir@ == records_dir_of(backups, identifier)
        &&& self.canonical_record@ == pushed(
            records_dir_of(backups, identifier),
            parse_path("record.json"@),
        )
        &&& self.snapshot_record@ == pushed(
            records_dir_of(backups, identifier),
            parse_path(datetime + ".json"@),
        )
        &&& self.archive_file@ == with_suffix(
            snapshot_root_of(backups, identifier, datetime),
            ".tar.gz"@,
        )
    }

    /// The layout of the run at `datetime`.
    pub fn compute(backups: &FilePath, identifier: &str, source: &FilePath, datetime: &str) -> (r:
        Layout)
        ensures
            r.is_for(backups@, identifier@, source@, datetime@),
            is_normal_path(backups@) ==> is_normal_path(r.snapshot_root@),
    {
        proof {
            lemma_parse_normal(identifier@);
            lemma_parse_normal(datetime@);
            if is_normal_path(backups@) {
                lemma_pushed_normal(backups@, parse_path(identifier@));
                lemma_pushed_normal(
                    pushed(backups@, parse_path(identifier@)),
                    parse_path(datetime@),
                );
            }
        }
        let host_root = backups.join_str(identifier);
        let snapshot_root = host_root.join_str(datetime);
        let dir = match source.file_stem() {
            Some(stem) => FilePath::from_chars(&stem),
            None => FilePath::from(identifier),
        };
        let archive_root = snapshot_root.join(&dir);
        let records_dir = host_root.join_str(".records");
        let canonical_record = records_dir.join_str("record.json");
        let record_name = String::from_str(datetime).concat(".json");
        let snapshot_record = records_dir.join_str(record_name.as_str());
        let archive_file = snapshot_root.with_suffix(".tar.gz");
        Layout {
            host_root,
            snapshot_root,
            archive_root,
            records_dir,
            canonical_record,
            snapshot_record,
            archive_file,
        }
    }
}

/// What a run does with one entry of a remote directory.
#[derive(Debug)]
pub enum WalkStep {
    /// Nothing: the entry has no name, or is neither file nor directory.
    Skip,
    /// Copy the remote file `source` to `destination`, if the fetch rule
    /// says so.
    Fetch { source: FilePath, destination: FilePath },
    /// Make the directory `destination` and walk the remote directory
    /// `source`.
    Descend { source: FilePath, destination: FilePath },
}

/// What a run does with the entry `entry` of the remote directory
/// `source_dir`, which is mirrored in `destination_dir`.
pub fn plan_entry(
    source_dir: &FilePath,
    destination_dir: &FilePath,
    entry: &FilePath,
    stat: &RemoteStat,
) -> (r: WalkStep)
    ensures
        name_of(entry@) is None || stat.spec_kind() == EntryKind::Other ==> r is Skip,
        name_of(entry@) is Some && stat.spec_kind() == EntryKind::File ==> r is Fetch,
        name_of(entry@) is Some && stat.spec_kind() == EntryKind::Directory ==> r is Descend,
        r is Fetch ==> r->Fetch_source@ == pushed(source_dir@, parse_path(name_of(entry@)->0))
            && r->Fetch_destination@ == pushed(
            destination_dir@,
            parse_path(name_of(entry@)->0),
        ),
        r is Descend ==> r->Descend_source@ == pushed(
            source_dir@,
            parse_path(name_of(entry@)->0),
        ) && r->Descend_destination@ == pushed(
            destination_dir@,
            parse_path(name_of(entry@)->0),
        ),
{
    let name = match entry.file_name() {
        Some(name) => FilePath::from_chars(&name),
        None => {
            return WalkStep::Skip;
        },
    };
    match stat.kind() {
        EntryKind::File => WalkStep::Fetch {
            source: source_dir.join(&name),
            destination: destination_dir.join(&name),
        },
        EntryKind::Directory => WalkStep::Descend {
            source: source_dir.join(&name),
            destination: destination_dir.join(&name),
        },
        EntryKind::Other => WalkStep::Skip,
    }
}

/// The step that a run is to take next, or how it ended.
#[derive(Debug, Clone, Copy, PartialEq, Eq, Structural)]
pub enum Stage {
    /// Open the connection and shake hands.
    Connect,
    /// Authenticate with the host's key.
    Authenticate,
    /// Copy the remote tree.
    Copy,
    /// Take what was copied, and what is gone, up into the record.
    Record,
    /// Write the record, under both of its names.
    Write,
    /// Pack the snapshot root into its archive.
    Archive,
    /// The run is over: its record is written and its archive is packed.
    Done,
    /// The run is over and failed; nothing more is done.
    Failed,
}

/// The stage that follows `stage` when its step went well (`ok`) or failed. A
/// failed step ends the run as failed, whichever step it is: a run has
/// succeeded only when its archive is packed.
pub open spec fn next_stage(stage: Stage, ok: bool) -> Stage {
    match stage {
        Stage::Connect => if ok { Stage::Authenticate } else { Stage::Failed },
        Stage::Authenticate => if ok { Stage::Copy } else { Stage::Failed },
        Stage::Copy => if ok { Stage::Record } else { Stage::Failed },
        Stage::Record => if ok { Stage::Write } else { Stage::Failed },
        Stage::Write => if ok { Stage::Archive } else { Stage::Failed },
        Stage::Archive => if ok { Stage::Done } else { Stage::Failed },
        Stage::Done => Stage::Done,
        Stage::Failed => Stage::Failed,
    }
}

/// The stage that a run is in after steps with the given outcomes.
pub open spec fn stage_after(outcomes: Seq<bool>) -> Stage
    decreases outcomes.len(),
{
    if outcomes.len() == 0 {
        Stage::Connect
    } else {
        next_stage(stage_after(outcomes.drop_last()), outcomes.last())
    }
}

/// How many steps have gone well when a run is at `stage`, for the stages
/// that are reached only so.
pub open spec fn steps_before(stage: Stage) -> int {
    match stage {
        Stage::Connect => 0,
        Stage::Authenticate => 1,
        Stage::Copy => 2,
        Stage::Record => 3,
        Stage::Write => 4,
        Stage::Archive => 5,
        _ => -1,
    }
}

impl Stage {
    /// The stage that follows when the step of this stage ended with
    /// `outcome`.
    pub fn advance(self, outcome: &Result<(), Trap>) -> (r: Stage)
        ensures
            r == next_stage(self, outcome is Ok),
    {
        let ok = outcome.is_ok();
        match self {
            Stage::Connect => if ok {
                Stage::Authenticate
            } else {
                Stage::Failed
            },
            Stage::Authenticate => if ok {
                Stage::Copy
            } else {
                Stage::Failed
            },
            Stage::Copy => if ok {
                Stage::Record
            } else {
                Stage::Failed
            },
            Stage::Record => if ok {
                Stage::Write
            } else {
                Stage::Failed
            },
            Stage::Write => if ok {
                Stage::Archive
            } else {
                Stage::Failed
            },
            Stage::Archive => if ok {
                Stage::Done
            } else {
                Stage::Failed
            },
            Stage::Done => Stage::Done,
            Stage::Failed => Stage::Failed,
        }
    }

    /// Whether the run is over.
    pub fn is_over(self) -> (r: bool)
        ensures
            r == (self == Stage::Done || self == Stage::Failed),
    {
        match self {
            Stage::Done | Stage::Failed => true,
            _ => false,
        }
    }
}

/// A run is at a stage before its end only if every step so far went well,
/// and then it has taken exactly the steps that lead there. So the record is
/// written only after connection, authentication, copy and record update
/// all succeeded, and the archive is packed only after the record was
/// written. A run has succeeded only if all six steps went well, the
/// packing of the archive among them.
pub proof fn lemma_stage_order(outcomes: Seq<bool>)
    ensures
        steps_before(stage_after(outcomes)) >= 0 ==> outcomes.len() == steps_before(
            stage_after(outcomes),
        ) && forall|i: int| 0 <= i < outcomes.len() ==> outcomes[i],
        stage_after(outcomes) == Stage::Done ==> outcomes.len() >= 6 && forall|i: int|
            0 <= i < 6 ==> outcomes[i],
    decreases outcomes.len(),
{
    if outcomes.len() > 0 {
        let before = outcomes.drop_last();
        lemma_stage_order(before);
        if steps_before(stage_after(outcomes)) >= 0 {
            assert forall|i: int| 0 <= i < outcomes.len() implies outcomes[i] by {
                if i < before.len() {
                    assert(before[i] == outcomes[i]);
                }
            }
        }
        if stage_after(outcomes) == Stage::Done {
            assert forall|i: int| 0 <= i < 6 implies outcomes[i] by {
                if i < before.len() {
                    assert(before[i] == outcomes[i]);
                }
            }
        }
    }
}

/// Six steps that all went well end the run as succeeded.
pub proof fn lemma_six_steps_succeed(outcomes: Seq<bool>)
    requires
        outcomes.len() == 6,
        forall|i: int| 0 <= i < 6 ==> outcomes[i],
    ensures
        stage_after(outcomes) == Stage::Done,
{
    let five = outcomes.drop_last();
    let four = five.drop_last();
    let three = four.drop_last();
    let two = three.drop_last();
    let one = two.drop_last();
    assert(one.drop_last() =~= Seq::<bool>::empty());
    assert(outcomes.last() == outcomes[5]);
    assert(five.last() == outcomes[4]);
    assert(four.last() == outcomes[3]);
    assert(three.last() == outcomes[2]);
    assert(two.last() == outcomes[1]);
    assert(one.last() == outcomes[0]);
    reveal_with_fuel(stage_after, 7);
}

/// A step that fails ends the run as failed, whatever comes after: no later
/// stage is reached, and the run has not succeeded.
pub proof fn lemma_failed_step_ends_run(outcomes: Seq<bool>, failed: int)
    requires
        0 <= failed < outcomes.len(),
        failed < 6,
        !outcomes[failed],
    ensures
        stage_after(outcomes) == Stage::Failed,
    decreases outcomes.len(),
{
    let before = outcomes.drop_last();
    if failed == outcomes.len() - 1 {
        // the last step is the one that failed: the run was at a stage
        // before its end, or had failed already
        lemma_stage_order(before);
        if stage_after(before) == Stage::Done {
            assert(before.len() >= 6);
        }
    } else {
        assert(before[failed] == outcomes[failed]);
        lemma_failed_step_ends_run(before, failed);
    }
}

/// A failure of the transport's setup ends the run before anything is
/// recorded or written: no later stage is reached.
pub proof fn lemma_setup_failure_ends_run(outcomes: Seq<bool>)
    requires
        outcomes.len() >= 2,
        !outcomes[0] || !outcomes[1],
    ensures
        stage_after(outcomes) == Stage::Failed,
{
    if !outcomes[0] {
        lemma_failed_step_ends_run(outcomes, 0);
    } else {
        lemma_failed_step_ends_run(outcomes, 1);
    }
}

/// A file found under the snapshot root after the copy, with its time of
/// last modification (seconds since the epoch) and its size in bytes.
#[derive(Debug)]
pub struct LocalFile {
    pub path: FilePath,
    pub mtime: u64,
    pub size: u64,
}

/// The path of every file is in the form that parsing gives.
pub open spec fn files_normal(files: Seq<LocalFile>) -> bool {
    forall|i: int| 0 <= i < files.len() ==> is_normal_path((#[trigger] files[i]).path@)
}

/// The entry that records the local file `file` of the snapshot at
/// `snapshot_root`.
pub open spec fn entry_for(file: LocalFile, snapshot_root: Seq<Seq<char>>) -> FileEntryView {
    FileEntryView {
        file_path: file.path@,
        snapshot_path: snapshot_root,
        mtime: file.mtime,
        size: file.size,
    }
}

/// The live entries after the files were recorded, one after the other: each
/// file's entry stands under the remote path it is the copy of.
pub open spec fn entries_after(
    entries: Map<Seq<Seq<char>>, FileEntryView>,
    files: Seq<LocalFile>,
    snapshot_root: Seq<Seq<char>>,
    source_dir: Seq<Seq<char>>,
) -> Map<Seq<Seq<char>>, FileEntryView>
    decreases files.len(),
{
    if files.len() == 0 {
        entries
    } else {
        entries_after(entries, files.drop_last(), snapshot_root, source_dir).insert(
            source_of(files.last().path@, snapshot_root, source_dir),
            entry_for(files.last(), snapshot_root),
        )
    }
}

/// The deleted entries after the files were recorded: a source that has a
/// copy again is deleted no longer.
pub open spec fn deleted_after(
    deleted: Map<Seq<Seq<char>>, Seq<Seq<char>>>,
    files: Seq<LocalFile>,
    snapshot_root: Seq<Seq<char>>,
    source_dir: Seq<Seq<char>>,
) -> Map<Seq<Seq<char>>, Seq<Seq<char>>>
    decreases files.len(),
{
    if files.len() == 0 {
        deleted
    } else {
        deleted_after(deleted, files.drop_last(), snapshot_root, source_dir).remove(
            source_of(files.last().path@, snapshot_root, source_dir),
        )
    }
}

/// Whether `k` is one of the paths.
pub open spec fn among(paths: Seq<FilePath>, k: Seq<Seq<char>>) -> bool {
    exists|i: int| 0 <= i < paths.len() && (#[trigger] paths[i])@ == k
}

/// The live entries after the sweep: those whose source is not among the
/// missing.
pub open spec fn entries_swept(
    entries: Map<Seq<Seq<char>>, FileEntryView>,
    missing: Seq<FilePath>,
) -> Map<Seq<Seq<char>>, FileEntryView> {
    Map::new(
        |k: Seq<Seq<char>>| entries.contains_key(k) && !among(missing, k),
        |k: Seq<Seq<char>>| entries[k],
    )
}

/// The deleted entries after the sweep: each live source that is among the
/// missing is deleted, with the place of its copy; the others are as before.
pub open spec fn deleted_swept(
    entries: Map<Seq<Seq<char>>, FileEntryView>,
    deleted: Map<Seq<Seq<char>>, Seq<Seq<char>>>,
    missing: Seq<FilePath>,
) -> Map<Seq<Seq<char>>, Seq<Seq<char>>> {
    Map::new(
        |k: Seq<Seq<char>>| deleted.contains_key(k) || (entries.contains_key(k) && among(missing, k)),
        |k: Seq<Seq<char>>|
            if entries.contains_key(k) && among(missing, k) {
                entries[k].file_path
            } else {
                deleted[k]
            },
    )
}

/// One backup run of one host over SFTP: the host, the global paths, the
/// host's record, and where this run puts what it makes.
pub struct Sftp {
    pub host_config: HostConfig,
    pub global_config: GlobalConfig,
    pub record: Record,
    /// Whether files that the record knows and that did not change are
    /// passed over.
    pub incremental: bool,
    pub debug: bool,
    pub host_root_path: Option<FilePath>,
    pub snapshot_root_path: Option<FilePath>,
    /// The directory that the remote tree is copied into.
    pub complete_destination: Option<FilePath>,
}

impl Sftp {
    /// A full run that has not started.
    pub fn new(host_config: &HostConfig, global_config: &GlobalConfig, record: Record, debug: bool)
        -> (r: Self)
        ensures
            r.host_config@ == host_config@,
            r.global_config.hosts@ == global_config.hosts@,
            r.global_config.backups@ == global_config.backups@,
            r.global_config.snapshots@ == global_config.snapshots@,
            r.global_config.log@ == global_config.log@,
            r.record == record,
            !r.incremental,
            r.debug == debug,
            r.host_root_path is None,
            r.snapshot_root_path is None,
            r.complete_destination is None,
    {
        Self {
            host_config: host_config.clone(),
            global_config: global_config.clone(),
            record,
            incremental: false,
            debug,
            host_root_path: None,
            snapshot_root_path: None,
            complete_destination: None,
        }
    }

    /// Lays the run at `datetime` out under the backups root and returns
    /// all its paths.
    pub fn prepare(&mut self, datetime: &str) -> (r: Layout)
        ensures
            r.is_for(
                old(self).global_config.backups@,
                old(self).host_config.identifier@,
                old(self).host_config.source@,
                datetime@,
            ),
            final(self).host_root_path is Some && final(self).host_root_path->0@ == r.host_root@,
            final(self).snapshot_root_path is Some && final(self).snapshot_root_path->0@
                == r.snapshot_root@,
            final(self).complete_destination is Some && final(self).complete_destination->0@
                == r.archive_root@,
            final(self).record == old(self).record,
            final(self).host_config == old(self).host_config,
            final(self).global_config == old(self).global_config,
            final(self).incremental == old(self).incremental,
            final(self).debug == old(self).debug,
            old(self).record.normal() && is_normal_path(old(self).host_config.source@)
                && is_normal_path(old(self).global_config.backups@) ==> final(self).normal(),
    {
        let layout = Layout::compute(
            &self.global_config.backups,
            self.host_config.identifier.as_str(),
            &self.host_config.source,
            datetime,
        );
        self.host_root_path = Some(layout.host_root.clone());
        self.snapshot_root_path = Some(layout.snapshot_root.clone());
        self.complete_destination = Some(layout.archive_root.clone());
        layout
    }

    /// The run is laid out and its record is well-formed.
    pub open spec fn ready(&self) -> bool {
        self.snapshot_root_path is Some && self.record.wf()
    }

    /// Every path that the run works with is in the form that parsing
    /// gives: those of the record, the snapshot root and the source
    /// directory.
    pub open spec fn normal(&self) -> bool {
        &&& self.record.normal()
        &&& is_normal_path(self.host_config.source@)
        &&& self.snapshot_root_path is Some ==> is_normal_path(self.snapshot_root_path->0@)
    }

    /// The remote path that the local path `current_path` is the copy of.
    pub fn into_source(&self, current_path: &FilePath) -> (r: FilePath)
        requires
            self.snapshot_root_path is Some,
        ensures
            r@ == source_of(current_path@, self.snapshot_root_path->0@, self.host_config.source@),
    {
        let root = match &self.snapshot_root_path {
            Some(root) => root,
            None => &self.host_config.source,
        };
        let shared = current_path.common_prefix_with(root);
        let rest = if shared < usize::MAX {
            current_path.tail_from(shared + 1)
        } else {
            let n = current_path.len();
            assert(n <= shared);
            FilePath::new()
        };
        self.host_config.source.join(&rest)
    }

    /// Whether the run fetches the remote file that would be copied to
    /// `destination`, given its time of last modification on the remote.
    pub fn should_copy(&self, remote_mtime: u64, destination: &FilePath) -> (r: bool)
        requires
            self.ready(),
        ensures
            r == must_fetch(
                self.incremental,
                recorded_mtime(
                    self.record.snapshot.entries@,
                    source_of(
                        destination@,
                        self.snapshot_root_path->0@,
                        self.host_config.source@,
                    ),
                ),
                remote_mtime,
            ),
    {
        if !self.incremental {
            return true;
        }
        let source = self.into_source(destination);
        let recorded = match self.record.snapshot.mtime(&source) {
            Some(known) => Some(*known),
            None => None,
        };
        should_fetch(true, recorded, remote_mtime)
    }

    /// Records the files found under the snapshot root after the copy: each
    /// becomes the live entry of the remote path it is the copy of, in this
    /// snapshot's archive, and that path is deleted no longer.
    pub fn update_entries(&mut self, files: &Vec<LocalFile>)
        requires
            old(self).ready(),
        ensures
            final(self).ready(),
            final(self).record.snapshot.entries@ == entries_after(
                old(self).record.snapshot.entries@,
                files@,
                old(self).snapshot_root_path->0@,
                old(self).host_config.source@,
            ),
            final(self).record.snapshot.deleted_entries@ == deleted_after(
                old(self).record.snapshot.deleted_entries@,
                files@,
                old(self).snapshot_root_path->0@,
                old(self).host_config.source@,
            ),
            final(self).snapshot_root_path == old(self).snapshot_root_path,
            final(self).host_config == old(self).host_config,
            final(self).global_config == old(self).global_config,
            final(self).incremental == old(self).incremental,
            final(self).debug == old(self).debug,
            final(self).host_root_path == old(self).host_root_path,
            final(self).complete_destination == old(self).complete_destination,
            final(self).record.size == old(self).record.size,
            final(self).record.intervals == old(self).record.intervals,
            final(self).record.interval_n == old(self).record.interval_n,
            files@.len() == 0 ==> final(self).record.snapshot == old(self).record.snapshot,
            old(self).normal() && files_normal(files@) ==> final(self).normal(),
    {
        let mut i: usize = 0;
        assert(files@.take(0) =~= Seq::<LocalFile>::empty());
        while i < files.len()
            invariant
                i <= files.len(),
                self.ready(),
                self.snapshot_root_path == old(self).snapshot_root_path,
                self.host_config == old(self).host_config,
                self.global_config == old(self).global_config,
                self.incremental == old(self).incremental,
                self.debug == old(self).debug,
                self.host_root_path == old(self).host_root_path,
                self.complete_destination == old(self).complete_destination,
                self.record.size == old(self).record.size,
                self.record.intervals == old(self).record.intervals,
                self.record.interval_n == old(self).record.interval_n,
                i == 0 ==> self.record.snapshot == old(self).record.snapshot,
                old(self).normal() && files_normal(files@) ==> self.normal(),
                self.record.snapshot.entries@ == entries_after(
                    old(self).record.snapshot.entries@,
                    files@.take(i as int),
                    old(self).snapshot_root_path->0@,
                    old(self).host_config.source@,
                ),
                self.record.snapshot.deleted_entries@ == deleted_after(
                    old(self).record.snapshot.deleted_entries@,
                    files@.take(i as int),
                    old(self).snapshot_root_path->0@,
                    old(self).host_config.source@,
                ),
            decreases files.len() - i,
        {
            let file = &files[i];
            let source = self.into_source(&file.path);
            let root = match &self.snapshot_root_path {
                Some(root) => root.clone(),
                None => FilePath::new(),
            };
            proof {
                assert(files@.take(i + 1).drop_last() =~= files@.take(i as int));
                assert(files@.take(i + 1).last() == files@[i as int]);
                if old(self).normal() && files_normal(files@) {
                    assert(is_normal_path(files@[i as int].path@));
                    lemma_source_of_normal(
                        file.path@,
                        self.snapshot_root_path->0@,
                        self.host_config.source@,
                    );
                }
            }
            self.record.snapshot.add_entry(
                PathPair::from(source, file.path.clone()),
                root,
                file.mtime,
                file.size,
            );
            i += 1;
        }
        assert(files@.take(files.len() as int) =~= files@);
    }

    /// Sweeps the live entries for what the remote no longer has: each live
    /// source among `missing` is marked as deleted, with the place of its
    /// copy.
    pub fn update_deleted_entries(&mut self, missing: &Vec<FilePath>)
        requires
            old(self).record.wf(),
        ensures
            final(self).record.wf(),
            final(self).record.snapshot.entries@ == entries_swept(
                old(self).record.snapshot.entries@,
                missing@,
            ),
            final(self).record.snapshot.deleted_entries@ == deleted_swept(
                old(self).record.snapshot.entries@,
                old(self).record.snapshot.deleted_entries@,
                missing@,
            ),
            final(self).snapshot_root_path == old(self).snapshot_root_path,
            final(self).host_config == old(self).host_config,
            final(self).global_config == old(self).global_config,
            final(self).incremental == old(self).incremental,
            final(self).debug == old(self).debug,
            final(self).host_root_path == old(self).host_root_path,
            final(self).complete_destination == old(self).complete_destination,
            final(self).record.size == old(self).record.size,
            final(self).record.intervals == old(self).record.intervals,
            final(self).record.interval_n == old(self).record.interval_n,
            missing@.len() == 0 ==> final(self).record.snapshot == old(self).record.snapshot,
            old(self).record.normal() ==> final(self).record.normal(),
    {
        let ghost entries = self.record.snapshot.entries@;
        let ghost deleted = self.record.snapshot.deleted_entries@;
        let mut i: usize = 0;
        proof {
            assert(entries =~= entries_swept(entries, missing@.take(0)));
            assert(deleted =~= deleted_swept(entries, deleted, missing@.take(0)));
        }
        while i < missing.len()
            invariant
                i <= missing.len(),
                self.record.wf(),
                entries == old(self).record.snapshot.entries@,
                deleted == old(self).record.snapshot.deleted_entries@,
                old(self).record.wf(),
                self.snapshot_root_path == old(self).snapshot_root_path,
                self.host_config == old(self).host_config,
                self.global_config == old(self).global_config,
                self.incremental == old(self).incremental,
                self.debug == old(self).debug,
                self.host_root_path == old(self).host_root_path,
                self.complete_destination == old(self).complete_destination,
                self.record.size == old(self).record.size,
                self.record.intervals == old(self).record.intervals,
                self.record.interval_n == old(self).record.interval_n,
                i == 0 ==> self.record.snapshot == old(self).record.snapshot,
                old(self).record.normal() ==> self.record.normal(),
                self.record.snapshot.entries@ == entries_swept(entries, missing@.take(i as int)),
                self.record.snapshot.deleted_entries@ == deleted_swept(
                    entries,
                    deleted,
                    missing@.take(i as int),
                ),
            decreases missing.len() - i,
        {
            let key = &missing[i];
            let ghost k = key@;
            let ghost before = missing@.take(i as int);
            let ghost after = missing@.take(i + 1);
            proof {
                assert forall|q: Seq<Seq<char>>| among(after, q) == (among(before, q) || q == k) by {
                    if among(after, q) {
                        let j = choose|j: int| 0 <= j < after.len() && (#[trigger] after[j])@ == q;
                        if j < i {
                            assert(before[j]@ == q);
                        }
                    }
                    if among(before, q) {
                        let j = choose|j: int|
                            0 <= j < before.len() && (#[trigger] before[j])@ == q;
                        assert(after[j]@ == q);
                    }
                    if q == k {
                        assert(after[i as int]@ == q);
                    }
                }
            }
            let place = match self.record.snapshot.path(key) {
                Some(place) => Some(place.clone()),
                None => None,
            };
            proof {
                if place is Some && self.record.normal() {
                    let at = self.record.snapshot.entries.index_of(k);
                    self.record.snapshot.entries.lemma_index_of(at);
                    assert(is_normal_path(self.record.snapshot.entries.slots@[at].key@));
                    assert(is_normal_path(self.record.snapshot.entries.slots@[at].value.file_path@));
                }
            }
            match place {
                Some(place) => {
                    self.record.snapshot.mark_as_deleted(PathPair::from(key.clone(), place));
                },
                None => {},
            }
            proof {
                assert(self.record.snapshot.entries@ =~= entries_swept(entries, after));
                assert(self.record.snapshot.deleted_entries@ =~= deleted_swept(
                    entries,
                    deleted,
                    after,
                ));
            }
            i += 1;
        }
        assert(missing@.take(missing.len() as int) =~= missing@);
    }

    /// Brings the record up to date after the copy: records the files found
    /// under the snapshot root, sweeps the live entries for what is missing
    /// on the remote, and sets the recorded size to the sum of the sizes of
    /// what is live. Fails with `Metadata` where that sum is more than the
    /// size field can hold; the entries are then up to date all the same.
    pub fn update_record(&mut self, files: &Vec<LocalFile>, missing: &Vec<FilePath>) -> (r: Result<
        (),
        Trap,
    >)
        requires
            old(self).ready(),
        ensures
            final(self).ready(),
            final(self).record.snapshot.entries@ == entries_swept(
                entries_after(
                    old(self).record.snapshot.entries@,
                    files@,
                    old(self).snapshot_root_path->0@,
                    old(self).host_config.source@,
                ),
                missing@,
            ),
            final(self).record.snapshot.deleted_entries@ == deleted_swept(
                entries_after(
                    old(self).record.snapshot.entries@,
                    files@,
                    old(self).snapshot_root_path->0@,
                    old(self).host_config.source@,
                ),
                deleted_after(
                    old(self).record.snapshot.deleted_entries@,
                    files@,
                    old(self).snapshot_root_path->0@,
                    old(self).host_config.source@,
                ),
                missing@,
            ),
            r is Ok == (final(self).record.snapshot.total() <= u64::MAX),
            r is Ok ==> final(self).record.sized(),
            r is Err ==> r->Err_0 is Metadata && final(self).record.size == old(self).record.size,
            final(self).snapshot_root_path == old(self).snapshot_root_path,
            final(self).host_config == old(self).host_config,
            final(self).global_config == old(self).global_config,
            final(self).incremental == old(self).incremental,
            final(self).debug == old(self).debug,
            final(self).host_root_path == old(self).host_root_path,
            final(self).complete_destination == old(self).complete_destination,
            final(self).record.intervals == old(self).record.intervals,
            final(self).record.interval_n == old(self).record.interval_n,
            files@.len() == 0 && missing@.len() == 0 ==> final(self).record.snapshot == old(
                self,
            ).record.snapshot,
            files@.len() == 0 && missing@.len() == 0 && old(self).record.sized() ==> r is Ok
                && final(self).record.size == old(self).record.size,
            old(self).normal() && files_normal(files@) ==> final(self).normal(),
    {
        self.update_entries(files);
        self.update_deleted_entries(missing);
        self.record.recompute_size()
    }

    /// The two writes that make the record durable: the same text under the
    /// record's canonical name and under the snapshot's name.
    pub fn record_writes(layout: &Layout, text: String) -> (r: (
        (FilePath, String),
        (FilePath, String),
    ))
        ensures
            r.0.0@ == layout.canonical_record@,
            r.1.0@ == layout.snapshot_record@,
            r.0.1@ == text@,
            r.1.1@ == text@,
    {
        let copy = text.clone();
        ((layout.canonical_record.clone(), text), (layout.snapshot_record.clone(), copy))
    }
}

/// Whether some file is the copy of the remote path `k`.
pub open spec fn copied(
    files: Seq<LocalFile>,
    snapshot_root: Seq<Seq<char>>,
    source_dir: Seq<Seq<char>>,
    k: Seq<Seq<char>>,
) -> bool {
    exists|i: int|
        0 <= i < files.len() && source_of((#[trigger] files[i]).path@, snapshot_root, source_dir)
            == k
}

/// After the files were recorded, a remote path is live if it was live or
/// has a copy among the files, and deleted if it was deleted and has no copy
/// among them. A path without a copy keeps its entry; a path with copies
/// has the entry of the last of them.
pub proof fn lemma_recorded(
    entries: Map<Seq<Seq<char>>, FileEntryView>,
    deleted: Map<Seq<Seq<char>>, Seq<Seq<char>>>,
    files: Seq<LocalFile>,
    snapshot_root: Seq<Seq<char>>,
    source_dir: Seq<Seq<char>>,
    k: Seq<Seq<char>>,
)
    ensures
        entries_after(entries, files, snapshot_root, source_dir).contains_key(k) <==> (
        entries.contains_key(k) || copied(files, snapshot_root, source_dir, k)),
        deleted_after(deleted, files, snapshot_root, source_dir).contains_key(k) <==> (
        deleted.contains_key(k) && !copied(files, snapshot_root, source_dir, k)),
        !copied(files, snapshot_root, source_dir, k) && entries.contains_key(k) ==> entries_after(
            entries,
            files,
            snapshot_root,
            source_dir,
        )[k] == entries[k],
        !copied(files, snapshot_root, source_dir, k) && deleted.contains_key(k) ==> deleted_after(
            deleted,
            files,
            snapshot_root,
            source_dir,
        )[k] == deleted[k],
        forall|i: int|
            0 <= i < files.len() && source_of((#[trigger] files[i]).path@, snapshot_root, source_dir)
                == k && (forall|j: int|
                i < j < files.len() ==> source_of(
                    (#[trigger] files[j]).path@,
                    snapshot_root,
                    source_dir,
                ) != k) ==> entries_after(entries, files, snapshot_root, source_dir)[k]
                == entry_for(files[i], snapshot_root),
    decreases files.len(),
{
    if files.len() > 0 {
        let init = files.drop_last();
        let last = files.last();
        lemma_recorded(entries, deleted, init, snapshot_root, source_dir, k);
        let last_key = source_of(last.path@, snapshot_root, source_dir);
        assert(files[files.len() - 1] == last);
        if copied(init, snapshot_root, source_dir, k) {
            let i = choose|i: int|
                0 <= i < init.len() && source_of(
                    (#[trigger] init[i]).path@,
                    snapshot_root,
                    source_dir,
                ) == k;
            assert(files[i] == init[i]);
        }
        if copied(files, snapshot_root, source_dir, k) && last_key != k {
            let i = choose|i: int|
                0 <= i < files.len() && source_of(
                    (#[trigger] files[i]).path@,
                    snapshot_root,
                    source_dir,
                ) == k;
            assert(init[i] == files[i]);
        }
        assert forall|i: int|
            0 <= i < files.len() && source_of((#[trigger] files[i]).path@, snapshot_root, source_dir)
                == k && (forall|j: int|
                i < j < files.len() ==> source_of(
                    (#[trigger] files[j]).path@,
                    snapshot_root,
                    source_dir,
                ) != k) implies entries_after(entries, files, snapshot_root, source_dir)[k]
            == entry_for(files[i], snapshot_root) by {
            if i < init.len() {
                assert(init[i] == files[i]);
                assert(last_key != k);
                assert forall|j: int| i < j < init.len() implies source_of(
                    (#[trigger] init[j]).path@,
                    snapshot_root,
                    source_dir,
                ) != k by {
                    assert(init[j] == files[j]);
                }
            }
        }
    }
}

/// A file that the remote no longer has is, after the sweep, among the
/// deleted entries with the place of its copy, and not among the live ones.
/// What is not missing stays as it was.
pub proof fn lemma_sweep(
    entries: Map<Seq<Seq<char>>, FileEntryView>,
    deleted: Map<Seq<Seq<char>>, Seq<Seq<char>>>,
    missing: Seq<FilePath>,
    k: Seq<Seq<char>>,
)
    ensures
        entries.contains_key(k) && among(missing, k) ==> !entries_swept(
            entries,
            missing,
        ).contains_key(k) && deleted_swept(entries, deleted, missing).contains_key(k)
            && deleted_swept(entries, deleted, missing)[k] == entries[k].file_path,
        !among(missing, k) ==> entries_swept(entries, missing).contains_key(k)
            == entries.contains_key(k) && deleted_swept(entries, deleted, missing).contains_key(k)
            == deleted.contains_key(k),
        !among(missing, k) && entries.contains_key(k) ==> entries_swept(entries, missing)[k]
            == entries[k],
{
}

/// A file that was swept as missing is fetched by the next incremental run
/// whatever its time of last modification: the sweep took the time that was
/// recorded for it out of the record.
pub proof fn lemma_fetched_again_after_sweep(
    entries: Map<Seq<Seq<char>>, FileEntryView>,
    missing: Seq<FilePath>,
    k: Seq<Seq<char>>,
    remote_mtime: u64,
)
    requires
        among(missing, k),
    ensures
        recorded_mtime(entries_swept(entries, missing), k) is None,
        must_fetch(true, recorded_mtime(entries_swept(entries, missing), k), remote_mtime),
{
}

/// A run that finds no file under its snapshot root and nothing missing on
/// the remote leaves the live and the deleted entries as they were.
pub proof fn lemma_idle_run(
    entries: Map<Seq<Seq<char>>, FileEntryView>,
    deleted: Map<Seq<Seq<char>>, Seq<Seq<char>>>,
    snapshot_root: Seq<Seq<char>>,
    source_dir: Seq<Seq<char>>,
)
    ensures
        entries_swept(
            entries_after(entries, Seq::<LocalFile>::empty(), snapshot_root, source_dir),
            Seq::<FilePath>::empty(),
        ) == entries,
        deleted_swept(
            entries_after(entries, Seq::<LocalFile>::empty(), snapshot_root, source_dir),
            deleted_after(deleted, Seq::<LocalFile>::empty(), snapshot_root, source_dir),
            Seq::<FilePath>::empty(),
        ) == deleted,
{
    let none = Seq::<FilePath>::empty();
    assert(entries_swept(entries, none) =~= entries);
    assert(deleted_swept(entries, deleted, none) =~= deleted);
}

/// An incremental run passes over every file whose time of last
/// modification on the remote is not later than the one recorded, and
/// fetches every file that the record does not know, whatever its time.
pub proof fn lemma_fetch_rule(recorded: Option<u64>, remote_mtime: u64)
    ensures
        recorded is Some && remote_mtime <= recorded->0 ==> !must_fetch(
            true,
            recorded,
            remote_mtime,
        ),
        recorded is None ==> must_fetch(true, recorded, remote_mtime),
        must_fetch(false, recorded, remote_mtime),
{
}

/// A handle for backups over SMB; it holds nothing yet.
#[derive(Debug)]
pub struct Samba {}

} // verus!
