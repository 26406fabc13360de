//! Putting a past snapshot together again: which archives hold its files,
//! and where each file goes under the compile target.

use vstd::prelude::*;
use vstd::string::*;
use crate::path::{
    appended_parts, common_prefix_len, is_absolute_path, name_of, parse_path, parts_from, pushed,
    with_suffix, FilePath,
};
use crate::record::Record;
use crate::snapshot::{FileEntry, Snapshot};
use crate::table::Slot;
use crate::utils::{rebased, replace_common_prefix, strip_extension, stripped};

verus! {

/// The copy of one file of the snapshot into the compile target.
#[derive(Debug)]
pub struct CopyStep {
    /// The root of the archive that holds the file, without extension.
    pub archive_root: FilePath,
    /// The archive itself.
    pub archive_file: FilePath,
    /// The file inside the unpacked archive.
    pub from: FilePath,
    /// Where the file goes.
    pub to: FilePath,
}

/// The copy of the file of `slot` into `target`: the part of the file's path
/// that it shares with its archive root is replaced by the target.
pub open spec fn is_step_for(step: CopyStep, slot: Slot<FileEntry>, target: Seq<Seq<char>>) -> bool {
    &&& step.archive_root@ == slot.value.snapshot_path@
    &&& step.archive_file@ == with_suffix(slot.value.snapshot_path@, ".tar.gz"@)
    &&& step.from@ == slot.value.file_path@
    &&& step.to@ == rebased(slot.value.file_path@, slot.value.snapshot_path@, target)
}

/// The name that the operator's choice of snapshot stands for: `latest` is
/// the host's current record.
pub open spec fn record_name_of(choice: Seq<char>) -> Seq<char> {
    if choice == "latest"@ {
        "record"@
    } else {
        choice
    }
}

/// The record file of the snapshot that the operator chose.
pub open spec fn record_path_of(
    backups: Seq<Seq<char>>,
    identifier: Seq<char>,
    choice: Seq<char>,
) -> Seq<Seq<char>> {
    pushed(
        pushed(pushed(backups, parse_path(identifier)), parse_path(".records"@)),
        parse_path(record_name_of(choice) + ".json"@),
    )
}

/// The record file of the snapshot that the operator chose by name, `latest`
/// standing for the host's current record.
pub fn snapshot_record_path(backups: &FilePath, identifier: &str, choice: &str) -> (r: FilePath)
    ensures
        r@ == record_path_of(backups@, identifier@, choice@),
{
    let chosen = String::from_str(choice);
    let latest = String::from_str("latest");
    let name = if chosen == latest {
        String::from_str("record")
    } else {
        chosen
    };
    let file = name.concat(".json");
    backups.join_str(identifier).join_str(".records").join_str(file.as_str())
}

/// The snapshot to put together, with the path of its record without
/// extension.
pub struct Compiler {
    pub source_snapshot_path: FilePath,
    pub source_snapshot: Snapshot,
}

impl Compiler {
    /// The directory that the snapshot is compiled into: the snapshot's name
    /// below `destination`.
    pub open spec fn target_of(&self, destination: Seq<Seq<char>>) -> Seq<Seq<char>> {
        pushed(destination, parse_path(name_of(self.source_snapshot_path@)->0))
    }

    /// The compiler of the snapshot whose record, read from `record_path`,
    /// is `record`.
    pub fn from(record_path: &FilePath, record: Record) -> (r: Self)
        ensures
            r.source_snapshot_path@ == stripped(record_path@),
            r.source_snapshot == record.snapshot,
    {
        let mut path = record_path.clone();
        strip_extension(&mut path);
        Compiler { source_snapshot_path: path, source_snapshot: record.snapshot }
    }

    /// The directory that the snapshot is compiled into.
    pub fn compile_target(&self, destination: &FilePath) -> (r: FilePath)
        requires
            name_of(self.source_snapshot_path@) is Some,
        ensures
            r@ == self.target_of(destination@),
    {
        let name = match self.source_snapshot_path.file_name() {
            Some(name) => FilePath::from_chars(&name),
            None => FilePath::new(),
        };
        destination.join(&name)
    }

    /// The archive that the compiled snapshot is packed into.
    pub fn compiled_archive(&self, destination: &FilePath) -> (r: FilePath)
        requires
            name_of(self.source_snapshot_path@) is Some,
        ensures
            r@ == with_suffix(self.target_of(destination@), ".tar.gz"@),
    {
        self.compile_target(destination).with_suffix(".tar.gz")
    }

    /// The copies that put the snapshot together below `destination`: one
    /// for each live entry, in the order of the entries.
    pub fn compile(&self, destination: &FilePath) -> (r: Vec<CopyStep>)
        requires
            name_of(self.source_snapshot_path@) is Some,
        ensures
            r@.len() == self.source_snapshot.entries.slots@.len(),
            forall|i: int|
                0 <= i < r@.len() ==> is_step_for(
                    #[trigger] r@[i],
                    self.source_snapshot.entries.slots@[i],
                    self.target_of(destination@),
                ),
    {
        let target = self.compile_target(destination);
        let mut steps: Vec<CopyStep> = Vec::new();
        let mut i: usize = 0;
        while i < self.source_snapshot.entries.slots.len()
            invariant
                i <= self.source_snapshot.entries.slots.len(),
                target@ == self.target_of(destination@),
                steps@.len() == i,
                forall|j: int|
                    0 <= j < i ==> is_step_for(
                        #[trigger] steps@[j],
                        self.source_snapshot.entries.slots@[j],
                        target@,
                    ),
            decreases self.source_snapshot.entries.slots.len() - i,
        {
            let entry = &self.source_snapshot.entries.slots[i].value;
            let step = CopyStep {
                archive_root: entry.snapshot_path.clone(),
                archive_file: entry.snapshot_path.with_suffix(".tar.gz"),
                from: entry.file_path.clone(),
                to: replace_common_prefix(&entry.file_path, &entry.snapshot_path, &target),
            };
            steps.push(step);
            i += 1;
        }
        steps
    }

    /// The unpacked archives to delete once the snapshot is compiled: of the
    /// archive roots that the copies read from, those whose directory was
    /// not there before and had to be unpacked. `present[i]` says whether
    /// the directory of step `i` was there when the step was reached.
    pub fn cleanup(steps: &Vec<CopyStep>, present: &Vec<bool>) -> (r: Vec<FilePath>)
        requires
            present@.len() == steps@.len(),
        ensures
            r@.len() == unpacked(steps@, present@).len(),
            forall|i: int|
                0 <= i < r@.len() ==> (#[trigger] r@[i])@ == unpacked(steps@, present@)[i],
    {
        let mut r: Vec<FilePath> = Vec::new();
        let mut i: usize = 0;
        assert(steps@.take(0) =~= Seq::<CopyStep>::empty());
        while i < steps.len()
            invariant
                i <= steps.len(),
                present@.len() == steps@.len(),
                r@.len() == unpacked(steps@.take(i as int), present@.take(i as int)).len(),
                forall|j: int|
                    0 <= j < r@.len() ==> (#[trigger] r@[j])@ == unpacked(
                        steps@.take(i as int),
                        present@.take(i as int),
                    )[j],
            decreases steps.len() - i,
        {
            proof {
                assert(steps@.take(i + 1).drop_last() =~= steps@.take(i as int));
                assert(present@.take(i + 1).drop_last() =~= present@.take(i as int));
                assert(steps@.take(i + 1).last() == steps@[i as int]);
                assert(present@.take(i + 1).last() == present@[i as int]);
            }
            if !present[i] {
                r.push(steps[i].archive_root.clone());
            }
            i += 1;
        }
        proof {
            assert(steps@.take(steps.len() as int) =~= steps@);
            assert(present@.take(steps.len() as int) =~= present@);
        }
        r
    }
}

/// The archive roots of the steps whose directory was not there, in step
/// order.
pub open spec fn unpacked(steps: Seq<CopyStep>, present: Seq<bool>) -> Seq<Seq<Seq<char>>>
    decreases steps.len(),
{
    if steps.len() == 0 || present.len() != steps.len() {
        Seq::empty()
    } else if present.last() {
        unpacked(steps.drop_last(), present.drop_last())
    } else {
        unpacked(steps.drop_last(), present.drop_last()).push(steps.last().archive_root@)
    }
}

/// The part of a file's path that lies below what it shares with its
/// archive root: what a compile puts below the target.
pub open spec fn below_archive(file_path: Seq<Seq<char>>, archive_root: Seq<Seq<char>>) -> Seq<
    Seq<char>,
> {
    appended_parts(parts_from(file_path, common_prefix_len(file_path, archive_root)))
}

/// Compiling one snapshot into two targets puts each file at the same place
/// below either: the destinations differ in the target alone. This holds of
/// every file that does not lie outside its archive root altogether.
pub proof fn lemma_compile_relocates(
    file_path: Seq<Seq<char>>,
    archive_root: Seq<Seq<char>>,
    target_one: Seq<Seq<char>>,
    target_two: Seq<Seq<char>>,
)
    requires
        target_one.len() > 0,
        target_two.len() > 0,
        !is_absolute_path(parts_from(file_path, common_prefix_len(file_path, archive_root))),
    ensures
        rebased(file_path, archive_root, target_one) == target_one + below_archive(
            file_path,
            archive_root,
        ),
        rebased(file_path, archive_root, target_two) == target_two + below_archive(
            file_path,
            archive_root,
        ),
{
}

} // verus!
