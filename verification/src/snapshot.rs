//! What a host's snapshots hold: for each file its place in an archive, and
//! the files seen earlier that the remote no longer has.

use vstd::prelude::*;
use crate::path::{is_normal_path, FilePath};
use crate::table::{PathMap, Slot};

verus! {

/// One file of one snapshot: where its copy lies, the root of the archive
/// that holds it (without extension), when it was last modified (seconds
/// since the epoch) and how many bytes it has.
#[derive(Debug)]
pub struct FileEntry {
    pub file_path: FilePath,
    pub snapshot_path: FilePath,
    pub mtime: u64,
    pub size: u64,
}

/// A file entry as plain values.
pub struct FileEntryView {
    pub file_path: Seq<Seq<char>>,
    pub snapshot_path: Seq<Seq<char>>,
    pub mtime: u64,
    pub size: u64,
}

impl View for FileEntry {
    type V = FileEntryView;

    open spec fn view(&self) -> FileEntryView {
        FileEntryView {
            file_path: self.file_path@,
            snapshot_path: self.snapshot_path@,
            mtime: self.mtime,
            size: self.size,
        }
    }
}

impl Clone for FileEntry {
    fn clone(&self) -> (r: Self)
        ensures
            r@ == self@,
    {
        FileEntry {
            file_path: self.file_path.clone(),
            snapshot_path: self.snapshot_path.clone(),
            mtime: self.mtime,
            size: self.size,
        }
    }
}

impl FileEntry {
    /// An entry with empty paths, time zero and no bytes.
    pub fn new() -> (r: Self)
        ensures
            r@ == (FileEntryView {
                file_path: Seq::empty(),
                snapshot_path: Seq::empty(),
                mtime: 0,
                size: 0,
            }),
    {
        FileEntry {
            file_path: FilePath::new(),
            snapshot_path: FilePath::new(),
            mtime: u64::MIN,
            size: u64::MIN,
        }
    }

    /// The entry with the given fields.
    pub fn from(file_path: FilePath, snapshot_path: FilePath, mtime: u64, size: u64) -> (r:
        Self)
        ensures
            r@ == (FileEntryView {
                file_path: file_path@,
                snapshot_path: snapshot_path@,
                mtime,
                size,
            }),
    {
        FileEntry { file_path, snapshot_path, mtime, size }
    }
}

/// A file entry of a record from before sizes were recorded.
#[derive(Debug)]
pub struct PathBufx {
    pub file_path: FilePath,
    pub snapshot_path: FilePath,
    pub mtime: u64,
}

impl PathBufx {
    /// An entry with empty paths and time zero.
    pub fn new() -> (r: Self)
        ensures
            r.file_path@ == Seq::<Seq<char>>::empty(),
            r.snapshot_path@ == Seq::<Seq<char>>::empty(),
            r.mtime == 0,
    {
        PathBufx { file_path: FilePath::new(), snapshot_path: FilePath::new(), mtime: u64::MIN }
    }

    /// The entry with the given fields.
    pub fn from(file_path: FilePath, snapshot_path: FilePath, mtime: u64) -> (r: Self)
        ensures
            r.file_path@ == file_path@,
            r.snapshot_path@ == snapshot_path@,
            r.mtime == mtime,
    {
        PathBufx { file_path, snapshot_path, mtime }
    }

    /// The entry with its size.
    pub fn with_size(self, size: u64) -> (r: FileEntry)
        ensures
            r@ == (FileEntryView {
                file_path: self.file_path@,
                snapshot_path: self.snapshot_path@,
                mtime: self.mtime,
                size,
            }),
    {
        FileEntry::from(self.file_path, self.snapshot_path, self.mtime, size)
    }
}

/// A file's path on the remote (source) with the path of its copy on this
/// machine (destination).
#[derive(Debug)]
pub struct PathPair {
    pub source: FilePath,
    pub destination: FilePath,
}

/// A pair of paths as plain values.
pub struct PathPairView {
    pub source: Seq<Seq<char>>,
    pub destination: Seq<Seq<char>>,
}

impl View for PathPair {
    type V = PathPairView;

    open spec fn view(&self) -> PathPairView {
        PathPairView { source: self.source@, destination: self.destination@ }
    }
}

impl Clone for PathPair {
    fn clone(&self) -> (r: Self)
        ensures
            r@ == self@,
    {
        PathPair { source: self.source.clone(), destination: self.destination.clone() }
    }
}

impl PathPair {
    /// The pair of the two paths.
    pub fn from(source: FilePath, destination: FilePath) -> (r: Self)
        ensures
            r@ == (PathPairView { source: source@, destination: destination@ }),
    {
        PathPair { source, destination }
    }
}

/// Sum of the sizes of the entries in the given slots.
pub open spec fn sum_sizes(slots: Seq<Slot<FileEntry>>) -> nat
    decreases slots.len(),
{
    if slots.len() == 0 {
        0
    } else {
        sum_sizes(slots.drop_last()) + slots.last().value.size as nat
    }
}

/// The size recorded under `k`, or nothing where `k` has no entry.
pub open spec fn size_under(entries: Map<Seq<Seq<char>>, FileEntryView>, k: Seq<Seq<char>>) -> nat {
    if entries.contains_key(k) {
        entries[k].size as nat
    } else {
        0
    }
}

/// A slot added at the end adds its size.
pub proof fn lemma_sum_push(slots: Seq<Slot<FileEntry>>, slot: Slot<FileEntry>)
    ensures
        sum_sizes(slots.push(slot)) == sum_sizes(slots) + slot.value.size,
{
    assert(slots.push(slot).drop_last() =~= slots);
}

/// A slot that is replaced changes the sum by the difference of the sizes.
pub proof fn lemma_sum_update(slots: Seq<Slot<FileEntry>>, i: int, slot: Slot<FileEntry>)
    requires
        0 <= i < slots.len(),
    ensures
        sum_sizes(slots.update(i, slot)) + slots[i].value.size == sum_sizes(slots)
            + slot.value.size,
    decreases slots.len(),
{
    if i == slots.len() - 1 {
        assert(slots.update(i, slot).drop_last() =~= slots.drop_last());
    } else {
        assert(slots.update(i, slot).drop_last() =~= slots.drop_last().update(i, slot));
        lemma_sum_update(slots.drop_last(), i, slot);
    }
}

/// A slot that is taken out takes its size out of the sum.
pub proof fn lemma_sum_remove(slots: Seq<Slot<FileEntry>>, i: int)
    requires
        0 <= i < slots.len(),
    ensures
        sum_sizes(slots.remove(i)) + slots[i].value.size == sum_sizes(slots),
    decreases slots.len(),
{
    if i == slots.len() - 1 {
        assert(slots.remove(i) =~= slots.drop_last());
    } else {
        assert(slots.remove(i).drop_last() =~= slots.drop_last().remove(i));
        assert(slots.remove(i).last() == slots.last());
        lemma_sum_remove(slots.drop_last(), i);
    }
}

/// No sum of sizes is more than the number of slots times the largest size.
pub proof fn lemma_sum_bound(slots: Seq<Slot<FileEntry>>)
    ensures
        sum_sizes(slots) <= slots.len() * 0xffff_ffff_ffff_ffff,
    decreases slots.len(),
{
    if slots.len() > 0 {
        lemma_sum_bound(slots.drop_last());
        assert((slots.len() - 1) * 0xffff_ffff_ffff_ffff + 0xffff_ffff_ffff_ffff == slots.len()
            * 0xffff_ffff_ffff_ffff) by (nonlinear_arith);
    }
}

/// Deleted pairs stay normal when at most one of them is taken out.
pub proof fn lemma_remove_keeps_normal(was: Seq<Slot<FilePath>>, now: Seq<Slot<FilePath>>)
    requires
        now == was || exists|i: int| 0 <= i < was.len() && now == was.remove(i),
    ensures
        (forall|i: int|
            0 <= i < was.len() ==> is_normal_path((#[trigger] was[i]).key@) && is_normal_path(
                was[i].value@,
            )) ==> (forall|j: int|
            0 <= j < now.len() ==> is_normal_path((#[trigger] now[j]).key@) && is_normal_path(
                now[j].value@,
            )),
{
    if forall|i: int|
        0 <= i < was.len() ==> is_normal_path((#[trigger] was[i]).key@) && is_normal_path(
            was[i].value@,
        ) {
        assert forall|j: int| 0 <= j < now.len() implies is_normal_path((#[trigger] now[j]).key@)
            && is_normal_path(now[j].value@) by {
            if now == was {
                assert(was[j] == now[j]);
            } else {
                let at = choose|i: int| 0 <= i < was.len() && now == was.remove(i);
                let i = if j < at { j } else { j + 1 };
                assert(was[i] == now[j]);
            }
        }
    }
}

/// The aggregated state of a host's snapshots. `entries` maps each source
/// path that is live to its file entry. `deleted_entries` maps each source
/// path that was seen before and is gone from the remote to the last place
/// where its copy lay.
pub struct Snapshot {
    pub entries: PathMap<FileEntry>,
    pub deleted_entries: PathMap<FilePath>,
}

impl Snapshot {
    /// No source path occurs twice, and none is both live and deleted.
    pub open spec fn wf(&self) -> bool {
        &&& self.entries.wf()
        &&& self.deleted_entries.wf()
        &&& self.entries@.dom().disjoint(self.deleted_entries@.dom())
    }

    /// Sum of the sizes of the live entries.
    pub open spec fn total(&self) -> nat {
        sum_sizes(self.entries.slots@)
    }

    /// Every path of the snapshot is in the form that parsing gives.
    pub open spec fn normal(&self) -> bool {
        &&& forall|i: int|
            0 <= i < self.entries.slots@.len() ==> {
                &&& is_normal_path((#[trigger] self.entries.slots@[i]).key@)
                &&& is_normal_path(self.entries.slots@[i].value.file_path@)
                &&& is_normal_path(self.entries.slots@[i].value.snapshot_path@)
            }
        &&& forall|i: int|
            0 <= i < self.deleted_entries.slots@.len() ==> {
                &&& is_normal_path((#[trigger] self.deleted_entries.slots@[i]).key@)
                &&& is_normal_path(self.deleted_entries.slots@[i].value@)
            }
    }

    /// In a well-formed snapshot no source path is both live and deleted.
    pub proof fn lemma_live_or_deleted(&self, source: Seq<Seq<char>>)
        requires
            self.wf(),
        ensures
            !(self.entries@.contains_key(source) && self.deleted_entries@.contains_key(source)),
    {
        if self.entries@.contains_key(source) && self.deleted_entries@.contains_key(source) {
            assert(self.entries@.dom().contains(source));
            assert(self.deleted_entries@.dom().contains(source));
        }
    }

    /// A source path is deleted when it is among the deleted entries; in a
    /// well-formed snapshot it is then not among the live ones.
    pub open spec fn deleted(&self, source: Seq<Seq<char>>) -> bool {
        self.deleted_entries@.contains_key(source)
    }

    /// The snapshot that holds nothing.
    pub fn new() -> (r: Self)
        ensures
            r.wf(),
            r.normal(),
            r.entries@ == Map::<Seq<Seq<char>>, FileEntryView>::empty(),
            r.deleted_entries@ == Map::<Seq<Seq<char>>, Seq<Seq<char>>>::empty(),
            r.total() == 0,
    {
        Snapshot { entries: PathMap::new(), deleted_entries: PathMap::new() }
    }

    /// Records the file of `pathpair` as live, in place of what was recorded
    /// for its source; a source that was marked as deleted is so no longer.
    pub fn add_entry(&mut self, pathpair: PathPair, snapshot_path: FilePath, mtime: u64, size: u64)
        requires
            old(self).wf(),
        ensures
            final(self).wf(),
            final(self).entries@ == old(self).entries@.insert(
                pathpair.source@,
                (FileEntryView {
                    file_path: pathpair.destination@,
                    snapshot_path: snapshot_path@,
                    mtime,
                    size,
                }),
            ),
            final(self).deleted_entries@ == old(self).deleted_entries@.remove(pathpair.source@),
            final(self).total() + size_under(old(self).entries@, pathpair.source@) == old(
                self,
            ).total() + size,
            old(self).normal() && is_normal_path(pathpair.source@) && is_normal_path(
                pathpair.destination@,
            ) && is_normal_path(snapshot_path@) ==> final(self).normal(),
    {
        let ghost k = pathpair.source@;
        let _ = self.deleted_entries.remove(&pathpair.source);
        proof {
            lemma_remove_keeps_normal(
                old(self).deleted_entries.slots@,
                self.deleted_entries.slots@,
            );
        }
        let entry = FileEntry::from(pathpair.destination, snapshot_path, mtime, size);
        proof {
            if self.entries.has(k) {
                let i = self.entries.index_of(k);
                lemma_sum_update(
                    self.entries.slots@,
                    i,
                    (Slot { key: pathpair.source, value: entry }),
                );
            } else {
                lemma_sum_push(self.entries.slots@, (Slot { key: pathpair.source, value: entry }));
            }
        }
        self.entries.insert(pathpair.source, entry);
    }

    /// Marks the source of `pair` as deleted: it leaves the live entries, and
    /// the pair is kept as the last place where its copy lay.
    pub fn mark_as_deleted(&mut self, pair: PathPair)
        requires
            old(self).wf(),
        ensures
            final(self).wf(),
            final(self).entries@ == old(self).entries@.remove(pair.source@),
            final(self).deleted_entries@ == old(self).deleted_entries@.insert(
                pair.source@,
                pair.destination@,
            ),
            final(self).total() + size_under(old(self).entries@, pair.source@) == old(
                self,
            ).total(),
            old(self).normal() && is_normal_path(pair.source@) && is_normal_path(
                pair.destination@,
            ) ==> final(self).normal(),
    {
        proof {
            if self.entries.has(pair.source@) {
                lemma_sum_remove(self.entries.slots@, self.entries.index_of(pair.source@));
            }
        }
        let _ = self.entries.remove(&pair.source);
        self.deleted_entries.insert(pair.source, pair.destination);
    }

    /// Whether the source of `pair` is marked as deleted.
    pub fn is_deleted(&self, pair: &PathPair) -> (r: bool)
        ensures
            r == self.deleted(pair.source@),
            self.wf() && r ==> !self.entries@.contains_key(pair.source@),
    {
        self.deleted_entries.contains(&pair.source)
    }

    /// Takes the source of `pair` out of the deleted entries.
    pub fn undelete(&mut self, pair: &PathPair)
        requires
            old(self).wf(),
        ensures
            final(self).wf(),
            final(self).entries == old(self).entries,
            final(self).deleted_entries@ == old(self).deleted_entries@.remove(pair.source@),
            old(self).normal() ==> final(self).normal(),
    {
        let _ = self.deleted_entries.remove(&pair.source);
        proof {
            lemma_remove_keeps_normal(
                old(self).deleted_entries.slots@,
                self.deleted_entries.slots@,
            );
        }
    }

    /// The recorded time of last modification of the live entry under `key`.
    pub fn mtime(&self, key: &FilePath) -> (r: Option<&u64>)
        requires
            self.wf(),
        ensures
            r is Some == self.entries@.contains_key(key@),
            r is Some ==> *r->0 == self.entries@[key@].mtime,
    {
        match self.entries.get(key) {
            Some(entry) => Some(&entry.mtime),
            None => None,
        }
    }

    /// The place of the copy of the live entry under `key`.
    pub fn path(&self, key: &FilePath) -> (r: Option<&FilePath>)
        requires
            self.wf(),
        ensures
            r is Some == self.entries@.contains_key(key@),
            r is Some ==> r->0@ == self.entries@[key@].file_path,
    {
        match self.entries.get(key) {
            Some(entry) => Some(&entry.file_path),
            None => None,
        }
    }

    /// The size in bytes of the live entry under `key`.
    pub fn size(&self, key: &FilePath) -> (r: Option<&u64>)
        requires
            self.wf(),
        ensures
            r is Some == self.entries@.contains_key(key@),
            r is Some ==> *r->0 == self.entries@[key@].size,
    {
        match self.entries.get(key) {
            Some(entry) => Some(&entry.size),
            None => None,
        }
    }

    /// Sum of the sizes of the live entries.
    pub fn total_size(&self) -> (total: u128)
        ensures
            total == self.total(),
    {
        let mut total: u128 = 0;
        let mut i: usize = 0;
        while i < self.entries.slots.len()
            invariant
                i <= self.entries.slots.len(),
                total == sum_sizes(self.entries.slots@.take(i as int)),
            decreases self.entries.slots.len() - i,
        {
            proof {
                lemma_sum_bound(self.entries.slots@.take(i as int));
                assert(i * 0xffff_ffff_ffff_ffff + 0xffff_ffff_ffff_ffff
                    <= 0xffff_ffff_ffff_ffff_ffff_ffff_ffff_ffff) by (nonlinear_arith)
                    requires
                        0 <= i <= 0xffff_ffff_ffff_ffff,
                ;
                assert(self.entries.slots@.take(i + 1).drop_last() =~= self.entries.slots@.take(
                    i as int,
                ));
            }
            total = total + self.entries.slots[i].value.size as u128;
            i += 1;
        }
        assert(self.entries.slots@.take(self.entries.slots.len() as int) =~= self.entries.slots@);
        total
    }

    /// The source paths of the live entries.
    pub fn sources(&self) -> (r: Vec<FilePath>)
        ensures
            r@.len() == self.entries.slots@.len(),
            forall|i: int| 0 <= i < r@.len() ==> (#[trigger] r@[i])@ == self.entries.slots@[i].key@,
    {
        let mut r: Vec<FilePath> = Vec::new();
        let mut i: usize = 0;
        while i < self.entries.slots.len()
            invariant
                i <= self.entries.slots.len(),
                r@.len() == i,
                forall|j: int| 0 <= j < i ==> (#[trigger] r@[j])@ == self.entries.slots@[j].key@,
            decreases self.entries.slots.len() - i,
        {
            r.push(self.entries.slots[i].key.clone());
            i += 1;
        }
        r
    }
}

} // verus!
