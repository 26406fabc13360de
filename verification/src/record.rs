//! The record of one host: the aggregated snapshot, the snapshot roots in
//! the order they were taken, and the size of what is live.

use vstd::prelude::*;
use vstd::string::*;
use crate::logging::Trap;
use crate::path::{
    is_normal_path, lemma_parse_normal, lemma_parse_render, parse_path, render_path, FilePath,
};
use crate::snapshot::{size_under, sum_sizes, FileEntry, FileEntryView, PathPair, Snapshot};
use crate::table::Slot;

verus! {

/// What is known of one host's snapshots.
pub struct Record {
    /// Kept for the scheduler; not in use.
    pub interval_n: u8,
    /// The snapshot roots, in the order they were taken.
    pub intervals: Vec<FilePath>,
    /// The aggregated view over all snapshots.
    pub snapshot: Snapshot,
    /// Sum of the sizes of the live entries, as of the last run.
    pub size: u64,
}

impl Record {
    /// The snapshot of the record is well-formed.
    pub open spec fn wf(&self) -> bool {
        self.snapshot.wf()
    }

    /// The recorded size is the sum of the sizes of the live entries.
    pub open spec fn sized(&self) -> bool {
        self.size as nat == self.snapshot.total()
    }

    /// The record of a host of which nothing was taken yet.
    pub fn new() -> (r: Self)
        ensures
            r.wf(),
            r.sized(),
            r.normal(),
            r.interval_n == 0,
            r.intervals@.len() == 0,
            r.size == 0,
            r.snapshot.entries@ == Map::<Seq<Seq<char>>, FileEntryView>::empty(),
            r.snapshot.deleted_entries@ == Map::<Seq<Seq<char>>, Seq<Seq<char>>>::empty(),
    {
        Record { interval_n: 0, intervals: Vec::new(), snapshot: Snapshot::new(), size: 0 }
    }

    /// The recorded size of what is live.
    pub fn total_size(&self) -> (r: u64)
        ensures
            r == self.size,
    {
        self.size
    }

    /// Sets the recorded size to the sum of the sizes of the live entries.
    /// Fails with `Metadata`, the record unchanged, where the sum is more
    /// than the size field can hold.
    pub fn recompute_size(&mut self) -> (r: Result<(), Trap>)
        ensures
            r is Ok == (old(self).snapshot.total() <= u64::MAX),
            r is Ok ==> final(self).sized(),
            r is Err ==> r->Err_0 is Metadata && final(self).size == old(self).size,
            final(self).snapshot == old(self).snapshot,
            final(self).intervals == old(self).intervals,
            final(self).interval_n == old(self).interval_n,
    {
        let total = self.snapshot.total_size();
        if total > u64::MAX as u128 {
            return Err(Trap::Metadata(String::from_str("Total size of the snapshot is out of range")));
        }
        self.size = total as u64;
        Ok(())
    }
}

/// One live entry as the record file holds it: the source path, which is
/// the entry's key in the file, and the entry's fields, paths as text.
#[derive(Debug)]
pub struct EntryDoc {
    pub source: String,
    pub file_path: String,
    pub snapshot_path: String,
    pub mtime: u64,
    pub size: u64,
}

/// One deleted pair as the record file holds it, paths as text.
#[derive(Debug)]
pub struct DeletedDoc {
    pub source: String,
    pub destination: String,
}

/// The record as the record file holds it: plain numbers and text.
#[derive(Debug)]
pub struct RecordDoc {
    pub interval_n: u8,
    pub intervals: Vec<String>,
    pub entries: Vec<EntryDoc>,
    pub deleted_entries: Vec<DeletedDoc>,
    pub size: u64,
}

/// The entry that a document entry stands for.
pub open spec fn entry_of_doc(doc: EntryDoc) -> FileEntryView {
    FileEntryView {
        file_path: parse_path(doc.file_path@),
        snapshot_path: parse_path(doc.snapshot_path@),
        mtime: doc.mtime,
        size: doc.size,
    }
}

/// The live entries that the document entries stand for: each under the
/// path that its source spells, a later one in place of an earlier one for
/// the same path.
pub open spec fn entries_of_doc(docs: Seq<EntryDoc>) -> Map<Seq<Seq<char>>, FileEntryView>
    decreases docs.len(),
{
    if docs.len() == 0 {
        Map::empty()
    } else {
        entries_of_doc(docs.drop_last()).insert(
            parse_path(docs.last().source@),
            entry_of_doc(docs.last()),
        )
    }
}

/// The deleted entries that the document's pairs stand for.
pub open spec fn deleted_of_doc(docs: Seq<DeletedDoc>) -> Map<Seq<Seq<char>>, Seq<Seq<char>>>
    decreases docs.len(),
{
    if docs.len() == 0 {
        Map::empty()
    } else {
        deleted_of_doc(docs.drop_last()).insert(
            parse_path(docs.last().source@),
            parse_path(docs.last().destination@),
        )
    }
}

/// Whether a document entry shows the entry of a slot: every path as its
/// text.
pub open spec fn doc_shows_entry(doc: EntryDoc, slot: Slot<FileEntry>) -> bool {
    &&& doc.source@ == render_path(slot.key@)
    &&& doc.file_path@ == render_path(slot.value.file_path@)
    &&& doc.snapshot_path@ == render_path(slot.value.snapshot_path@)
    &&& doc.mtime == slot.value.mtime
    &&& doc.size == slot.value.size
}

/// Whether a document pair shows the pair of a slot.
pub open spec fn doc_shows_deleted(doc: DeletedDoc, slot: Slot<FilePath>) -> bool {
    &&& doc.source@ == render_path(slot.key@)
    &&& doc.destination@ == render_path(slot.value@)
}

impl RecordDoc {
    /// Whether the document shows the record: every field of the record,
    /// slot by slot, paths as text.
    pub open spec fn shows(&self, record: &Record) -> bool {
        &&& self.interval_n == record.interval_n
        &&& self.size == record.size
        &&& self.intervals@.len() == record.intervals@.len()
        &&& forall|i: int|
            0 <= i < self.intervals@.len() ==> (#[trigger] self.intervals@[i])@ == render_path(
                record.intervals@[i]@,
            )
        &&& self.entries@.len() == record.snapshot.entries.slots@.len()
        &&& forall|i: int|
            0 <= i < self.entries@.len() ==> doc_shows_entry(
                #[trigger] self.entries@[i],
                record.snapshot.entries.slots@[i],
            )
        &&& self.deleted_entries@.len() == record.snapshot.deleted_entries.slots@.len()
        &&& forall|i: int|
            0 <= i < self.deleted_entries@.len() ==> doc_shows_deleted(
                #[trigger] self.deleted_entries@[i],
                record.snapshot.deleted_entries.slots@[i],
            )
    }

    /// Whether some pair of the first `n` deleted pairs names a path that is
    /// live.
    pub open spec fn clashes_before(&self, n: int) -> bool {
        exists|i: int|
            0 <= i < n && i < self.deleted_entries@.len() && entries_of_doc(
                self.entries@,
            ).contains_key(parse_path((#[trigger] self.deleted_entries@[i]).source@))
    }

    /// Whether the document stands for a record: no path is both live and
    /// deleted.
    pub open spec fn consistent(&self) -> bool {
        !self.clashes_before(self.deleted_entries@.len() as int)
    }
}

impl Record {
    /// The record as the document that its JSON file holds: every field of
    /// the record, paths as text.
    pub fn serialize_json(&self) -> (doc: RecordDoc)
        ensures
            doc.shows(self),
    {
        let mut intervals: Vec<String> = Vec::new();
        let mut i: usize = 0;
        while i < self.intervals.len()
            invariant
                i <= self.intervals.len(),
                intervals@.len() == i,
                forall|j: int|
                    0 <= j < i ==> (#[trigger] intervals@[j])@ == render_path(self.intervals@[j]@),
            decreases self.intervals.len() - i,
        {
            intervals.push(self.intervals[i].to_string());
            i += 1;
        }
        let mut entries: Vec<EntryDoc> = Vec::new();
        let mut i: usize = 0;
        while i < self.snapshot.entries.slots.len()
            invariant
                i <= self.snapshot.entries.slots.len(),
                entries@.len() == i,
                forall|j: int|
                    0 <= j < i ==> doc_shows_entry(
                        #[trigger] entries@[j],
                        self.snapshot.entries.slots@[j],
                    ),
            decreases self.snapshot.entries.slots.len() - i,
        {
            let slot = &self.snapshot.entries.slots[i];
            entries.push(
                EntryDoc {
                    source: slot.key.to_string(),
                    file_path: slot.value.file_path.to_string(),
                    snapshot_path: slot.value.snapshot_path.to_string(),
                    mtime: slot.value.mtime,
                    size: slot.value.size,
                },
            );
            i += 1;
        }
        let mut deleted_entries: Vec<DeletedDoc> = Vec::new();
        let mut i: usize = 0;
        while i < self.snapshot.deleted_entries.slots.len()
            invariant
                i <= self.snapshot.deleted_entries.slots.len(),
                deleted_entries@.len() == i,
                forall|j: int|
                    0 <= j < i ==> doc_shows_deleted(
                        #[trigger] deleted_entries@[j],
                        self.snapshot.deleted_entries.slots@[j],
                    ),
            decreases self.snapshot.deleted_entries.slots.len() - i,
        {
            let slot = &self.snapshot.deleted_entries.slots[i];
            deleted_entries.push(
                DeletedDoc { source: slot.key.to_string(), destination: slot.value.to_string() },
            );
            i += 1;
        }
        RecordDoc {
            interval_n: self.interval_n,
            intervals,
            entries,
            deleted_entries,
            size: self.size,
        }
    }

    /// The record that the document of a JSON file stands for. Its recorded
    /// size is the sum of the sizes of its live entries, whatever the
    /// document says. Fails with `Deserialize` where the document names a
    /// path both as live and as deleted, or where that sum is more than the
    /// size field can hold.
    pub fn deserialize_json(doc: &RecordDoc) -> (r: Result<Record, Trap>)
        ensures
            r is Ok <==> doc.consistent() && total_of_doc(doc.entries@) <= u64::MAX,
            r is Ok ==> {
                &&& r->Ok_0.wf()
                &&& r->Ok_0.sized()
                &&& r->Ok_0.normal()
                &&& r->Ok_0.interval_n == doc.interval_n
                &&& r->Ok_0.snapshot.entries@ == entries_of_doc(doc.entries@)
                &&& r->Ok_0.snapshot.deleted_entries@ == deleted_of_doc(doc.deleted_entries@)
                &&& r->Ok_0.intervals@.len() == doc.intervals@.len()
                &&& forall|i: int|
                    0 <= i < doc.intervals@.len() ==> (#[trigger] r->Ok_0.intervals@[i])@
                        == parse_path(doc.intervals@[i]@)
            },
            r is Err ==> r->Err_0 is Deserialize,
    {
        let mut record = Record::new();
        record.interval_n = doc.interval_n;
        let mut i: usize = 0;
        while i < doc.intervals.len()
            invariant
                i <= doc.intervals.len(),
                record.wf(),
                record.interval_n == doc.interval_n,
                record.snapshot.total() == 0,
                record.normal(),
                record.snapshot.entries@ == Map::<Seq<Seq<char>>, FileEntryView>::empty(),
                record.snapshot.deleted_entries@ == Map::<
                    Seq<Seq<char>>,
                    Seq<Seq<char>>,
                >::empty(),
                record.intervals@.len() == i,
                forall|j: int|
                    0 <= j < i ==> (#[trigger] record.intervals@[j])@ == parse_path(
                        doc.intervals@[j]@,
                    ),
            decreases doc.intervals.len() - i,
        {
            proof {
                lemma_parse_normal(doc.intervals@[i as int]@);
            }
            record.intervals.push(FilePath::from(doc.intervals[i].as_str()));
            i += 1;
        }
        let mut i: usize = 0;
        assert(doc.entries@.take(0) =~= Seq::<EntryDoc>::empty());
        while i < doc.entries.len()
            invariant
                i <= doc.entries.len(),
                record.wf(),
                record.interval_n == doc.interval_n,
                record.normal(),
                record.snapshot.entries@ == entries_of_doc(doc.entries@.take(i as int)),
                record.snapshot.total() == total_of_doc(doc.entries@.take(i as int)),
                record.snapshot.deleted_entries@ == Map::<
                    Seq<Seq<char>>,
                    Seq<Seq<char>>,
                >::empty(),
                record.intervals@.len() == doc.intervals@.len(),
                forall|j: int|
                    0 <= j < doc.intervals@.len() ==> (#[trigger] record.intervals@[j])@
                        == parse_path(doc.intervals@[j]@),
            decreases doc.entries.len() - i,
        {
            let entry = &doc.entries[i];
            proof {
                assert(doc.entries@.take(i + 1).drop_last() =~= doc.entries@.take(i as int));
                assert(doc.entries@.take(i + 1).last() == doc.entries@[i as int]);
                lemma_parse_normal(entry.source@);
                lemma_parse_normal(entry.file_path@);
                lemma_parse_normal(entry.snapshot_path@);
            }
            record.snapshot.add_entry(
                PathPair::from(
                    FilePath::from(entry.source.as_str()),
                    FilePath::from(entry.file_path.as_str()),
                ),
                FilePath::from(entry.snapshot_path.as_str()),
                entry.mtime,
                entry.size,
            );
            assert(record.snapshot.deleted_entries@ =~= Map::<
                Seq<Seq<char>>,
                Seq<Seq<char>>,
            >::empty());
            i += 1;
        }
        assert(doc.entries@.take(doc.entries.len() as int) =~= doc.entries@);
        let mut i: usize = 0;
        assert(doc.deleted_entries@.take(0) =~= Seq::<DeletedDoc>::empty());
        while i < doc.deleted_entries.len()
            invariant
                i <= doc.deleted_entries.len(),
                record.wf(),
                record.interval_n == doc.interval_n,
                record.normal(),
                record.snapshot.entries@ == entries_of_doc(doc.entries@),
                record.snapshot.total() == total_of_doc(doc.entries@),
                record.snapshot.deleted_entries@ == deleted_of_doc(
                    doc.deleted_entries@.take(i as int),
                ),
                !doc.clashes_before(i as int),
                record.intervals@.len() == doc.intervals@.len(),
                forall|j: int|
                    0 <= j < doc.intervals@.len() ==> (#[trigger] record.intervals@[j])@
                        == parse_path(doc.intervals@[j]@),
            decreases doc.deleted_entries.len() - i,
        {
            let pair = &doc.deleted_entries[i];
            let source = FilePath::from(pair.source.as_str());
            proof {
                assert(doc.deleted_entries@.take(i + 1).drop_last() =~= doc.deleted_entries@.take(
                    i as int,
                ));
                assert(doc.deleted_entries@.take(i + 1).last() == doc.deleted_entries@[i as int]);
                lemma_parse_normal(pair.source@);
                lemma_parse_normal(pair.destination@);
            }
            if record.snapshot.entries.contains(&source) {
                assert(doc.clashes_before(doc.deleted_entries@.len() as int));
                return Err(
                    Trap::Deserialize(String::from_str("A path is both live and deleted")),
                );
            }
            record.snapshot.mark_as_deleted(
                PathPair::from(source, FilePath::from(pair.destination.as_str())),
            );
            assert(record.snapshot.entries@ =~= entries_of_doc(doc.entries@));
            i += 1;
        }
        assert(doc.deleted_entries@.take(doc.deleted_entries.len() as int)
            =~= doc.deleted_entries@);
        match record.recompute_size() {
            Ok(()) => Ok(record),
            Err(_) => Err(Trap::Deserialize(String::from_str("The sizes do not add up"))),
        }
    }
}

/// Sum of the sizes of the live entries that the document entries stand
/// for: an entry that stands in place of an earlier one counts in its place.
pub open spec fn total_of_doc(docs: Seq<EntryDoc>) -> int
    decreases docs.len(),
{
    if docs.len() == 0 {
        0
    } else {
        total_of_doc(docs.drop_last()) - size_under(
            entries_of_doc(docs.drop_last()),
            parse_path(docs.last().source@),
        ) + docs.last().size
    }
}

impl Record {
    /// Every path of the record is in the form that parsing gives.
    pub open spec fn normal(&self) -> bool {
        &&& forall|i: int|
            0 <= i < self.intervals@.len() ==> is_normal_path((#[trigger] self.intervals@[i])@)
        &&& self.snapshot.normal()
    }
}

/// Document entries whose sources spell different paths stand for one live
/// entry each: exactly the paths they spell are live, each with the entry of
/// its document entry.
pub proof fn lemma_entries_of_distinct_docs(docs: Seq<EntryDoc>)
    requires
        forall|i: int, j: int|
            0 <= i < j < docs.len() ==> parse_path((#[trigger] docs[i]).source@) != parse_path(
                (#[trigger] docs[j]).source@,
            ),
    ensures
        forall|k: Seq<Seq<char>>|
            entries_of_doc(docs).contains_key(k) <==> exists|i: int|
                0 <= i < docs.len() && parse_path((#[trigger] docs[i]).source@) == k,
        forall|i: int|
            0 <= i < docs.len() ==> entries_of_doc(docs)[parse_path((#[trigger] docs[i]).source@)]
                == entry_of_doc(docs[i]),
    decreases docs.len(),
{
    if docs.len() > 0 {
        let init = docs.drop_last();
        let last = docs.last();
        assert forall|i: int, j: int| 0 <= i < j < init.len() implies parse_path(
            (#[trigger] init[i]).source@,
        ) != parse_path((#[trigger] init[j]).source@) by {
            assert(init[i] == docs[i] && init[j] == docs[j]);
        }
        lemma_entries_of_distinct_docs(init);
        assert forall|k: Seq<Seq<char>>|
            entries_of_doc(docs).contains_key(k) <==> exists|i: int|
                0 <= i < docs.len() && parse_path((#[trigger] docs[i]).source@) == k by {
            if entries_of_doc(docs).contains_key(k) {
                if k == parse_path(last.source@) {
                    assert(docs[docs.len() - 1] == last);
                } else {
                    assert(entries_of_doc(init).contains_key(k));
                    let i = choose|i: int|
                        0 <= i < init.len() && parse_path((#[trigger] init[i]).source@) == k;
                    assert(docs[i] == init[i]);
                }
            }
            if exists|i: int| 0 <= i < docs.len() && parse_path((#[trigger] docs[i]).source@) == k {
                let i = choose|i: int|
                    0 <= i < docs.len() && parse_path((#[trigger] docs[i]).source@) == k;
                if i < init.len() {
                    assert(init[i] == docs[i]);
                }
            }
        }
        assert forall|i: int| 0 <= i < docs.len() implies entries_of_doc(docs)[parse_path(
            (#[trigger] docs[i]).source@,
        )] == entry_of_doc(docs[i]) by {
            if i < init.len() {
                assert(init[i] == docs[i]);
                assert(docs[docs.len() - 1] == last);
                assert(parse_path(docs[i].source@) != parse_path(last.source@));
            }
        }
    }
}

/// The same for the deleted pairs of a document.
pub proof fn lemma_deleted_of_distinct_docs(docs: Seq<DeletedDoc>)
    requires
        forall|i: int, j: int|
            0 <= i < j < docs.len() ==> parse_path((#[trigger] docs[i]).source@) != parse_path(
                (#[trigger] docs[j]).source@,
            ),
    ensures
        forall|k: Seq<Seq<char>>|
            deleted_of_doc(docs).contains_key(k) <==> exists|i: int|
                0 <= i < docs.len() && parse_path((#[trigger] docs[i]).source@) == k,
        forall|i: int|
            0 <= i < docs.len() ==> deleted_of_doc(docs)[parse_path((#[trigger] docs[i]).source@)]
                == parse_path(docs[i].destination@),
    decreases docs.len(),
{
    if docs.len() > 0 {
        let init = docs.drop_last();
        let last = docs.last();
        assert forall|i: int, j: int| 0 <= i < j < init.len() implies parse_path(
            (#[trigger] init[i]).source@,
        ) != parse_path((#[trigger] init[j]).source@) by {
            assert(init[i] == docs[i] && init[j] == docs[j]);
        }
        lemma_deleted_of_distinct_docs(init);
        assert forall|k: Seq<Seq<char>>|
            deleted_of_doc(docs).contains_key(k) <==> exists|i: int|
                0 <= i < docs.len() && parse_path((#[trigger] docs[i]).source@) == k by {
            if deleted_of_doc(docs).contains_key(k) {
                if k == parse_path(last.source@) {
                    assert(docs[docs.len() - 1] == last);
                } else {
                    assert(deleted_of_doc(init).contains_key(k));
                    let i = choose|i: int|
                        0 <= i < init.len() && parse_path((#[trigger] init[i]).source@) == k;
                    assert(docs[i] == init[i]);
                }
            }
            if exists|i: int| 0 <= i < docs.len() && parse_path((#[trigger] docs[i]).source@) == k {
                let i = choose|i: int|
                    0 <= i < docs.len() && parse_path((#[trigger] docs[i]).source@) == k;
                if i < init.len() {
                    assert(init[i] == docs[i]);
                }
            }
        }
        assert forall|i: int| 0 <= i < docs.len() implies deleted_of_doc(docs)[parse_path(
            (#[trigger] docs[i]).source@,
        )] == parse_path(docs[i].destination@) by {
            if i < init.len() {
                assert(init[i] == docs[i]);
                assert(docs[docs.len() - 1] == last);
                assert(parse_path(docs[i].source@) != parse_path(last.source@));
            }
        }
    }
}

/// The sizes of document entries whose sources spell different paths add up
/// as those of the slots they show.
pub proof fn lemma_total_of_distinct_docs(docs: Seq<EntryDoc>, slots: Seq<Slot<FileEntry>>)
    requires
        docs.len() == slots.len(),
        forall|i: int| 0 <= i < docs.len() ==> (#[trigger] docs[i]).size == slots[i].value.size,
        forall|i: int, j: int|
            0 <= i < j < docs.len() ==> parse_path((#[trigger] docs[i]).source@) != parse_path(
                (#[trigger] docs[j]).source@,
            ),
    ensures
        total_of_doc(docs) == sum_sizes(slots),
    decreases docs.len(),
{
    if docs.len() > 0 {
        let init = docs.drop_last();
        let last = docs.last();
        assert forall|i: int, j: int| 0 <= i < j < init.len() implies parse_path(
            (#[trigger] init[i]).source@,
        ) != parse_path((#[trigger] init[j]).source@) by {
            assert(init[i] == docs[i] && init[j] == docs[j]);
        }
        assert forall|i: int| 0 <= i < init.len() implies (#[trigger] init[i]).size
            == slots.drop_last()[i].value.size by {
            assert(init[i] == docs[i]);
        }
        lemma_total_of_distinct_docs(init, slots.drop_last());
        lemma_entries_of_distinct_docs(init);
        if entries_of_doc(init).contains_key(parse_path(last.source@)) {
            let i = choose|i: int|
                0 <= i < init.len() && parse_path((#[trigger] init[i]).source@) == parse_path(
                    last.source@,
                );
            assert(init[i] == docs[i]);
            assert(docs[docs.len() - 1] == last);
            assert(parse_path(docs[i].source@) != parse_path(docs[docs.len() - 1].source@));
        }
        assert(docs[docs.len() - 1].size == slots[slots.len() - 1].value.size);
    }
}

/// Writing a record and reading it back gives an equal record: the document
/// that shows a well-formed record whose paths are normal stands for a
/// record with the same live entries, the same deleted entries, the same
/// snapshot roots and the same sum of sizes, and names no path both as live
/// and as deleted.
pub proof fn lemma_record_round_trip(record: Record, doc: RecordDoc)
    requires
        record.wf(),
        record.normal(),
        doc.shows(&record),
    ensures
        doc.consistent(),
        entries_of_doc(doc.entries@) == record.snapshot.entries@,
        deleted_of_doc(doc.deleted_entries@) == record.snapshot.deleted_entries@,
        total_of_doc(doc.entries@) == record.snapshot.total(),
        forall|i: int|
            0 <= i < doc.intervals@.len() ==> parse_path((#[trigger] doc.intervals@[i])@)
                == record.intervals@[i]@,
{
    let entries = record.snapshot.entries;
    let deleted = record.snapshot.deleted_entries;
    let docs = doc.entries@;
    let gone = doc.deleted_entries@;
    assert forall|i: int| 0 <= i < docs.len() implies parse_path((#[trigger] docs[i]).source@)
        == entries.slots@[i].key@ && entry_of_doc(docs[i]) == entries.slots@[i].value@ by {
        let slot = entries.slots@[i];
        assert(doc_shows_entry(docs[i], slot));
        lemma_parse_render(slot.key@);
        lemma_parse_render(slot.value.file_path@);
        lemma_parse_render(slot.value.snapshot_path@);
    }
    assert forall|i: int| 0 <= i < gone.len() implies parse_path((#[trigger] gone[i]).source@)
        == deleted.slots@[i].key@ && parse_path(gone[i].destination@)
        == deleted.slots@[i].value@ by {
        let slot = deleted.slots@[i];
        assert(doc_shows_deleted(gone[i], slot));
        lemma_parse_render(slot.key@);
        lemma_parse_render(slot.value@);
    }
    assert forall|i: int, j: int| 0 <= i < j < docs.len() implies parse_path(
        (#[trigger] docs[i]).source@,
    ) != parse_path((#[trigger] docs[j]).source@) by {
        assert(entries.slots@[i].key@ != entries.slots@[j].key@);
    }
    assert forall|i: int, j: int| 0 <= i < j < gone.len() implies parse_path(
        (#[trigger] gone[i]).source@,
    ) != parse_path((#[trigger] gone[j]).source@) by {
        assert(deleted.slots@[i].key@ != deleted.slots@[j].key@);
    }
    lemma_entries_of_distinct_docs(docs);
    lemma_deleted_of_distinct_docs(gone);
    assert forall|i: int| 0 <= i < docs.len() implies (#[trigger] docs[i]).size
        == entries.slots@[i].value.size by {
        assert(doc_shows_entry(docs[i], entries.slots@[i]));
    }
    lemma_total_of_distinct_docs(docs, entries.slots@);
    assert forall|k: Seq<Seq<char>>| entries_of_doc(docs).contains_key(k)
        == entries@.contains_key(k) by {
        if entries_of_doc(docs).contains_key(k) {
            let i = choose|i: int|
                0 <= i < docs.len() && parse_path((#[trigger] docs[i]).source@) == k;
            assert(entries.slots@[i].key@ == k);
        }
        if entries@.contains_key(k) {
            let i = entries.index_of(k);
            assert(parse_path(docs[i].source@) == k);
        }
    }
    assert forall|k: Seq<Seq<char>>| entries@.contains_key(k) implies entries_of_doc(docs)[k]
        == entries@[k] by {
        let i = entries.index_of(k);
        assert(parse_path(docs[i].source@) == k);
    }
    assert(entries_of_doc(docs) =~= entries@);
    assert forall|k: Seq<Seq<char>>| deleted_of_doc(gone).contains_key(k)
        == deleted@.contains_key(k) by {
        if deleted_of_doc(gone).contains_key(k) {
            let i = choose|i: int|
                0 <= i < gone.len() && parse_path((#[trigger] gone[i]).source@) == k;
            assert(deleted.slots@[i].key@ == k);
        }
        if deleted@.contains_key(k) {
            let i = deleted.index_of(k);
            assert(parse_path(gone[i].source@) == k);
        }
    }
    assert forall|k: Seq<Seq<char>>| deleted@.contains_key(k) implies deleted_of_doc(gone)[k]
        == deleted@[k] by {
        let i = deleted.index_of(k);
        assert(parse_path(gone[i].source@) == k);
    }
    assert(deleted_of_doc(gone) =~= deleted@);
    assert(!doc.clashes_before(gone.len() as int)) by {
        if doc.clashes_before(gone.len() as int) {
            let i = choose|i: int|
                0 <= i < gone.len() && i < doc.deleted_entries@.len() && entries_of_doc(
                    doc.entries@,
                ).contains_key(parse_path((#[trigger] doc.deleted_entries@[i]).source@));
            let k = parse_path(gone[i].source@);
            assert(deleted.slots@[i].key@ == k);
            assert(deleted@.contains_key(k));
            assert(entries@.contains_key(k));
            assert(entries@.dom().contains(k) && deleted@.dom().contains(k));
        }
    }
    assert forall|i: int| 0 <= i < doc.intervals@.len() implies parse_path(
        (#[trigger] doc.intervals@[i])@,
    ) == record.intervals@[i]@ by {
        lemma_parse_render(record.intervals@[i]@);
    }
}

} // verus!
