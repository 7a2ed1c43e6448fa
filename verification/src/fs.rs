//! The file-system collaborator.
//!
//! The store reads and writes whole files through a pluggable [`FileSystem`].
//! Files are addressed by a logical [`FileId`]; the host maps ids onto real
//! paths.  At the spec level a file system is a map from file keys to byte
//! strings.  [`MemFileSystem`] is an in-memory implementation, usable both as
//! a staging area for hosts and as a test fixture.

use vstd::prelude::*;
use crate::records::RecordKind;

verus! {

/// Logical name of one project file.
#[derive(Debug)]
pub enum FileId {
    /// One of the eleven basic nil-padded collections.
    Records(RecordKind),
    /// The nil-padded skill collection.
    Skills,
    /// The map-metadata table.
    MapInfos,
    /// The system record.
    System,
    /// The script bundle, under its resolved file name.
    Scripts(String),
    /// One map record, by map id.
    MapFile(usize),
}

/// Spec-level file name.
pub enum FileKey {
    Records(RecordKind),
    Skills,
    MapInfos,
    System,
    Scripts(Seq<char>),
    MapFile(int),
}

impl View for FileId {
    type V = FileKey;

    open spec fn view(&self) -> FileKey {
        match self {
            FileId::Records(k) => FileKey::Records(*k),
            FileId::Skills => FileKey::Skills,
            FileId::MapInfos => FileKey::MapInfos,
            FileId::System => FileKey::System,
            FileId::Scripts(name) => FileKey::Scripts(name@),
            FileId::MapFile(id) => FileKey::MapFile(*id as int),
        }
    }
}

impl FileId {
    /// Two ids name the same file exactly when their keys agree.
    pub fn same_file(&self, other: &FileId) -> (r: bool)
        ensures
            r == (self@ == other@),
    {
        match (self, other) {
            (FileId::Records(a), FileId::Records(b)) => *a == *b,
            (FileId::Skills, FileId::Skills) => true,
            (FileId::MapInfos, FileId::MapInfos) => true,
            (FileId::System, FileId::System) => true,
            (FileId::Scripts(a), FileId::Scripts(b)) => a.eq(b),
            (FileId::MapFile(a), FileId::MapFile(b)) => a == b,
            _ => false,
        }
    }
}

/// What the store needs of a host file system: whole-file reads and writes,
/// described against an abstract map of files.  `read` succeeds exactly on
/// present files; a successful `write` stores exactly the given bytes, and a
/// failed one leaves every file as it was.
pub trait FileSystem {
    spec fn files(&self) -> Map<FileKey, Seq<u8>>;

    fn read(&self, id: &FileId) -> (r: Option<Vec<u8>>)
        ensures
            match r {
                Some(data) => self.files().contains_key(id@) && data@ == self.files()[id@],
                None => !self.files().contains_key(id@),
            },
    ;

    fn write(&mut self, id: FileId, data: Vec<u8>) -> (r: bool)
        ensures
            r ==> final(self).files() == old(self).files().insert(id@, data@),
            !r ==> final(self).files() == old(self).files(),
    ;
}

// ---------------------------------------------------------------------------
// In-memory file system
// ---------------------------------------------------------------------------

/// The file map described by an association list; a later entry for the same
/// key shadows an earlier one.
pub open spec fn assoc_map(entries: Seq<(FileId, Vec<u8>)>) -> Map<FileKey, Seq<u8>>
    decreases entries.len(),
{
    if entries.len() == 0 {
        Map::<FileKey, Seq<u8>>::empty()
    } else {
        assoc_map(entries.drop_last()).insert(entries.last().0@, entries.last().1@)
    }
}

/// The entry at `i` is the last one for its key, so it decides the map there.
proof fn lemma_assoc_found(entries: Seq<(FileId, Vec<u8>)>, i: int)
    requires
        0 <= i < entries.len(),
        forall|j: int| i < j < entries.len() ==> entries[j].0@ != entries[i].0@,
    ensures
        assoc_map(entries).contains_key(entries[i].0@),
        assoc_map(entries)[entries[i].0@] == entries[i].1@,
    decreases entries.len(),
{
    if i == entries.len() - 1 {
    } else {
        assert(entries.drop_last()[i] == entries[i]);
        lemma_assoc_found(entries.drop_last(), i);
    }
}

/// A key under no entry is not in the map.
proof fn lemma_assoc_absent(entries: Seq<(FileId, Vec<u8>)>, k: FileKey)
    requires
        forall|j: int| 0 <= j < entries.len() ==> (#[trigger] entries[j].0@) != k,
    ensures
        !assoc_map(entries).contains_key(k),
    decreases entries.len(),
{
    if entries.len() > 0 {
        lemma_assoc_absent(entries.drop_last(), k);
    }
}

/// Removing one entry leaves the map unchanged at every other key.
proof fn lemma_assoc_remove_at(entries: Seq<(FileId, Vec<u8>)>, i: int)
    requires
        0 <= i < entries.len(),
    ensures
        forall|k2: FileKey|
            k2 != entries[i].0@ ==> #[trigger] assoc_map(entries.remove(i)).contains_key(k2)
                == assoc_map(entries).contains_key(k2),
        forall|k2: FileKey|
            k2 != entries[i].0@ && assoc_map(entries).contains_key(k2) ==> #[trigger] assoc_map(
                entries.remove(i),
            )[k2] == assoc_map(entries)[k2],
    decreases entries.len(),
{
    let k = entries[i].0@;
    if i == entries.len() - 1 {
        assert(entries.remove(i) =~= entries.drop_last());
    } else {
        assert(entries.drop_last()[i] == entries[i]);
        lemma_assoc_remove_at(entries.drop_last(), i);
        assert(entries.remove(i).drop_last() =~= entries.drop_last().remove(i));
        assert(entries.remove(i).last() == entries.last());
        let last_k = entries.last().0@;
        assert forall|k2: FileKey|
            k2 != k implies #[trigger] assoc_map(entries.remove(i)).contains_key(k2) == assoc_map(
            entries,
        ).contains_key(k2) by {
            if k2 == last_k {
            } else {
                assert(assoc_map(entries.drop_last().remove(i)).contains_key(k2) == assoc_map(
                    entries.drop_last(),
                ).contains_key(k2));
            }
        }
        assert forall|k2: FileKey|
            k2 != k && assoc_map(entries).contains_key(k2) implies #[trigger] assoc_map(
            entries.remove(i),
        )[k2] == assoc_map(entries)[k2] by {
            if k2 == last_k {
            } else {
                assert(assoc_map(entries.drop_last().remove(i)).contains_key(k2) == assoc_map(
                    entries.drop_last(),
                ).contains_key(k2));
                if assoc_map(entries.drop_last()).contains_key(k2) {
                    assert(assoc_map(entries.drop_last().remove(i))[k2] == assoc_map(
                        entries.drop_last(),
                    )[k2]);
                }
            }
        }
    }
}

/// Copies a byte vector element by element.
fn copy_bytes(data: &Vec<u8>) -> (r: Vec<u8>)
    ensures
        r@ == data@,
{
    let mut out: Vec<u8> = Vec::new();
    let n = data.len();
    let mut i: usize = 0;
    while i < n
        invariant
            n == data@.len(),
            i <= n,
            out@ == data@.subrange(0, i as int),
        decreases n - i,
    {
        out.push(data[i]);
        i = i + 1;
        assert(out@ =~= data@.subrange(0, i as int));
    }
    assert(out@ =~= data@);
    out
}

/// An in-memory file system: an association list of whole files.
pub struct MemFileSystem {
    entries: Vec<(FileId, Vec<u8>)>,
}

impl MemFileSystem {
    pub fn new() -> (r: MemFileSystem)
        ensures
            r.files() == Map::<FileKey, Seq<u8>>::empty(),
    {
        MemFileSystem { entries: Vec::new() }
    }

    /// Index of some entry for `id`, or the knowledge that none exists.
    fn find_entry(&self, id: &FileId) -> (r: Option<usize>)
        ensures
            match r {
                Some(i) => i < self.entries@.len() && self.entries@[i as int].0@ == id@,
                None => forall|j: int|
                    0 <= j < self.entries@.len() ==> (#[trigger] self.entries@[j].0@) != id@,
            },
    {
        let n = self.entries.len();
        let mut i: usize = 0;
        while i < n
            invariant
                n == self.entries@.len(),
                i <= n,
                forall|j: int| 0 <= j < i ==> (#[trigger] self.entries@[j].0@) != id@,
            decreases n - i,
        {
            if self.entries[i].0.same_file(id) {
                return Some(i);
            }
            i = i + 1;
        }
        None
    }

    /// Deletes the file under `id`, if any.
    pub fn remove(&mut self, id: &FileId)
        ensures
            final(self).files() == old(self).files().remove(id@),
    {
        let ghost orig = assoc_map(old(self).entries@);
        let ghost k = id@;
        loop
            invariant
                k == id@,
                orig == assoc_map(old(self).entries@),
                forall|k2: FileKey|
                    k2 != k ==> #[trigger] assoc_map(self.entries@).contains_key(k2)
                        == orig.contains_key(k2),
                forall|k2: FileKey|
                    k2 != k && orig.contains_key(k2) ==> #[trigger] assoc_map(self.entries@)[k2]
                        == orig[k2],
            decreases self.entries@.len(),
        {
            match self.find_entry(id) {
                Some(i) => {
                    proof {
                        lemma_assoc_remove_at(self.entries@, i as int);
                    }
                    self.entries.remove(i);
                },
                None => {
                    proof {
                        lemma_assoc_absent(self.entries@, k);
                        assert(assoc_map(self.entries@) =~= orig.remove(k));
                    }
                    return;
                },
            }
        }
    }

    /// Moves every file out, leaving the file system empty.  The returned
    /// entries describe exactly the files that were held.
    pub fn take_entries(&mut self) -> (r: Vec<(FileId, Vec<u8>)>)
        ensures
            assoc_map(r@) == old(self).files(),
            final(self).files() == Map::<FileKey, Seq<u8>>::empty(),
    {
        let mut out: Vec<(FileId, Vec<u8>)> = Vec::new();
        core::mem::swap(&mut out, &mut self.entries);
        proof {
            assert(assoc_map(Seq::<(FileId, Vec<u8>)>::empty()) == Map::<
                FileKey,
                Seq<u8>,
            >::empty());
        }
        out
    }

    /// Whether a file under `id` exists.
    pub fn contains(&self, id: &FileId) -> (r: bool)
        ensures
            r == self.files().contains_key(id@),
    {
        match self.read(id) {
            Some(_) => true,
            None => false,
        }
    }
}

impl FileSystem for MemFileSystem {
    closed spec fn files(&self) -> Map<FileKey, Seq<u8>> {
        assoc_map(self.entries@)
    }

    fn read(&self, id: &FileId) -> (r: Option<Vec<u8>>) {
        let mut i: usize = self.entries.len();
        while i > 0
            invariant
                i <= self.entries@.len(),
                forall|j: int|
                    i <= j < self.entries@.len() ==> (#[trigger] self.entries@[j].0@) != id@,
            decreases i,
        {
            i = i - 1;
            if self.entries[i].0.same_file(id) {
                proof {
                    lemma_assoc_found(self.entries@, i as int);
                }
                return Some(copy_bytes(&self.entries[i].1));
            }
        }
        proof {
            lemma_assoc_absent(self.entries@, id@);
        }
        None
    }

    fn write(&mut self, id: FileId, data: Vec<u8>) -> (r: bool)
        ensures
            r,
    {
        let ghost orig = assoc_map(old(self).entries@);
        let ghost k = id@;
        self.remove(&id);
        let ghost removed = self.entries@;
        self.entries.push((id, data));
        proof {
            assert(self.entries@.drop_last() =~= removed);
            assert(self.entries@.last().0@ == k);
            assert(assoc_map(self.entries@) =~= orig.insert(k, data@));
        }
        true
    }
}

} // verus!
