//! Root directory entries and lookup by name.

use vstd::prelude::*;
use vstd::string::StringSliceAdditionalSpecFns;

use crate::boot_sector::BootSector;
use crate::bytes::{le16, le32, read_u16_le, read_u32_le};
use crate::error::ReadError;

verus! {

broadcast use vstd::array::group_array_axioms;

/// Bytes per directory entry.
pub const DIRECTORY_ENTRY_SIZE: usize = 32;

/// Bytes in an entry's name: eight for the base name, three for the
/// extension, both padded with spaces.
pub const NAME_SIZE: usize = 11;

/// One 32-byte record of a directory.
#[derive(Debug, Clone, Copy)]
pub struct DirectoryEntry {
    pub name: [u8; 11],
    pub attributes: u8,
    pub reserved: u8,
    pub creation_time_tenths: u8,
    pub creation_time: u16,
    pub creation_date: u16,
    pub last_access_date: u16,
    pub upper_first_cluster: u16,
    pub last_change_time: u16,
    pub last_change_date: u16,
    pub lower_first_cluster: u16,
    pub file_size: u32,
}

/// The name bytes of the entry that starts at byte `at` of `b`.
pub open spec fn name_at(b: Seq<u8>, at: int) -> Seq<u8> {
    b.subrange(at, at + NAME_SIZE)
}

/// `e` holds the fields of the record that starts at byte `at` of `b`.
pub open spec fn decodes_entry(b: Seq<u8>, at: int, e: DirectoryEntry) -> bool {
    &&& 0 <= at && at + DIRECTORY_ENTRY_SIZE <= b.len()
    &&& e.name@ == name_at(b, at)
    &&& e.attributes == b[at + 11]
    &&& e.reserved == b[at + 12]
    &&& e.creation_time_tenths == b[at + 13]
    &&& e.creation_time == le16(b, at + 14)
    &&& e.creation_date == le16(b, at + 16)
    &&& e.last_access_date == le16(b, at + 18)
    &&& e.upper_first_cluster == le16(b, at + 20)
    &&& e.last_change_time == le16(b, at + 22)
    &&& e.last_change_date == le16(b, at + 24)
    &&& e.lower_first_cluster == le16(b, at + 26)
    &&& e.file_size == le32(b, at + 28)
}

/// Lookup stops at the first name whose first byte is zero.
pub open spec fn ends_directory(name: Seq<u8>) -> bool {
    name.len() > 0 && name[0] == 0
}

/// Entry `i` is the one that lookup of `q` returns: its name is `q`, and no
/// earlier entry ends the directory or carries `q`.
pub open spec fn found_at(names: Seq<Seq<u8>>, q: Seq<u8>, i: int) -> bool {
    &&& 0 <= i < names.len()
    &&& names[i] == q
    &&& !ends_directory(q)
    &&& forall|j: int| 0 <= j < i ==> !ends_directory(#[trigger] names[j]) && names[j] != q
}

/// The names of a sequence of entries.
pub open spec fn entry_names(s: Seq<DirectoryEntry>) -> Seq<Seq<u8>> {
    s.map_values(|e: DirectoryEntry| e.name@)
}

/// The names of the `count` records laid out from byte `base` of `b`.
pub open spec fn region_names(b: Seq<u8>, base: int, count: int) -> Seq<Seq<u8>> {
    Seq::new(count as nat, |k: int| name_at(b, base + DIRECTORY_ENTRY_SIZE * k))
}

/// Reads the record that starts at byte `at` of `b`.
pub fn read_entry(b: &[u8], at: usize) -> (e: DirectoryEntry)
    requires
        at + DIRECTORY_ENTRY_SIZE <= b.len(),
    ensures
        decodes_entry(b@, at as int, e),
{
    let name: [u8; 11] = [
        b[at],
        b[at + 1],
        b[at + 2],
        b[at + 3],
        b[at + 4],
        b[at + 5],
        b[at + 6],
        b[at + 7],
        b[at + 8],
        b[at + 9],
        b[at + 10],
    ];
    assert(name@ =~= name_at(b@, at as int));
    DirectoryEntry {
        name,
        attributes: b[at + 11],
        reserved: b[at + 12],
        creation_time_tenths: b[at + 13],
        creation_time: read_u16_le(b, at + 14),
        creation_date: read_u16_le(b, at + 16),
        last_access_date: read_u16_le(b, at + 18),
        upper_first_cluster: read_u16_le(b, at + 20),
        last_change_time: read_u16_le(b, at + 22),
        last_change_date: read_u16_le(b, at + 24),
        lower_first_cluster: read_u16_le(b, at + 26),
        file_size: read_u32_le(b, at + 28),
    }
}

/// Whether `a` holds exactly the bytes of `b`.
fn same_bytes(a: &[u8], b: &[u8; 11]) -> (r: bool)
    ensures
        r == (a@ == b@),
{
    if a.len() != NAME_SIZE {
        return false;
    }
    let mut i: usize = 0;
    while i < NAME_SIZE
        invariant
            i <= NAME_SIZE,
            a@.len() == NAME_SIZE,
            b@.len() == NAME_SIZE,
            forall|j: int| 0 <= j < i ==> a@[j] == b@[j],
        decreases NAME_SIZE - i,
    {
        if a[i] != b[i] {
            return false;
        }
        i = i + 1;
    }
    assert(a@ =~= b@);
    true
}

/// A directory: its entries in on-disk order, unused slots included.
pub struct Directory {
    entries: Vec<DirectoryEntry>,
}

impl View for Directory {
    type V = Seq<DirectoryEntry>;

    closed spec fn view(&self) -> Seq<DirectoryEntry> {
        self.entries@
    }
}

impl Directory {
    /// A directory holding the given entries.
    pub fn new(entries: Vec<DirectoryEntry>) -> (r: Directory)
        ensures
            r@ == entries@,
    {
        Directory { entries }
    }

    /// Number of entry slots.
    pub fn len(&self) -> (r: usize)
        ensures
            r == self@.len(),
    {
        self.entries.len()
    }

    /// Position of the entry named exactly `name`, bytes and padding alike,
    /// scanning in order and stopping at the first entry whose name starts
    /// with a zero byte.
    pub fn find(&self, name: &[u8]) -> (r: Option<usize>)
        ensures
            r matches Some(i) ==> found_at(entry_names(self@), name@, i as int),
            r is None ==> forall|i: int| !found_at(entry_names(self@), name@, i),
    {
        let names = Ghost(entry_names(self@));
        let mut i: usize = 0;
        while i < self.entries.len()
            invariant
                i <= self.entries@.len(),
                names@ == entry_names(self.entries@),
                forall|j: int| 0 <= j < i ==> !ends_directory(#[trigger] names@[j]) && names@[j] != name@,
            decreases self.entries@.len() - i,
        {
            let entry = &self.entries[i];
            assert(names@[i as int] == entry.name@);
            if entry.name[0] == 0 {
                assert(forall|k: int| i <= k ==> !found_at(names@, name@, k));
                return None;
            }
            if same_bytes(name, &entry.name) {
                return Some(i);
            }
            i = i + 1;
        }
        None
    }

    /// The entry named exactly `name`, as `find` locates it.
    pub fn get_entry(&self, name: &str) -> (r: Option<&DirectoryEntry>)
        ensures
            r matches Some(e) ==> exists|i: int|
                found_at(entry_names(self@), name.spec_bytes(), i) && *e == self@[i],
            r is None ==> forall|i: int| !found_at(entry_names(self@), name.spec_bytes(), i),
    {
        match self.find(name.as_bytes()) {
            Some(i) => Some(&self.entries[i]),
            None => None,
        }
    }
}

/// Lookup never looks past the end of a directory: once an entry's name
/// starts with a zero byte, no entry at or after it is found, whatever
/// bytes the later slots hold.
pub proof fn lemma_lookup_stops_at_end(d: Seq<DirectoryEntry>, q: Seq<u8>, t: int)
    requires
        0 <= t < d.len(),
        d[t].name@[0] == 0,
    ensures
        forall|i: int| t <= i ==> !found_at(entry_names(d), q, i),
{
    let names = entry_names(d);
    assert(names[t] == d[t].name@);
    assert(ends_directory(names[t]));
}

/// Lookup compares whole names byte for byte: an entry is found only under
/// all eleven bytes of its name, padding included, so a shorter query
/// matches nothing.
pub proof fn lemma_lookup_exact(d: Seq<DirectoryEntry>, q: Seq<u8>, i: int)
    requires
        found_at(entry_names(d), q, i),
    ensures
        q == d[i].name@,
        q.len() == NAME_SIZE,
{
    assert(entry_names(d)[i] == d[i].name@);
}

/// Reads the root directory out of `image`: `root_entries` records from
/// the offset the boot sector gives. Fails with `TruncatedRead` when the
/// image ends before the directory does.
pub fn read_root_directory(image: &[u8], boot_sector: &BootSector) -> (r: Result<Directory, ReadError>)
    ensures
        boot_sector.root_dir_start() + boot_sector.root_dir_size() > image@.len() <==> r is Err,
        r matches Err(e) ==> e == ReadError::TruncatedRead,
        r matches Ok(d) ==> {
            &&& d@.len() == boot_sector.root_entries
            &&& forall|k: int|
                0 <= k < d@.len() ==> decodes_entry(
                    image@,
                    boot_sector.root_dir_start() + DIRECTORY_ENTRY_SIZE * k,
                    #[trigger] d@[k],
                )
            &&& entry_names(d@) == region_names(
                image@,
                boot_sector.root_dir_start(),
                boot_sector.root_entries as int,
            )
        },
{
    let start = boot_sector.get_root_dir_start();
    let size = boot_sector.get_root_dir_size();
    proof { boot_sector.lemma_offsets_bounded(); }
    if start + size > image.len() as u64 {
        return Err(ReadError::TruncatedRead);
    }
    let count = boot_sector.root_entries as usize;
    let base = start as usize;
    let ghost names = region_names(image@, base as int, count as int);
    let mut entries: Vec<DirectoryEntry> = Vec::new();
    let mut k: usize = 0;
    while k < count
        invariant
            k <= count,
            count == boot_sector.root_entries,
            base == boot_sector.root_dir_start(),
            base + DIRECTORY_ENTRY_SIZE * count <= image@.len(),
            base + DIRECTORY_ENTRY_SIZE * count <= usize::MAX,
            names == region_names(image@, base as int, count as int),
            entries@.len() == k,
            forall|j: int|
                0 <= j < k ==> decodes_entry(image@, base + DIRECTORY_ENTRY_SIZE * j, #[trigger] entries@[j]),
        decreases count - k,
    {
        let at = base + DIRECTORY_ENTRY_SIZE * k;
        entries.push(read_entry(image, at));
        k = k + 1;
    }
    let d = Directory::new(entries);
    assert(entry_names(d@) =~= names);
    Ok(d)
}

} // verus!
