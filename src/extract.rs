//! Extracting one file of the root directory from a whole image.

use vstd::prelude::*;
use vstd::string::StringSliceAdditionalSpecFns;

use crate::boot_sector::{decodes_boot_sector, read_boot_sector, BootSector, BOOT_SECTOR_SIZE};
use crate::bytes::le16;
use crate::chain::{bytes_view, file_content, read_entry_content};
use crate::directory::{
    decodes_entry, entry_names, found_at, read_root_directory, region_names, DIRECTORY_ENTRY_SIZE,
};
use crate::error::ReadError;
use crate::fat::read_fat;

verus! {

/// Byte offset of the first cluster field inside a directory entry.
pub open spec fn first_cluster_offset() -> int {
    26
}

/// What extracting the file named `q` from `image` yields, given the boot
/// sector that the image starts with: the table and the root directory
/// must lie inside the image, `q` must name an entry, and the entry's chain
/// is then read.
pub open spec fn extraction(image: Seq<u8>, bs: BootSector, q: Seq<u8>) -> Result<
    Seq<u8>,
    ReadError,
> {
    let fat_end = bs.fat_start() + bs.fat_size();
    let root = bs.root_dir_start();
    let names = region_names(image, root, bs.root_entries as int);
    if fat_end > image.len() {
        Err(ReadError::TruncatedRead)
    } else if root + bs.root_dir_size() > image.len() {
        Err(ReadError::TruncatedRead)
    } else if exists|i: int| found_at(names, q, i) {
        let i = choose|i: int| found_at(names, q, i);
        file_content(
            image,
            bs,
            image.subrange(bs.fat_start(), fat_end),
            le16(image, root + DIRECTORY_ENTRY_SIZE * i + first_cluster_offset()),
        )
    } else {
        Err(ReadError::EntryNotFound)
    }
}

/// Extracts the bytes of the root directory file named `name` (eight
/// space-padded name bytes and three extension bytes) from `image`: reads
/// the boot sector, the first table and the root directory, finds the
/// entry, and follows its chain. The first failure is returned.
pub fn extract_file(image: &[u8], name: &str) -> (r: Result<Vec<u8>, ReadError>)
    ensures
        image@.len() < BOOT_SECTOR_SIZE ==> bytes_view(r) == Err::<Seq<u8>, ReadError>(
            ReadError::TruncatedRead,
        ),
        image@.len() >= BOOT_SECTOR_SIZE ==> exists|bs: BootSector|
            decodes_boot_sector(image@, bs) && bytes_view(r) == extraction(
                image@,
                bs,
                name.spec_bytes(),
            ),
{
    let boot_sector = match read_boot_sector(image) {
        Ok(bs) => bs,
        Err(e) => return Err(e),
    };
    let ghost q = name.spec_bytes();
    let ghost root = boot_sector.root_dir_start();
    let ghost names = region_names(image@, root, boot_sector.root_entries as int);
    let fat = match read_fat(image, &boot_sector) {
        Ok(fat) => fat,
        Err(e) => return Err(e),
    };
    let root_directory = match read_root_directory(image, &boot_sector) {
        Ok(d) => d,
        Err(e) => return Err(e),
    };
    let entry = match root_directory.get_entry(name) {
        Some(entry) => entry,
        None => return Err(ReadError::EntryNotFound),
    };
    proof {
        let i = choose|i: int| found_at(entry_names(root_directory@), q, i) && *entry == root_directory@[i];
        let k = choose|k: int| found_at(names, q, k);
        assert(found_at(names, q, i));
        if k < i {
            assert(names[k] != q);
        }
        if i < k {
            assert(names[i] != q);
        }
        assert(decodes_entry(image@, root + DIRECTORY_ENTRY_SIZE * i, root_directory@[i]));
    }
    read_entry_content(image, entry, &fat, &boot_sector)
}

/// A name that no entry before the directory's end carries is reported as
/// not found, whenever the table and the directory lie inside the image.
pub proof fn lemma_missing_name_not_found(image: Seq<u8>, bs: BootSector, q: Seq<u8>)
    requires
        decodes_boot_sector(image, bs),
        bs.fat_start() + bs.fat_size() <= image.len(),
        bs.root_dir_start() + bs.root_dir_size() <= image.len(),
        forall|i: int| !found_at(region_names(image, bs.root_dir_start(), bs.root_entries as int), q, i),
    ensures
        extraction(image, bs, q) == Err::<Seq<u8>, ReadError>(ReadError::EntryNotFound),
{
}

} // verus!
