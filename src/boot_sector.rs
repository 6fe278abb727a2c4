//! The boot sector and the region offsets derived from its fields.

use vstd::prelude::*;

use crate::bytes::{le16, le32, read_u16_le, read_u32_le};
use crate::directory::DIRECTORY_ENTRY_SIZE;
use crate::error::ReadError;

verus! {

/// Number of bytes the boot sector's fields occupy at the start of the image.
pub const BOOT_SECTOR_SIZE: usize = 61;

/// The BIOS parameter block and the extended boot record, field by field in
/// on-disk order. The boot loader code that follows them is not kept.
#[derive(Debug, Clone, Copy)]
pub struct BootSector {
    pub jump_instruction: [u8; 3],
    pub oem_id: [u8; 8],
    pub bytes_per_sector: u16,
    pub sectors_per_cluster: u8,
    pub reserved_sectors: u16,
    pub fat_count: u8,
    pub root_entries: u16,
    pub sector_count: u16,
    pub media_descriptor: u8,
    pub sectors_per_fat: u16,
    pub sectors_per_cylinder: u16,
    pub heads_count: u16,
    pub hidden_sectors_count: u32,
    pub large_sector_count: u32,
    pub drive_number: u8,
    pub reserved: u8,
    pub volume_id: u32,
    pub volume_label: [u8; 11],
    pub system_id: [u8; 8],
}

/// `bs` holds the fields laid out, packed and little-endian, at the start of `b`.
pub open spec fn decodes_boot_sector(b: Seq<u8>, bs: BootSector) -> bool {
    &&& BOOT_SECTOR_SIZE <= b.len()
    &&& bs.jump_instruction@ == b.subrange(0, 3)
    &&& bs.oem_id@ == b.subrange(3, 11)
    &&& bs.bytes_per_sector == le16(b, 11)
    &&& bs.sectors_per_cluster == b[13]
    &&& bs.reserved_sectors == le16(b, 14)
    &&& bs.fat_count == b[16]
    &&& bs.root_entries == le16(b, 17)
    &&& bs.sector_count == le16(b, 19)
    &&& bs.media_descriptor == b[21]
    &&& bs.sectors_per_fat == le16(b, 22)
    &&& bs.sectors_per_cylinder == le16(b, 24)
    &&& bs.heads_count == le16(b, 26)
    &&& bs.hidden_sectors_count == le32(b, 28)
    &&& bs.large_sector_count == le32(b, 32)
    &&& bs.drive_number == b[36]
    &&& bs.reserved == b[37]
    &&& bs.volume_id == le32(b, 38)
    &&& bs.volume_label@ == b.subrange(42, 53)
    &&& bs.system_id@ == b.subrange(53, 61)
}

proof fn lemma_mul_bounded(a: int, b: int, x: int, y: int)
    by (nonlinear_arith)
    requires
        0 <= a <= x,
        0 <= b <= y,
    ensures
        0 <= a * b <= x * y,
{
}

impl BootSector {
    /// Byte offset of the first allocation table.
    pub open spec fn fat_start(&self) -> int {
        self.reserved_sectors * self.bytes_per_sector
    }

    /// Byte length of one allocation table.
    pub open spec fn fat_size(&self) -> int {
        self.sectors_per_fat * self.bytes_per_sector
    }

    /// Byte offset of the root directory, after every copy of the table.
    pub open spec fn root_dir_start(&self) -> int {
        self.fat_start() + self.fat_size() * self.fat_count
    }

    /// Byte length of the root directory.
    pub open spec fn root_dir_size(&self) -> int {
        self.root_entries * DIRECTORY_ENTRY_SIZE
    }

    /// Byte offset of the data region, where cluster 2 begins.
    pub open spec fn cluster_region_start(&self) -> int {
        self.root_dir_start() + self.root_dir_size()
    }

    /// Byte length of one cluster.
    pub open spec fn cluster_size(&self) -> int {
        self.sectors_per_cluster * self.bytes_per_sector
    }

    /// Byte offset of cluster `n`; numbering starts at 2.
    pub open spec fn cluster_start(&self, n: int) -> int {
        self.cluster_region_start() + self.cluster_size() * (n - 2)
    }

    /// Every derived offset and size fits in 41 bits.
    pub proof fn lemma_offsets_bounded(&self)
        ensures
            0 <= self.fat_start() < 0x1_0000_0000,
            0 <= self.fat_size() < 0x1_0000_0000,
            0 <= self.root_dir_start() < 0x100_0000_0000,
            0 <= self.root_dir_size() < 0x100_0000,
            0 <= self.cluster_region_start() < 0x200_0000_0000,
            0 <= self.cluster_size() < 0x100_0000,
    {
        lemma_mul_bounded(self.reserved_sectors as int, self.bytes_per_sector as int, 0xFFFF, 0xFFFF);
        lemma_mul_bounded(self.sectors_per_fat as int, self.bytes_per_sector as int, 0xFFFF, 0xFFFF);
        lemma_mul_bounded(self.fat_size(), self.fat_count as int, 0xFFFE_0001, 0xFF);
        lemma_mul_bounded(self.sectors_per_cluster as int, self.bytes_per_sector as int, 0xFF, 0xFFFF);
    }

    /// A cluster numbered in 16 bits ends below 2^42.
    pub proof fn lemma_cluster_start_bounded(&self, n: int)
        requires
            2 <= n <= 0xFFFF,
        ensures
            0 <= self.cluster_start(n),
            self.cluster_start(n) + self.cluster_size() < 0x400_0000_0000,
    {
        self.lemma_offsets_bounded();
        lemma_mul_bounded(self.cluster_size(), n - 2, 0x100_0000, 0xFFFF);
    }

    pub fn get_fat_start(&self) -> (r: u64)
        ensures
            r == self.fat_start(),
    {
        proof { self.lemma_offsets_bounded(); }
        self.reserved_sectors as u64 * self.bytes_per_sector as u64
    }

    pub fn get_fat_size(&self) -> (r: u64)
        ensures
            r == self.fat_size(),
    {
        proof { self.lemma_offsets_bounded(); }
        self.sectors_per_fat as u64 * self.bytes_per_sector as u64
    }

    pub fn get_root_dir_start(&self) -> (r: u64)
        ensures
            r == self.root_dir_start(),
    {
        proof { self.lemma_offsets_bounded(); }
        self.get_fat_start() + self.get_fat_size() * self.fat_count as u64
    }

    pub fn get_root_dir_size(&self) -> (r: u64)
        ensures
            r == self.root_dir_size(),
    {
        proof { self.lemma_offsets_bounded(); }
        self.root_entries as u64 * DIRECTORY_ENTRY_SIZE as u64
    }

    pub fn get_cluster_region_start(&self) -> (r: u64)
        ensures
            r == self.cluster_region_start(),
    {
        proof { self.lemma_offsets_bounded(); }
        self.get_root_dir_start() + self.get_root_dir_size()
    }

    /// Byte offset of cluster `cluster`. Clusters 0 and 1 are reserved and
    /// have no place in the data region.
    pub fn get_cluster_start(&self, cluster: u16) -> (r: u64)
        requires
            cluster >= 2,
        ensures
            r == self.cluster_start(cluster as int),
    {
        proof {
            self.lemma_offsets_bounded();
            lemma_mul_bounded(self.cluster_size(), cluster - 2, 0x100_0000, 0xFFFF);
        }
        self.get_cluster_region_start() + self.get_cluster_size() * (cluster - 2) as u64
    }

    pub fn get_cluster_size(&self) -> (r: u64)
        ensures
            r == self.cluster_size(),
    {
        proof { self.lemma_offsets_bounded(); }
        self.sectors_per_cluster as u64 * self.bytes_per_sector as u64
    }
}

/// Cluster numbering starts at 2: cluster 2 is the first cluster of the
/// data region.
pub proof fn lemma_first_cluster_at_region_start(bs: BootSector)
    ensures
        bs.cluster_start(2) == bs.cluster_region_start(),
{
}

/// Decodes the boot sector at the start of `image`; fails with
/// `TruncatedRead` when the image is shorter than the boot sector.
pub fn read_boot_sector(image: &[u8]) -> (r: Result<BootSector, ReadError>)
    ensures
        image@.len() < BOOT_SECTOR_SIZE <==> r is Err,
        r matches Err(e) ==> e == ReadError::TruncatedRead,
        r matches Ok(bs) ==> decodes_boot_sector(image@, bs),
{
    if image.len() < BOOT_SECTOR_SIZE {
        return Err(ReadError::TruncatedRead);
    }
    let b = image;
    let bs = BootSector {
        jump_instruction: [b[0], b[1], b[2]],
        oem_id: [b[3], b[4], b[5], b[6], b[7], b[8], b[9], b[10]],
        bytes_per_sector: read_u16_le(b, 11),
        sectors_per_cluster: b[13],
        reserved_sectors: read_u16_le(b, 14),
        fat_count: b[16],
        root_entries: read_u16_le(b, 17),
        sector_count: read_u16_le(b, 19),
        media_descriptor: b[21],
        sectors_per_fat: read_u16_le(b, 22),
        sectors_per_cylinder: read_u16_le(b, 24),
        heads_count: read_u16_le(b, 26),
        hidden_sectors_count: read_u32_le(b, 28),
        large_sector_count: read_u32_le(b, 32),
        drive_number: b[36],
        reserved: b[37],
        volume_id: read_u32_le(b, 38),
        volume_label: [b[42], b[43], b[44], b[45], b[46], b[47], b[48], b[49], b[50], b[51], b[52]],
        system_id: [b[53], b[54], b[55], b[56], b[57], b[58], b[59], b[60]],
    };
    assert(bs.jump_instruction@ =~= b@.subrange(0, 3));
    assert(bs.oem_id@ =~= b@.subrange(3, 11));
    assert(bs.volume_label@ =~= b@.subrange(42, 53));
    assert(bs.system_id@ =~= b@.subrange(53, 61));
    Ok(bs)
}

} // verus!
