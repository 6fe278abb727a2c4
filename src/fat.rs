//! The file allocation table: 12-bit entries packed two to every three bytes.

use vstd::prelude::*;
use vstd::slice::{slice_subrange, slice_to_vec};

use crate::boot_sector::BootSector;
use crate::bytes::le16;
use crate::error::ReadError;

verus! {

/// Entry values at or above this one end a cluster chain.
pub const END_OF_CHAIN: u16 = 0x0FF8;

/// Entry `n` of the packed table `t`: the 16-bit little-endian word at byte
/// `n * 3 / 2`, whose low 12 bits hold an even entry and whose high 12 bits
/// hold an odd one.
pub open spec fn fat_entry(t: Seq<u8>, n: int) -> int {
    let w = le16(t, n * 3 / 2);
    if n % 2 == 0 {
        w % 4096
    } else {
        w / 16
    }
}

/// Both bytes that hold entry `n` lie inside `t`.
pub open spec fn in_table(t: Seq<u8>, n: int) -> bool {
    0 <= n && n * 3 / 2 + 1 < t.len()
}

/// How many 12-bit entries `t` has room for.
pub open spec fn fat_capacity(t: Seq<u8>) -> int {
    t.len() as int * 8 / 12
}

/// An allocation table held as its raw bytes.
pub struct Fat {
    entries: Vec<u8>,
}

impl View for Fat {
    type V = Seq<u8>;

    closed spec fn view(&self) -> Seq<u8> {
        self.entries@
    }
}

impl Fat {
    /// A table over the given raw bytes.
    pub fn new(entries: Vec<u8>) -> (r: Fat)
        ensures
            r@ == entries@,
    {
        Fat { entries }
    }

    /// Number of raw bytes in the table.
    pub fn byte_len(&self) -> (r: usize)
        ensures
            r == self@.len(),
    {
        self.entries.len()
    }

    /// Whether entry `cluster` lies inside the table.
    pub fn has_entry(&self, cluster: usize) -> (r: bool)
        ensures
            r == in_table(self@, cluster as int),
    {
        let len = self.entries.len();
        cluster < len && cluster / 2 + 1 < len - cluster
    }

    /// How many 12-bit entries the table has room for.
    pub fn capacity(&self) -> (r: usize)
        ensures
            r == fat_capacity(self@),
    {
        let len = self.entries.len();
        (len / 3) * 2 + (len % 3) / 2
    }

    /// The 12-bit value stored for `cluster`: the next cluster of its chain,
    /// 0 for a free cluster, 0xFF7 for a bad one, `END_OF_CHAIN` or above
    /// for the last cluster of a file.
    pub fn get_entry(&self, cluster: usize) -> (r: u16)
        requires
            in_table(self@, cluster as int),
        ensures
            r == fat_entry(self@, cluster as int),
            r < 4096,
    {
        assert(cluster * 3 / 2 == cluster + cluster / 2);
        let len: usize = self.entries.len();
        let i: usize = cluster + cluster / 2;
        assert(i + 1 < len);
        let word: u16 = self.entries[i] as u16 + (self.entries[i + 1] as u16) * 256;
        if cluster % 2 == 0 {
            let r: u16 = word & 0x0FFF;
            assert(r == word % 4096 && r < 4096) by (bit_vector)
                requires
                    r == word & 0x0FFF,
            ;
            r
        } else {
            let r: u16 = word >> 4;
            assert(r == word / 16 && r < 4096) by (bit_vector)
                requires
                    r == word >> 4,
            ;
            r
        }
    }
}

/// The packing rule byte by byte: an even entry takes all of its first byte
/// and the low half of the second; an odd entry takes the high half of its
/// first byte and all of the second.
pub proof fn lemma_fat_entry_packing(t: Seq<u8>, n: int)
    requires
        in_table(t, n),
    ensures
        n % 2 == 0 ==> fat_entry(t, n) == t[n * 3 / 2] + 256 * (t[n * 3 / 2 + 1] % 16),
        n % 2 == 1 ==> fat_entry(t, n) == t[n * 3 / 2] / 16 + 16 * t[n * 3 / 2 + 1],
{
    let lo = t[n * 3 / 2] as int;
    let hi = t[n * 3 / 2 + 1] as int;
    assert(0 <= lo < 256 && 0 <= hi < 256);
    assert((lo + 256 * hi) % 4096 == lo + 256 * (hi % 16)) by (nonlinear_arith)
        requires
            0 <= lo < 256,
            0 <= hi < 256,
    ;
    assert((lo + 256 * hi) / 16 == lo / 16 + 16 * hi) by (nonlinear_arith)
        requires
            0 <= lo < 256,
            0 <= hi < 256,
    ;
}

/// Copies the first allocation table out of `image`; fails with
/// `TruncatedRead` when the image ends before the table does.
pub fn read_fat(image: &[u8], boot_sector: &BootSector) -> (r: Result<Fat, ReadError>)
    ensures
        boot_sector.fat_start() + boot_sector.fat_size() > image@.len() <==> r is Err,
        r matches Err(e) ==> e == ReadError::TruncatedRead,
        r matches Ok(fat) ==> fat@ == image@.subrange(
            boot_sector.fat_start(),
            boot_sector.fat_start() + boot_sector.fat_size(),
        ),
{
    let start = boot_sector.get_fat_start();
    let size = boot_sector.get_fat_size();
    proof { boot_sector.lemma_offsets_bounded(); }
    if start + size > image.len() as u64 {
        return Err(ReadError::TruncatedRead);
    }
    let region = slice_subrange(image, start as usize, (start + size) as usize);
    Ok(Fat::new(slice_to_vec(region)))
}

} // verus!
