//! Following a cluster chain through the table and gathering its bytes.

use vstd::prelude::*;
use vstd::slice::slice_subrange;

use crate::boot_sector::BootSector;
use crate::directory::DirectoryEntry;
use crate::error::ReadError;
use crate::fat::{fat_capacity, fat_entry, in_table, Fat, END_OF_CHAIN};

verus! {

/// The bytes of cluster `c` of `image`.
pub open spec fn cluster_bytes(image: Seq<u8>, bs: BootSector, c: int) -> Seq<u8> {
    image.subrange(bs.cluster_start(c), bs.cluster_start(c) + bs.cluster_size())
}

/// `a` followed by the bytes of `r`, or the error of `r`.
pub open spec fn prepend(a: Seq<u8>, r: Result<Seq<u8>, ReadError>) -> Result<Seq<u8>, ReadError> {
    match r {
        Ok(rest) => Ok(a + rest),
        Err(e) => Err(e),
    }
}

/// What reading the chain from cluster `c` yields when at most `fuel` more
/// clusters may be visited: each cluster's bytes in chain order, up to and
/// including the first cluster whose entry is `END_OF_CHAIN` or above.
pub open spec fn chain_content(
    image: Seq<u8>,
    bs: BootSector,
    fat: Seq<u8>,
    c: int,
    fuel: nat,
) -> Result<Seq<u8>, ReadError>
    decreases fuel,
{
    if fuel == 0 {
        Err(ReadError::CyclicChain)
    } else if c < 2 || !in_table(fat, c) {
        Err(ReadError::BadCluster)
    } else if bs.cluster_start(c) + bs.cluster_size() > image.len() {
        Err(ReadError::TruncatedRead)
    } else if fat_entry(fat, c) >= END_OF_CHAIN {
        Ok(cluster_bytes(image, bs, c))
    } else {
        prepend(
            cluster_bytes(image, bs, c),
            chain_content(image, bs, fat, fat_entry(fat, c), (fuel - 1) as nat),
        )
    }
}

/// How many clusters the walk from `c` visits, the last one included,
/// before an entry at or above `END_OF_CHAIN` stops it.
pub open spec fn chain_length(fat: Seq<u8>, c: int, fuel: nat) -> nat
    decreases fuel,
{
    if fuel == 0 || c < 2 || !in_table(fat, c) {
        0
    } else if fat_entry(fat, c) >= END_OF_CHAIN {
        1
    } else {
        1 + chain_length(fat, fat_entry(fat, c), (fuel - 1) as nat)
    }
}

/// The bytes of a file: the chain from its first cluster, with as many
/// steps allowed as the table has entries.
pub open spec fn file_content(image: Seq<u8>, bs: BootSector, fat: Seq<u8>, first: int) -> Result<
    Seq<u8>,
    ReadError,
> {
    chain_content(image, bs, fat, first, fat_capacity(fat) as nat)
}

/// The view of a byte vector result.
pub open spec fn bytes_view(r: Result<Vec<u8>, ReadError>) -> Result<Seq<u8>, ReadError> {
    match r {
        Ok(v) => Ok(v@),
        Err(e) => Err(e),
    }
}

proof fn lemma_prepend_twice(a: Seq<u8>, b: Seq<u8>, r: Result<Seq<u8>, ReadError>)
    ensures
        prepend(a, prepend(b, r)) == prepend(a + b, r),
{
    if let Ok(rest) = r {
        assert(a + (b + rest) =~= (a + b) + rest);
    }
}

/// A chain read that succeeds stopped on an end-of-chain entry after whole
/// clusters: its length is the cluster size times the clusters visited.
pub proof fn lemma_content_length(image: Seq<u8>, bs: BootSector, fat: Seq<u8>, c: int, fuel: nat)
    requires
        chain_content(image, bs, fat, c, fuel) is Ok,
    ensures
        chain_length(fat, c, fuel) >= 1,
        chain_content(image, bs, fat, c, fuel)->Ok_0.len() == bs.cluster_size() * chain_length(
            fat,
            c,
            fuel,
        ),
    decreases fuel,
{
    bs.lemma_offsets_bounded();
    let size = bs.cluster_size();
    assert(size * (c - 2) >= 0) by (nonlinear_arith)
        requires
            size >= 0,
            c >= 2,
    ;
    assert(cluster_bytes(image, bs, c).len() == size);
    if fat_entry(fat, c) < END_OF_CHAIN {
        lemma_content_length(image, bs, fat, fat_entry(fat, c), (fuel - 1) as nat);
        let n = chain_length(fat, fat_entry(fat, c), (fuel - 1) as nat);
        assert(size * (1 + n) == size + size * n) by (nonlinear_arith);
        let rest = chain_content(image, bs, fat, fat_entry(fat, c), (fuel - 1) as nat)->Ok_0;
        assert(chain_content(image, bs, fat, c, fuel)->Ok_0 == cluster_bytes(image, bs, c) + rest);
        assert(chain_length(fat, c, fuel) == 1 + n);
    } else {
        assert(size * 1 == size);
    }
}

/// Reads the file that `entry` describes: follows the chain from its first
/// cluster (the low half of the field; FAT12 leaves the high half zero)
/// through `fat` and returns the clusters' bytes in chain order,
/// whole clusters, the last one included.
pub fn read_entry_content(
    image: &[u8],
    entry: &DirectoryEntry,
    fat: &Fat,
    boot_sector: &BootSector,
) -> (r: Result<Vec<u8>, ReadError>)
    ensures
        bytes_view(r) == file_content(image@, *boot_sector, fat@, entry.lower_first_cluster as int),
{
    let ghost goal = file_content(image@, *boot_sector, fat@, entry.lower_first_cluster as int);
    let cluster_size = boot_sector.get_cluster_size();
    let mut current: u16 = entry.lower_first_cluster;
    let mut fuel: usize = fat.capacity();
    let mut accumulator: Vec<u8> = Vec::new();
    proof {
        if let Ok(rest) = goal {
            assert(accumulator@ + rest =~= rest);
        }
    }
    loop
        invariant
            cluster_size == boot_sector.cluster_size(),
            goal == file_content(image@, *boot_sector, fat@, entry.lower_first_cluster as int),
            goal == prepend(
                accumulator@,
                chain_content(image@, *boot_sector, fat@, current as int, fuel as nat),
            ),
        decreases fuel,
    {
        if fuel == 0 {
            return Err(ReadError::CyclicChain);
        }
        if current < 2 || !fat.has_entry(current as usize) {
            return Err(ReadError::BadCluster);
        }
        let start = boot_sector.get_cluster_start(current);
        proof { boot_sector.lemma_cluster_start_bounded(current as int); }
        if start + cluster_size > image.len() as u64 {
            return Err(ReadError::TruncatedRead);
        }
        let bytes = slice_subrange(image, start as usize, (start + cluster_size) as usize);
        let ghost before = accumulator@;
        let mut j: usize = 0;
        while j < bytes.len()
            invariant
                j <= bytes@.len(),
                accumulator@ == before + bytes@.subrange(0, j as int),
            decreases bytes@.len() - j,
        {
            accumulator.push(bytes[j]);
            j = j + 1;
            assert(accumulator@ =~= before + bytes@.subrange(0, j as int));
        }
        assert(bytes@.subrange(0, bytes@.len() as int) =~= bytes@);
        let next = fat.get_entry(current as usize);
        if next >= END_OF_CHAIN {
            assert(goal == prepend(before, Ok(bytes@)));
            return Ok(accumulator);
        }
        proof {
            lemma_prepend_twice(
                before,
                bytes@,
                chain_content(image@, *boot_sector, fat@, next as int, (fuel - 1) as nat),
            );
        }
        current = next;
        fuel = fuel - 1;
    }
}

} // verus!
