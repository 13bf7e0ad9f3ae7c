//! Fixed-offset metadata read from the first sector of an NTFS partition.
//!
//! The values live at fixed little-endian offsets in the 512-byte boot
//! sector; the sector is recognised as NTFS by the identifier at offset 3.

use crate::gf2n::{lemma_pow256_mono, pow256};
use vstd::prelude::*;

verus! {

/// The NTFS OEM identifier at offset 3, read as a little-endian 64-bit
/// value: the bytes "NTFS    ".
pub const NTFS_ID: u64 = 0x2020_2020_5346_544E;

/// Values read from fixed offsets in the first 512 bytes of a partition.
#[derive(Clone, Copy, Debug, PartialEq, Eq, Structural)]
pub struct PartitionInfo {
    pub bytes_per_sector: u16,
    pub sectors_in_cluster: u8,
    pub total_sectors_in_partition: u64,
    pub cluster_containing_mft: u64,
}

/// The unsigned value of a byte string read little-endian.
pub open spec fn le_val(s: Seq<u8>) -> nat
    decreases s.len(),
{
    if s.len() == 0 {
        0
    } else {
        (s.first() as nat) + 256 * le_val(s.drop_first())
    }
}

/// Read `count` bytes at `off` as a little-endian value.
fn le_u64_range(s: &[u8], off: usize, count: usize) -> (r: u64)
    requires
        count <= 8,
        off + count <= s@.len(),
    ensures
        r as nat == le_val(s@.subrange(off as int, off as int + count as int)),
        (r as nat) < pow256(count as nat),
{
    let mut v: u64 = 0;
    let mut k: usize = count;
    let sl: usize = s.len();
    while k > 0
        invariant
            k <= count,
            count <= 8,
            off + count <= s@.len(),
            sl == s@.len(),
            v as nat == le_val(s@.subrange(off as int + k as int, off as int + count as int)),
            (v as nat) < pow256((count - k) as nat),
        decreases k,
    {
        k = k - 1;
        let b = *vstd::slice::slice_index_get(s, off + k);
        proof {
            lemma_pow256_mono((count - k - 1) as nat, 7);
            assert(pow256(7) == 0x100_0000_0000_0000nat) by {
                reveal_with_fuel(pow256, 8);
            }
            let sub = s@.subrange(off as int + k as int, off as int + count as int);
            assert(sub.drop_first() =~= s@.subrange(
                off as int + k as int + 1,
                off as int + count as int,
            ));
            assert(sub.first() == b);
        }
        v = (b as u64) + 256 * v;
    }
    v
}

/// Read the partition metadata out of the 512-byte boot sector. Succeeds
/// exactly when the sector carries the NTFS identifier.
pub fn read_info_ntfs(buffer: &[u8]) -> (r: Result<PartitionInfo, &'static str>)
    requires
        buffer@.len() == 512,
    ensures
        r is Ok <==> le_val(buffer@.subrange(0x03, 0x0B)) == NTFS_ID,
        r matches Ok(info) ==> {
            &&& info.bytes_per_sector as nat == le_val(buffer@.subrange(0x0B, 0x0D))
            &&& info.sectors_in_cluster == buffer@[0x0D]
            &&& info.total_sectors_in_partition as nat == le_val(buffer@.subrange(0x28, 0x30))
            &&& info.cluster_containing_mft as nat == le_val(buffer@.subrange(0x30, 0x38))
        },
{
    let filesystem_identifier = le_u64_range(buffer, 0x03, 8);
    if filesystem_identifier != NTFS_ID {
        return Err("Filesystem is not NTFS.");
    }
    let bps = le_u64_range(buffer, 0x0B, 2);
    proof {
        assert(pow256(2) == 0x10000nat) by {
            reveal_with_fuel(pow256, 3);
        }
    }
    Ok(
        PartitionInfo {
            bytes_per_sector: bps as u16,
            sectors_in_cluster: *vstd::slice::slice_index_get(buffer, 0x0D),
            total_sectors_in_partition: le_u64_range(buffer, 0x28, 8),
            cluster_containing_mft: le_u64_range(buffer, 0x30, 8),
        },
    )
}

} // verus!
