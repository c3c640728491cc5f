//! The DOS/MBR boot-sector partition table: four fixed 16-byte slots at
//! offset 446 of the 512-byte boot sector, each decoding to at most one
//! partition record.

use vstd::prelude::*;

use crate::error::PartitionError;
use crate::MetaView;
use crate::Partition;
use crate::PartitionView;
use crate::SchemeMeta;
use crate::MBR;
use vstd::bytes::spec_u32_from_le_bytes;
use vstd::bytes::u32_from_le_bytes;
use vstd::slice::slice_index_get;
use vstd::slice::slice_subrange;

verus! {

/// Offset of MBR slot `i` within the boot sector.
pub open spec fn slot_base(i: int) -> int {
    446 + 16 * i
}

/// Status byte of slot `i`.
pub open spec fn slot_status(s: Seq<u8>, i: int) -> u8 {
    s[slot_base(i)]
}

/// A slot's status byte must be 0x00 (not bootable) or 0x80 (bootable);
/// anything else fails the whole decode.
pub open spec fn slot_status_ok(s: Seq<u8>, i: int) -> bool {
    slot_status(s, i) == 0x00 || slot_status(s, i) == 0x80
}

/// Partition-type code of slot `i`; 0x00 marks the slot unused.
pub open spec fn slot_type_code(s: Seq<u8>, i: int) -> u8 {
    s[slot_base(i) + 4]
}

/// First sector of the partition in slot `i`: u32 little-endian, widened.
pub open spec fn slot_start_sector(s: Seq<u8>, i: int) -> u64 {
    spec_u32_from_le_bytes(s.subrange(slot_base(i) + 8, slot_base(i) + 12)) as u64
}

/// Sector count of the partition in slot `i`: u32 little-endian, widened.
pub open spec fn slot_sector_count(s: Seq<u8>, i: int) -> u64 {
    spec_u32_from_le_bytes(s.subrange(slot_base(i) + 12, slot_base(i) + 16)) as u64
}

/// The partition record a used slot `i` decodes to.
pub open spec fn slot_partition(s: Seq<u8>, i: int) -> PartitionView {
    PartitionView {
        id: i + 1,
        start_sector: slot_start_sector(s, i),
        number_of_sector: slot_sector_count(s, i),
        meta: MetaView::Mbr(
            MBR { bootable: slot_status(s, i) == 0x80, type_code: slot_type_code(s, i) },
        ),
    }
}

/// The records decoded from the first `n` slots, in slot order, unused
/// slots skipped.
pub open spec fn mbr_views_upto(s: Seq<u8>, n: int) -> Seq<PartitionView>
    decreases n,
{
    if n <= 0 {
        Seq::empty()
    } else if slot_type_code(s, n - 1) == 0 {
        mbr_views_upto(s, n - 1)
    } else {
        mbr_views_upto(s, n - 1).push(slot_partition(s, n - 1))
    }
}

/// The records a boot sector with four well-formed slots decodes to.
pub open spec fn mbr_views(s: Seq<u8>) -> Seq<PartitionView> {
    mbr_views_upto(s, 4)
}

/// Law: a boot sector whose four slots all carry a valid status byte
/// decodes to between 0 and 4 records, one per slot whose type code is
/// non-zero and none for any other slot, in slot order, each record being
/// exactly what its slot holds, with `id` equal to the slot index plus one.
pub proof fn lemma_mbr_slot_correspondence(s: Seq<u8>)
    requires
        s.len() == 512,
        forall|i: int| 0 <= i < 4 ==> slot_status_ok(s, i),
    ensures
        0 <= mbr_views(s).len() <= 4,
        forall|k: int|
            0 <= k < mbr_views(s).len() ==> {
                let p = #[trigger] mbr_views(s)[k];
                &&& 1 <= p.id <= 4
                &&& slot_type_code(s, p.id - 1) != 0
                &&& p == slot_partition(s, p.id - 1)
            },
        forall|k1: int, k2: int|
            0 <= k1 < k2 < mbr_views(s).len() ==> #[trigger] mbr_views(s)[k1].id
                < #[trigger] mbr_views(s)[k2].id,
        forall|i: int|
            0 <= i < 4 && #[trigger] slot_type_code(s, i) != 0 ==> exists|k: int|
                0 <= k < mbr_views(s).len() && #[trigger] mbr_views(s)[k].id == i + 1,
{
    lemma_mbr_views_upto_correspondence(s, 4);
}

/// The correspondence above, slot prefix by slot prefix.
proof fn lemma_mbr_views_upto_correspondence(s: Seq<u8>, n: int)
    requires
        0 <= n,
    ensures
        mbr_views_upto(s, n).len() <= n,
        forall|k: int|
            0 <= k < mbr_views_upto(s, n).len() ==> {
                let p = #[trigger] mbr_views_upto(s, n)[k];
                &&& 1 <= p.id <= n
                &&& slot_type_code(s, p.id - 1) != 0
                &&& p == slot_partition(s, p.id - 1)
            },
        forall|k1: int, k2: int|
            0 <= k1 < k2 < mbr_views_upto(s, n).len() ==> #[trigger] mbr_views_upto(s, n)[k1].id
                < #[trigger] mbr_views_upto(s, n)[k2].id,
        forall|i: int|
            0 <= i < n && #[trigger] slot_type_code(s, i) != 0 ==> exists|k: int|
                0 <= k < mbr_views_upto(s, n).len() && #[trigger] mbr_views_upto(s, n)[k].id == i
                    + 1,
    decreases n,
{
    if n > 0 {
        lemma_mbr_views_upto_correspondence(s, n - 1);
        let prev = mbr_views_upto(s, n - 1);
        let cur = mbr_views_upto(s, n);
        if slot_type_code(s, n - 1) != 0 {
            assert(cur == prev.push(slot_partition(s, n - 1)));
            assert(cur[cur.len() - 1] == slot_partition(s, n - 1));
            assert(forall|k: int| 0 <= k < prev.len() ==> cur[k] == prev[k]);
            assert forall|i: int| 0 <= i < n && #[trigger] slot_type_code(s, i) != 0 implies exists|
                k: int,
            | 0 <= k < cur.len() && #[trigger] cur[k].id == i + 1 by {
                if i == n - 1 {
                    assert(cur[cur.len() - 1].id == i + 1);
                } else {
                    let k = choose|k: int| 0 <= k < prev.len() && #[trigger] prev[k].id == i + 1;
                    assert(cur[k].id == i + 1);
                }
            }
        } else {
            assert(cur == prev);
        }
    }
}

/// Read a DOS/MBR partition table from a 512-byte boot sector.
///
/// Succeeds exactly when every slot's status byte is 0x00 or 0x80, and then
/// returns one record per slot whose type code is non-zero, in slot order,
/// with `id` equal to the slot index plus one. On the first slot with any
/// other status byte the whole decode fails, naming that slot and byte.
pub fn mbr_partition_table(sector: &[u8]) -> (r: Result<Vec<Partition>, PartitionError>)
    requires
        sector@.len() == 512,
    ensures
        match r {
            Ok(parts) => {
                &&& forall|i: int| 0 <= i < 4 ==> slot_status_ok(sector@, i)
                &&& parts@.map_values(|p: Partition| p@) == mbr_views(sector@)
            },
            Err(e) => {
                &&& e matches PartitionError::InvalidStatus { slot, status }
                &&& 0 <= (slot as int) < 4
                &&& !slot_status_ok(sector@, slot as int)
                &&& forall|j: int| 0 <= j < slot as int ==> slot_status_ok(sector@, j)
                &&& status == slot_status(sector@, slot as int)
            },
        },
{
    let mut partitions: Vec<Partition> = Vec::new();
    let mut entry_id: usize = 0;
    while entry_id < 4
        invariant
            sector@.len() == 512,
            entry_id <= 4,
            forall|j: int| 0 <= j < entry_id as int ==> slot_status_ok(sector@, j),
            partitions@.map_values(|p: Partition| p@) == mbr_views_upto(
                sector@,
                entry_id as int,
            ),
        decreases 4 - entry_id,
    {
        let entry_offset: usize = 446 + entry_id * 16;
        let status: u8 = *slice_index_get(sector, entry_offset);
        let bootable: bool = if status == 0x00 {
            false
        } else if status == 0x80 {
            true
        } else {
            return Err(PartitionError::InvalidStatus { slot: entry_id, status });
        };
        let type_code: u8 = *slice_index_get(sector, entry_offset + 4);
        if type_code != 0 {
            let start_sector = u32_from_le_bytes(
                slice_subrange(sector, entry_offset + 8, entry_offset + 12),
            ) as u64;
            let number_of_sector = u32_from_le_bytes(
                slice_subrange(sector, entry_offset + 12, entry_offset + 16),
            ) as u64;
            let part = Partition {
                id: entry_id + 1,
                start_sector,
                number_of_sector,
                meta: SchemeMeta::Mbr(MBR { bootable, type_code }),
            };
            proof {
                assert(part@ =~= slot_partition(sector@, entry_id as int));
            }
            let ghost before = partitions@.map_values(|p: Partition| p@);
            partitions.push(part);
            proof {
                assert(partitions@.map_values(|p: Partition| p@) =~= before.push(
                    slot_partition(sector@, entry_id as int),
                ));
            }
        }
        entry_id = entry_id + 1;
    }
    Ok(partitions)
}

} // verus!
