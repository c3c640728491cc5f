//! The GUID Partition Table: a checksummed, self-describing header in the
//! sector after the boot sector, followed by a table of fixed-size partition
//! entries. The header is validated gate by gate, in the order the checks
//! are made; the first failing gate aborts the decode with its own error.

use vstd::prelude::*;

use crate::error::PartitionError;
use crate::GptView;
use crate::MetaView;
use crate::Partition;
use crate::PartitionView;
use crate::SchemeMeta;
use crate::GPT;
use vstd::bytes::spec_u16_from_le_bytes;
use vstd::bytes::spec_u32_from_le_bytes;
use vstd::bytes::spec_u64_from_le_bytes;
use vstd::bytes::u16_from_le_bytes;
use vstd::bytes::u32_from_le_bytes;
use vstd::bytes::u64_from_le_bytes;
use vstd::slice::slice_index_get;
use vstd::slice::slice_subrange;
use vstd::slice::slice_to_vec;

verus! {

/// The u16 read little-endian at byte offset `off` of `s`.
pub open spec fn u16_at(s: Seq<u8>, off: int) -> u16 {
    spec_u16_from_le_bytes(s.subrange(off, off + 2))
}

/// The u32 read little-endian at byte offset `off` of `s`.
pub open spec fn u32_at(s: Seq<u8>, off: int) -> u32 {
    spec_u32_from_le_bytes(s.subrange(off, off + 4))
}

/// The u64 read little-endian at byte offset `off` of `s`.
pub open spec fn u64_at(s: Seq<u8>, off: int) -> u64 {
    spec_u64_from_le_bytes(s.subrange(off, off + 8))
}

/// Whether every byte of `s` is zero.
pub open spec fn spec_all_zero(s: Seq<u8>) -> bool {
    forall|i: int| 0 <= i < s.len() ==> s[i] == 0
}

/// Whether every byte of `val` is zero.
pub fn all_zero(val: &[u8]) -> (r: bool)
    ensures
        r == spec_all_zero(val@),
{
    let mut i: usize = 0;
    while i < val.len()
        invariant
            i <= val@.len(),
            forall|j: int| 0 <= j < i ==> val@[j] == 0,
        decreases val@.len() - i,
    {
        if *slice_index_get(val, i) != 0 {
            return false;
        }
        i = i + 1;
    }
    true
}

/// The CRC-32 (IEEE 802.3 polynomial) of a byte sequence, as the crc crate
/// computes it.
pub uninterp spec fn crc32_of(s: Seq<u8>) -> u32;

/// Relies on crc::crc32::checksum_ieee: the IEEE CRC-32 of the bytes, a
/// function of the bytes alone.
#[verifier::external_body]
fn crc32_ieee(bytes: &[u8]) -> (r: u32)
    ensures
        r == crc32_of(bytes@),
{
    crc::crc32::checksum_ieee(bytes)
}

/// What a sequence of UTF-16 code units decodes to: its characters where
/// the units are well-formed UTF-16, nothing where they are not.
pub uninterp spec fn utf16_decode(units: Seq<u16>) -> Option<Seq<char>>;

/// Relies on String::from_utf16: it succeeds exactly on well-formed UTF-16,
/// and its result depends on the code units alone.
#[verifier::external_body]
fn utf16_to_string(units: &Vec<u16>) -> (r: Option<String>)
    ensures
        r is Some <==> utf16_decode(units@) is Some,
        r matches Some(s) ==> utf16_decode(units@) == Some(s@),
{
    match String::from_utf16(units) {
        Ok(s) => Some(s),
        Err(_) => None,
    }
}

/// Stored header size: u32 at offset 0x0C.
pub open spec fn header_size(s: Seq<u8>) -> u32 {
    u32_at(s, 0x0c)
}

/// Stored header checksum: u32 at offset 0x10.
pub open spec fn header_crc(s: Seq<u8>) -> u32 {
    u32_at(s, 0x10)
}

/// First usable LBA: u64 at offset 0x28.
pub open spec fn first_usable_lba(s: Seq<u8>) -> u64 {
    u64_at(s, 0x28)
}

/// Last usable LBA: u64 at offset 0x30.
pub open spec fn last_usable_lba(s: Seq<u8>) -> u64 {
    u64_at(s, 0x30)
}

/// Number of entry-table slots: u32 at offset 0x50.
pub open spec fn entry_count(s: Seq<u8>) -> u32 {
    u32_at(s, 0x50)
}

/// Size in bytes of one entry-table slot: u32 at offset 0x54.
pub open spec fn entry_size(s: Seq<u8>) -> u32 {
    u32_at(s, 0x54)
}

/// The input of the header checksum: the first `header_size` bytes of the
/// header block with the four stored-checksum bytes zeroed.
pub open spec fn crc_input(s: Seq<u8>) -> Seq<u8> {
    s.take(header_size(s) as int).update(0x10, 0u8).update(0x11, 0u8).update(0x12, 0u8).update(
        0x13,
        0u8,
    )
}

/// The header starts with the ASCII signature "EFI PART".
pub open spec fn efi_signature_ok(s: Seq<u8>) -> bool {
    &&& s[0] == 0x45
    &&& s[1] == 0x46
    &&& s[2] == 0x49
    &&& s[3] == 0x20
    &&& s[4] == 0x50
    &&& s[5] == 0x41
    &&& s[6] == 0x52
    &&& s[7] == 0x54
}

/// Only revision 1.0 is supported: byte pattern 0, 0, 1, 0 at offset 0x08.
pub open spec fn revision_ok(s: Seq<u8>) -> bool {
    &&& s[8] == 0
    &&& s[9] == 0
    &&& s[10] == 1
    &&& s[11] == 0
}

/// The ordered validation gates of the GPT header over the header block `s`.
/// Gate `k` holds when the `k`-th check passes; the decoder reports the
/// first gate that fails.
pub open spec fn header_gate(s: Seq<u8>, sector_size: u64, k: int) -> bool {
    if k == 0 {
        efi_signature_ok(s)
    } else if k == 1 {
        revision_ok(s)
    } else if k == 2 {
        header_size(s) >= 92
    } else if k == 3 {
        header_size(s) <= s.len()
    } else if k == 4 {
        header_crc(s) == crc32_of(crc_input(s))
    } else if k == 5 {
        u32_at(s, 0x14) == 0
    } else if k == 6 {
        u64_at(s, 0x18) == 1
    } else if k == 7 {
        first_usable_lba(s) <= last_usable_lba(s)
    } else if k == 8 {
        u64_at(s, 0x48) == 2
    } else if k == 9 {
        entry_size(s) >= 128
    } else if k == 10 {
        first_usable_lba(s) >= 2 + (entry_size(s) * entry_count(s)) / (sector_size as int)
    } else if k == 11 {
        spec_all_zero(s.subrange(header_size(s) as int, s.len() as int))
    } else {
        true
    }
}

/// Every gate before `k` passes.
pub open spec fn header_gates_before(s: Seq<u8>, sector_size: u64, k: int) -> bool {
    forall|j: int| 0 <= j < k ==> header_gate(s, sector_size, j)
}

/// A header block that passes all twelve gates.
pub open spec fn header_ok(s: Seq<u8>, sector_size: u64) -> bool {
    header_gates_before(s, sector_size, 12)
}

/// The decode fails exactly at gate `k`: every earlier gate passes, gate
/// `k` does not.
pub open spec fn header_fails_at(s: Seq<u8>, sector_size: u64, k: int) -> bool {
    header_gates_before(s, sector_size, k) && !header_gate(s, sector_size, k)
}

/// The fields of a validated GPT header that decoding the entry table needs.
#[derive(Debug, Clone, Copy, PartialEq, Eq, Structural)]
pub struct GptHeader {
    pub header_size: u32,
    pub first_usable_lba: u64,
    pub last_usable_lba: u64,
    pub entry_count: u32,
    pub entry_size: u32,
}

impl GptHeader {
    /// The bounds every decoded header guarantees and the entry decode
    /// relies on.
    pub open spec fn wf(&self) -> bool {
        &&& self.entry_size >= 128
        &&& 2 <= self.first_usable_lba
        &&& self.first_usable_lba <= self.last_usable_lba
    }
}

/// Decode and validate the GPT header from the one-sector block that
/// follows the boot sector.
///
/// Succeeds exactly when every gate passes, and then returns the header
/// fields as stored. Otherwise it fails with the error of the first gate
/// that does not pass, in gate order.
pub fn decode_header(lba1: &[u8], sector_size: u64) -> (r: Result<GptHeader, PartitionError>)
    requires
        lba1@.len() == sector_size,
        sector_size >= 92,
    ensures
        match r {
            Ok(h) => {
                &&& header_ok(lba1@, sector_size)
                &&& h.wf()
                &&& h.header_size == header_size(lba1@)
                &&& h.first_usable_lba == first_usable_lba(lba1@)
                &&& h.last_usable_lba == last_usable_lba(lba1@)
                &&& h.entry_count == entry_count(lba1@)
                &&& h.entry_size == entry_size(lba1@)
            },
            Err(e) => match e {
                PartitionError::BadEfiSignature => header_fails_at(lba1@, sector_size, 0),
                PartitionError::UnsupportedRevision => header_fails_at(lba1@, sector_size, 1),
                PartitionError::HeaderTooShort => header_fails_at(lba1@, sector_size, 2),
                PartitionError::HeaderOversized => header_fails_at(lba1@, sector_size, 3),
                PartitionError::ChecksumMismatch => header_fails_at(lba1@, sector_size, 4),
                PartitionError::ReservedNotZero => header_fails_at(lba1@, sector_size, 5),
                PartitionError::BadCurrentLba => header_fails_at(lba1@, sector_size, 6),
                PartitionError::UsableRangeInverted => header_fails_at(lba1@, sector_size, 7),
                PartitionError::BadEntriesLba => header_fails_at(lba1@, sector_size, 8),
                PartitionError::EntrySizeTooSmall => header_fails_at(lba1@, sector_size, 9),
                PartitionError::FirstUsableTooLow => header_fails_at(lba1@, sector_size, 10),
                PartitionError::HeaderTailNotZero => header_fails_at(lba1@, sector_size, 11),
                _ => false,
            },
        },
{
    if !(*slice_index_get(lba1, 0) == 0x45 && *slice_index_get(lba1, 1) == 0x46
        && *slice_index_get(lba1, 2) == 0x49 && *slice_index_get(lba1, 3) == 0x20
        && *slice_index_get(lba1, 4) == 0x50 && *slice_index_get(lba1, 5) == 0x41
        && *slice_index_get(lba1, 6) == 0x52 && *slice_index_get(lba1, 7) == 0x54) {
        return Err(PartitionError::BadEfiSignature);
    }
    if !(*slice_index_get(lba1, 8) == 0 && *slice_index_get(lba1, 9) == 0 && *slice_index_get(
        lba1,
        10,
    ) == 1 && *slice_index_get(lba1, 11) == 0) {
        return Err(PartitionError::UnsupportedRevision);
    }
    let stored_header_size = u32_from_le_bytes(slice_subrange(lba1, 0x0c, 0x10));
    if stored_header_size < 92 {
        return Err(PartitionError::HeaderTooShort);
    }
    if stored_header_size as u64 > sector_size {
        return Err(PartitionError::HeaderOversized);
    }
    let stored_crc = u32_from_le_bytes(slice_subrange(lba1, 0x10, 0x14));
    let hs = stored_header_size as usize;
    let mut zeroed: Vec<u8> = Vec::new();
    let mut i: usize = 0;
    while i < hs
        invariant
            i <= hs,
            hs <= lba1@.len(),
            hs >= 92,
            zeroed@.len() == i,
            forall|j: int|
                0 <= j < i ==> zeroed@[j] == (if 0x10 <= j < 0x14 {
                    0u8
                } else {
                    lba1@[j]
                }),
        decreases hs - i,
    {
        if 0x10 <= i && i < 0x14 {
            zeroed.push(0);
        } else {
            zeroed.push(*slice_index_get(lba1, i));
        }
        i = i + 1;
    }
    proof {
        assert(zeroed@ =~= crc_input(lba1@));
    }
    let computed_crc = crc32_ieee(zeroed.as_slice());
    if stored_crc != computed_crc {
        return Err(PartitionError::ChecksumMismatch);
    }
    if u32_from_le_bytes(slice_subrange(lba1, 0x14, 0x18)) != 0 {
        return Err(PartitionError::ReservedNotZero);
    }
    if u64_from_le_bytes(slice_subrange(lba1, 0x18, 0x20)) != 1 {
        return Err(PartitionError::BadCurrentLba);
    }
    let first_usable = u64_from_le_bytes(slice_subrange(lba1, 0x28, 0x30));
    let last_usable = u64_from_le_bytes(slice_subrange(lba1, 0x30, 0x38));
    if first_usable > last_usable {
        return Err(PartitionError::UsableRangeInverted);
    }
    if u64_from_le_bytes(slice_subrange(lba1, 0x48, 0x50)) != 2 {
        return Err(PartitionError::BadEntriesLba);
    }
    let stored_entry_count = u32_from_le_bytes(slice_subrange(lba1, 0x50, 0x54));
    let stored_entry_size = u32_from_le_bytes(slice_subrange(lba1, 0x54, 0x58));
    if stored_entry_size < 128 {
        return Err(PartitionError::EntrySizeTooSmall);
    }
    proof {
        assert((stored_entry_size as int) * (stored_entry_count as int) <= 0xffff_ffff_ffff_fffd)
            by (nonlinear_arith)
            requires
                stored_entry_size <= 0xffff_ffffu32,
                stored_entry_count <= 0xffff_ffffu32,
        ;
    }
    let table_bytes: u64 = (stored_entry_size as u64) * (stored_entry_count as u64);
    let needed_sectors: u64 = table_bytes / sector_size;
    if first_usable < 2 + needed_sectors {
        return Err(PartitionError::FirstUsableTooLow);
    }
    if !all_zero(slice_subrange(lba1, hs, lba1.len())) {
        return Err(PartitionError::HeaderTailNotZero);
    }
    Ok(
        GptHeader {
            header_size: stored_header_size,
            first_usable_lba: first_usable,
            last_usable_lba: last_usable,
            entry_count: stored_entry_count,
            entry_size: stored_entry_size,
        },
    )
}

/// The 16 type-GUID bytes of entry `i` in a table of `esz`-byte entries.
pub open spec fn entry_type_uuid(t: Seq<u8>, esz: int, i: int) -> Seq<u8> {
    t.subrange(i * esz, i * esz + 0x10)
}

/// An entry whose type GUID is all zero is an unused slot.
pub open spec fn entry_unused(t: Seq<u8>, esz: int, i: int) -> bool {
    spec_all_zero(entry_type_uuid(t, esz, i))
}

/// The 16 partition-GUID bytes of entry `i`.
pub open spec fn entry_partition_uuid(t: Seq<u8>, esz: int, i: int) -> Seq<u8> {
    t.subrange(i * esz + 0x10, i * esz + 0x20)
}

/// First LBA of entry `i`: u64 little-endian at entry offset 0x20.
pub open spec fn entry_first_lba(t: Seq<u8>, esz: int, i: int) -> u64 {
    u64_at(t, i * esz + 0x20)
}

/// Last LBA of entry `i`: u64 little-endian at entry offset 0x28.
pub open spec fn entry_last_lba(t: Seq<u8>, esz: int, i: int) -> u64 {
    u64_at(t, i * esz + 0x28)
}

/// The 8 attribute bytes of entry `i`, kept verbatim.
pub open spec fn entry_attributes(t: Seq<u8>, esz: int, i: int) -> Seq<u8> {
    t.subrange(i * esz + 0x30, i * esz + 0x38)
}

/// The sector range of entry `i` must be ordered and lie inside the usable
/// area the header declares.
pub open spec fn entry_range_ok(
    t: Seq<u8>,
    esz: int,
    i: int,
    first_usable: u64,
    last_usable: u64,
) -> bool {
    &&& entry_first_lba(t, esz, i) <= entry_last_lba(t, esz, i)
    &&& entry_first_lba(t, esz, i) >= first_usable
    &&& entry_last_lba(t, esz, i) <= last_usable
}

/// The 36 UTF-16 code units of entry `i`'s name field, at entry offsets
/// 0x38 through 0x7F.
pub open spec fn entry_name_units(t: Seq<u8>, esz: int, i: int) -> Seq<u16> {
    Seq::new(36, |j: int| u16_at(t, i * esz + 0x38 + 2 * j))
}

/// How many code units stand before the first zero unit: the part of the
/// name field that is decoded.
pub open spec fn name_prefix_len(units: Seq<u16>) -> int
    decreases units.len(),
{
    if units.len() == 0 {
        0
    } else if units[0] == 0 {
        0
    } else {
        1 + name_prefix_len(units.subrange(1, units.len() as int))
    }
}

/// The code units before the first zero unit.
pub open spec fn name_units_prefix(units: Seq<u16>) -> Seq<u16> {
    units.take(name_prefix_len(units))
}

/// A position that carries zero after nothing but non-zero units is exactly
/// the length of the prefix before the first zero unit.
proof fn lemma_name_prefix_len(units: Seq<u16>, n: int)
    requires
        0 <= n <= units.len(),
        forall|k: int| 0 <= k < n ==> units[k] != 0,
        n == units.len() || units[n] == 0,
    ensures
        name_prefix_len(units) == n,
    decreases units.len(),
{
    if units.len() == 0 {
    } else if units[0] == 0 {
        assert(n == 0);
    } else {
        assert(n >= 1);
        let rest = units.subrange(1, units.len() as int);
        lemma_name_prefix_len(rest, n - 1);
    }
}

/// The name of entry `i`, where its truncated unit sequence decodes.
pub open spec fn entry_name(t: Seq<u8>, esz: int, i: int) -> Option<Seq<char>> {
    utf16_decode(name_units_prefix(entry_name_units(t, esz, i)))
}

/// The partition record a used entry `i` decodes to.
pub open spec fn entry_partition(t: Seq<u8>, esz: int, i: int) -> PartitionView {
    PartitionView {
        id: i + 1,
        start_sector: entry_first_lba(t, esz, i),
        number_of_sector: (entry_last_lba(t, esz, i) - entry_first_lba(t, esz, i) + 1) as u64,
        meta: MetaView::Gpt(
            GptView {
                type_uuid: entry_type_uuid(t, esz, i),
                partition_uuid: entry_partition_uuid(t, esz, i),
                attributes: entry_attributes(t, esz, i),
                name: entry_name(t, esz, i).unwrap(),
            },
        ),
    }
}

/// Entry `i` passes the decode: it is an unused slot, or it lies in range
/// and its name decodes.
pub open spec fn entry_ok(t: Seq<u8>, esz: int, i: int, first_usable: u64, last_usable: u64) -> bool {
    ||| entry_unused(t, esz, i)
    ||| (entry_range_ok(t, esz, i, first_usable, last_usable) && entry_name(t, esz, i) is Some)
}

/// The records of the first `n` entries, in entry order, unused slots
/// skipped without shifting later ids.
pub open spec fn gpt_views_upto(t: Seq<u8>, esz: int, n: int) -> Seq<PartitionView>
    decreases n,
{
    if n <= 0 {
        Seq::empty()
    } else if entry_unused(t, esz, n - 1) {
        gpt_views_upto(t, esz, n - 1)
    } else {
        gpt_views_upto(t, esz, n - 1).push(entry_partition(t, esz, n - 1))
    }
}

/// Law: in a decoded entry table, an unused slot (all-zero type GUID)
/// yields no record at all, and every used slot yields exactly the record
/// its bytes hold, with `id` equal to the entry index plus one — so skipped
/// slots never shift the numbering of later slots, and records keep entry
/// order.
pub proof fn lemma_gpt_entry_correspondence(t: Seq<u8>, esz: int, n: int)
    requires
        0 <= n,
    ensures
        gpt_views_upto(t, esz, n).len() <= n,
        forall|k: int|
            0 <= k < gpt_views_upto(t, esz, n).len() ==> {
                let p = #[trigger] gpt_views_upto(t, esz, n)[k];
                &&& 1 <= p.id <= n
                &&& !entry_unused(t, esz, p.id - 1)
                &&& p == entry_partition(t, esz, p.id - 1)
            },
        forall|k1: int, k2: int|
            0 <= k1 < k2 < gpt_views_upto(t, esz, n).len() ==> #[trigger] gpt_views_upto(
                t,
                esz,
                n,
            )[k1].id < #[trigger] gpt_views_upto(t, esz, n)[k2].id,
        forall|i: int|
            0 <= i < n && !#[trigger] entry_unused(t, esz, i) ==> exists|k: int|
                0 <= k < gpt_views_upto(t, esz, n).len() && #[trigger] gpt_views_upto(
                    t,
                    esz,
                    n,
                )[k].id == i + 1,
    decreases n,
{
    if n > 0 {
        lemma_gpt_entry_correspondence(t, esz, n - 1);
        let prev = gpt_views_upto(t, esz, n - 1);
        let cur = gpt_views_upto(t, esz, n);
        if !entry_unused(t, esz, n - 1) {
            assert(cur == prev.push(entry_partition(t, esz, n - 1)));
            assert(cur[cur.len() - 1] == entry_partition(t, esz, n - 1));
            assert(forall|k: int| 0 <= k < prev.len() ==> cur[k] == prev[k]);
            assert forall|i: int| 0 <= i < n && !#[trigger] entry_unused(t, esz, i) implies exists|
                k: int,
            | 0 <= k < cur.len() && #[trigger] cur[k].id == i + 1 by {
                if i == n - 1 {
                    assert(cur[cur.len() - 1].id == i + 1);
                } else {
                    let k = choose|k: int| 0 <= k < prev.len() && #[trigger] prev[k].id == i + 1;
                    assert(cur[k].id == i + 1);
                }
            }
        } else {
            assert(cur == prev);
        }
    }
}

/// Law: when every entry of the table passes the decode, each emitted
/// record occupies at least one sector, starts no earlier than the first
/// usable LBA, and ends no later than the last usable LBA.
pub proof fn lemma_gpt_ranges_in_usable(
    t: Seq<u8>,
    esz: int,
    n: int,
    first_usable: u64,
    last_usable: u64,
)
    requires
        0 <= n,
        first_usable >= 1,
        forall|i: int| 0 <= i < n ==> entry_ok(t, esz, i, first_usable, last_usable),
    ensures
        forall|k: int|
            0 <= k < gpt_views_upto(t, esz, n).len() ==> {
                let p = #[trigger] gpt_views_upto(t, esz, n)[k];
                &&& p.number_of_sector >= 1
                &&& first_usable <= p.start_sector
                &&& p.start_sector + p.number_of_sector - 1 <= last_usable
            },
    decreases n,
{
    if n > 0 {
        lemma_gpt_ranges_in_usable(t, esz, n - 1, first_usable, last_usable);
        if !entry_unused(t, esz, n - 1) {
            assert(entry_ok(t, esz, n - 1, first_usable, last_usable));
            assert(entry_range_ok(t, esz, n - 1, first_usable, last_usable));
        }
    }
}

/// Decode the GPT entry table against a validated header.
///
/// Succeeds exactly when every entry is an unused slot or lies in the
/// usable area with a decodable name, and then returns one record per used
/// slot, in entry order, with `id` equal to the entry index plus one. On
/// the first entry out of range, or with an undecodable name, the whole
/// decode fails, naming that entry.
pub fn decode_entries(table: &[u8], header: &GptHeader) -> (r: Result<Vec<Partition>, PartitionError>)
    requires
        header.wf(),
        table@.len() == header.entry_size * header.entry_count,
    ensures
        match r {
            Ok(parts) => {
                &&& forall|i: int|
                    0 <= i < header.entry_count ==> entry_ok(
                        table@,
                        header.entry_size as int,
                        i,
                        header.first_usable_lba,
                        header.last_usable_lba,
                    )
                &&& parts@.map_values(|p: Partition| p@) == gpt_views_upto(
                    table@,
                    header.entry_size as int,
                    header.entry_count as int,
                )
            },
            Err(e) => match e {
                PartitionError::EntryOutOfRange { index } => {
                    &&& 0 <= (index as int) < header.entry_count
                    &&& !entry_unused(table@, header.entry_size as int, index as int)
                    &&& !entry_range_ok(
                        table@,
                        header.entry_size as int,
                        index as int,
                        header.first_usable_lba,
                        header.last_usable_lba,
                    )
                    &&& forall|j: int|
                        0 <= j < index as int ==> entry_ok(
                            table@,
                            header.entry_size as int,
                            j,
                            header.first_usable_lba,
                            header.last_usable_lba,
                        )
                },
                PartitionError::InvalidName { index } => {
                    &&& 0 <= (index as int) < header.entry_count
                    &&& !entry_unused(table@, header.entry_size as int, index as int)
                    &&& entry_range_ok(
                        table@,
                        header.entry_size as int,
                        index as int,
                        header.first_usable_lba,
                        header.last_usable_lba,
                    )
                    &&& entry_name(table@, header.entry_size as int, index as int) is None
                    &&& forall|j: int|
                        0 <= j < index as int ==> entry_ok(
                            table@,
                            header.entry_size as int,
                            j,
                            header.first_usable_lba,
                            header.last_usable_lba,
                        )
                },
                _ => false,
            },
        },
{
    let esz: usize = header.entry_size as usize;
    let cnt: usize = header.entry_count as usize;
    let tlen: usize = table.len();
    let mut parts: Vec<Partition> = Vec::new();
    let mut idx: usize = 0;
    while idx < cnt
        invariant
            header.wf(),
            table@.len() == (esz as int) * (cnt as int),
            tlen == table@.len(),
            esz == header.entry_size,
            cnt == header.entry_count,
            idx <= cnt,
            forall|j: int|
                0 <= j < idx as int ==> entry_ok(
                    table@,
                    esz as int,
                    j,
                    header.first_usable_lba,
                    header.last_usable_lba,
                ),
            parts@.map_values(|p: Partition| p@) == gpt_views_upto(table@, esz as int, idx as int),
        decreases cnt - idx,
    {
        proof {
            assert((idx as int) * (esz as int) + esz as int <= table@.len())
                by (nonlinear_arith)
                requires
                    idx < cnt,
                    esz >= 0,
                    table@.len() == (esz as int) * (cnt as int),
            ;
        }
        let base: usize = idx * esz;
        let type_uuid_slice = slice_subrange(table, base, base + 0x10);
        if all_zero(type_uuid_slice) {
            proof {
                assert(gpt_views_upto(table@, esz as int, idx as int + 1) == gpt_views_upto(
                    table@,
                    esz as int,
                    idx as int,
                ));
            }
        } else {
            let first_lba = u64_from_le_bytes(slice_subrange(table, base + 0x20, base + 0x28));
            let last_lba = u64_from_le_bytes(slice_subrange(table, base + 0x28, base + 0x30));
            if first_lba > last_lba || first_lba < header.first_usable_lba || last_lba
                > header.last_usable_lba {
                return Err(PartitionError::EntryOutOfRange { index: idx });
            }
            let ghost full_units = entry_name_units(table@, esz as int, idx as int);
            let mut units: Vec<u16> = Vec::new();
            let mut j: usize = 0;
            let mut saw_zero = false;
            while j < 36 && !saw_zero
                invariant
                    j <= 36,
                    esz == header.entry_size,
                    esz >= 128,
                    idx < cnt,
                    tlen == table@.len(),
                    (idx as int) * (esz as int) + esz as int <= table@.len(),
                    base == (idx as int) * (esz as int),
                    full_units == entry_name_units(table@, esz as int, idx as int),
                    !saw_zero ==> units@ == full_units.take(j as int),
                    !saw_zero ==> forall|k: int| 0 <= k < j as int ==> full_units[k] != 0,
                    saw_zero ==> {
                        &&& units@ == name_units_prefix(full_units)
                        &&& name_prefix_len(full_units) < j as int <= 36
                    },
                decreases 36 - j,
            {
                let unit = u16_from_le_bytes(
                    slice_subrange(table, base + 0x38 + 2 * j, base + 0x38 + 2 * j + 2),
                );
                proof {
                    assert(table@.subrange(
                        base as int + 0x38 + 2 * (j as int),
                        base as int + 0x38 + 2 * (j as int) + 2,
                    ) =~= table@.subrange(base as int, base as int + esz as int).subrange(
                        0x38 + 2 * (j as int),
                        0x38 + 2 * (j as int) + 2,
                    ));
                    assert(full_units[j as int] == u16_at(
                        table@,
                        (idx as int) * (esz as int) + 0x38 + 2 * (j as int),
                    ));
                }
                if unit == 0 {
                    proof {
                        lemma_name_prefix_len(full_units, j as int);
                        assert(units@ =~= full_units.take(name_prefix_len(full_units)));
                    }
                    saw_zero = true;
                } else {
                    units.push(unit);
                    proof {
                        assert(units@ =~= full_units.take(j as int + 1));
                    }
                }
                j = j + 1;
            }
            proof {
                if !saw_zero {
                    lemma_name_prefix_len(full_units, 36);
                    assert(units@ =~= full_units.take(name_prefix_len(full_units)));
                }
                assert(units@ == name_units_prefix(full_units));
            }
            let name = match utf16_to_string(&units) {
                Some(name) => name,
                _ => {
                    return Err(PartitionError::InvalidName { index: idx });
                },
            };
            let gpt = GPT {
                type_uuid: slice_to_vec(type_uuid_slice),
                partition_uuid: slice_to_vec(slice_subrange(table, base + 0x10, base + 0x20)),
                attributes: slice_to_vec(slice_subrange(table, base + 0x30, base + 0x38)),
                name,
            };
            let part = Partition {
                id: idx + 1,
                start_sector: first_lba,
                number_of_sector: last_lba - first_lba + 1,
                meta: SchemeMeta::Gpt(gpt),
            };
            proof {
                assert(part@ =~~= entry_partition(table@, esz as int, idx as int));
            }
            let ghost before = parts@.map_values(|p: Partition| p@);
            parts.push(part);
            proof {
                assert(parts@.map_values(|p: Partition| p@) =~= before.push(
                    entry_partition(table@, esz as int, idx as int),
                ));
            }
        }
        idx = idx + 1;
    }
    Ok(parts)
}

} // verus!
