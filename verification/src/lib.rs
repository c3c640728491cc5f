//! Decoding of disk partition tables: the legacy DOS/MBR boot-sector table
//! and the GUID Partition Table (GPT), together with the policy that selects
//! between the two schemes (a protective MBR entry signals a GPT disk).
//!
//! The decoders work on plain byte buffers; reading those buffers from a
//! storage volume is the caller's business.

use vstd::prelude::*;

pub mod error;
pub mod gpt;
pub mod mbr;

use error::PartitionError;

verus! {

/// Metadata carried by an MBR table entry.
#[derive(Debug, Clone, Copy, PartialEq, Eq, Structural)]
pub struct MBR {
    /// Derived from the slot's status byte: 0x00 is not bootable, 0x80 is.
    pub bootable: bool,
    /// The MBR partition-type identifier; 0x00 marks an unused slot.
    pub type_code: u8,
}

/// Metadata carried by a GPT table entry.
#[derive(Debug)]
pub struct GPT {
    /// Partition-type GUID, 16 raw bytes; all-zero marks an unused slot.
    pub type_uuid: Vec<u8>,
    /// Unique partition identifier, 16 raw bytes.
    pub partition_uuid: Vec<u8>,
    /// Attribute bitfield, 8 raw bytes, kept verbatim.
    pub attributes: Vec<u8>,
    /// Partition name, decoded from 36 little-endian UTF-16 code units and
    /// truncated at the first zero code unit.
    pub name: String,
}

/// Scheme-specific metadata of a partition: exactly one of the two schemes
/// is ever present, which this sum type states by construction.
#[derive(Debug)]
pub enum SchemeMeta {
    Mbr(MBR),
    Gpt(GPT),
}

/// One entry of a partition table.
#[derive(Debug)]
pub struct Partition {
    /// 1-based position of the entry within its source table slot; slots
    /// skipped as unused do not shift the ids of later slots.
    pub id: usize,
    /// First sector (LBA) occupied by the partition.
    pub start_sector: u64,
    /// Number of contiguous sectors occupied.
    pub number_of_sector: u64,
    /// Which scheme the entry came from, and that scheme's metadata.
    pub meta: SchemeMeta,
}

/// An ordered partition table; the order is the table's slot order.
#[derive(Debug)]
pub struct Partitions {
    pub part: Vec<Partition>,
}

/// Mathematical value of a `GPT`.
#[verifier::ext_equal]
pub ghost struct GptView {
    pub type_uuid: Seq<u8>,
    pub partition_uuid: Seq<u8>,
    pub attributes: Seq<u8>,
    pub name: Seq<char>,
}

/// Mathematical value of a `SchemeMeta`.
#[verifier::ext_equal]
pub ghost enum MetaView {
    Mbr(MBR),
    Gpt(GptView),
}

/// Mathematical value of a `Partition`.
#[verifier::ext_equal]
pub ghost struct PartitionView {
    pub id: int,
    pub start_sector: u64,
    pub number_of_sector: u64,
    pub meta: MetaView,
}

impl View for GPT {
    type V = GptView;

    open spec fn view(&self) -> GptView {
        GptView {
            type_uuid: self.type_uuid@,
            partition_uuid: self.partition_uuid@,
            attributes: self.attributes@,
            name: self.name@,
        }
    }
}

impl View for SchemeMeta {
    type V = MetaView;

    open spec fn view(&self) -> MetaView {
        match self {
            SchemeMeta::Mbr(m) => MetaView::Mbr(*m),
            SchemeMeta::Gpt(g) => MetaView::Gpt(g@),
        }
    }
}

impl View for Partition {
    type V = PartitionView;

    open spec fn view(&self) -> PartitionView {
        PartitionView {
            id: self.id as int,
            start_sector: self.start_sector,
            number_of_sector: self.number_of_sector,
            meta: self.meta@,
        }
    }
}

/// The protective-MBR predicate: an entry a GPT disk leaves in its legacy
/// boot-sector table so old tools see one reserved partition. It must be a
/// non-bootable MBR entry of type 0xEE, in the first slot, starting no later
/// than sector 16384.
pub open spec fn spec_is_protective(p: PartitionView) -> bool {
    &&& p.meta matches MetaView::Mbr(m)
    &&& !m.bootable
    &&& m.type_code == 0xEE
    &&& p.id == 1
    &&& p.start_sector <= 16384
}

/// The boot sector must end in the two signature bytes 0x55, 0xAA.
pub open spec fn boot_signature_ok(s: Seq<u8>) -> bool {
    s[510] == 0x55 && s[511] == 0xAA
}

impl Partitions {
    /// Decode the 512-byte boot sector: check the 0x55AA signature, then
    /// read the MBR table.
    ///
    /// Succeeds exactly when the signature is present and every MBR slot
    /// carries a valid status byte; the table is then the MBR table in slot
    /// order. If the returned table has exactly one entry and that entry is
    /// protective (see `Partition::is_gpt`), the disk carries a GPT, which
    /// `gpt::decode_header` and `gpt::decode_entries` read instead.
    pub fn from_boot_sector(sector: &[u8]) -> (r: Result<Partitions, PartitionError>)
        requires
            sector@.len() == 512,
        ensures
            match r {
                Ok(p) => {
                    &&& boot_signature_ok(sector@)
                    &&& forall|i: int| 0 <= i < 4 ==> mbr::slot_status_ok(sector@, i)
                    &&& p.part@.map_values(|q: Partition| q@) == mbr::mbr_views(sector@)
                },
                Err(e) => match e {
                    PartitionError::SignatureNotFound => !boot_signature_ok(sector@),
                    PartitionError::InvalidStatus { slot, status } => {
                        &&& boot_signature_ok(sector@)
                        &&& 0 <= (slot as int) < 4
                        &&& !mbr::slot_status_ok(sector@, slot as int)
                        &&& forall|j: int| 0 <= j < slot as int ==> mbr::slot_status_ok(sector@, j)
                        &&& status == mbr::slot_status(sector@, slot as int)
                    },
                    _ => false,
                },
            },
    {
        if *vstd::slice::slice_index_get(sector, 510) != 0x55 || *vstd::slice::slice_index_get(
            sector,
            511,
        ) != 0xAA {
            return Err(PartitionError::SignatureNotFound);
        }
        match mbr::mbr_partition_table(sector) {
            Ok(part) => Ok(Partitions { part }),
            Err(e) => Err(e),
        }
    }

    /// Whether this table is the single protective entry a GPT disk leaves
    /// in its legacy MBR table, so that the GPT should be decoded instead.
    pub fn has_protective_mbr(&self) -> (r: bool)
        ensures
            r == (self.part@.len() == 1 && spec_is_protective(self.part@[0]@)),
    {
        self.part.len() == 1 && self.part[0].is_gpt()
    }
}

impl Partition {
    /// Whether this entry is the placeholder a GPT disk leaves in its legacy
    /// MBR table, so that the caller should decode the GPT instead.
    pub fn is_gpt(&self) -> (r: bool)
        ensures
            r == spec_is_protective(self@),
    {
        match &self.meta {
            SchemeMeta::Mbr(m) => {
                if !m.bootable && m.type_code == 0xee {
                    self.id == 1 && self.start_sector <= 16384
                } else {
                    false
                }
            },
            SchemeMeta::Gpt(_) => false,
        }
    }

    /// The byte range the partition occupies on a volume of 512-byte
    /// sectors, for carving a sub-range view of the source: from
    /// `start_sector * 512` up to `(start_sector + number_of_sector) * 512`,
    /// exclusive; nothing when the upper bound does not fit in a u64.
    pub fn byte_range(&self) -> (r: Option<(u64, u64)>)
        ensures
            match r {
                Some(range) => {
                    &&& self.start_sector * 512 + self.number_of_sector * 512 <= u64::MAX
                    &&& range.0 == self.start_sector * 512
                    &&& range.1 == self.start_sector * 512 + self.number_of_sector * 512
                },
                None => self.start_sector * 512 + self.number_of_sector * 512 > u64::MAX,
            },
    {
        let start_bytes = match self.start_sector.checked_mul(512) {
            Some(v) => v,
            _ => {
                return None;
            },
        };
        let len_bytes = match self.number_of_sector.checked_mul(512) {
            Some(v) => v,
            _ => {
                return None;
            },
        };
        let end_bytes = match start_bytes.checked_add(len_bytes) {
            Some(v) => v,
            _ => {
                return None;
            },
        };
        Some((start_bytes, end_bytes))
    }
}

} // verus!
