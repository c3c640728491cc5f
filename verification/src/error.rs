//! Failure reasons for a partition-table decode. Every check the decoders
//! perform has a variant of its own, carrying the entry index where one
//! applies, so a caller can tell exactly which gate refused the input.

use vstd::prelude::*;

verus! {

/// Why a decode failed. Each variant stands for one validation gate; the
/// decode stops at the first gate that fails and returns no partial result.
#[derive(Debug, Clone, Copy, PartialEq, Eq, Structural)]
pub enum PartitionError {
    /// The boot sector does not end in the 0x55 0xAA signature.
    SignatureNotFound,
    /// MBR slot `slot` carries a status byte other than 0x00 or 0x80.
    InvalidStatus { slot: usize, status: u8 },
    /// The GPT header does not start with the ASCII signature "EFI PART".
    BadEfiSignature,
    /// The GPT revision field is not 1.0 (byte pattern 0, 0, 1, 0).
    UnsupportedRevision,
    /// The stored GPT header size is below the 92 bytes a full header takes.
    HeaderTooShort,
    /// The stored GPT header size exceeds the header sector that holds it.
    HeaderOversized,
    /// The stored header CRC-32 differs from the one recomputed over the
    /// header bytes with the CRC field zeroed.
    ChecksumMismatch,
    /// The reserved 32-bit field after the header CRC is not zero.
    ReservedNotZero,
    /// The header's own LBA is not 1; only the primary header is supported.
    BadCurrentLba,
    /// The first usable LBA lies beyond the last usable LBA.
    UsableRangeInverted,
    /// The entry table does not start at LBA 2, as the primary header demands.
    BadEntriesLba,
    /// The stored entry size is below the 128 bytes an entry takes.
    EntrySizeTooSmall,
    /// The usable area would overlap the entry table.
    FirstUsableTooLow,
    /// The header sector holds non-zero bytes past the stored header size.
    HeaderTailNotZero,
    /// GPT entry `index` has an inverted sector range, or one that leaves
    /// the usable area.
    EntryOutOfRange { index: usize },
    /// The name of GPT entry `index` is not valid UTF-16.
    InvalidName { index: usize },
}

impl PartitionError {
    /// A short human-readable reason naming the check that failed.
    pub fn message(&self) -> &'static str {
        match self {
            PartitionError::SignatureNotFound => "partition header not found",
            PartitionError::InvalidStatus { .. } => "invalid status code in partition slot",
            PartitionError::BadEfiSignature => "bad EFI signature",
            PartitionError::UnsupportedRevision => "unsupported revision",
            PartitionError::HeaderTooShort => "header too short",
            PartitionError::HeaderOversized => "header size exceeds the header sector",
            PartitionError::ChecksumMismatch => "header checksum mismatch",
            PartitionError::ReservedNotZero => "unsupported data in reserved field",
            PartitionError::BadCurrentLba => "current lba must be 1 for the first header",
            PartitionError::UsableRangeInverted => "usable lbas are backwards",
            PartitionError::BadEntriesLba => "starting lba must be 2 for the first header",
            PartitionError::EntrySizeTooSmall => "entry size is implausibly small",
            PartitionError::FirstUsableTooLow => "first usable lba is too low",
            PartitionError::HeaderTailNotZero => "reserved header tail is not all empty",
            PartitionError::EntryOutOfRange { .. } => "partition entry is out of range",
            PartitionError::InvalidName { .. } => "partition has an invalid name",
        }
    }
}

} // verus!
