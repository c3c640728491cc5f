use partition::error::PartitionError;
use partition::mbr::mbr_partition_table;
use partition::Partition;
use partition::Partitions;
use partition::SchemeMeta;
use partition::MBR;

fn boot_sector() -> Vec<u8> {
    let mut s = vec![0u8; 512];
    s[510] = 0x55;
    s[511] = 0xAA;
    s
}

fn set_slot(s: &mut [u8], slot: usize, status: u8, type_code: u8, start: u32, count: u32) {
    let off = 446 + slot * 16;
    s[off] = status;
    s[off + 4] = type_code;
    s[off + 8..off + 12].copy_from_slice(&start.to_le_bytes());
    s[off + 12..off + 16].copy_from_slice(&count.to_le_bytes());
}

fn mbr_meta(p: &Partition) -> &MBR {
    match &p.meta {
        SchemeMeta::Mbr(m) => m,
        _ => panic!("expected MBR metadata"),
    }
}

fn protective_table(type_code: u8, start: u32) -> Partitions {
    let mut s = boot_sector();
    set_slot(&mut s, 0, 0x00, type_code, start, 100);
    Partitions::from_boot_sector(&s).unwrap()
}

#[test]
fn mbr_four_slots_decode() {
    let mut s = boot_sector();
    set_slot(&mut s, 0, 0x80, 0x07, 2048, 4096);
    set_slot(&mut s, 1, 0x00, 0x83, 8192, 1024);
    set_slot(&mut s, 2, 0x00, 0x0b, 100, 200);
    set_slot(&mut s, 3, 0x80, 0x05, 300, 400);
    let parts = mbr_partition_table(&s).unwrap();
    assert_eq!(parts.len(), 4);
    assert_eq!(parts[0].id, 1);
    assert_eq!(parts[0].start_sector, 2048);
    assert_eq!(parts[0].number_of_sector, 4096);
    assert!(mbr_meta(&parts[0]).bootable);
    assert_eq!(mbr_meta(&parts[0]).type_code, 0x07);
    assert_eq!(parts[1].id, 2);
    assert!(!mbr_meta(&parts[1]).bootable);
    assert_eq!(mbr_meta(&parts[1]).type_code, 0x83);
    assert_eq!(parts[2].id, 3);
    assert_eq!(parts[3].id, 4);
    assert!(mbr_meta(&parts[3]).bootable);
}

#[test]
fn mbr_unused_slots_keep_ids() {
    let mut s = boot_sector();
    set_slot(&mut s, 0, 0x00, 0x07, 10, 20);
    set_slot(&mut s, 2, 0x00, 0x83, 30, 40);
    let parts = mbr_partition_table(&s).unwrap();
    assert_eq!(parts.len(), 2);
    assert_eq!(parts[0].id, 1);
    assert_eq!(parts[1].id, 3);
    assert_eq!(parts[1].start_sector, 30);
}

#[test]
fn mbr_empty_table() {
    let s = boot_sector();
    let parts = mbr_partition_table(&s).unwrap();
    assert!(parts.is_empty());
}

#[test]
fn mbr_bad_status_fails() {
    let mut s = boot_sector();
    set_slot(&mut s, 0, 0x00, 0x07, 10, 20);
    set_slot(&mut s, 2, 0x01, 0x83, 30, 40);
    let err = mbr_partition_table(&s).unwrap_err();
    assert_eq!(err, PartitionError::InvalidStatus { slot: 2, status: 0x01 });
}

#[test]
fn mbr_bad_status_in_unused_slot_fails() {
    let mut s = boot_sector();
    set_slot(&mut s, 1, 0x7f, 0x00, 0, 0);
    let err = mbr_partition_table(&s).unwrap_err();
    assert_eq!(err, PartitionError::InvalidStatus { slot: 1, status: 0x7f });
}

#[test]
fn mbr_little_endian_values() {
    let mut s = boot_sector();
    set_slot(&mut s, 0, 0x00, 0x07, 0, 0);
    let off = 446;
    s[off + 8..off + 12].copy_from_slice(&[0x01, 0x02, 0x03, 0x04]);
    s[off + 12..off + 16].copy_from_slice(&[0xff, 0x00, 0x00, 0x00]);
    let parts = mbr_partition_table(&s).unwrap();
    assert_eq!(parts[0].start_sector, 0x0403_0201);
    assert_eq!(parts[0].number_of_sector, 0xff);
}

#[test]
fn boot_signature_missing() {
    let mut s = boot_sector();
    s[511] = 0xAB;
    let err = Partitions::from_boot_sector(&s).unwrap_err();
    assert_eq!(err, PartitionError::SignatureNotFound);
    assert_eq!(err.message(), "partition header not found");
}

#[test]
fn protective_mbr_recognized() {
    let table = protective_table(0xEE, 1);
    assert_eq!(table.part.len(), 1);
    assert!(table.part[0].is_gpt());
    assert!(table.has_protective_mbr());
}

#[test]
fn protective_mbr_type_ef_not() {
    let table = protective_table(0xEF, 1);
    assert!(!table.part[0].is_gpt());
    assert!(!table.has_protective_mbr());
}

#[test]
fn protective_mbr_start_sector_bound() {
    assert!(protective_table(0xEE, 16384).has_protective_mbr());
    assert!(!protective_table(0xEE, 16385).has_protective_mbr());
}

#[test]
fn protective_mbr_needs_single_entry() {
    let mut s = boot_sector();
    set_slot(&mut s, 0, 0x00, 0xEE, 1, 100);
    set_slot(&mut s, 1, 0x00, 0x83, 200, 100);
    let table = Partitions::from_boot_sector(&s).unwrap();
    assert_eq!(table.part.len(), 2);
    assert!(!table.has_protective_mbr());
}

#[test]
fn protective_mbr_bootable_not() {
    let mut s = boot_sector();
    set_slot(&mut s, 0, 0x80, 0xEE, 1, 100);
    let table = Partitions::from_boot_sector(&s).unwrap();
    assert!(!table.has_protective_mbr());
}

#[test]
fn byte_range_simple() {
    let mut s = boot_sector();
    set_slot(&mut s, 0, 0x00, 0x07, 2048, 4096);
    let parts = mbr_partition_table(&s).unwrap();
    let (start, end) = parts[0].byte_range().unwrap();
    assert_eq!(start, 2048 * 512);
    assert_eq!(end, (2048 + 4096) * 512);
}

#[test]
fn byte_range_overflow() {
    let p = Partition {
        id: 1,
        start_sector: u64::MAX / 512,
        number_of_sector: 2,
        meta: SchemeMeta::Mbr(MBR { bootable: false, type_code: 0x07 }),
    };
    assert!(p.byte_range().is_none());
}
