use partymix::mbr::decode_entry;
use partymix::{Kind, MasterBootRecord};

#[test]
fn entry() {
    // One slot of the serialized table occupies exactly 16 bytes: the second
    // slot's status byte sits 16 bytes after the first slot's.
    let mut mbr = MasterBootRecord::default();
    mbr.add(true, 0x83, 1).unwrap();
    mbr.add(true, 0x83, 1).unwrap();
    let bytes = mbr.serialize();
    assert_eq!(bytes[446], 0x80);
    assert_eq!(bytes[446 + 16], 0x80);
}

#[test]
fn mbr() {
    let kind: Kind = "linux".parse().unwrap();

    let mut mbr = MasterBootRecord::default();
    assert_eq!(mbr.serialize().len(), 512);

    let a = mbr.add(true, kind.get(), 1).unwrap();
    let b = mbr.add(false, kind.get(), 513).unwrap();
    let c = mbr.add(true, kind.get(), 1024).unwrap();
    let d = mbr.add(false, kind.get(), 1025).unwrap();
    assert!(mbr.add(true, kind.get(), 1024).is_none());

    assert_eq!(a, 512);
    assert_eq!(b, 1024);
    assert_eq!(c, 2048);
    assert_eq!(d, 3072);

    let e0 = mbr.entry(0).unwrap();
    assert!(e0.active);
    assert_eq!(e0.type_code, kind.get());
    assert_eq!(e0.first_lba, 1);
    assert_eq!(e0.sector_count, 1);

    let e1 = mbr.entry(1).unwrap();
    assert!(!e1.active);
    assert_eq!(e1.type_code, kind.get());
    assert_eq!(e1.first_lba, 2);
    assert_eq!(e1.sector_count, 2);

    let e2 = mbr.entry(2).unwrap();
    assert!(e2.active);
    assert_eq!(e2.type_code, kind.get());
    assert_eq!(e2.first_lba, 4);
    assert_eq!(e2.sector_count, 2);

    let e3 = mbr.entry(3).unwrap();
    assert!(!e3.active);
    assert_eq!(e3.type_code, kind.get());
    assert_eq!(e3.first_lba, 6);
    assert_eq!(e3.sector_count, 3);
}

#[test]
fn serialize_empty_table() {
    // 512 bytes, all zero but for the final signature.
    let mbr = MasterBootRecord::default();
    let bytes = mbr.serialize();
    assert_eq!(bytes.len(), 512);
    for k in 0..510 {
        assert_eq!(bytes[k], 0, "byte {} of an empty table", k);
    }
    assert_eq!(bytes[510], 0x55);
    assert_eq!(bytes[511], 0xAA);
}

#[test]
fn serialized_entry_layout() {
    // Byte-exact layout of one occupied slot: status, zeroed CHS, type,
    // zeroed CHS, then first_lba and sector_count little-endian.
    let mut mbr = MasterBootRecord::default();
    mbr.add(true, 0x07, 0x1_0000_0000).unwrap(); // 0x800000 sectors
    let bytes = mbr.serialize();
    assert_eq!(
        &bytes[446..462],
        &[0x80, 0, 0, 0, 0x07, 0, 0, 0, 1, 0, 0, 0, 0, 0, 0x80, 0]
    );
    // untouched boot code and the slots that stay empty
    for k in 0..446 {
        assert_eq!(bytes[k], 0);
    }
    for k in 462..510 {
        assert_eq!(bytes[k], 0);
    }
    assert_eq!(bytes[510], 0x55);
    assert_eq!(bytes[511], 0xAA);
}

#[test]
fn fifth_add_leaves_table_unchanged() {
    let mut mbr = MasterBootRecord::default();
    for _ in 0..4 {
        mbr.add(false, 0x0C, 4096).unwrap();
    }
    let before = mbr.serialize();
    assert!(mbr.add(true, 0x83, 1).is_none());
    let after = mbr.serialize();
    assert_eq!(before, after);
}

#[test]
fn sector_rounding() {
    // size 1 -> 1 sector; size 513 -> 2 sectors (ceiling division).
    let mut mbr = MasterBootRecord::default();
    mbr.add(false, 0x83, 1).unwrap();
    mbr.add(false, 0x83, 513).unwrap();
    mbr.add(false, 0x83, 512).unwrap();
    assert_eq!(mbr.entry(0).unwrap().sector_count, 1);
    assert_eq!(mbr.entry(1).unwrap().sector_count, 2);
    assert_eq!(mbr.entry(2).unwrap().sector_count, 1);
}

#[test]
fn oversized_request_is_rejected() {
    // More sectors than 32 bits can address: no placement, nothing recorded.
    let mut mbr = MasterBootRecord::default();
    assert!(mbr.add(false, 0x83, u64::MAX).is_none());
    assert!(mbr.entry(0).is_none());
    assert_eq!(mbr.len(), 0);
}

#[test]
fn sector_space_exhaustion() {
    // A partition may end exactly at the 32-bit sector boundary, but no
    // further partition can start beyond it.
    let mut mbr = MasterBootRecord::default();
    let max_sectors = u32::MAX as u64;
    let offset = mbr.add(false, 0x83, 512 * max_sectors).unwrap();
    assert_eq!(offset, 512);
    assert_eq!(mbr.entry(0).unwrap().sector_count, u32::MAX);
    assert!(mbr.add(false, 0x83, 1).is_none());
    assert_eq!(mbr.len(), 1);
}

#[test]
fn decode_round_trip() {
    // Reading the serialized bytes back reproduces every recorded entry.
    let mut mbr = MasterBootRecord::default();
    mbr.add(true, 0x01, 1).unwrap();
    mbr.add(false, 0x82, 123_456).unwrap();
    mbr.add(true, 0xEF, 7_000_000).unwrap();
    let bytes = mbr.serialize();
    for i in 0..3 {
        let want = mbr.entry(i).unwrap();
        let got = decode_entry(&bytes, i);
        assert_eq!(got, want);
    }
    // the empty slot reads back as unused
    let empty = decode_entry(&bytes, 3);
    assert_eq!(empty.type_code, 0);
    assert!(!empty.active);
    assert_eq!(empty.first_lba, 0);
    assert_eq!(empty.sector_count, 0);
}

#[test]
fn offsets_are_increasing_and_disjoint() {
    let sizes: [u64; 4] = [700, 512, 1, 1_000_000];
    let mut mbr = MasterBootRecord::default();
    let mut placements: Vec<(u64, u64)> = Vec::new();
    for &size in sizes.iter() {
        let offset = mbr.add(false, 0x83, size).unwrap();
        placements.push((offset, size));
    }
    for w in placements.windows(2) {
        let (prev_offset, prev_size) = w[0];
        let (next_offset, _) = w[1];
        let reserved = prev_size.div_ceil(512) * 512;
        assert!(next_offset >= prev_offset + reserved);
        assert!(next_offset > prev_offset);
    }
}
