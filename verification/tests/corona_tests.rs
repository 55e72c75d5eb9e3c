use gxbuild::crypto::sha::sha;
use gxbuild::filesystem::corona::{best_fs_from_slots, default_emmc_fs_block, load_slots, CoronaFsData};

fn raw_descriptor() -> Vec<u8> {
    (0..0x200usize).map(|i| (i * 7 % 256) as u8).collect()
}

fn with_version(block: u16, version: u32) -> CoronaFsData {
    let mut c = CoronaFsData::default_data();
    c.fs_block_idx = block;
    c.fs_version = version;
    c
}

#[test]
fn corona_bytes_roundtrip() {
    let raw = raw_descriptor();
    let c = CoronaFsData::from_bytes(&raw);
    assert_eq!(c.to_bytes().to_vec(), raw);
    assert_eq!(c.fs_version, u32::from_be_bytes([raw[0x18], raw[0x19], raw[0x1A], raw[0x1B]]));
    assert_eq!(c.fs_block_idx, u16::from_be_bytes([raw[0x1C], raw[0x1D]]));
    assert_eq!(c.mobile2_length, u16::from_be_bytes([raw[0x2E], raw[0x2F]]));
}

#[test]
fn corona_descriptor_roundtrip_from_value() {
    let mut c = with_version(0x1234, 7);
    c.mobile1_length = 0xBEEF;
    c.unknown2 = [1, 2, 3, 4, 5, 6, 7, 8];
    let back = CoronaFsData::from_bytes(&c.to_bytes());
    assert_eq!(back.to_bytes(), c.to_bytes());
    assert_eq!(back.fs_block_idx, 0x1234);
    assert_eq!(back.mobile1_length, 0xBEEF);
}

#[test]
fn corona_short_input_reads_as_zero() {
    let c = CoronaFsData::from_bytes(&[0xFF; 0x2F]);
    assert_eq!(c.to_bytes(), [0u8; 0x200]);
    let partial = CoronaFsData::from_bytes(&[0xFF; 0x30]);
    let bytes = partial.to_bytes();
    assert!(bytes[..0x30].iter().all(|b| *b == 0xFF));
    assert!(bytes[0x30..].iter().all(|b| *b == 0));
}

#[test]
fn corona_refresh_digest_hashes_the_rest() {
    let mut c = CoronaFsData::from_bytes(&raw_descriptor());
    let before = c.to_bytes();
    c.refresh_digest().unwrap();
    let after = c.to_bytes();
    assert_eq!(after[..0x14].to_vec(), sha(&[&before[0x14..]]).unwrap().to_vec());
    assert_eq!(after[0x14..], before[0x14..]);
}

#[test]
fn corona_slots_outside_small_image_are_empty() {
    let slots = load_slots(&[0u8; 0x1000]);
    assert_eq!(slots[0].to_bytes(), [0u8; 0x200]);
    assert_eq!(best_fs_from_slots(&slots), None);
}

#[test]
fn corona_newest_slot_wins() {
    assert_eq!(best_fs_from_slots(&[with_version(10, 3), with_version(20, 5)]), Some((20, 5)));
    assert_eq!(best_fs_from_slots(&[with_version(10, 5), with_version(20, 5)]), Some((10, 5)));
    assert_eq!(best_fs_from_slots(&[with_version(10, 0), with_version(20, 1)]), Some((20, 1)));
    assert_eq!(best_fs_from_slots(&[with_version(10, 9), with_version(20, 0)]), Some((10, 9)));
}

#[test]
fn corona_default_fs_block() {
    let empty = [with_version(0, 0), with_version(0, 0)];
    assert_eq!(default_emmc_fs_block(0, &empty), 0x80);
    assert_eq!(default_emmc_fs_block(0x1FF, &empty), 0x80);
    assert_eq!(default_emmc_fs_block(0x4000, &empty), 0x20);
    assert_eq!(default_emmc_fs_block(0xFFFF_FFFF, &empty), 0xFFFF);
    assert_eq!(default_emmc_fs_block(0x4000, &[with_version(0x40, 1), with_version(0, 0)]), 0x40);
}

use gxbuild::filesystem::corona::{write_back, CoronaError, FsRootInfo, MobileEntryInfo};

const SLOT0: usize = 0x2FE8000;
const SLOT1: usize = 0x2FEC000;

#[test]
fn corona_write_back_without_root_changes_nothing() {
    let mut image = vec![0u8; 0x100];
    let mut slots = [with_version(1, 1), with_version(2, 2)];
    let root = FsRootInfo { block_number: -1, version: 9, has_entries: false };
    assert_eq!(write_back(&mut image, &mut slots, &root, &[None, None]), Ok(()));
    assert_eq!(image, vec![0u8; 0x100]);
    assert_eq!(slots[0].fs_version, 1);
}

#[test]
fn corona_write_back_reports_slot_outside_image() {
    let mut image = vec![0u8; 0x1000];
    let mut slots = [with_version(1, 0), with_version(2, 0)];
    let root = FsRootInfo { block_number: 5, version: 0, has_entries: true };
    assert_eq!(
        write_back(&mut image, &mut slots, &root, &[None, None]),
        Err(CoronaError::WriteOutOfBounds { slot: 0, offset: SLOT0 })
    );
    assert_eq!(slots[0].fs_block_idx, 5);
    assert_eq!(slots[0].fs_version, 1);
    assert_eq!(slots[1].fs_block_idx, 2);
    assert_eq!(image, vec![0u8; 0x1000]);
}

#[test]
fn corona_write_back_stores_synced_slots() {
    let mut image = vec![0xEEu8; SLOT1 + 0x200];
    let mut slots = [with_version(1, 0), with_version(2, 0)];
    let root = FsRootInfo { block_number: 0x40, version: 3, has_entries: true };
    let mobile = [Some(MobileEntryInfo { start_page: 0x12345, data_len: 0x10000 }), None];
    assert_eq!(write_back(&mut image, &mut slots, &root, &mobile), Ok(()));
    let s0 = slots[0];
    assert_eq!(s0.fs_block_idx, 0x40);
    assert_eq!(s0.fs_version, 3);
    assert_eq!(s0.mobile1_block_idx, 0x2345);
    assert_eq!(s0.mobile1_length, 0xFFFF);
    let bytes = s0.to_bytes();
    assert_eq!(image[SLOT0..SLOT0 + 0x200], bytes[..]);
    assert_eq!(bytes[..0x14].to_vec(), sha(&[&bytes[0x14..]]).unwrap().to_vec());
    assert_eq!(slots[1].fs_version, 0);
    assert!(image[SLOT1..].iter().all(|b| *b == 0xEE));
    assert_eq!(image[SLOT0 - 1], 0xEE);

    slots[1].fs_version = 2;
    let root2 = FsRootInfo { block_number: -1, version: 7, has_entries: true };
    assert_eq!(write_back(&mut image, &mut slots, &root2, &[None, None]), Ok(()));
    assert_eq!(slots[1].fs_block_idx, 2);
    assert_eq!(slots[1].fs_version, 7);
    assert_eq!(image[SLOT1..SLOT1 + 0x200], slots[1].to_bytes()[..]);
}
