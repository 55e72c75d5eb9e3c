use gxbuild::gxcore::images::blocks::{
    add_spare, read_logical_from_physical, write_logical_data, calculate_ecc, get_page_spare, has_spare, is_bad_block, remove_spare, BlocksError, LbaMap, NandLayout,
    SpareMetaType,
};

#[test]
fn layout_geometry() {
    assert_eq!(NandLayout::Sb.block_size(), 0x4200);
    assert_eq!(NandLayout::Bb.block_size(), 0x21000);
    assert_eq!(NandLayout::Emmc.block_size(), 0x200);
    assert_eq!(NandLayout::Bb.logical_pages_per_block(), 256);
    assert_eq!(NandLayout::Xsb.spare_size(), 0x10);
    assert_eq!(NandLayout::Emmc.spare_size(), 0);
    assert_eq!(NandLayout::Sb.marker_offset(), 0x205);
    assert_eq!(NandLayout::Bb.id_offset(), 0x201);
    assert_eq!(NandLayout::Sb.reserve_start(0), 0x3E0);
    assert_eq!(NandLayout::Bb.max_blocks(), 0x200);
    assert_eq!(NandLayout::Sb.total_blocks(0x1080000), 0x400);
    assert_eq!(NandLayout::Sb.total_blocks(0x1000000), 0x400);
    assert_eq!(NandLayout::Sb.logical_to_physical(0x200), 0x210);
    assert_eq!(NandLayout::Bb.logical_to_physical(0x801), 0x841);
    assert_eq!(NandLayout::Emmc.logical_to_physical(12345), 12345);
}

#[test]
fn layout_detection_by_size() {
    assert_eq!(NandLayout::detect(&vec![0u8; 0x1080000]), Ok(NandLayout::Sb));
    assert_eq!(NandLayout::detect(&vec![0u8; 0x1000000]), Ok(NandLayout::Sb));
    assert_eq!(NandLayout::detect(&vec![0u8; 0x3000000]), Ok(NandLayout::Emmc));
    assert_eq!(NandLayout::detect(&[0u8; 100]), Err(BlocksError::UnknownLayout(100)));
}

#[test]
fn ecc_of_known_pages() {
    let mut zero = vec![0u8; 0x210];
    calculate_ecc(&mut zero);
    assert_eq!(zero[0x20C..], [0x80, 0xF8, 0x6C, 0x77]);
    assert!(zero[..0x20C].iter().all(|b| *b == 0));

    let mut page: Vec<u8> = (0..0x210usize).map(|i| (i * 13 % 256) as u8).collect();
    calculate_ecc(&mut page);
    assert_eq!(page[0x20C..], [0x9C, 0x85, 0x42, 0x4E]);

    let mut ff = vec![0xFFu8; 0x210];
    calculate_ecc(&mut ff);
    assert_eq!(ff, vec![0xFFu8; 0x210]);

    let mut short = vec![1u8; 0x20F];
    calculate_ecc(&mut short);
    assert_eq!(short, vec![1u8; 0x20F]);
}

#[test]
fn small_block_spare_is_added_per_page() {
    let logical: Vec<u8> = (0..0x400usize).map(|i| (i % 256) as u8).collect();
    let physical = add_spare(&logical, NandLayout::Sb, SpareMetaType::MetaType1, 3 * 0x4200, None, Some(0x1234));
    assert_eq!(physical.len(), 2 * 0x210);
    assert_eq!(physical[..0x200], logical[..0x200]);
    assert_eq!(physical[0x210..0x410], logical[0x200..]);
    let spare0 = get_page_spare(&physical, 0, &NandLayout::Sb).unwrap();
    assert_eq!(spare0[..12], [0, 3, 0, 0, 0, 0xFF, 0, 0, 0, 0, 0, 0]);
    let spare1 = get_page_spare(&physical, 1, &NandLayout::Sb).unwrap();
    assert_eq!(spare1[..12], [0, 3, 0, 0, 0, 0xFF, 0, 0, 0, 0, 0x12, 0x34]);
    let mut page = physical[..0x210].to_vec();
    calculate_ecc(&mut page);
    assert_eq!(page, physical[..0x210].to_vec());
    assert_eq!(get_page_spare(&physical, 2, &NandLayout::Sb), None);
    assert_eq!(get_page_spare(&physical, 0, &NandLayout::Emmc), None);
}

#[test]
fn emmc_spare_is_a_copy() {
    let logical = vec![5u8; 0x300];
    assert_eq!(add_spare(&logical, NandLayout::Emmc, SpareMetaType::MetaTypeNone, 0, None, None), logical);
}

#[test]
fn big_block_spare_packs_four_pages() {
    let logical = vec![0xAAu8; 0x800];
    let physical = add_spare(&logical, NandLayout::Bb, SpareMetaType::MetaType2, 0x21000 * 2, None, None);
    assert_eq!(physical.len(), 0x840);
    assert_eq!(physical[..0x800], logical[..]);
    assert_eq!(physical[0x800], 0xFF);
    assert_eq!(physical[0x801], 2);
    for p in 0..4 {
        let spare = &physical[0x800 + p * 0x10..0x810 + p * 0x10];
        let mut page = logical[p * 0x200..(p + 1) * 0x200].to_vec();
        page.extend_from_slice(&spare[..0xC]);
        page.extend_from_slice(&[0u8; 4]);
        calculate_ecc(&mut page);
        assert_eq!(&spare[0xC..], &page[0x20C..0x210]);
        assert_ne!(&spare[0xC..], &[0u8; 4]);
    }
}

#[test]
fn spare_detection_and_removal_of_unknown_sizes() {
    assert!(!has_spare(&[0u8; 0x100]));
    let mut bb = vec![0u8; 0x900];
    bb[0x800] = 0xFF;
    bb[0x810] = 0xFF;
    bb[0x820] = 0xFF;
    assert!(has_spare(&bb));
    let odd = vec![7u8; 0x1234];
    assert_eq!(remove_spare(&odd), odd);
}

#[test]
fn bad_blocks_by_marker() {
    let mut image = vec![0xFFu8; 2 * 0x4200];
    assert!(!is_bad_block(&image, 0, &NandLayout::Sb));
    assert!(!is_bad_block(&image, 1, &NandLayout::Sb));
    image[0x4200 + 5 * 0x210 + 0x205] = 0x00;
    assert!(is_bad_block(&image, 1, &NandLayout::Sb));
    assert!(!is_bad_block(&image, 0, &NandLayout::Sb));
    assert!(!is_bad_block(&image, 2, &NandLayout::Sb));
    assert!(!is_bad_block(&image, 0, &NandLayout::Emmc));
}

#[test]
fn lba_map_remaps() {
    let mut map = LbaMap::from_layout(NandLayout::Sb, 0x3E0);
    assert_eq!(map.meta_type, SpareMetaType::MetaType1);
    assert_eq!(map.physical_block(5), Some(5));
    assert_eq!(map.physical_block(0x3E0), None);
    assert_eq!(map.find_available_reserve_block(&NandLayout::Sb, 0), Some(0x3FF));
    assert_eq!(map.get_live_remap_target(5, &NandLayout::Sb, 0), Some(0x3FF));
    assert_eq!(map.physical_block(5), Some(0x3FF));
    assert!(map.is_bad(5));
    assert_eq!(map.find_available_reserve_block(&NandLayout::Sb, 0), Some(0x3FE));
    assert_eq!(map.get_live_remap_target(0x3E5, &NandLayout::Sb, 0), None);

    let mut healed = LbaMap::new(4);
    healed.logical_to_physical[1] = 3;
    healed.record_remap(1, 3);
    healed.record_remap(1, 3);
    assert_eq!(healed.bad_blocks, vec![1]);
    assert_eq!(healed.logical_to_physical, vec![0, 1, 2, 1]);
}

#[test]
fn full_map_has_no_reserve() {
    let map = LbaMap::new(0x400);
    assert_eq!(map.find_available_reserve_block(&NandLayout::Sb, 0), None);
}

#[test]
fn logical_reads_skip_the_spare_areas() {
    let mut image = vec![0u8; 0x420];
    for (i, b) in image.iter_mut().enumerate() {
        *b = (i % 251) as u8;
    }
    let page1 = read_logical_from_physical(&image, 1, 0x200, NandLayout::Sb).unwrap();
    assert_eq!(page1, image[0x210..0x410].to_vec());
    let both = read_logical_from_physical(&image, 0, 0x300, NandLayout::Sb).unwrap();
    assert_eq!(&both[..0x200], &image[..0x200]);
    assert_eq!(&both[0x200..], &image[0x210..0x310]);
    // the read stops where a page passes the end of the image
    assert_eq!(read_logical_from_physical(&image, 1, 0x400, NandLayout::Sb).unwrap(), image[0x210..0x410].to_vec());
    assert_eq!(read_logical_from_physical(&image, 2, 0x10, NandLayout::Sb), None);
    assert_eq!(read_logical_from_physical(&image, 0, 0, NandLayout::Sb), None);
}

#[test]
fn erased_nand_has_no_spare() {
    assert!(!has_spare(&vec![0xFFu8; 0x900]));
    assert!(!has_spare(&vec![0xFFu8; 0x4200]));
}

#[test]
fn a_read_gives_back_what_a_write_wrote() {
    let mut image = vec![0xAAu8; 0x210 * 4];
    let data: Vec<u8> = (0..700u32).map(|i| (i % 253) as u8).collect();
    write_logical_data(&mut image, 0x200, &data, NandLayout::Sb);
    assert_eq!(read_logical_from_physical(&image, 1, 700, NandLayout::Sb), Some(data.clone()));
    assert!(image[..0x210].iter().all(|&b| b == 0xAA));
    assert!(image[0x410..0x420].iter().all(|&b| b == 0xAA));
    assert_eq!(&image[0x210..0x410], &data[..0x200]);
    assert_eq!(&image[0x420..0x420 + 700 - 0x200], &data[0x200..]);
}

#[test]
fn a_read_gives_back_what_a_write_wrote_on_big_block() {
    let mut image = vec![0x55u8; 0x840 * 2];
    let data: Vec<u8> = (0..3000u32).map(|i| (i % 241) as u8).collect();
    write_logical_data(&mut image, 0x200, &data, NandLayout::Bb);
    assert_eq!(read_logical_from_physical(&image, 1, 3000, NandLayout::Bb), Some(data.clone()));
    assert!(image[0x800..0x840].iter().all(|&b| b == 0x55));
    assert_eq!(&image[0x840..0x840 + 1464], &data[1536..]);
}
