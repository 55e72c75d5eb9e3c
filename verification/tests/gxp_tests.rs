use gxbuild::gxcore::data::gxp::{
    apply_records, parse_and_apply_to_buffer, parse_patch_binary, read_patch_sections, BootloaderId, GxpBinary,
    GxpError, GxpHeader, GxpPatchType, MotherboardType, GXP_MAGIC,
};

#[test]
fn test_legacy_word_alignment() {
    let mut mock_data = Vec::new();
    mock_data.extend_from_slice(&0u32.to_be_bytes());
    mock_data.extend_from_slice(&1u32.to_be_bytes());
    mock_data.extend_from_slice(&[0x11, 0x22, 0x33, 0x44]);
    mock_data.extend_from_slice(&0xFFFFFFFFu32.to_be_bytes());

    let sections = read_patch_sections(&mock_data, GxpPatchType::Unknown, true, BootloaderId::Empty).unwrap();
    assert_eq!(sections.len(), 1);
    assert_eq!(sections[0].records.len(), 1);
    assert_eq!(sections[0].records[0].data, vec![0x11, 0x22, 0x33, 0x44]);

    let mut buffer = vec![0u8; 8];
    apply_records(&sections[0].records, &mut buffer).unwrap();
    assert_eq!(buffer, vec![0x11, 0x22, 0x33, 0x44, 0, 0, 0, 0]);
}

#[test]
fn test_byte_level_smc_patch() {
    let mut mock_data = Vec::new();
    mock_data.extend_from_slice(&2u32.to_be_bytes());
    mock_data.extend_from_slice(&1u32.to_be_bytes());
    mock_data.push(0x99);
    mock_data.extend_from_slice(&0xFFFFFFFFu32.to_be_bytes());

    let sections = read_patch_sections(&mock_data, GxpPatchType::Standalone, false, BootloaderId::Smc).unwrap();
    assert_eq!(sections.len(), 1);
    assert_eq!(sections[0].records.len(), 1);
    assert_eq!(sections[0].records[0].data, vec![0x99]);

    let mut buffer = vec![0u8; 4];
    apply_records(&sections[0].records, &mut buffer).unwrap();
    assert_eq!(buffer, vec![0, 0, 0x99, 0]);
}

#[test]
fn test_jtag5_section_routing() {
    let mut mock_data = Vec::new();
    for i in 0..5 {
        mock_data.extend_from_slice(&0u32.to_be_bytes());
        mock_data.extend_from_slice(&1u32.to_be_bytes());
        if i == 4 {
            mock_data.push(0xEE);
        } else {
            mock_data.extend_from_slice(&[0xAA, 0xBB, 0xCC, 0xDD]);
        }
        mock_data.extend_from_slice(&0xFFFFFFFFu32.to_be_bytes());
    }

    let sections = read_patch_sections(&mock_data, GxpPatchType::Jtag5Section, false, BootloaderId::Empty).unwrap();
    assert_eq!(sections.len(), 5);
    assert_eq!(sections[4].records[0].data, vec![0xEE]);

    let binary = GxpBinary {
        header: GxpHeader {
            magic: GXP_MAGIC,
            version: 0,
            motherboard: MotherboardType::Any,
            patch_type: GxpPatchType::Jtag5Section,
            bootloader: BootloaderId::Empty,
            offset: 0,
        },
        sections: sections.clone(),
        is_legacy: false,
        onebl: Some(sections[0].clone()),
        cb: Some(sections[1].clone()),
        cb_a: None,
        cb_b: None,
        cd: Some(sections[2].clone()),
        khv: Some(sections[3].clone()),
        smc: Some(sections[4].clone()),
    };

    assert!(binary.smc.is_some());
    assert_eq!(binary.smc.unwrap().records[0].data, vec![0xEE]);
}

fn gxp_file(patch_type: u8, bootloader: u8, body: &[u8]) -> Vec<u8> {
    let mut f = GXP_MAGIC.to_vec();
    f.extend_from_slice(&0x4497u32.to_be_bytes());
    f.extend_from_slice(&6u16.to_be_bytes());
    f.push(patch_type);
    f.push(bootloader);
    f.extend_from_slice(&0x100u32.to_be_bytes());
    f.extend_from_slice(body);
    f
}

#[test]
fn gxp_header_fields_are_read() {
    let mut body = Vec::new();
    body.extend_from_slice(&4u32.to_be_bytes());
    body.extend_from_slice(&2u32.to_be_bytes());
    body.extend_from_slice(&[0xAB, 0xCD]);
    let file = gxp_file(4, 7, &body);
    let b = parse_patch_binary(&file).unwrap();
    assert!(!b.is_legacy);
    assert_eq!(b.header.version, 0x4497);
    assert_eq!(b.header.motherboard, MotherboardType::Corona);
    assert_eq!(b.header.patch_type, GxpPatchType::Standalone);
    assert_eq!(b.header.bootloader, BootloaderId::Smc);
    assert_eq!(b.header.offset, 0x100);
    // A standalone SMC patch counts bytes and lands in the SMC slot.
    assert_eq!(b.smc.as_ref().unwrap().records[0].data, vec![0xAB, 0xCD]);
    assert!(b.khv.is_none());
}

#[test]
fn legacy_single_section_is_kernel_addon() {
    let mut file = Vec::new();
    file.extend_from_slice(&0x10u32.to_be_bytes());
    file.extend_from_slice(&1u32.to_be_bytes());
    file.extend_from_slice(&[1, 2, 3, 4]);
    let b = parse_patch_binary(&file).unwrap();
    assert!(b.is_legacy);
    assert_eq!(b.header.patch_type, GxpPatchType::Addon);
    assert_eq!(b.header.bootloader, BootloaderId::Khv);
    assert_eq!(b.khv.as_ref().unwrap().records[0].address, 0x10);
}

#[test]
fn truncated_record_is_an_error() {
    let mut file = Vec::new();
    file.extend_from_slice(&0u32.to_be_bytes());
    file.extend_from_slice(&2u32.to_be_bytes());
    file.extend_from_slice(&[1, 2, 3, 4]);
    assert_eq!(parse_patch_binary(&file).err(), Some(GxpError::UnexpectedEof));
    assert_eq!(parse_patch_binary(&[0x47, 0x58]).err(), Some(GxpError::UnexpectedEof));
}

#[test]
fn apply_beyond_limit_is_refused_and_growth_zero_fills() {
    let mut file = Vec::new();
    file.extend_from_slice(&6u32.to_be_bytes());
    file.extend_from_slice(&1u32.to_be_bytes());
    file.extend_from_slice(&[9, 9, 9, 9]);
    let mut buf = vec![1u8; 4];
    parse_and_apply_to_buffer(&file, &mut buf).unwrap();
    assert_eq!(buf, vec![1, 1, 1, 1, 0, 0, 9, 9, 9, 9]);

    let mut far = Vec::new();
    far.extend_from_slice(&0x3FFFFEu32.to_be_bytes());
    far.extend_from_slice(&1u32.to_be_bytes());
    far.extend_from_slice(&[7, 7, 7, 7]);
    let mut small = vec![0u8; 2];
    assert_eq!(parse_and_apply_to_buffer(&far, &mut small), Err(GxpError::ExceedsSafetyLimit(0x400002)));
    assert_eq!(small, vec![0, 0]);
}

#[test]
fn empty_patch_has_no_sections() {
    let mut buf = vec![0u8; 2];
    let header_only = gxp_file(4, 6, &[]);
    assert_eq!(parse_and_apply_to_buffer(&header_only, &mut buf), Err(GxpError::NoSections));
    assert_eq!(parse_and_apply_to_buffer(&[0, 0, 0, 0], &mut buf), Err(GxpError::UnexpectedEof));
    assert_eq!(buf, vec![0, 0]);
}

#[test]
fn legacy_header_by_section_count() {
    assert_eq!(GxpHeader::new_legacy(4).patch_type, GxpPatchType::Jtag4Section);
    assert_eq!(GxpHeader::new_legacy(3).patch_type, GxpPatchType::Rgh3Section);
    assert_eq!(GxpHeader::new_legacy(2).patch_type, GxpPatchType::Unknown);
    assert_eq!(GxpHeader::new_legacy(1).bootloader, BootloaderId::Khv);
    assert_eq!(MotherboardType::from(9u16), MotherboardType::Unknown);
    assert_eq!(GxpPatchType::from(6u8), GxpPatchType::Unknown);
    assert_eq!(BootloaderId::from(5u8), BootloaderId::Cd);
}
