use gxbuild::gxcore::data::xeini::{
    chain_slot, parse_xe_ini_str, payload_placement, strip_flashfs_path_indicator, update_slot,
    ChainSlot, IniError,
};

#[test]
fn test_parse_xe_ini_empty_crc_section() {
    let content = "
[trinitybl]
cba_9188.bin = 00000000

[flashfs]
..\\launch.xex ,
..\\lhelper.xex,  
..\\launch.ini = 
        ";
    let parsed = parse_xe_ini_str(content, "trinity", None).unwrap();
    assert_eq!(parsed.flashfs.len(), 3);
    assert_eq!(parsed.flashfs[0].filename, "..\\launch.xex");
    assert_eq!(parsed.flashfs[0].hash, None);
    assert_eq!(parsed.flashfs[1].filename, "..\\lhelper.xex");
    assert_eq!(parsed.flashfs[1].hash, None);
    assert_eq!(parsed.flashfs[2].filename, "..\\launch.ini");
    assert_eq!(parsed.flashfs[2].hash, None);
}

#[test]
fn strip_flashfs_path_indicator_handles_common_forms() {
    assert_eq!(strip_flashfs_path_indicator("..\\launch.xex"), "launch.xex");
    assert_eq!(strip_flashfs_path_indicator("../launch.xex"), "launch.xex");
    assert_eq!(strip_flashfs_path_indicator(".\\launch.xex"), "launch.xex");
    assert_eq!(strip_flashfs_path_indicator("./launch.xex"), "launch.xex");
    assert_eq!(strip_flashfs_path_indicator("foo\\bar\\launch.xex"), "launch.xex");
    assert_eq!(strip_flashfs_path_indicator("launch.xex"), "launch.xex");
    assert_eq!(strip_flashfs_path_indicator("  ..\\launch.xex  "), "launch.xex");
}

#[test]
fn main_section_chains_and_hashes() {
    let content = "[JasperBL]\ncb_6750.bin, 1234abcd\ncd_8453.bin,\ncb_9188.bin, ffff0000 ;\n[security]\nsmc.bin\n[payloads]\n0x200:xell.bin = XeLL\n[jtag]\nSyscall, 0x1A\n";
    let ini = parse_xe_ini_str(content, "jasper", Some("_Glitch.ini")).unwrap();
    assert_eq!(ini.buildtype, "glitch1");
    assert!(ini.patch.enabled);
    assert_eq!(ini.main.len(), 3);
    assert_eq!(ini.main[0].chain, 0);
    assert_eq!(ini.main[0].hash.as_deref(), Some("1234abcd"));
    assert_eq!(ini.main[1].hash, None);
    assert_eq!(ini.main[2].chain, 1);
    assert!(ini.rebooter);
    assert_eq!(ini.security[0].filename, "smc.bin");
    assert_eq!(ini.payloads[0].filename, "xell.bin");
    assert_eq!(ini.jtag.syscall, Some(0x1A));
    assert_eq!(ini.jtag.pairing_2bl, None);
}

#[test]
fn missing_main_section_is_reported() {
    match parse_xe_ini_str("[flashfs]\na.xex\n", "corona_4g", None) {
        Err(IniError::SectionNotFound(name)) => assert_eq!(name, "coronabl_4g"),
        other => panic!("unexpected result: {:?}", other.map(|i| i.name)),
    }
    let ini = parse_xe_ini_str("[coronabl_4g]\ncb.bin\n", "corona_4g", None).unwrap();
    assert_eq!(ini.buildtype, "retail");
    assert!(!ini.patch.enabled);
}

#[test]
fn chain_slots_follow_file_prefixes() {
    assert_eq!(chain_slot("cba_9188.bin"), Some(ChainSlot::CbA));
    assert_eq!(chain_slot("cbb_9188.bin"), Some(ChainSlot::CbB));
    assert_eq!(chain_slot("cbx_9188.bin"), Some(ChainSlot::CbX));
    assert_eq!(chain_slot("cb_9188.bin"), Some(ChainSlot::Cb));
    assert_eq!(chain_slot("sb_9188.bin"), Some(ChainSlot::Cb));
    assert_eq!(chain_slot("sc_7371.bin"), Some(ChainSlot::Sc));
    assert_eq!(chain_slot("sd_7371.bin"), Some(ChainSlot::Cd));
    assert_eq!(chain_slot("ce_1888.bin"), Some(ChainSlot::Ce));
    assert_eq!(chain_slot("cf_17559.bin"), Some(ChainSlot::Cf));
    assert_eq!(chain_slot("sg_17559.bin"), Some(ChainSlot::Cg));
    assert_eq!(chain_slot("kv.bin"), None);
    assert_eq!(chain_slot("cb"), None);
}

#[test]
fn update_slot_prefers_first_free() {
    assert_eq!(update_slot(false, false), 0);
    assert_eq!(update_slot(false, true), 0);
    assert_eq!(update_slot(true, false), 1);
    assert_eq!(update_slot(true, true), 0);
}

#[test]
fn payload_placement_names_jtag_payloads() {
    assert_eq!(
        payload_placement("jtag_payload.bin", "JTAG_Payload.bin", "jtag"),
        ("JTAG Exploit Payload".to_string(), Some(0x200))
    );
    assert_eq!(
        payload_placement("fuses.bin", "fuses.bin", "jtag"),
        ("Virtual Fuses".to_string(), None)
    );
    assert_eq!(
        payload_placement("freeboot.bin", "FreeBoot.bin", "jtag"),
        ("Freeboot Kernel".to_string(), None)
    );
    assert_eq!(
        payload_placement("jtag_payload.bin", "JTAG_Payload.bin", "glitch"),
        ("JTAG_Payload.bin".to_string(), None)
    );
    assert_eq!(
        payload_placement("other.bin", "Other.bin", "jtag"),
        ("Other.bin".to_string(), None)
    );
}
