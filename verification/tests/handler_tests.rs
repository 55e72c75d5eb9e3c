use gxbuild::gxcore::commands::{handle_parse_ini, handle_parse_patch};
use gxbuild::gxcore::data::gxp::GxpError;
use gxbuild::gxcore::data::nandsearch::{hash_match_simple, normalize_optional_hash};
use gxbuild::gxcore::data::xeini::{parse_xe_ini_str, IniError};
use gxbuild::gxcore::handler::Executor;
use gxbuild::gxcore::session::{InternalCommand, Session, SessionError};
use std::path::PathBuf;

#[test]
fn parse_u8_hex_or_dec_values() {
    assert_eq!(Executor::parse_u8_hex_or_dec("0x1F"), Ok(31));
    assert_eq!(Executor::parse_u8_hex_or_dec("0xff"), Ok(255));
    assert_eq!(Executor::parse_u8_hex_or_dec("255"), Ok(255));
    assert_eq!(Executor::parse_u8_hex_or_dec("+7"), Ok(7));
    assert_eq!(Executor::parse_u8_hex_or_dec("007"), Ok(7));
}

#[test]
fn parse_u8_hex_or_dec_errors() {
    assert_eq!(
        Executor::parse_u8_hex_or_dec("256"),
        Err("Invalid decimal u8 '256': number too large to fit in target type".to_string())
    );
    assert_eq!(
        Executor::parse_u8_hex_or_dec("0x"),
        Err("Invalid hex u8 '0x': cannot parse integer from empty string".to_string())
    );
    assert_eq!(
        Executor::parse_u8_hex_or_dec("-1"),
        Err("Invalid decimal u8 '-1': invalid digit found in string".to_string())
    );
    assert_eq!(
        Executor::parse_u8_hex_or_dec("12a"),
        Err("Invalid decimal u8 '12a': invalid digit found in string".to_string())
    );
    assert_eq!(
        Executor::parse_u8_hex_or_dec("999x"),
        Err("Invalid decimal u8 '999x': number too large to fit in target type".to_string())
    );
    assert_eq!(
        Executor::parse_u8_hex_or_dec(""),
        Err("Invalid decimal u8 '': cannot parse integer from empty string".to_string())
    );
    assert_eq!(
        Executor::parse_u8_hex_or_dec("0X10"),
        Err("Invalid decimal u8 '0X10': invalid digit found in string".to_string())
    );
}

#[test]
fn parse_u16_hex_or_dec_values_and_errors() {
    assert_eq!(Executor::parse_u16_hex_or_dec("0xFFFF"), Ok(0xFFFF));
    assert_eq!(Executor::parse_u16_hex_or_dec("4660"), Ok(0x1234));
    assert_eq!(
        Executor::parse_u16_hex_or_dec("65536"),
        Err("Invalid decimal u16 '65536': number too large to fit in target type".to_string())
    );
    assert_eq!(
        Executor::parse_u16_hex_or_dec("0x1g"),
        Err("Invalid hex u16 '0x1g': invalid digit found in string".to_string())
    );
    assert_eq!(
        Executor::parse_u16_hex_or_dec("+"),
        Err("Invalid decimal u16 '+': invalid digit found in string".to_string())
    );
}

#[test]
fn expected_hash_placeholders() {
    assert_eq!(normalize_optional_hash(&None), None);
    assert_eq!(normalize_optional_hash(&Some("  ".to_string())), None);
    assert_eq!(normalize_optional_hash(&Some("SKIP".to_string())), None);
    assert_eq!(normalize_optional_hash(&Some(" None ".to_string())), None);
    assert_eq!(normalize_optional_hash(&Some("0".to_string())), None);
    assert_eq!(normalize_optional_hash(&Some("00000000".to_string())), None);
    assert_eq!(normalize_optional_hash(&Some(" CBF43926\t".to_string())), Some("CBF43926".to_string()));
}

#[test]
fn crc_matches_ignore_case() {
    assert!(hash_match_simple(b"123456789", &Some("CBF43926".to_string())));
    assert!(hash_match_simple(b"123456789", &Some("cbf43926".to_string())));
    assert!(!hash_match_simple(b"123456789", &Some("cbf43927".to_string())));
    assert!(hash_match_simple(b"anything", &Some("skip".to_string())));
    assert!(hash_match_simple(b"anything", &None));
}

#[test]
fn error_messages() {
    assert_eq!(GxpError::UnexpectedEof.message(), "failed to fill whole buffer");
    assert_eq!(GxpError::ExceedsSafetyLimit(0x400001).message(), "Patch address 0x400001 exceeds 4MB safety limit");
    assert_eq!(GxpError::ExceedsSafetyLimit(0xABC).message(), "Patch address 0xABC exceeds 4MB safety limit");
    assert_eq!(GxpError::NoSections.message(), "Patch file contains no sections");
    assert_eq!(IniError::SectionNotFound("jasperbl".to_string()).message(), "[ini] Ini section not found: jasperbl");
    assert_eq!(
        IniError::HashMismatch("cb.bin".to_string(), "1".to_string(), "2".to_string()).message(),
        "[ini] INI CRC32 mismatch for cb.bin: expected 1, got 2"
    );
    assert_eq!(IniError::NoPatches.message(), "[ini] No patches found in INI");
}

#[test]
fn parse_patch_handler_reports_truncation() {
    let mut s = Session::new();
    assert!(handle_parse_patch(&mut s, &[0, 0, 0, 0, 0, 0, 0, 1, 0x11, 0x22, 0x33, 0x44]).is_ok());
    match handle_parse_patch(&mut s, &[0, 0]) {
        Err(SessionError::Other(m)) => assert_eq!(m, "Failed to parse patch binary: failed to fill whole buffer"),
        other => panic!("unexpected {:?}", other),
    }
    assert_eq!(s.queue.len(), 0);
}

#[test]
fn parse_ini_handler_queues_present_assets() {
    let content = "[JasperBL]\nCB_6750.bin\ncd_8453.bin\nce_1888.bin\n";
    let parsed = parse_xe_ini_str(content, "jasper", Some("_glitch2.ini"));
    let present = vec!["cb_6750.bin".to_string(), "ce_1888.bin".to_string(), "other.bin".to_string()];
    let mut s = Session::new();
    s.list();
    handle_parse_ini(&mut s, &parsed, &PathBuf::from("mydata"), &present).unwrap();
    assert_eq!(s.queue.len(), 3);
    assert_eq!(s.next_seq_id, 3);
    let paths: Vec<PathBuf> = s
        .queue
        .iter()
        .filter_map(|q| match &q.command {
            InternalCommand::Update { path } => Some(path.clone()),
            _ => None,
        })
        .collect();
    assert_eq!(paths, vec![PathBuf::from("mydata/cb_6750.bin"), PathBuf::from("mydata/ce_1888.bin")]);
}

#[test]
fn parse_ini_handler_reports_missing_section() {
    let parsed = parse_xe_ini_str("[flashfs]\na.xex\n", "jasper", None);
    let mut s = Session::new();
    match handle_parse_ini(&mut s, &parsed, &PathBuf::from("mydata"), &vec![]) {
        Err(SessionError::Other(m)) => assert_eq!(m, "Failed to parse INI: [ini] Ini section not found: jasperbl"),
        other => panic!("unexpected {:?}", other),
    }
    assert_eq!(s.queue.len(), 0);
}

use gxbuild::gxcore::handler::{bb_flashfs_start, flashfs_allowlist, flashfs_spare_meta, overlay_ecc, select_flashfs_assets};

#[test]
fn flashfs_blocks_are_branded_from_the_root() {
    let block_map: Vec<u16> = vec![0x1FFE, 5, 0x1FFE, 0x9FFE, 0, 0x1FFF, 7];
    let meta = flashfs_spare_meta(&block_map, 1, 3, 0x30, true, 6, 1);
    let mut keys: Vec<usize> = meta.keys().copied().collect();
    keys.sort();
    assert_eq!(keys, vec![1, 4, 5]);
    assert_eq!(meta[&1].block_type, 0x30);
    assert_eq!(meta[&4].block_type, 1);
    assert_eq!(meta[&5].sequence, 3);
    assert_eq!(meta[&5].size, 0x4000);
    assert_eq!(meta[&5].page_count, 1);
    assert!(flashfs_spare_meta(&block_map, 1, 3, 0x30, false, 6, 1).is_empty());
    assert!(flashfs_spare_meta(&block_map, -1, 3, 0x30, true, 6, 1).is_empty());
}

#[test]
fn big_block_flashfs_start() {
    assert_eq!(bb_flashfs_start(0x100, 0x1E0), 0x100);
    assert_eq!(bb_flashfs_start(0, 0x1E0), 0x160);
    assert_eq!(bb_flashfs_start(0x1E0, 0x1E0), 0x160);
    assert_eq!(bb_flashfs_start(-5, 0x40), 4);
}

#[test]
fn flashfs_allowlist_names() {
    let content = "[JasperBL]\ncb.bin\n[flashfs]\n..\\\\Launch.XEX\nfolder/Dash.xex\n";
    let ini = parse_xe_ini_str(content, "jasper", None).unwrap();
    assert_eq!(
        flashfs_allowlist(&ini),
        vec!["launch.xex", "dash.xex", "fcrt.bin", "crl.bin", "dae.bin", "extended.bin", "secdata.bin", "odd.bin"]
    );
}

#[test]
fn flashfs_assets_are_filtered_by_allowlist() {
    let assets: Vec<(String, Vec<u8>)> = (0..9).map(|i| (format!("Drop{}.bin", i), vec![i as u8])).collect();
    let mut assets = assets;
    assets.insert(0, ("Launch.XEX".to_string(), vec![1]));
    assets.push(("launch.xex".to_string(), vec![2]));
    let allow = Some(vec!["launch.xex".to_string()]);
    let (kept, dropped, examples) = select_flashfs_assets(assets.clone(), &allow);
    assert_eq!(kept, vec![("launch.xex".to_string(), vec![2u8])]);
    assert_eq!(dropped, 9);
    assert_eq!(examples, vec!["drop0.bin", "drop1.bin", "drop2.bin", "drop3.bin", "drop4.bin", "drop5.bin"]);
    let (all, none_dropped, _) = select_flashfs_assets(assets, &None);
    assert_eq!(all.len(), 10);
    assert_eq!(none_dropped, 0);
}

#[test]
fn ecc_overlay_replaces_prefix() {
    let mut image = vec![1u8, 2, 3, 4];
    assert_eq!(overlay_ecc(&mut image, &[9, 9]), 2);
    assert_eq!(image, vec![9, 9, 3, 4]);
    assert_eq!(overlay_ecc(&mut image, &[7, 7, 7, 7, 7, 7]), 4);
    assert_eq!(image, vec![7, 7, 7, 7]);
}

use gxbuild::gxcore::data::optini::OptionsIni;
use gxbuild::gxcore::handler::{auto_patches_smc, smc_settings};

fn smc_config() -> Vec<u8> {
    let mut c = vec![0u8; 0x238];
    c[0x22A] = 0x12;
    c[0x22B] = 0x34;
    c[0x22C] = 0x56;
    c[0x22D] = 0x78;
    c[0x237] = 9;
    for (i, b) in c[0x29..0x2F].iter_mut().enumerate() {
        *b = i as u8 + 1;
    }
    c
}

#[test]
fn smc_settings_fall_back_on_config() {
    let s = smc_settings(&OptionsIni::new(), &smc_config()).unwrap();
    assert_eq!((s.video_region, s.game_region, s.dvd_region), (0x1234, 0x5678, 9));
    assert_eq!((s.cpu_target, s.gpu_target, s.edram_target), (1, 2, 3));
    assert_eq!((s.cpu_max, s.gpu_max, s.edram_max), (4, 5, 6));
    assert_eq!((s.cpu_fan, s.gpu_fan, s.reset_code), (None, None, None));
}

#[test]
fn smc_settings_from_options() {
    let mut o = OptionsIni::new();
    o.set_option("region", "0x00FF");
    o.set_option("dvdregion", "abc");
    o.set_option("cputemp", "70");
    o.set_option("cpufan", "0x30");
    o.set_option("xellbutton", "ABCD");
    let s = smc_settings(&o, &smc_config()).unwrap();
    assert_eq!(s.video_region, 0xFF);
    assert_eq!(s.dvd_region, 0xFF);
    assert_eq!(s.cpu_target, 70);
    assert_eq!(s.cpu_fan, Some(0x30));
    assert_eq!(s.reset_code, Some(*b"ABCD"));
    o.set_option("xellbutton", "\u{e9}AB");
    assert_eq!(smc_settings(&o, &smc_config()).unwrap().reset_code, Some([0xC3, 0xA9, b'A', b'B']));
    o.set_option("xellbutton", "AB");
    assert_eq!(smc_settings(&o, &smc_config()).unwrap().reset_code, None);
}

#[test]
fn smc_settings_report_first_bad_option() {
    let mut o = OptionsIni::new();
    o.set_option("gputemp", "hot");
    assert_eq!(smc_settings(&o, &smc_config()), Err("Invalid decimal u8 'hot': invalid digit found in string".to_string()));
    o.set_option("avregion", "0xZZ");
    assert_eq!(smc_settings(&o, &smc_config()), Err("Invalid hex u16 '0xZZ': invalid digit found in string".to_string()));
}

#[test]
fn smc_autopatch_profiles() {
    assert!(auto_patches_smc("Glitch2"));
    assert!(auto_patches_smc("glitch"));
    assert!(!auto_patches_smc("glitch3"));
    assert!(!auto_patches_smc("retail"));
}

use gxbuild::gxcore::handler::{blank_layout, build_target_names};
use gxbuild::gxcore::images::blocks::NandLayout;

#[test]
fn blank_image_layouts() {
    assert_eq!(blank_layout("xenon"), NandLayout::Xsb);
    assert_eq!(blank_layout("jasperbb"), NandLayout::Bb);
    assert_eq!(blank_layout("trinitybigffs"), NandLayout::Bb);
    assert_eq!(blank_layout("trinitybb"), NandLayout::Sb);
    assert_eq!(blank_layout("winchester"), NandLayout::Emmc);
    assert_eq!(blank_layout("winchester4g"), NandLayout::Sb);
    assert_eq!(blank_layout("Xenon"), NandLayout::Sb);
}

#[test]
fn build_targets_from_ini() {
    let ini = parse_xe_ini_str("[jasperbl]\nCB.bin\n[security]\nKV.bin\n[flashfs]\nDash.XEX\n", "jasper", None).unwrap();
    assert_eq!(build_target_names(&ini), vec!["cb.bin", "kv.bin", "dash.xex"]);
}

fn loader(pairing: [u8; 3], ldv: u8) -> PerBoxLoader {
    PerBoxLoader { meta: Some(PerBoxMeta { pairing_data: pairing, lockdown_value: ldv }), data: vec![0u8; 0x400] }
}

fn no_slots() -> PerBoxSlots {
    PerBoxSlots { cb: None, cb_a: None, cb_b: None, cf_0: None, cf_1: None }
}

#[test]
fn sync_per_box_settings_cb_and_cf_ldv_are_independent() {
    let mut slots = no_slots();
    slots.cb_a = Some(loader([0x12, 0x34, 0x56], 7));
    slots.cf_0 = Some(loader([0xAA, 0xBB, 0xCC], 2));

    let pairing = Executor::resolve_pairing(&slots);
    let cb_ldv = Executor::resolve_cb_ldv(&slots).unwrap();
    let cf_ldv = Executor::resolve_cf_ldv(&None, &slots).unwrap();
    Executor::sync_per_box_settings(&mut slots, pairing, cb_ldv, cf_ldv);

    let cb_meta = slots.cb_a.as_ref().unwrap().meta.unwrap();
    let cf_meta = slots.cf_0.as_ref().unwrap().meta.unwrap();
    assert_eq!(cb_meta.pairing_data, [0x12, 0x34, 0x56]);
    assert_eq!(cb_meta.lockdown_value, 7);
    assert_eq!(cf_meta.pairing_data, [0x12, 0x34, 0x56]);
    assert_eq!(cf_meta.lockdown_value, 2);
}

#[test]
fn per_box_fallbacks() {
    let mut slots = no_slots();
    assert_eq!(Executor::resolve_pairing(&slots), [0, 0, 1]);
    assert_eq!(Executor::resolve_cb_ldv(&slots), Ok(1));
    assert_eq!(Executor::resolve_cf_ldv(&None, &slots), Ok(1));

    // a CB with zero pairing does not fall through to the CF
    slots.cb = Some(loader([0, 0, 0], 0));
    slots.cf_0 = Some(loader([9, 9, 9], 0));
    assert_eq!(Executor::resolve_pairing(&slots), [0, 0, 1]);
    assert_eq!(Executor::resolve_cb_ldv(&slots), Ok(1));
    assert_eq!(Executor::resolve_cf_ldv(&None, &slots), Ok(1));

    // a CB_A without metadata hides the single CB
    slots.cb = Some(loader([1, 2, 3], 4));
    slots.cb_a = Some(PerBoxLoader { meta: None, data: vec![] });
    assert_eq!(Executor::resolve_pairing(&slots), [9, 9, 9]);
    assert_eq!(Executor::resolve_cb_ldv(&slots), Ok(1));

    assert_eq!(Executor::resolve_cf_ldv(&Some("0x1F".to_string()), &slots), Ok(0x1F));
    assert_eq!(Executor::resolve_cf_ldv(&Some("300".to_string()), &slots), Err("Invalid decimal u8 '300': number too large to fit in target type".to_string()));
}

#[test]
fn per_box_raw_cf_bytes() {
    let mut slots = no_slots();
    slots.cf_0 = Some(PerBoxLoader { meta: None, data: vec![0u8; 0x210] });
    slots.cf_1 = Some(PerBoxLoader { meta: None, data: vec![0u8; 0x20F] });
    Executor::sync_per_box_settings(&mut slots, [0xA1, 0xA2, 0xA3], 5, 6);
    let d0 = &slots.cf_0.as_ref().unwrap().data;
    assert_eq!(&d0[0x20B..0x210], &[0, 0xA1, 0xA2, 0xA3, 6]);
    let d1 = &slots.cf_1.as_ref().unwrap().data;
    assert_eq!(&d1[0x20B..0x20F], &[0, 0xA1, 0xA2, 0xA3]);
    assert!(slots.cb.is_none());
}
use gxbuild::gxcore::handler::{PerBoxLoader, PerBoxMeta, PerBoxSlots};
use gxbuild::gxcore::handler::{KvDefaults, NandDefaults};

#[test]
fn options_default_from_nand_values() {
    let mut o = OptionsIni::new();
    o.keyvault.dvdkey = Some("keep".to_string());
    let nand = NandDefaults {
        cpukey: Some([0xAB, 0x01, 0x10, 0xFF, 0, 0, 0, 0, 0, 0, 0, 0, 0, 0, 0, 0x7E]),
        motherboard: "Trinity".to_string(),
        kv: Some(KvDefaults { region: 0x02FE, dvd_key: [0x11; 16] }),
    };
    let mut slots = no_slots();
    slots.cf_0 = Some(loader([1, 2, 3], 0));
    Executor::extract_options_from_nand(&mut o, &nand, &slots);
    assert_eq!(o.keys.cpukey.as_deref(), Some("ab0110ff00000000000000000000007e"));
    assert_eq!(o.keys.ctype.as_deref(), Some("trinity"));
    assert_eq!(o.keys.cfldv.as_deref(), Some("1"));
    assert_eq!(o.keyvault.gameregion.as_deref(), Some("0x02FE"));
    assert_eq!(o.keyvault.dvdkey.as_deref(), Some("keep"));

    let mut o2 = OptionsIni::new();
    slots.cf_0 = Some(loader([1, 2, 3], 213));
    let bare = NandDefaults { cpukey: None, motherboard: "Corona4GB".to_string(), kv: None };
    Executor::extract_options_from_nand(&mut o2, &bare, &slots);
    assert_eq!(o2.keys.cpukey, None);
    assert_eq!(o2.keys.ctype.as_deref(), Some("corona4gb"));
    assert_eq!(o2.keys.cfldv.as_deref(), Some("213"));
    assert_eq!(o2.keyvault.gameregion, None);
    assert_eq!(o2.keyvault.dvdkey, None);
}
