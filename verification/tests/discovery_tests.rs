use gxbuild::gxcore::data::discovery::{
    auto_patch_plan, bootloader_slot, chain_names, crc_tier_check, is_update_container, is_update_name, patch_target,
    path_steps, platform_of, select_flashfs_candidate, smc_clean_file, xebuild_tier_check, BootloaderSlot, PathStep, PatchTarget, TierVerdict,
};
use gxbuild::gxcore::data::filesearch::{crc32_hex, get_xebuild_crc32, FilesearchError};
use gxbuild::gxcore::data::xeini::parse_xe_ini_str;

fn plan(buildtype: &str, name: &str) -> Option<(String, Vec<String>)> {
    auto_patch_plan(buildtype, name).unwrap().map(|p| (p.label, p.names))
}

#[test]
fn auto_patch_plans_by_build_type() {
    assert_eq!(plan("retail", "jasper"), None);
    assert_eq!(plan("jtag", "jasper"), None);
    assert_eq!(plan("glitch1", "Trinity_4g"), Some(("Glitch1".to_string(), vec!["patches_trinity.bin".to_string()])));
    assert_eq!(plan("glitch1", "falcon"), Some(("Glitch1".to_string(), vec!["patches_fat.bin".to_string()])));
    assert_eq!(plan("glitch1", "xenon"), None);
    assert_eq!(plan("glitch2", "Jasper_bb"), Some(("Glitch2".to_string(), vec!["patches_g2jasper.bin".to_string()])));
    assert_eq!(plan("devgl", "corona"), Some(("devgl".to_string(), vec!["patches_g2mcorona.bin".to_string()])));
    assert_eq!(
        plan("glitch3", "trinity"),
        Some(("Glitch3".to_string(), vec!["patches_g3trinity.bin".to_string(), "patches_g2trinity.bin".to_string()]))
    );
    assert_eq!(plan("devkit", "xenon"), Some(("Devkit".to_string(), vec!["patches_devxenon.bin".to_string()])));
    assert_eq!(plan("rgbuild", "zephyr"), Some(("RGBuild".to_string(), vec!["patches_rgzephyr.bin".to_string()])));
    assert!(matches!(auto_patch_plan("foo", "jasper"), Err(FilesearchError::BadBuildFormat(b)) if b == "foo"));
    assert_eq!(platform_of("Corona_4G"), vec!['c', 'o', 'r', 'o', 'n', 'a']);
}

#[test]
fn missing_auto_patch_error() {
    let p = auto_patch_plan("glitch3", "trinity").unwrap().unwrap();
    match p.missing("trinity") {
        FilesearchError::NoAutoPatches(a, b, c) => {
            assert_eq!(a, "Glitch3");
            assert_eq!(b, "trinity");
            assert_eq!(c, "<build>/bin/patches_g3trinity.bin");
        },
        other => panic!("unexpected {:?}", other),
    }
}

#[test]
fn bootloader_slots_by_name() {
    assert_eq!(bootloader_slot("cba_9188.bin"), Some(BootloaderSlot::CbA));
    assert_eq!(bootloader_slot("cbb_9188.bin"), Some(BootloaderSlot::CbB));
    assert_eq!(bootloader_slot("cbx.bin"), Some(BootloaderSlot::CbX));
    assert_eq!(bootloader_slot("cb_6752.bin"), Some(BootloaderSlot::Cb));
    assert_eq!(bootloader_slot("sd_1234.bin"), Some(BootloaderSlot::Cd));
    assert_eq!(bootloader_slot("se.bin"), Some(BootloaderSlot::Ce));
    assert_eq!(bootloader_slot("sc.bin"), Some(BootloaderSlot::Sc));
    assert_eq!(bootloader_slot("sf_1.bin"), Some(BootloaderSlot::Cf0));
    assert_eq!(bootloader_slot("cg_1.bin"), Some(BootloaderSlot::Cg0));
    assert_eq!(bootloader_slot("sb_1.bin"), None);
    assert_eq!(bootloader_slot("kv.bin"), None);
    assert!(is_update_name("cf_9199.bin"));
    assert!(is_update_name("sg_1.bin"));
    assert!(!is_update_name("cf9199.bin"));
}

#[test]
fn chain_names_from_main_section() {
    let ini = parse_xe_ini_str(
        "[jasperbl]\nCB_6750.bin\nsb_1.bin\nCF_9199.bin\ncg_9199.bin\nCBB_9188.bin\n",
        "jasper",
        None,
    )
    .unwrap();
    let (cf, cg, cb) = chain_names(&ini.main);
    assert_eq!(cf, "cf_9199.bin");
    assert_eq!(cg, "cg_9199.bin");
    assert_eq!(cb.as_deref(), Some("cbb_9188.bin"));
    let plain = parse_xe_ini_str("[jasperbl]\nsb_1.bin\ncb_2.bin\n", "jasper", None).unwrap();
    let (cf, cg, cb) = chain_names(&plain.main);
    assert_eq!(cf, "cf_0.bin");
    assert_eq!(cg, "cg_0.bin");
    assert_eq!(cb.as_deref(), Some("sb_1.bin"));
}

#[test]
fn auto_patch_targets() {
    let target = Some("cbb_9188.bin".to_string());
    assert_eq!(patch_target(&"cbb_9188.bin".to_string(), &target), PatchTarget::Cb);
    assert_eq!(patch_target(&"cd_9188.bin".to_string(), &target), PatchTarget::Cd);
    assert_eq!(patch_target(&"cb_9188.bin".to_string(), &target), PatchTarget::Unpatched);
    assert_eq!(patch_target(&"sd_1.bin".to_string(), &None), PatchTarget::Cd);
}

#[test]
fn update_package_members() {
    assert!(is_update_container("xboxupd.bin"));
    assert!(is_update_container("su20076000_00000000"));
    assert!(!is_update_container("su2007.bin"));
    assert!(!is_update_container("dash.xex"));
}

#[test]
fn candidate_paths_resolve_step_by_step() {
    assert_eq!(
        path_steps("../common\\./cb.bin"),
        vec![PathStep::Pop, PathStep::Push("common".to_string()), PathStep::Push("cb.bin".to_string())]
    );
    assert_eq!(path_steps("a//b/"), vec![PathStep::Push("a".to_string()), PathStep::Push("b".to_string())]);
    assert!(path_steps("").is_empty());
}

#[test]
fn tier_checks() {
    assert_eq!(crc_tier_check(b"123456789", &None, false), TierVerdict::Accept);
    assert_eq!(crc_tier_check(b"123456789", &Some("CBF43926".to_string()), false), TierVerdict::Accept);
    assert_eq!(crc_tier_check(b"123456789", &Some("00000001".to_string()), false), TierVerdict::Mismatch);
    assert_eq!(crc_tier_check(b"123456789", &Some("00000001".to_string()), true), TierVerdict::AcceptUnsafe);
    let data = vec![7u8; 0x40];
    let good = get_xebuild_crc32(&data, "cd_1.bin").to_uppercase();
    assert_eq!(xebuild_tier_check(&data, "cd_1.bin", &Some(good), false), TierVerdict::Accept);
    assert_eq!(xebuild_tier_check(&data, "cd_1.bin", &Some("x".to_string()), false), TierVerdict::Mismatch);
}

#[test]
fn clean_smc_names() {
    assert_eq!(smc_clean_file("jasperbl_bb"), ("JASPER".to_string(), "JASPER_CLEAN.bin".to_string()));
    assert_eq!(smc_clean_file("Trinity"), ("TRINITY".to_string(), "TRINITY_CLEAN.bin".to_string()));
    assert_eq!(smc_clean_file("bl"), ("".to_string(), "_CLEAN.bin".to_string()));
}

#[test]
fn select_flashfs_candidate_tries_all_candidates_by_crc() {
    let first = b"wrong".to_vec();
    let second = b"right".to_vec();
    let expected = Some(crc32_hex(&second));

    let selected = select_flashfs_candidate(&[first.clone(), second.clone()], "dash.xex", &expected, false);

    assert_eq!(selected, Some(second));
}

#[test]
fn flashfs_candidate_selection_edges() {
    let a = b"one".to_vec();
    let b = b"two".to_vec();
    assert_eq!(select_flashfs_candidate(&[a.clone(), b.clone()], "x", &None, false), Some(a.clone()));
    let none_match = Some("00000000".to_string());
    assert_eq!(select_flashfs_candidate(&[a.clone(), b.clone()], "x", &none_match, false), None);
    assert_eq!(select_flashfs_candidate(&[a.clone(), b.clone()], "x", &none_match, true), Some(a.clone()));
    let upper = Some(crc32_hex(&b).to_uppercase());
    assert_eq!(select_flashfs_candidate(&[a, b.clone()], "x", &upper, false), Some(b));
    assert_eq!(select_flashfs_candidate(&[], "x", &None, false), None);
}
