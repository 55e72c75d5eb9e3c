use gxbuild::gxcore::cli::{parse_key_val, resolve_ini_target, CliConsoleType};
use gxbuild::gxcore::data::filesearch::{crc32_hex, get_xebuild_crc32, hex8};
use gxbuild::gxcore::images::blocks::NandLayout;
use gxbuild::patcher::xebuild::{parse_patch_records, parse_xe_binary, XeBuildBinaryType, XeBuildPatchType};

fn pairs(v: &[(&str, &str)]) -> Vec<(String, String)> {
    v.iter().map(|(a, b)| (a.to_string(), b.to_string())).collect()
}

#[test]
fn key_val_lists() {
    assert_eq!(parse_key_val("noenter;cputemp=80"), pairs(&[("noenter", "true"), ("cputemp", "80")]));
    assert_eq!(parse_key_val(";;a=b=c;"), pairs(&[("a", "b=c")]));
    assert_eq!(parse_key_val("=x"), pairs(&[("", "x")]));
    assert!(parse_key_val("").is_empty());
}

#[test]
fn ini_target_names() {
    assert_eq!(
        resolve_ini_target("glitch2", "jasper256", None, None),
        ("_glitch2.ini".to_string(), "jasper".to_string())
    );
    assert_eq!(
        resolve_ini_target("retail", "corona4g", Some("v2"), Some("bl")),
        ("_retail_v2.ini".to_string(), "corona_bl".to_string())
    );
    assert_eq!(resolve_ini_target("jtag", "xenon", None, None).1, "xenon");
    assert_eq!(resolve_ini_target("jtag", "trinitybigffs", None, None).1, "trinity");
    assert_eq!(resolve_ini_target("jtag", "winchester4g", None, None).1, "winchester");
}

#[test]
fn console_layouts() {
    assert_eq!(CliConsoleType::xenon.layout(), NandLayout::Xsb);
    assert_eq!(CliConsoleType::falcon.layout(), NandLayout::Sb);
    assert_eq!(CliConsoleType::jasperbb.layout(), NandLayout::Bb);
    assert_eq!(CliConsoleType::corona.layout(), NandLayout::Sb);
    assert_eq!(CliConsoleType::corona4g.layout(), NandLayout::Emmc);
}

#[test]
fn hex_and_crc_text() {
    assert_eq!(hex8(0xDEADBEEF), "deadbeef");
    assert_eq!(hex8(0x1A), "0000001a");
    assert_eq!(crc32_hex(b"123456789"), "cbf43926");
}

fn bootloader_like(declared: u32) -> Vec<u8> {
    let mut d: Vec<u8> = (0..0x50usize).map(|i| ((i * 5 + 1) % 256) as u8).collect();
    d[0x0C..0x10].copy_from_slice(&declared.to_be_bytes());
    d
}

#[test]
fn xebuild_checksums() {
    assert_eq!(get_xebuild_crc32(&[1, 2, 3], "cb.bin"), "55bc801d");
    assert_eq!(get_xebuild_crc32(&bootloader_like(0), "CB_B.bin"), "ab509ebf");
    assert_eq!(get_xebuild_crc32(&bootloader_like(0), "kernel.bin"), "6fdde95e");
    assert_eq!(get_xebuild_crc32(&bootloader_like(0x1000), "kernel.bin"), "2a612d28");
    assert_eq!(get_xebuild_crc32(&bootloader_like(0x20), "cd.bin"), "8862ed81");
}

fn words(ws: &[u32]) -> Vec<u8> {
    ws.iter().flat_map(|w| w.to_be_bytes()).collect()
}

#[test]
fn xebuild_patch_records_and_routing() {
    let data = words(&[0x100, 1, 0xAABBCCDD, 0xFFFF_FFFF, 0x200, 2, 1, 2, 0xFFFF_FFFF, 0x300, 0, 0xFFFF_FFFF]);
    let sections = parse_patch_records(&data).unwrap();
    assert_eq!(sections.len(), 3);
    assert_eq!(sections[1][0].address, 0x200);
    assert_eq!(sections[1][0].data, vec![1, 2]);
    let b = parse_xe_binary(&data).unwrap();
    assert_eq!(b.xetype, XeBuildBinaryType::Rgh);
    assert_eq!(b.cb_b.as_ref().unwrap().patch_type, XeBuildPatchType::CbB);
    assert_eq!(b.khv.as_ref().unwrap().records[0].address, 0x300);
    assert!(b.onebl.is_none());

    let single = words(&[0x10, 1, 5]);
    let b = parse_xe_binary(&single).unwrap();
    assert_eq!(b.xetype, XeBuildBinaryType::Addon);
    assert_eq!(b.generic.as_ref().unwrap().records[0].data, vec![5]);

    let two = words(&[0x10, 0, 0xFFFF_FFFF, 0x20, 0]);
    assert_eq!(parse_xe_binary(&two).unwrap().xetype, XeBuildBinaryType::Unknown);
}

#[test]
fn xebuild_truncated_record_is_refused() {
    assert!(parse_patch_records(&words(&[0x10, 2, 5])).is_none());
    assert!(parse_patch_records(&[0, 0, 0, 1, 0]).is_none());
    assert!(parse_xe_binary(&words(&[0x10])).is_none());
    assert_eq!(parse_patch_records(&[1, 2, 3]).unwrap().len(), 0);
}

use gxbuild::gxcore::cli::parse_raw_patch_list;
use gxbuild::gxcore::handler::Executor;

#[test]
fn raw_patch_lists() {
    let r = parse_raw_patch_list("a.bin,0x10;;b.bin,64;bad;c,d,e;x,zz");
    assert_eq!(
        r,
        vec![
            Ok(("a.bin".to_string(), Some(16u64))),
            Ok(("b.bin".to_string(), Some(64u64))),
            Err("bad".to_string()),
            Err("c,d,e".to_string()),
            Ok(("x".to_string(), None)),
        ]
    );
    assert!(parse_raw_patch_list("").is_empty());
}

#[test]
fn u64_offsets() {
    assert_eq!(Executor::parse_u64_hex_or_dec("18446744073709551615"), Some(u64::MAX));
    assert_eq!(Executor::parse_u64_hex_or_dec("18446744073709551616"), None);
    assert_eq!(Executor::parse_u64_hex_or_dec("0xFFFFFFFFFFFFFFFF"), Some(u64::MAX));
    assert_eq!(Executor::parse_u64_hex_or_dec("0x"), None);
}

#[test]
fn flashfs_hashes_use_raw_crc32() {
    let mut data = vec![0u8; 0x260];
    let declared_len = data.len() as u32;
    data[0x0C..0x10].copy_from_slice(&declared_len.to_be_bytes());
    for (i, byte) in data.iter_mut().enumerate() {
        *byte = (i & 0xFF) as u8;
    }

    let flashfs_hash = crc32_hex(&data);
    let bootloader_hash = get_xebuild_crc32(&data, "cf_5772.bin");

    assert_eq!(flashfs_hash, crc32_hex(&data));
    // Reference values from Python's `zlib.crc32`: of the 0x260 bytes as they
    // are, and of the same bytes with 0x20..0x230 zeroed, which is what the
    // xeBuild checksum of a CF file covers (the length at 0x0C, 0x0C0D0E0F
    // after the fill, exceeds the data, so the whole file counts).
    assert_eq!(flashfs_hash, "4129b944");
    assert_eq!(bootloader_hash, "7b3a4143");
    assert_ne!(flashfs_hash, bootloader_hash);
}
