use gxbuild::gxcore::data::optini::parse_options_ini;
use gxbuild::gxcore::commands::{
    build_key, build_output_image, handle_clear, handle_parse_key, handle_parse_keybin, handle_session_delete,
    prepare_build_target,
};
use gxbuild::gxcore::images::blocks::{add_spare, detect_meta_type, NandLayout};
use gxbuild::gxcore::session::{InternalCommand, Session};
use std::path::PathBuf;

fn drain_ids(s: &mut Session) -> Vec<usize> {
    let mut ids = Vec::new();
    while let Some(q) = s.next_command() {
        ids.push(q.sequence_id);
    }
    ids
}

#[test]
fn queue_runs_by_priority_then_order() {
    let mut s = Session::new();
    s.build(PathBuf::from("out.bin"), 0); // 0: priority 0
    s.update(PathBuf::from("a.bin")); // 1: priority 110
    s.parse_key([0u8; 16]); // 2: priority 160
    s.list(); // 3: priority 86
    s.update(PathBuf::from("b.bin")); // 4: priority 110
    s.session_run(); // 5: priority 50
    assert_eq!(s.next_seq_id, 6);
    assert_eq!(drain_ids(&mut s), vec![2, 1, 4, 3, 5, 0]);
    assert!(s.next_command().is_none());
}

#[test]
fn priority_scores() {
    assert_eq!(InternalCommand::ParseKey { key: [0; 16] }.priority_score(), 160);
    assert_eq!(InternalCommand::ApplyEcc { path: PathBuf::new() }.priority_score(), 149);
    assert_eq!(InternalCommand::ApplySmcSignature { json: String::new() }.priority_score(), 79);
    assert_eq!(InternalCommand::Build { output: PathBuf::new(), target: 0 }.priority_score(), 0);
}

#[test]
fn take_command_removes_that_id() {
    let mut s = Session::new();
    s.list();
    s.clear();
    s.compress();
    assert!(matches!(s.take_command(1), Some(InternalCommand::Clear)));
    assert!(s.take_command(1).is_none());
    assert!(s.take_command(7).is_none());
    assert_eq!(s.queue.len(), 2);
    assert_eq!(drain_ids(&mut s), vec![0, 2]);
}

#[test]
fn session_delete_drops_only_that_id() {
    let mut s = Session::new();
    s.list();
    s.compress();
    s.clear();
    handle_session_delete(&mut s, 1);
    let ids: Vec<usize> = s.queue.iter().map(|q| q.sequence_id).collect();
    assert_eq!(ids, vec![0, 2]);
    assert_eq!(s.next_seq_id, 3);
    handle_session_delete(&mut s, 9);
    assert_eq!(s.queue.len(), 2);
}

#[test]
fn set_cpukey_queues_only_valid_keys() {
    let mut s = Session::new();
    s.set_cpukey("00112233445566778899aabbccddEEFF".to_string());
    s.set_cpukey("0011".to_string());
    s.set_cpukey("0011223344556677889900112233445G".to_string());
    assert_eq!(s.queue.len(), 1);
    match &s.queue[0].command {
        InternalCommand::ParseKey { key } => assert_eq!(
            key,
            &[0x00, 0x11, 0x22, 0x33, 0x44, 0x55, 0x66, 0x77, 0x88, 0x99, 0xAA, 0xBB, 0xCC, 0xDD, 0xEE, 0xFF]
        ),
        other => panic!("unexpected command {:?}", other),
    }
}

#[test]
fn load_options_ini_merges_and_refuses_headers() {
    let mut s = Session::new();
    s.set_console("RETAIL".to_string());
    s.load_options_ini("cpukey = abc\nnomobile = true").unwrap();
    assert_eq!(s.options.keys.cpukey.as_deref(), Some("abc"));
    assert_eq!(s.options.keys.ctype.as_deref(), Some("RETAIL"));
    assert_eq!(
        s.load_options_ini("[x]\ncpukey = def"),
        Err("Failed to parse options INI: [ini] Incorrect formatting in options.ini".to_string())
    );
    assert_eq!(s.options.keys.cpukey.as_deref(), Some("abc"));
    s.load_options_ini("cpukey = def").unwrap();
    assert_eq!(s.options.keys.cpukey.as_deref(), Some("def"));
    assert_eq!(s.options.core_builder.nomobile, Some(true));
}

#[test]
fn key_handlers_and_clear() {
    let mut s = Session::new();
    handle_parse_keybin(&mut s, None);
    assert_eq!(s.pending_key, None);
    handle_parse_key(&mut s, [7u8; 16]);
    assert_eq!(s.pending_key, Some([7u8; 16]));
    handle_parse_keybin(&mut s, Some([9u8; 16]));
    assert_eq!(s.pending_key, Some([9u8; 16]));
    s.pending_assets.insert("a".to_string(), vec![1]);
    s.list();
    handle_clear(&mut s);
    assert!(s.pending_assets.is_empty());
    assert_eq!(s.queue.len(), 1);
    assert_eq!(s.pending_key, Some([9u8; 16]));
}

#[test]
fn reset_and_clear_session() {
    let mut s = Session::new();
    s.set_build_type("glitch2".to_string());
    s.add_addon("xell".to_string());
    s.list();
    s.load_options_ini("cpukey = abc").unwrap();
    s.reset_build();
    assert_eq!(s.queue.len(), 0);
    assert_eq!(s.next_seq_id, 0);
    assert!(s.addons.is_empty());
    assert_eq!(s.options.keys.cpukey, None);
    assert_eq!(s.build_type.as_deref(), Some("glitch2"));
    s.list();
    s.session_clear();
    assert_eq!(s.queue.len(), 0);
    assert_eq!(s.next_seq_id, 0);
}

#[test]
fn session_options_override_disk_options() {
    let mut s = Session::new();
    s.load_options_ini("cpukey = user").unwrap();
    s.merge_disk_options(parse_options_ini("cpukey = disk\nnomobile = true").unwrap());
    assert_eq!(s.options.keys.cpukey.as_deref(), Some("user"));
    assert_eq!(s.options.core_builder.nomobile, Some(true));
}

use gxbuild::gxcore::commands::NandSkeleton;
use gxbuild::gxcore::session::{SessionError, SwapTarget};

#[test]
fn swap_bootloader_bypasses_the_queue() {
    let mut s = Session::new();
    match s.swap_bootloader("CB".to_string(), Ok(vec![1, 2]), false) {
        Err(SessionError::Other(m)) => assert_eq!(m, "No active NAND loaded. Cannot swap bootloader."),
        other => panic!("unexpected {:?}", other),
    }
    s.active_nand = Some(NandSkeleton {});
    let plan = s.swap_bootloader("CbA".to_string(), Ok(vec![1, 2]), true).unwrap();
    assert_eq!(plan.target, SwapTarget::CbA);
    assert!(plan.is_rebooter);
    assert_eq!(plan.data, vec![1, 2]);
    assert_eq!(s.queue.len(), 0);
    assert_eq!(s.next_seq_id, 0);
    assert_eq!(s.swap_bootloader("smc".to_string(), Ok(vec![]), false).unwrap().target, SwapTarget::Smc);
    match s.swap_bootloader("cz".to_string(), Ok(vec![]), false) {
        Err(SessionError::Other(m)) => assert_eq!(m, "Unknown bootloader type: cz"),
        other => panic!("unexpected {:?}", other),
    }
    match s.swap_bootloader("cd".to_string(), Err("gone".to_string()), false) {
        Err(SessionError::Other(m)) => assert_eq!(m, "Failed to read swap bootloader: gone"),
        other => panic!("unexpected {:?}", other),
    }
}

#[test]
fn build_needs_a_cpu_key() {
    let mut s = Session::new();
    match build_key(&s) {
        Err(SessionError::Other(m)) => assert_eq!(m, "No CPU key available for build"),
        other => panic!("unexpected {:?}", other.is_ok()),
    }
    handle_parse_key(&mut s, [7u8; 16]);
    assert_eq!(build_key(&s).ok(), Some([7u8; 16]));
}

#[test]
fn build_target_needs_type_and_console() {
    let mut s = Session::new();
    assert!(matches!(prepare_build_target(&s), Err(SessionError::BuildTypeNotSet)));
    s.build_type = Some("glitch2".to_string());
    assert!(matches!(prepare_build_target(&s), Err(SessionError::ConsoleTypeNotSet)));
    s.console_type = Some("trinity".to_string());
    let (ini, section) = prepare_build_target(&s).ok().unwrap();
    assert_eq!(ini, "_glitch2.ini");
    assert_eq!(section, "trinity");
    s.ini_ext = Some("ext".to_string());
    s.bl_ext = Some("bl".to_string());
    let (ini, section) = prepare_build_target(&s).ok().unwrap();
    assert_eq!(ini, "_glitch2_ext.ini");
    assert_eq!(section, "trinity_bl");
}

#[test]
fn build_output_gets_spare_areas_unless_noecc() {
    let clean: Vec<u8> = (0..0x400u32).map(|i| (i % 251) as u8).collect();
    let raw = build_output_image(&clean, NandLayout::Sb, Some(true));
    assert_eq!(raw, clean);
    let with_ecc = build_output_image(&clean, NandLayout::Sb, None);
    assert_eq!(with_ecc.len(), 0x420);
    assert_eq!(&with_ecc[..0x200], &clean[..0x200]);
    assert_eq!(&with_ecc[0x210..0x410], &clean[0x200..0x400]);
    let meta = detect_meta_type(&clean, NandLayout::Sb);
    assert_eq!(with_ecc, add_spare(&clean, NandLayout::Sb, meta, 0, None, None));
    assert_eq!(build_output_image(&clean, NandLayout::Sb, Some(false)), with_ecc);
}
