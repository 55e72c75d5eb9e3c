use gxbuild::gxcore::data::optini::{parse_options_ini, OptionsIni, OptionsIniError};

fn dump(o: &OptionsIni) -> String {
    format!("{:?}", o)
}

#[test]
fn options_lines_are_read() {
    let text = "type = RETAIL\r\ncpukey = 00112233445566778899AABBCCDDEEFF\nnomobile = TRUE\n; verbose = true\n# noecc = true\nverbose = no\n";
    let o = parse_options_ini(text).unwrap();
    assert_eq!(o.keys.ctype.as_deref(), Some("RETAIL"));
    assert_eq!(o.keys.cpukey.as_deref(), Some("00112233445566778899AABBCCDDEEFF"));
    assert_eq!(o.core_builder.nomobile, Some(true));
    assert_eq!(o.core.verbose, Some(false));
    assert_eq!(o.builder.verbose, Some(false));
    assert_eq!(o.core_builder.noecc, None);
    assert_eq!(o.jtag.jtag_syscall, None);
}

#[test]
fn options_keys_ignore_case_and_last_line_wins() {
    let o = parse_options_ini("CPUKEY = first\ncpukey = second;\nUnsafe = true").unwrap();
    assert_eq!(o.keys.cpukey.as_deref(), Some("second"));
    assert_eq!(o.core.gxunsafe, Some(true));
    assert_eq!(o.builder.gxunsafe, Some(true));
}

#[test]
fn options_lines_without_spaced_equals_are_skipped() {
    let o = parse_options_ini("cpukey=abc\nunknownkey = 1\ndvdkey = a = b").unwrap();
    assert_eq!(o.keys.cpukey, None);
    assert_eq!(o.keyvault.dvdkey, None);
    assert_eq!(dump(&o), dump(&OptionsIni::new()));
}

#[test]
fn options_section_header_is_refused() {
    assert_eq!(parse_options_ini("cpukey = a\n  [Options]  \n").unwrap_err(), OptionsIniError::BadOptionsFormat);
    assert!(parse_options_ini("[x").is_ok());
    assert!(parse_options_ini("").is_ok());
}

#[test]
fn set_option_aliases_and_flags() {
    let mut o = OptionsIni::new();
    o.set_option("Region", "PAL");
    o.set_option("mac", "0011");
    o.set_option("verbose", "TrUe");
    o.set_option("nomobile", "yes");
    o.set_option("nosuchoption", "1");
    assert_eq!(o.keyvault.avregion.as_deref(), Some("PAL"));
    assert_eq!(o.keyvault.macid.as_deref(), Some("0011"));
    assert_eq!(o.core.verbose, Some(true));
    assert_eq!(o.builder.verbose, Some(true));
    assert_eq!(o.core_builder.nomobile, Some(false));
}

fn sample(text: &str) -> OptionsIni {
    parse_options_ini(text).unwrap()
}

#[test]
fn merge_overrides_only_what_is_set() {
    let mut a = sample("cpukey = aaa\ntype = RETAIL\nnomobile = true");
    let b = sample("cpukey = bbb\nnoecc = true");
    a.merge(b);
    assert_eq!(a.keys.cpukey.as_deref(), Some("bbb"));
    assert_eq!(a.keys.ctype.as_deref(), Some("RETAIL"));
    assert_eq!(a.core_builder.nomobile, Some(true));
    assert_eq!(a.core_builder.noecc, Some(true));
}

#[test]
fn merge_identity_idempotence_and_associativity() {
    let a = sample("cpukey = aaa\ntype = RETAIL");
    let b = sample("cpukey = bbb\nverbose = true");
    let c = sample("type = DEVKIT\nnoecc = true");

    let mut right_empty = a.clone();
    right_empty.merge(OptionsIni::new());
    assert_eq!(dump(&right_empty), dump(&a));

    let mut left_empty = OptionsIni::new();
    left_empty.merge(a.clone());
    assert_eq!(dump(&left_empty), dump(&a));

    let mut twice = a.clone();
    twice.merge(a.clone());
    assert_eq!(dump(&twice), dump(&a));

    let mut ab_c = a.clone();
    ab_c.merge(b.clone());
    ab_c.merge(c.clone());
    let mut bc = b.clone();
    bc.merge(c.clone());
    let mut a_bc = a.clone();
    a_bc.merge(bc);
    assert_eq!(dump(&ab_c), dump(&a_bc));
}
