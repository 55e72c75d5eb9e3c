use gxbuild::gxcore::images::stfs::{assemble_extraction, check_pirs_magic, collect_extracted, open_failure_text};

#[test]
fn missing_magic_is_refused_before_opening() {
    for data in [&b"LIVE0000"[..], &b"PI"[..], &b"ABCD"[..], &b""[..]] {
        assert_eq!(check_pirs_magic(data), Err("Invalid STFS signature: Expected 'PIRS'".to_string()));
    }
    assert_eq!(check_pirs_magic(b"PIRS"), Ok(()));
    assert_eq!(check_pirs_magic(b"PIRS\x00\x01"), Ok(()));
}

#[test]
fn open_failures_name_the_reason() {
    assert_eq!(open_failure_text("bad header"), "Failed to open STFS package: bad header");
}

#[test]
fn extracted_files_are_keyed_by_lowercase_name() {
    let files = vec![
        ("$FLASH_Foo.bin".to_string(), vec![1u8]),
        ("Bar".to_string(), vec![3u8]),
        ("foo.BIN".to_string(), vec![2u8]),
        ("$flash_".to_string(), vec![4u8]),
        ("$flas".to_string(), vec![5u8]),
    ];
    let kept = collect_extracted(files);
    assert_eq!(
        kept,
        vec![
            ("foo.bin".to_string(), vec![2u8]),
            ("bar".to_string(), vec![3u8]),
            ("".to_string(), vec![4u8]),
            ("$flas".to_string(), vec![5u8]),
        ]
    );
}

#[test]
fn extraction_outcomes_report_the_first_failure() {
    let outcomes = vec![
        ("A.bin".to_string(), String::new(), Ok(vec![1u8])),
        ("b.bin".to_string(), "dir/b.bin".to_string(), Err("bad block".to_string())),
        ("c.bin".to_string(), "c.bin".to_string(), Err("other".to_string())),
    ];
    assert_eq!(assemble_extraction(outcomes), Err("Failed to extract file 'dir/b.bin': bad block".to_string()));
}

#[test]
fn extraction_outcomes_keep_every_file() {
    let outcomes = vec![
        ("$FLASH_A.bin".to_string(), String::new(), Ok(vec![1u8])),
        ("B".to_string(), String::new(), Ok(vec![2u8])),
        ("a.BIN".to_string(), String::new(), Ok(vec![3u8])),
    ];
    assert_eq!(
        assemble_extraction(outcomes),
        Ok(vec![("a.bin".to_string(), vec![3u8]), ("b".to_string(), vec![2u8])])
    );
    assert_eq!(assemble_extraction(vec![]), Ok(vec![]));
}
