use gxbuild::gxcore::images::signature::{Signature, SignatureError};

#[test]
fn test_signature_basic() {
    let sig = Signature::from_hex(Some("test"), "AA ?? CC", "00 ?? 11").unwrap();
    let mut data = vec![0xBB, 0xAA, 0x22, 0xCC, 0xDD];

    let count = sig.apply(&mut data);
    assert_eq!(count, 1);
    assert_eq!(data, vec![0xBB, 0x00, 0x22, 0x11, 0xDD]);
}

#[test]
fn test_batch_apply() {
    let json = r#"{
            "AA ?? CC": "00 ?? 11",
            "FF EE": "22 33"
        }"#;
    let mut data = vec![0xAA, 0x99, 0xCC, 0xFF, 0xEE];
    let count = Signature::apply_batch(&mut data, json).unwrap();
    assert_eq!(count, 2);
    assert_eq!(data, vec![0x00, 0x99, 0x11, 0x22, 0x33]);
}

#[test]
fn hex_parse_errors() {
    assert_eq!(Signature::from_hex(None, "AAB", "00").err(), Some(SignatureError::OddLength));
    assert_eq!(Signature::from_hex(None, "ZZ", "00").err(), Some(SignatureError::InvalidByte(b'Z', b'Z')));
    assert_eq!(Signature::from_hex(None, "AA BB", "00").err(), Some(SignatureError::LengthMismatch(2, 1)));
    // A leading '+' is accepted as by `u8::from_str_radix`.
    let sig = Signature::from_hex(None, "+F..", "0a..").unwrap();
    assert_eq!(sig.pattern, vec![Some(0x0F), None]);
    assert_eq!(sig.replacement, vec![Some(0x0A), None]);
}

#[test]
fn overlapping_matches_resume_after_patch() {
    let sig = Signature::from_hex(None, "AA AA", "BB BB").unwrap();
    let mut data = vec![0xAA, 0xAA, 0xAA, 0xAA, 0xAA];
    assert_eq!(sig.apply(&mut data), 2);
    assert_eq!(data, vec![0xBB, 0xBB, 0xBB, 0xBB, 0xAA]);
}

#[test]
fn batch_skips_invalid_entries() {
    let mut data = vec![0x01, 0x02];
    let json = "{ \"01\": \"03\", \"zz\": \"00\", \"02\" }";
    assert_eq!(Signature::apply_batch(&mut data, json).unwrap(), 1);
    assert_eq!(data, vec![0x03, 0x02]);
}
