use gxbuild::crypto::aes::Aes;
use gxbuild::crypto::keys::{key_properties, KeyManager, XeKey, ROAMABLE_KEY_DEVKIT, ROAMABLE_KEY_RETAIL};
use gxbuild::crypto::rc4::Rc4;
use gxbuild::crypto::sha::{calculate_smc_hash, hmac_sha, rot_sum_sha, sha, ExCryptHmacSha, ExCryptRotSumSha, ExCryptSha};
use gxbuild::crypto::CryptoError;

fn hex(s: &str) -> Vec<u8> {
    (0..s.len()).step_by(2).map(|i| u8::from_str_radix(&s[i..i + 2], 16).unwrap()).collect()
}

#[test]
fn rc4_known_vector() {
    let mut c = Rc4::new(b"Key").unwrap();
    let mut data = b"Plaintext".to_vec();
    c.crypt(&mut data).unwrap();
    assert_eq!(data, hex("bbf316e8d940af0ad3"));
}

#[test]
fn rc4_twice_with_same_key_gives_data_back() {
    let original = b"the quick brown fox jumps over the lazy dog".to_vec();
    let mut data = original.clone();
    Rc4::new(&[1, 2, 3, 4, 5]).unwrap().crypt(&mut data).unwrap();
    assert_ne!(data, original);
    Rc4::new(&[1, 2, 3, 4, 5]).unwrap().crypt(&mut data).unwrap();
    assert_eq!(data, original);
}

#[test]
fn rc4_keystream_continues_across_calls() {
    let mut whole = b"Plaintext".to_vec();
    Rc4::new(b"Key").unwrap().crypt(&mut whole).unwrap();
    let mut c = Rc4::new(b"Key").unwrap();
    let mut a = b"Plain".to_vec();
    let mut b = b"text".to_vec();
    c.crypt(&mut a).unwrap();
    c.crypt(&mut b).unwrap();
    a.extend_from_slice(&b);
    assert_eq!(a, whole);
}

#[test]
fn rc4_empty_key_is_refused() {
    assert!(matches!(Rc4::new(&[]), Err(CryptoError::InvalidKeySize { expected: 1, got: 0 })));
}

#[test]
fn sha_of_abc() {
    let h = sha(&[b"abc"]).unwrap();
    assert_eq!(h.to_vec(), hex("a9993e364706816aba3e25717850c26c9cd0d89d"));
}

#[test]
fn sha_concatenates_its_first_three_inputs() {
    let whole = sha(&[b"abcdef"]).unwrap();
    assert_eq!(sha(&[b"ab", b"cd", b"ef"]).unwrap(), whole);
    assert_eq!(sha(&[b"ab", b"cd", b"ef", b"ignored"]).unwrap(), whole);
}

#[test]
fn hmac_sha_rfc2202_case_two() {
    let h = hmac_sha(b"Jefe", &[b"what do ya ", b"want for nothing?"]).unwrap();
    assert_eq!(h.to_vec(), hex("effcdf6ae5eb2fa2d27416d5f184df9c259a7c79"));
}

#[test]
fn smc_hash_of_one_word() {
    let h = calculate_smc_hash(&[0, 0, 0, 1]);
    assert_eq!(h.to_vec(), hex("0000000020000000ffffffffffffffff"));
}

#[test]
fn smc_hash_ignores_trailing_bytes() {
    let h = calculate_smc_hash(&[1, 2, 3, 4, 5, 6, 7, 8, 9]);
    assert_eq!(h.to_vec(), hex("10a0c0e10004080c3d7cfc7bffbf7f3f"));
    assert_eq!(calculate_smc_hash(&[1, 2, 3, 4, 5, 6, 7, 8]), h);
    assert_eq!(calculate_smc_hash(&[]), [0u8; 16]);
}

#[test]
fn aes_cbc_known_vector_and_roundtrip() {
    let key = hex("2b7e151628aed2a6abf7158809cf4f3c");
    let mut iv = [0u8; 16];
    for (i, b) in iv.iter_mut().enumerate() {
        *b = i as u8;
    }
    let plain = hex("6bc1bee22e409f96e93d7e117393172a");
    let mut aes = Aes::new(&key).unwrap();
    let mut data = plain.clone();
    aes.encrypt_cbc(&mut data, &iv).unwrap();
    assert_eq!(data, hex("7649abac8119b246cee98e9b12e9197d"));
    aes.decrypt_cbc(&mut data, &iv).unwrap();
    assert_eq!(data, plain);
}

#[test]
fn aes_key_must_be_sixteen_bytes() {
    assert!(matches!(Aes::new(&[0u8; 15]), Err(CryptoError::InvalidKeySize { expected: 16, got: 15 })));
    assert!(Aes::new(&[0u8; 16]).is_ok());
}

#[test]
fn key_properties_table() {
    assert_eq!(key_properties(0x0), Some((0x8, 0x1)));
    assert_eq!(key_properties(0x19), Some((0xE0, 0x10)));
    assert_eq!(key_properties(0x36), Some((0x9B8, 0x1A8)));
    assert_eq!(key_properties(0x44), Some((0x1DF8, 0x100)));
    assert_eq!(key_properties(0x39), None);
    assert_eq!(XeKey::ConsoleCertificate.id(), 0x36);
    assert_eq!(XeKey::ConstantMasterKey.id(), 0x3C);
}

fn vault_with_console_type(len: usize, header: usize, console_type: u32) -> Vec<u8> {
    let mut v: Vec<u8> = (0..len).map(|i| (i % 251) as u8).collect();
    let at = header + 0x9D0;
    v[at..at + 4].copy_from_slice(&console_type.to_be_bytes());
    v
}

#[test]
fn key_vault_short_is_refused() {
    let mut km = KeyManager::new();
    assert_eq!(km.load_vault(&[0u8; 0x3FEF]), Err(CryptoError::FfiError));
    assert_eq!(km.get_key(XeKey::DvdKey), Err(CryptoError::FfiError));
}

#[test]
fn key_vault_retail_sets_roamable_key() {
    let data = vault_with_console_type(0x3FF0, 0, 2);
    let mut km = KeyManager::new();
    km.load_vault(&data).unwrap();
    assert_eq!(km.get_key(XeKey::RoamableObfuscationKey).unwrap(), ROAMABLE_KEY_RETAIL.to_vec());
    assert_eq!(km.get_key(XeKey::DvdKey).unwrap(), data[0xF0..0x100].to_vec());
    assert_eq!(km.get_key(XeKey::ConstantMasterKey), Err(CryptoError::FfiError));
}

#[test]
fn key_vault_with_header_skips_it_and_uses_devkit_key() {
    let data = vault_with_console_type(0x4000, 0x10, 1);
    let mut km = KeyManager::new();
    km.load_vault(&data).unwrap();
    assert_eq!(km.get_key(XeKey::RoamableObfuscationKey).unwrap(), ROAMABLE_KEY_DEVKIT.to_vec());
    assert_eq!(km.get_key(XeKey::ManufacturingMode).unwrap(), vec![data[0x18]]);
}

#[test]
fn rot_sum_sha_reference_values() {
    let a: Vec<u8> = (0..20).collect();
    let b: Vec<u8> = (200..216).collect();
    assert_eq!(rot_sum_sha(&a, &b).unwrap().to_vec(), hex("0e372537148de6ea0b5bd804c80237e43802cab5"));
    assert_eq!(rot_sum_sha(&[], &[]).unwrap().to_vec(), hex("c1f48a59c2629f48b955483785512db79040b3c1"));
}

#[test]
fn obfuscation_with_an_imported_key() {
    let mut km = KeyManager::new();
    km.set_key(0x17, &[0x42; 16]);
    let obf = km.obfuscate(b"hello world", false).unwrap();
    assert_eq!(obf, hex("a341aa7ca2cd02ce5f3ebca7e6b42d401301a27c2dac2a1445154b30438458e143b01b"));
    assert_eq!(km.unobfuscate(&obf, false).unwrap(), b"hello world".to_vec());
    let mut bad = obf.clone();
    bad[30] ^= 1;
    assert_eq!(km.unobfuscate(&bad, false), Err(CryptoError::FfiError));
    assert_eq!(km.unobfuscate(&obf[..0x17], false), Err(CryptoError::FfiError));
}

#[test]
fn obfuscation_without_a_key_uses_zero_tags() {
    let km = KeyManager::new();
    let obf = km.obfuscate(b"abc", true).unwrap();
    assert_eq!(obf, hex("0000000000000000000000000000000065a332fa188ce681eb647d"));
    assert_eq!(km.unobfuscate(&obf, true).unwrap(), b"abc".to_vec());
    assert_eq!(km.unobfuscate(&obf, false).unwrap(), b"abc".to_vec());
}

#[test]
fn imported_keys_take_precedence() {
    let data = vault_with_console_type(0x3FF0, 0, 2);
    let mut km = KeyManager::new();
    assert!(!km.is_key_supported(0x1A));
    assert_eq!(km.get_key_properties(0x1A), 0);
    assert_eq!(km.console_type(), 0);
    km.set_key(0x3C, &[1, 2, 3]);
    assert!(km.is_key_supported(0x3C));
    assert_eq!(km.get_key_properties(0x3C), 3);
    assert_eq!(km.get_key(XeKey::ConstantMasterKey).unwrap(), vec![1, 2, 3]);
    km.set_key(0x3C, &[9]);
    assert_eq!(km.get_key(XeKey::ConstantMasterKey).unwrap(), vec![9]);

    km.load_vault(&data).unwrap();
    assert!(km.is_key_supported(0x1A));
    assert_eq!(km.get_key_properties(0x1A), 0x10);
    assert_eq!(km.console_type(), 2);
    assert_eq!(km.key(0x1A).unwrap(), data[0xF0..0x100].to_vec());

    // an imported roamable key receives the roamable key on the next load
    km.set_key(0x19, &[0u8; 18]);
    let mut cert = vec![0u8; 0x1C];
    cert[0x1B] = 1;
    km.set_key(0x36, &cert);
    assert_eq!(km.console_type(), 1);
    km.load_vault(&data).unwrap();
    let mut expected = ROAMABLE_KEY_DEVKIT.to_vec();
    expected.extend_from_slice(&[0, 0]);
    assert_eq!(km.get_key(XeKey::RoamableObfuscationKey).unwrap(), expected);
    assert_eq!(km.key(0x19).unwrap().len(), 18);
}

#[test]
fn console_id_from_the_certificate() {
    let mut km = KeyManager::new();
    assert_eq!(km.console_id(), None);
    km.set_key(0x36, &[0, 0, 0x12, 0x34, 0x56, 0x78, 0x9A]);
    let (raw, text) = km.console_id().unwrap();
    assert_eq!(raw, [0x12, 0x34, 0x56, 0x78, 0x9A]);
    assert_eq!(text, "04886718345a");
    km.set_key(0x36, &[0, 0, 0, 0, 0, 0, 0x1F]);
    assert_eq!(km.console_id().unwrap().1, "00000000001f");
}

#[test]
fn obscured_keys_use_aes_under_the_key_obfuscation_key() {
    let mut km = KeyManager::new();
    let kok: Vec<u8> = (0u8..16).collect();
    km.set_key(0x18, &kok);
    let plain: [u8; 16] = hex("00112233445566778899aabbccddeeff").try_into().unwrap();
    let obscured = km.obscure_key(&plain);
    assert_eq!(obscured.to_vec(), hex("69c4e0d86a7b0430d8cdb78070b4c55a"));
    let via_obscured = km.hmac_sha_using_key(&obscured, &[b"data"]);
    assert_eq!(via_obscured, hmac_sha(&plain, &[b"data"]).unwrap());
    km.set_key(0x20, &plain);
    assert_eq!(km.hmac_sha(0x20, &[b"da", b"ta"]), Some(via_obscured));
    assert_eq!(km.hmac_sha(0x21, &[b"data"]), None);
}

#[test]
fn digest_outputs_are_truncated_to_the_buffer() {
    let mut out = [0xEEu8; 24];
    ExCryptSha(&[b"a", b"bc"], &mut out, 24);
    assert_eq!(out[..20].to_vec(), hex("a9993e364706816aba3e25717850c26c9cd0d89d"));
    assert_eq!(&out[20..], &[0xEE; 4]);
    let mut short = [0u8; 5];
    ExCryptSha(&[b"abc"], &mut short, 4);
    assert_eq!(short.to_vec(), hex("a9993e3600"));

    let mut mac = [0u8; 20];
    ExCryptHmacSha(b"Jefe", &[b"what do ya want ", b"for nothing?"], &mut mac, 20);
    assert_eq!(mac.to_vec(), hex("effcdf6ae5eb2fa2d27416d5f184df9c259a7c79"));
}

#[test]
fn rot_sum_sha_agrees_with_xecrypt() {
    let a: Vec<u8> = (0..20).collect();
    let b: Vec<u8> = (200..216).collect();
    let mut out = [0u8; 20];
    ExCryptRotSumSha(&a, &b, &mut out, 20);
    assert_eq!(out, rot_sum_sha(&a, &b).unwrap());
    let mut out2 = [0u8; 20];
    ExCryptRotSumSha(&[], &[1, 2, 3, 4, 5, 6, 7, 8, 9], &mut out2, 20);
    assert_eq!(out2, rot_sum_sha(&[], &[1, 2, 3, 4, 5, 6, 7, 8, 9]).unwrap());
}
