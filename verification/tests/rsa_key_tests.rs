use gxbuild::crypto::keys::KeyManager;
use gxbuild::crypto::rsa::{ExCryptBnQwNeRsaPrvCrypt, ExCryptBnQwNeRsaPubCrypt, ExCryptRsa};

const KEY_WORDS: [u64; 72] = [0x7789e29a69d9dcb1, 0xc9e078cf54d32666, 0x8a2763a73eeb6524, 0x7dac927a9ea1b594, 0x67738b97a9e5d5ff, 0x64e39389f2f1b06a, 0xc494ba230f31140b, 0x916f83efa3530dcb, 0x777cb25724a86791, 0xa8c2991d8c5759ae, 0x6ee7d6430ccb2608, 0x6c85e7a09d212142, 0x2be947e5b5aadf60, 0xed31e5ca042e5223, 0xe00a588f61450939, 0xdeea09d1f2963929, 0x9ef50006a43e3769, 0xeafd6a994409a232, 0x9f9bc6d3adae2c57, 0xa0d4f2e345ffb65d, 0xce6ba18b8ad12fc9, 0x928ca2ceca468e9, 0x19baa4a49f0ac017, 0xdf27b474402615f6, 0x9873a6aa03d75a09, 0x6989b3ac88ec029f, 0x8f87425fb9c25afb, 0x770623545be83c2, 0xcc63bbb911eeded9, 0xd64b960d01374711, 0x15f5b42d2c57fad0, 0xffb941d2b225999d, 0xcb1cd40025ec21f9, 0x1db318277f7457b1, 0x6bcc45359613a2ad, 0x11196cd11adc84e1, 0x7f4c941937391212, 0xa5ff4124f96edb44, 0x44d7906cdcfb546b, 0xc8cc36716083a4c1, 0x443f3fd1fa074c19, 0xd44ceebb6dfe1204, 0x37eb4312e5880faf, 0xc95cfa109dc7a02d, 0xb09af53aa95a759e, 0x68379dd6d92d0b50, 0xc66406f44670681c, 0x17bc574aba34593c, 0x3796777c07dc38b4, 0xe0f16b14cfd41d3, 0x8d69d78b494a4e5, 0xe14473bc3612b377, 0xdde1fea579b05357, 0x330100525d4968fe, 0x3f6abd37f55f345e, 0xabd5346b7071cac2, 0x898e50e43ff3f41, 0x4d24eec0c95a028e, 0x7bea7b4ca881e290, 0xf7b6c63c979d12fc, 0x9fe46f754cdc3fa5, 0xf454fdb3bcdb4fcb, 0x4deb6433f11fa4ec, 0xfe2bc9d31484ed8f, 0x1fbdda4274b5502f, 0xed662d1c08ccd796, 0xf97bb97d199c6baa, 0x891bc7067fff8ee1, 0x58888ab1a0bfdc32, 0x6fa1571d1725a22f, 0x760ffbb72fbdbeea, 0x6273b96c9998d19c];
const PLAIN: [u64; 16] = [0x3039, 0x0, 0x0, 0x0, 0x0, 0x0, 0x0, 0x0, 0x0, 0x0, 0x0, 0x0, 0x0, 0x0, 0x234567890abcdef0, 0x1];
const PUB_RESULT: [u64; 16] = [0x39, 0x30, 0x0, 0x0, 0x0, 0x0, 0x0, 0x0, 0x0, 0x0, 0x0, 0x0, 0x0, 0x0, 0xf000000000000000, 0x1234567890abcde];
const CIPHER: [u64; 16] = [0x24024a4f87389276, 0xd77a19ac2f114d61, 0xb4cfbf2e79aaa0fe, 0xd141cc32c4053904, 0xa691417325a8fe7d, 0xf9166709867069fd, 0x1b0cc83446c0707, 0x2d87f016aae7fa9f, 0xc899b318d5152117, 0x6356c34c719b83fc, 0x8ff0e15ff71008ce, 0xb859660c36daab16, 0x7fb020dd5abd9a0, 0x4bb84768c6f33fd4, 0xa98ee00f8d44cb94, 0x5358378286be5c89];
const SIGN_KEY_WORDS: [u64; 72] = [0x9e7c2bf, 0x0, 0x0, 0x0, 0x0, 0x0, 0x0, 0x0, 0xffffffffffff9b40, 0xffffffffffffffff, 0xffffffffffffffff, 0xffffffffffffffff, 0xffffffffffffffff, 0xffffffffffffffff, 0xffffffffffffffff, 0xffffffffffffffff, 0xffffffffffffceff, 0xffffffffffffffff, 0xffffffffffffffff, 0xffffffffffffffff, 0xffffffffffffffff, 0xffffffffffffffff, 0xffffffffffffffff, 0xffffffffffffffff, 0xffffffffffffcc41, 0xffffffffffffffff, 0xffffffffffffffff, 0xffffffffffffffff, 0xffffffffffffffff, 0xffffffffffffffff, 0xffffffffffffffff, 0xffffffffffffffff, 0x74418bbe7441757d, 0x74418bbe74418bbe, 0x74418bbe74418bbe, 0x74418bbe74418bbe, 0x74418bbe74418bbe, 0x74418bbe74418bbe, 0x74418bbe74418bbe, 0x74418bbe74418bbe, 0xdde4221bdde3f541, 0xdde4221bdde4221b, 0xdde4221bdde4221b, 0xdde4221bdde4221b, 0xdde4221bdde4221b, 0xdde4221bdde4221b, 0xdde4221bdde4221b, 0xdde4221bdde4221b, 0xa9353dfe8a934184, 0x353dfe8a9353dfe8, 0x3dfe8a9353dfe8a9, 0xfe8a9353dfe8a935, 0x8a9353dfe8a9353d, 0x9353dfe8a9353dfe, 0x53dfe8a9353dfe8a, 0x5fe8a9353dfe8a93, 0xe66b1994ea965a81, 0xe66b1994e66b1994, 0xe66b1994e66b1994, 0xe66b1994e66b1994, 0xe66b1994e66b1994, 0xe66b1994e66b1994, 0xe66b1994e66b1994, 0xe66b1994e66b1994, 0x6bba94456bba69de, 0x6bba94456bba9445, 0x6bba94456bba9445, 0x6bba94456bba9445, 0x6bba94456bba9445, 0x6bba94456bba9445, 0x6bba94456bba9445, 0x6bba94456bba9445];

fn hex_bytes(s: &str) -> Vec<u8> {
    (0..s.len()).step_by(2).map(|i| u8::from_str_radix(&s[i..i + 2], 16).unwrap()).collect()
}

fn stored_key(words: &[u64]) -> Vec<u8> {
    let mut b = vec![0u8, 0, 0, 0x10, 0, 1, 0, 1, 0, 0, 0, 0, 0, 0, 0, 0];
    for w in words {
        b.extend_from_slice(&w.to_le_bytes());
    }
    b
}

#[test]
fn private_key_operation_matches_reference() {
    let key = ExCryptRsa { num_digits: 0x1000_0000, pub_exponent: 0x0100_0100, reserved: 0 };
    let mut out = [0u64; 17];
    out[16] = 0x77;
    assert_eq!(ExCryptBnQwNeRsaPrvCrypt(&PLAIN, &mut out, &key, &KEY_WORDS), 1);
    assert_eq!(&out[..16], &CIPHER);
    assert_eq!(out[16], 0x77);
}

#[test]
fn private_key_operation_refuses_bad_counts() {
    let mut out = [5u64; 16];
    let key = ExCryptRsa { num_digits: 0, pub_exponent: 0x0100_0100, reserved: 0 };
    assert_eq!(ExCryptBnQwNeRsaPrvCrypt(&PLAIN, &mut out, &key, &KEY_WORDS), 0);
    let key = ExCryptRsa { num_digits: 0x4100_0000, pub_exponent: 0x0100_0100, reserved: 0 };
    assert_eq!(ExCryptBnQwNeRsaPrvCrypt(&PLAIN, &mut out, &key, &KEY_WORDS), 0);
    assert_eq!(out, [5u64; 16]);
}

#[test]
fn public_key_operation_recovers_the_plain_bytes() {
    // the 121-byte result is cut into 8-byte chunks from its first byte
    let key = ExCryptRsa { num_digits: 16, pub_exponent: 65537, reserved: 0 };
    let mut out = [0u64; 16];
    assert_eq!(ExCryptBnQwNeRsaPubCrypt(&CIPHER, &mut out, &key, &KEY_WORDS[..16]), 1);
    assert_eq!(out, PUB_RESULT);
    assert_ne!(out, PLAIN);
}

#[test]
fn public_key_operation_places_short_results_high() {
    let key = ExCryptRsa { num_digits: 2, pub_exponent: 3, reserved: 0 };
    let mut out = [9u64; 3];
    assert_eq!(ExCryptBnQwNeRsaPubCrypt(&[5, 0], &mut out, &key, &[1_000_003, 0]), 1);
    assert_eq!(out, [0, 125, 9]);
    let key1 = ExCryptRsa { num_digits: 1, pub_exponent: 3, reserved: 0 };
    let mut one = [0u64; 1];
    ExCryptBnQwNeRsaPubCrypt(&[12345], &mut one, &key1, &[1_000_003]);
    assert_eq!(one[0], 12345u64.pow(3) % 1_000_003);
}

#[test]
fn key_manager_private_operation_and_signing() {
    let mut km = KeyManager::new();
    let mut out = [0u64; 16];
    assert_eq!(km.qw_ne_rsa_prv_crypt(0x33, &PLAIN, &mut out), 0);
    km.set_key(0x33, &stored_key(&KEY_WORDS));
    assert_eq!(km.qw_ne_rsa_prv_crypt(0x34, &PLAIN, &mut out), 0);
    assert_eq!(km.qw_ne_rsa_prv_crypt(0x33, &PLAIN, &mut out), 1);
    assert_eq!(out, CIPHER);

    let hash: [u8; 20] = core::array::from_fn(|i| i as u8);
    let mut cert_sig = vec![0xCCu8; 0x230];
    // the padded block exceeds this modulus, so the operation fails
    assert_eq!(km.console_private_key_sign(&hash, &mut cert_sig), 0);
    assert!(cert_sig.iter().all(|&b| b == 0xCC));

    km.set_key(0x33, &stored_key(&SIGN_KEY_WORDS));
    assert_eq!(km.console_private_key_sign(&hash, &mut cert_sig), 1);
    assert!(cert_sig[..0x1A8].iter().all(|&b| b == 0xCC));
    assert_eq!(cert_sig[0x1A8..0x228].to_vec(), hex_bytes("33166cdf05b723cb7d58ea00693d0b4d714787d94c67efedf030f8d1bed727bc26d2a35b1679c1eea815b6a23d1b8f59a2daea6cd73ca2def378882aafa79dedf7b54ec6b3eb829296cf0d7657deb0499eeaf86ebd3870dc549cbb9673f9fd19a22ca362031b075cc3e01e09fb6ecc91b635f521ac4372d9c5bd4b8394a99b5b"));
    assert_eq!(&cert_sig[0x228..], &[0xCC; 8]);
}
