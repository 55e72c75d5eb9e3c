use gxbuild::crypto::bn::{ExCryptBnQwNeModInv, ExCryptBnQwNeModMul, ExCryptBnQw_Copy};
use gxbuild::crypto::rsa::{
    verify_signature, ExCryptBnDwLePkcs1Format, ExCryptBnDwLePkcs1Verify, ExCryptBnQwBeSigDifference,
    ExCryptBnQwBeSigFormat, ExCryptBnQwBeSigVerify, ExCryptRsa, ExCryptRsaPub2048,
};
use gxbuild::crypto::{swap_qword, ExCryptBnQw_SwapDwQwLeBe, ExCryptMemDiff};

fn hex_bytes(s: &str) -> Vec<u8> {
    (0..s.len()).step_by(2).map(|i| u8::from_str_radix(&s[i..i + 2], 16).unwrap()).collect()
}

#[test]
fn mod_inv_inverts_odd_words() {
    for a in [1u64, 3, 0xffff_ffff_ffff_ffc5, 0x0123_4567_89ab_cdef, 0x8000_0000_0000_0001] {
        let r = ExCryptBnQwNeModInv(a);
        assert_eq!(a.wrapping_mul(r), 1, "inverse of {a:#x}");
    }
    assert_eq!(ExCryptBnQwNeModInv(0xffff_ffff_ffff_ffc5), 0x3411_5b1e_5f75_270d);
}

#[test]
fn mod_mul_matches_reference_values() {
    let a = [0x0123456789abcdefu64, 0x0fedcba987654321, 0x1111111111111111, 0x2222222222222222];
    let b = [0xdeadbeefcafebabeu64, 0x0badf00d12345678, 0x3333333333333333, 0x0444444444444444];
    let m = [0xffffffffffffffc5u64, 0xffffffffffffffff, 0xffffffffffffffff, 0x7fffffffffffffff];
    let inv = ExCryptBnQwNeModInv(m[0]);
    let mut out = [0u64; 5];
    out[4] = 0x55;
    ExCryptBnQwNeModMul(&a, &b, &mut out, inv, &m, 4);
    assert_eq!(out, [0x8197ba1113ca28a8, 0xc59639849ae3e908, 0xcde416bbae89fa07, 0x1347ebb74fab50d1, 0x55]);

    let mut one = [0u64; 1];
    ExCryptBnQwNeModMul(&a[..1], &b[..1], &mut one, inv, &m[..1], 1);
    assert_eq!(one[0], 0xcabb076dee5453f5);
}

#[test]
fn qword_copy_and_swap() {
    let src = [1u64, 2, 3];
    let mut dst = [9u64; 4];
    ExCryptBnQw_Copy(&src, &mut dst, 2);
    assert_eq!(dst, [1, 2, 9, 9]);

    let mut sw = [0u64; 3];
    ExCryptBnQw_SwapDwQwLeBe(&[0x0102030405060708, 0xff], &mut sw, 2);
    assert_eq!(sw, [0x0807060504030201, 0xff00000000000000, 0]);
    assert_eq!(swap_qword(swap_qword(0x1122334455667788)), 0x1122334455667788);
}

#[test]
fn mem_diff_is_zero_only_for_equal_prefixes() {
    assert_eq!(ExCryptMemDiff(&[1, 2, 3], &[1, 2, 3], 3), 0);
    assert_eq!(ExCryptMemDiff(&[1, 2, 3], &[1, 2, 7], 2), 0);
    assert_eq!(ExCryptMemDiff(&[1, 2, 3], &[1, 2, 7], 3), 3 ^ 7);
    assert_eq!(ExCryptMemDiff(&[0xf0], &[0x0f], 1), 0xff);
    assert_eq!(ExCryptMemDiff(&[], &[], 0), 0);
}

#[test]
fn pkcs1_block_layout() {
    let hash: [u8; 20] = core::array::from_fn(|i| i as u8 + 1);
    let mut block = vec![0xAAu8; 130];
    ExCryptBnDwLePkcs1Format(&hash, 0, &mut block, 128);
    for i in 0..20 {
        assert_eq!(block[i], hash[19 - i]);
    }
    assert_eq!(&block[20..36], &[0x14, 0x04, 0x00, 0x05, 0x1A, 0x21, 0x30, 0xE0, 0x2B, 0x05, 0x06, 0x09, 0x30, 0x21, 0x00, 0x00]);
    assert!(block[36..126].iter().all(|&b| b == 0xFF));
    assert_eq!(&block[126..], &[0x01, 0x00, 0xAA, 0xAA]);

    let mut small = vec![0x11u8; 38];
    ExCryptBnDwLePkcs1Format(&hash, 0, &mut small, 38);
    assert!(small.iter().all(|&b| b == 0x11));

    let mut f2 = vec![0u8; 40];
    ExCryptBnDwLePkcs1Format(&hash, 2, &mut f2, 40);
    assert_eq!(f2[20], 0x00);
    assert_eq!(f2[21], 0xFF);
    assert_eq!(&f2[38..], &[0x01, 0x00]);
}

#[test]
fn pkcs1_verify_accepts_own_blocks() {
    let hash: [u8; 20] = core::array::from_fn(|i| 0x30 + i as u8);
    for format in 0..3u32 {
        let mut block = vec![0u8; 64];
        ExCryptBnDwLePkcs1Format(&hash, format, &mut block, 64);
        assert_eq!(ExCryptBnDwLePkcs1Verify(&hash, &block, 64), 1, "format {format}");
        block[40] ^= 1;
        assert_eq!(ExCryptBnDwLePkcs1Verify(&hash, &block, 64), 0);
    }
    let block = vec![0u8; 38];
    assert_eq!(ExCryptBnDwLePkcs1Verify(&hash, &block, 38), 0);
}

#[test]
fn sig_format_matches_reference() {
    let hash: [u8; 20] = core::array::from_fn(|i| i as u8);
    let salt: Vec<u8> = (100..110).collect();
    let mut sig = [0u8; 256];
    ExCryptBnQwBeSigFormat(&mut sig, &hash, &salt);
    let expected = hex_bytes(
        &[
            "e24bdacb4b5de9bc225c4fe77f630f6178b7ae993ba17172c714eff9b63b4566f3d85bbd3ba2bab6a0e51575b32e423b",
            "b8d0478557070da9db3758dc119d991f36fda96e8cce66d4c0dc34c367aea5767e41d79ca595139901735df5ca130adb",
            "259ff0fcb3f8d80277387d68da5d6f0b684d789647c8e00e91447cd015fb9a374cf53283475ea438a736b8cae685f891",
            "dd669ba9cc3e17266d5fdd9b362ffeeed794b1e2ad0355648bd7e2a3844a80d6ca1af148c51fbef677a905b39defeffc",
            "4b34bebcd94d1d499856cd6e45e67d1ea3938f7072cf8c96678b2f7141155694ae59ed2373290569528c6351f10adf14",
            "428a78769d9000a329a2732103cb09f4",
        ]
        .concat(),
    );
    assert_eq!(sig.to_vec(), expected);
}

fn test_key(num_digits: u32, exponent: u32) -> ExCryptRsaPub2048 {
    let mut modulus = [0xffff_ffff_ffff_ffffu64; 32];
    modulus[0] = 0xc5ff_ffff_ffff_ffff;
    ExCryptRsaPub2048 { rsa: ExCryptRsa { num_digits, pub_exponent: exponent, reserved: 0 }, modulus }
}

#[test]
fn sig_check_rejects_unsupported_keys() {
    let hash = [7u8; 20];
    let salt = [1u8; 10];
    let original: [u8; 256] = core::array::from_fn(|i| i as u8);
    let mut sig = original;
    assert_eq!(ExCryptBnQwBeSigDifference(&mut sig, &hash, &salt, &test_key(0x20, 0x0300_0000)), -1);
    assert_eq!(sig, original);
    assert_eq!(ExCryptBnQwBeSigDifference(&mut sig, &hash, &salt, &test_key(0x2000_0000, 0x0500_0000)), -1);
    assert_eq!(sig, original);
    assert_eq!(ExCryptBnQwBeSigVerify(&mut sig, &hash, &salt, &test_key(0x20, 0x0300_0000)), 0);
    assert_eq!(verify_signature(&original, &hash, &salt, &test_key(0x20, 0x0300_0000)), Ok(false));
}

#[test]
fn sig_check_rejects_a_wrong_signature() {
    let hash = [7u8; 20];
    let salt = [1u8; 10];
    let original: [u8; 256] = core::array::from_fn(|i| (i * 7) as u8);
    for exponent in [0x0300_0000u32, 0x0100_0100] {
        let key = test_key(0x2000_0000, exponent);
        let mut sig = original;
        let d = ExCryptBnQwBeSigDifference(&mut sig, &hash, &salt, &key);
        assert!(d > 0);
        assert_ne!(sig, original);
        assert_eq!(verify_signature(&original, &hash, &salt, &key), Ok(false));
    }
}
