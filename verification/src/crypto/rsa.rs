//! RSA key and signature layouts of the console crypto library.

use vstd::prelude::*;
use crate::crypto::rc4::{keystream, ksa, xor_bytes, Rc4};
use crate::crypto::sha::{be_bytes64, sha1_digest, sha1_of};
use crate::crypto::bn::{
    be_value, bn_to_qw_spec, bytes_to_qw, digit, lemma_value_digit, min_be_bytes, mod_inv_spec, mod_mul_spec,
    nat_pow, qw_be_bytes, qw_to_be_bytes, words_value, ExCryptBnQwNeModInv, ExCryptBnQwNeModMul,
};
use crate::crypto::{
    be_word, bswap32, bswap64, mem_diff_spec, read_be_word, swap_dword, swap_qword, CryptoError, ExCryptMemDiff,
};

verus! {

pub struct ExCryptRsa {
    pub num_digits: u32,
    pub pub_exponent: u32,
    pub reserved: u64,
}

pub struct ExCryptRsaPub1024 {
    pub rsa: ExCryptRsa,
    pub modulus: [u64; 16],
}

pub struct ExCryptRsaPub2048 {
    pub rsa: ExCryptRsa,
    pub modulus: [u64; 32],
}

pub struct ExCryptRsaPrv1024 {
    pub rsa: ExCryptRsa,
    pub modulus: [u64; 16],
    pub prime1: [u64; 8],
    pub prime2: [u64; 8],
    pub exponent1: [u64; 8],
    pub exponent2: [u64; 8],
    pub coefficient: [u64; 8],
    pub priv_exponent: [u64; 16],
}

pub struct ExCryptSig {
    pub padding: [u64; 28],
    pub one: u8,
    pub salt: [u8; 10],
    pub hash: [u8; 20],
    pub end: u8,
}

/// The digest-info bytes that follow the reversed hash in a PKCS #1 block:
/// SHA-1's for format 0, a shorter form for format 1, one zero byte for
/// format 2, none for any other format.
pub open spec fn pkcs1_digest_info(format: u32) -> Seq<u8> {
    if format == 0 {
        seq![0x14u8, 0x04, 0x00, 0x05, 0x1A, 0x21, 0x30, 0xE0, 0x2B, 0x05, 0x06, 0x09, 0x30, 0x21, 0x00, 0x00]
    } else if format == 1 {
        seq![0x14u8, 0x04, 0x1A, 0x02, 0x03, 0x0E, 0x2B, 0x05, 0x06, 0x07, 0x30, 0x1F, 0x30, 0x00]
    } else if format == 2 {
        seq![0x00u8]
    } else {
        Seq::empty()
    }
}

/// Byte `i` of a little-endian PKCS #1 block of `size` bytes: the hash
/// reversed, then the digest info, then 0xFF padding, ending in `01 00`.
pub open spec fn pkcs1_byte(hash: Seq<u8>, format: u32, size: int, i: int) -> u8 {
    let info = pkcs1_digest_info(format);
    if i == size - 1 {
        0x00
    } else if i == size - 2 {
        0x01
    } else if i < 20 {
        hash[19 - i]
    } else if i < 20 + info.len() {
        info[i - 20]
    } else {
        0xFF
    }
}

pub open spec fn pkcs1_block(hash: Seq<u8>, format: u32, size: nat) -> Seq<u8> {
    Seq::new(size, |i: int| pkcs1_byte(hash, format, size as int, i))
}

/// Sizes a PKCS #1 block can have: 39 to 512 bytes.
pub open spec fn pkcs1_size_ok(size: u32) -> bool {
    39 <= size <= 512
}

fn digest_info(format: u32) -> (r: Vec<u8>)
    ensures
        r@ == pkcs1_digest_info(format),
{
    if format == 0 {
        let v = vec![0x14u8, 0x04, 0x00, 0x05, 0x1A, 0x21, 0x30, 0xE0, 0x2B, 0x05, 0x06, 0x09, 0x30, 0x21, 0x00, 0x00];
        assert(v@ =~= pkcs1_digest_info(format));
        v
    } else if format == 1 {
        let v = vec![0x14u8, 0x04, 0x1A, 0x02, 0x03, 0x0E, 0x2B, 0x05, 0x06, 0x07, 0x30, 0x1F, 0x30, 0x00];
        assert(v@ =~= pkcs1_digest_info(format));
        v
    } else if format == 2 {
        let v = vec![0x00u8];
        assert(v@ =~= pkcs1_digest_info(format));
        v
    } else {
        let v: Vec<u8> = Vec::new();
        assert(v@ =~= pkcs1_digest_info(format));
        v
    }
}

/// Writes the PKCS #1 block for `hash` into the first `output_sig_size` bytes of
/// `output_sig`; a size outside 39..=512 leaves the buffer as it was.
#[allow(non_snake_case)]
pub fn ExCryptBnDwLePkcs1Format(hash: &[u8; 20], format: u32, output_sig: &mut [u8], output_sig_size: u32)
    requires
        old(output_sig)@.len() >= output_sig_size,
    ensures
        final(output_sig)@.len() == old(output_sig)@.len(),
        !pkcs1_size_ok(output_sig_size) ==> final(output_sig)@ == old(output_sig)@,
        pkcs1_size_ok(output_sig_size) ==> final(output_sig)@ == pkcs1_block(hash@, format, output_sig_size as nat)
            + old(output_sig)@.skip(output_sig_size as int),
{
    if output_sig_size < 39 || output_sig_size - 39 > 473 {
        return;
    }
    let size = output_sig_size as usize;
    let info = digest_info(format);
    let mut i: usize = 0;
    while i < size
        invariant
            i <= size,
            size == output_sig_size,
            39 <= size <= 512,
            info@ == pkcs1_digest_info(format),
            output_sig@.len() == old(output_sig)@.len(),
            old(output_sig)@.len() >= size,
            forall|q: int| 0 <= q < i ==> output_sig@[q] == pkcs1_byte(hash@, format, size as int, q),
            forall|q: int| i <= q < output_sig@.len() ==> output_sig@[q] == old(output_sig)@[q],
        decreases size - i,
    {
        let b: u8 = if i == size - 1 {
            0x00
        } else if i == size - 2 {
            0x01
        } else if i < 20 {
            hash[19 - i]
        } else if i < 20 + info.len() {
            info[i - 20]
        } else {
            0xFF
        };
        output_sig[i] = b;
        i += 1;
    }
    assert(output_sig@ =~= pkcs1_block(hash@, format, output_sig_size as nat) + old(output_sig)@.skip(
        output_sig_size as int,
    ));
}

/// The format a PKCS #1 block declares by its byte 0x16.
pub open spec fn pkcs1_format_of(b: u8) -> u32 {
    if b == 0 {
        0
    } else if b == 0x1A {
        1
    } else {
        2
    }
}

/// Checks a PKCS #1 block against the one `hash` gives in the format the block
/// declares: 1 when the first `input_sig_size` bytes match, 0 otherwise or
/// when the size is outside 39..=512.
#[allow(non_snake_case)]
pub fn ExCryptBnDwLePkcs1Verify(hash: &[u8; 20], input_sig: &[u8], input_sig_size: u32) -> (r: i32)
    requires
        input_sig@.len() >= input_sig_size,
    ensures
        r == (if pkcs1_size_ok(input_sig_size) && input_sig@.take(input_sig_size as int) == pkcs1_block(
            hash@,
            pkcs1_format_of(input_sig@[0x16]),
            input_sig_size as nat,
        ) {
            1i32
        } else {
            0i32
        }),
{
    if input_sig_size < 39 || input_sig_size - 39 > 473 {
        return 0;
    }
    let size = input_sig_size as usize;
    let format: u32 = if input_sig[0x16] == 0 {
        0
    } else if input_sig[0x16] == 0x1A {
        1
    } else {
        2
    };
    assert(format == pkcs1_format_of(input_sig@[0x16]));
    let mut test_sig: Vec<u8> = vec![0u8; size];
    ExCryptBnDwLePkcs1Format(hash, format, test_sig.as_mut_slice(), input_sig_size);
    assert(test_sig@.skip(size as int) =~= Seq::<u8>::empty());
    assert(test_sig@ =~= pkcs1_block(hash@, format, size as nat));
    let mut k: usize = 0;
    while k < size
        invariant
            k <= size,
            size == input_sig_size,
            input_sig@.len() >= size,
            test_sig@ == pkcs1_block(hash@, format, size as nat),
            format == pkcs1_format_of(input_sig@[0x16]),
            forall|q: int| 0 <= q < k ==> input_sig@[q] == test_sig@[q],
        decreases size - k,
    {
        if input_sig[k] != test_sig[k] {
            assert(input_sig@.take(size as int)[k as int] != pkcs1_block(hash@, format, size as nat)[k as int]);
            return 0;
        }
        k += 1;
    }
    assert(input_sig@.take(size as int) =~= pkcs1_block(hash@, format, size as nat));
    1
}

/// The digest inside a signature block: SHA-1 over eight zero bytes, the hash
/// and the ten salt bytes.
pub open spec fn sig_salted_hash(hash: Seq<u8>, salt: Seq<u8>) -> Seq<u8> {
    sha1_digest(Seq::new(8, |i: int| 0u8) + hash + salt.take(10))
}

/// The 256-byte signature block before masking: zero padding, a one, the salt,
/// the salted digest and the trailer 0xBC.
pub open spec fn sig_block(hash: Seq<u8>, salt: Seq<u8>) -> Seq<u8> {
    Seq::new(224, |i: int| 0u8) + seq![1u8] + salt.take(10) + sig_salted_hash(hash, salt) + seq![0xBCu8]
}

/// The block with its first 0xEB bytes RC4-masked under the salted digest and
/// the top bit of the first byte cleared.
pub open spec fn sig_masked(hash: Seq<u8>, salt: Seq<u8>) -> Seq<u8> {
    let b = sig_block(hash, salt);
    let h = sig_salted_hash(hash, salt);
    let x = xor_bytes(b.take(0xEB), keystream((ksa(h, 256).0, 0u8, 0u8), 0xEB).1) + b.skip(0xEB);
    x.update(0, x[0] & 0x7F)
}

/// The 32 eight-byte groups of a 256-byte buffer in reverse order.
pub open spec fn qwords_reversed(x: Seq<u8>) -> Seq<u8> {
    Seq::new(256, |i: int| x[8 * (31 - i / 8) + i % 8])
}

/// The expected signature for a hash and salt.
pub open spec fn sig_format_spec(hash: Seq<u8>, salt: Seq<u8>) -> Seq<u8> {
    qwords_reversed(sig_masked(hash, salt))
}

/// Builds the salted, masked signature block for `hash` into `sig`.
#[allow(non_snake_case)]
pub fn ExCryptBnQwBeSigFormat(sig: &mut [u8; 256], hash: &[u8; 20], salt: &[u8])
    requires
        salt@.len() >= 10,
    ensures
        final(sig)@ == sig_format_spec(hash@, salt@),
{
    let mut pre: Vec<u8> = Vec::new();
    let mut i: usize = 0;
    while i < 8
        invariant
            i <= 8,
            pre@ == Seq::new(i as nat, |q: int| 0u8),
        decreases 8 - i,
    {
        pre.push(0u8);
        i += 1;
        assert(pre@ =~= Seq::new(i as nat, |q: int| 0u8));
    }
    i = 0;
    while i < 20
        invariant
            i <= 20,
            pre@ == Seq::new(8, |q: int| 0u8) + hash@.take(i as int),
        decreases 20 - i,
    {
        pre.push(hash[i]);
        i += 1;
        assert(pre@ =~= Seq::new(8, |q: int| 0u8) + hash@.take(i as int));
    }
    i = 0;
    while i < 10
        invariant
            i <= 10,
            salt@.len() >= 10,
            pre@ == Seq::new(8, |q: int| 0u8) + hash@ + salt@.take(i as int),
        decreases 10 - i,
    {
        pre.push(salt[i]);
        i += 1;
        assert(pre@ =~= Seq::new(8, |q: int| 0u8) + hash@ + salt@.take(i as int));
    }
    assert(hash@.take(20) =~= hash@);
    let h = sha1_of(pre.as_slice());
    assert(h@ == sig_salted_hash(hash@, salt@));
    let ghost blk = sig_block(hash@, salt@);
    let mut head: Vec<u8> = vec![0u8; 0xEB];
    head.set(224, 1u8);
    i = 0;
    while i < 10
        invariant
            i <= 10,
            salt@.len() >= 10,
            head@.len() == 0xEB,
            forall|q: int| 0 <= q < 224 ==> head@[q] == 0u8,
            head@[224] == 1u8,
            forall|q: int| 0 <= q < i ==> head@[225 + q] == salt@[q],
            forall|q: int| 225 + i <= q < 0xEB ==> head@[q] == 0u8,
        decreases 10 - i,
    {
        head.set(225 + i, salt[i]);
        i += 1;
    }
    assert(head@ =~= blk.take(0xEB));
    let mut cipher = match Rc4::new(&h) {
        Ok(c) => c,
        Err(_) => {
            assert(false);
            return;
        },
    };
    let ghost st = cipher.key_state();
    assert(st == (ksa(h@, 256).0, 0u8, 0u8));
    let _ = cipher.crypt(head.as_mut_slice());
    let b0 = head[0] & 0x7F;
    head.set(0, b0);
    let ghost masked = sig_masked(hash@, salt@);
    assert forall|q: int| 0 <= q < 0xEB implies head@[q] == masked[q] by {}
    assert forall|q: int| 0xEB <= q < 0xFF implies masked[q] == h@[q - 0xEB] by {}
    assert(masked[0xFF] == 0xBCu8);
    let mut k: usize = 0;
    while k < 256
        invariant
            k <= 256,
            head@.len() == 0xEB,
            h@ == sig_salted_hash(hash@, salt@),
            masked == sig_masked(hash@, salt@),
            masked.len() == 256,
            forall|q: int| 0 <= q < 0xEB ==> head@[q] == masked[q],
            forall|q: int| 0xEB <= q < 0xFF ==> masked[q] == h@[q - 0xEB],
            masked[0xFF] == 0xBCu8,
            forall|q: int| 0 <= q < k ==> sig@[q] == qwords_reversed(masked)[q],
        decreases 256 - k,
    {
        let src = 8 * (31 - k / 8) + k % 8;
        let b: u8 = if src < 0xEB {
            head[src]
        } else if src < 0xFF {
            h[src - 0xEB]
        } else {
            0xBC
        };
        sig[k] = b;
        k += 1;
    }
    assert(sig@ =~= sig_format_spec(hash@, salt@));
}

/// The signature as 32 big-endian words.
pub open spec fn sig_words(sig: Seq<u8>) -> Seq<u64> {
    Seq::new(32, |k: int| be_word(sig, k))
}

/// The modulus words of a key, byte-swapped.
pub open spec fn modulus_words(m: Seq<u64>) -> Seq<u64> {
    Seq::new(32, |k: int| bswap64(m[k]))
}

/// Exponents the signature check accepts.
pub open spec fn sig_exponent_ok(exp: u32) -> bool {
    exp == 3 || exp == 0x10001
}

/// Squarings before the last multiplication: one for exponent 3, sixteen for
/// 0x10001.
pub open spec fn sig_squarings(exp: u32) -> nat {
    if exp == 3 {
        1
    } else {
        16
    }
}

pub open spec fn mod_mul_square_chain(t: int, m: int, inv: u64, count: nat) -> int
    decreases count,
{
    if count == 0 {
        t
    } else {
        let p = mod_mul_square_chain(t, m, inv, (count - 1) as nat);
        mod_mul_spec(p, p, m, inv, 32)
    }
}

/// The number the signature check raises the signature to: the squarings,
/// then one multiplication by the signature, all with `mod_mul_spec`.
pub open spec fn sig_power(sig: Seq<u8>, modulus: Seq<u64>, exp: u32) -> int {
    let s = words_value(sig_words(sig));
    let mw = modulus_words(modulus);
    let mv = words_value(mw);
    let inv = mod_inv_spec(mw[0]);
    mod_mul_spec(mod_mul_square_chain(s, mv, inv, sig_squarings(exp)), s, mv, inv, 32)
}

/// A 32-word number written back as big-endian words.
pub open spec fn sig_result_bytes(v: int) -> Seq<u8> {
    Seq::new(256, |i: int| be_bytes64(digit(v, (i / 8) as nat) as u64)[i % 8])
}

/// Whether the key is one the signature check takes: 32 words and an accepted
/// exponent (both stored byte-swapped).
pub open spec fn sig_key_ok(pubkey: ExCryptRsaPub2048) -> bool {
    bswap32(pubkey.rsa.num_digits) == 0x20 && sig_exponent_ok(bswap32(pubkey.rsa.pub_exponent))
}

/// Raises the signature to the key's exponent, writes the result back into
/// `sig`, and compares it with the expected block for `hash` and `salt`: 0 when
/// they match, a nonzero byte value when not, -1 for a key it does not take
/// (then `sig` is left as it was).
#[allow(non_snake_case)]
pub fn ExCryptBnQwBeSigDifference(sig: &mut [u8; 256], hash: &[u8; 20], salt: &[u8], pubkey: &ExCryptRsaPub2048) -> (r: i32)
    requires
        salt@.len() >= 10,
    ensures
        !sig_key_ok(*pubkey) ==> r == -1 && final(sig)@ == old(sig)@,
        sig_key_ok(*pubkey) ==> final(sig)@ == sig_result_bytes(
            sig_power(old(sig)@, pubkey.modulus@, bswap32(pubkey.rsa.pub_exponent)),
        ) && r == mem_diff_spec(final(sig)@, sig_format_spec(hash@, salt@), 256) as i32,
{
    let num_digits = swap_dword(pubkey.rsa.num_digits);
    let exp = swap_dword(pubkey.rsa.pub_exponent);
    if num_digits != 0x20 || (exp != 3 && exp != 0x10001) {
        return -1;
    }
    let ghost sw = sig_words(old(sig)@);
    let ghost mw = modulus_words(pubkey.modulus@);
    let mut qw_sig: Vec<u64> = Vec::new();
    let mut modulus_swap: Vec<u64> = Vec::new();
    let mut k: usize = 0;
    while k < 32
        invariant
            k <= 32,
            sig@ == old(sig)@,
            sw == sig_words(old(sig)@),
            mw == modulus_words(pubkey.modulus@),
            qw_sig@ == sw.take(k as int),
            modulus_swap@ == mw.take(k as int),
        decreases 32 - k,
    {
        qw_sig.push(read_be_word(sig, k));
        modulus_swap.push(swap_qword(pubkey.modulus[k]));
        k += 1;
        proof {
            assert(qw_sig@ =~= sw.take(k as int));
            assert(modulus_swap@ =~= mw.take(k as int));
        }
    }
    assert(qw_sig@ =~= sw);
    assert(modulus_swap@ =~= mw);
    assert(sw.take(32) =~= sw);
    assert(mw.take(32) =~= mw);
    let ghost s = words_value(sw);
    let ghost mv = words_value(mw);
    let inverse = ExCryptBnQwNeModInv(modulus_swap[0]);
    let ghost inv = mod_inv_spec(mw[0]);
    let squarings: u32 = if exp == 3 {
        1
    } else {
        16
    };
    let mut sig_copy: Vec<u64> = Vec::new();
    k = 0;
    while k < 32
        invariant
            k <= 32,
            qw_sig@ == sw,
            sw.len() == 32,
            sig_copy@ == sw.take(k as int),
        decreases 32 - k,
    {
        sig_copy.push(qw_sig[k]);
        k += 1;
        proof {
            assert(sig_copy@ =~= sw.take(k as int));
        }
    }
    let mut j: u32 = 0;
    while j < squarings
        invariant
            j <= squarings,
            squarings as nat == sig_squarings(exp),
            sig_copy@.len() == 32,
            modulus_swap@ == mw,
            mw.len() == 32,
            inverse == inv,
            s == words_value(sw),
            mv == words_value(mw),
            words_value(sig_copy@) == mod_mul_square_chain(s, mv, inv, j as nat),
        decreases squarings - j,
    {
        let mut t: Vec<u64> = Vec::new();
        k = 0;
        while k < 32
            invariant
                k <= 32,
                sig_copy@.len() == 32,
                t@ == sig_copy@.take(k as int),
            decreases 32 - k,
        {
            t.push(sig_copy[k]);
            k += 1;
            proof {
                assert(t@ =~= sig_copy@.take(k as int));
            }
        }
        assert(t@ =~= sig_copy@);
        assert(t@.take(32) =~= t@);
        assert(modulus_swap@.take(32) =~= mw);
        let ghost before = words_value(sig_copy@);
        ExCryptBnQwNeModMul(t.as_slice(), t.as_slice(), sig_copy.as_mut_slice(), inverse, modulus_swap.as_slice(), 32);
        proof {
            assert(sig_copy@.take(32) =~= sig_copy@);
            assert(words_value(sig_copy@) == mod_mul_spec(before, before, mv, inv, 32));
        }
        j += 1;
    }
    let mut prod: Vec<u64> = vec![0u64; 32];
    assert(sig_copy@.take(32) =~= sig_copy@);
    assert(qw_sig@.take(32) =~= qw_sig@);
    assert(modulus_swap@.take(32) =~= mw);
    ExCryptBnQwNeModMul(sig_copy.as_slice(), qw_sig.as_slice(), prod.as_mut_slice(), inverse, modulus_swap.as_slice(), 32);
    assert(prod@.take(32) =~= prod@);
    let ghost v = sig_power(old(sig)@, pubkey.modulus@, exp);
    assert(words_value(prod@) == v);
    k = 0;
    while k < 32
        invariant
            k <= 32,
            prod@.len() == 32,
            words_value(prod@) == v,
            forall|q: int| 0 <= q < 8 * k ==> sig@[q] == sig_result_bytes(v)[q],
        decreases 32 - k,
    {
        let w = prod[k];
        proof {
            lemma_value_digit(prod@, k as int);
        }
        assert(digit(v, k as nat) == w);
        let p = 8 * k;
        sig[p] = (w >> 56u64) as u8;
        sig[p + 1] = (w >> 48u64) as u8;
        sig[p + 2] = (w >> 40u64) as u8;
        sig[p + 3] = (w >> 32u64) as u8;
        sig[p + 4] = (w >> 24u64) as u8;
        sig[p + 5] = (w >> 16u64) as u8;
        sig[p + 6] = (w >> 8u64) as u8;
        sig[p + 7] = w as u8;
        proof {
            assert forall|q: int| 8 * k <= q < 8 * k + 8 implies sig@[q] == sig_result_bytes(v)[q] by {
                assert(q / 8 == k as int);
            }
        }
        k += 1;
    }
    assert(sig@ =~= sig_result_bytes(v));
    let mut expected = [0u8; 256];
    ExCryptBnQwBeSigFormat(&mut expected, hash, salt);
    ExCryptMemDiff(sig, &expected, 256)
}

/// Checks a signature: 1 when the check's difference is zero, 0 otherwise.
#[allow(non_snake_case)]
pub fn ExCryptBnQwBeSigVerify(sig: &mut [u8; 256], hash: &[u8; 20], salt: &[u8], pubkey: &ExCryptRsaPub2048) -> (r: i32)
    requires
        salt@.len() >= 10,
    ensures
        r == (if sig_key_ok(*pubkey) && sig_result_bytes(
            sig_power(old(sig)@, pubkey.modulus@, bswap32(pubkey.rsa.pub_exponent)),
        ) == sig_format_spec(hash@, salt@) {
            1i32
        } else {
            0i32
        }),
        !sig_key_ok(*pubkey) ==> final(sig)@ == old(sig)@,
        sig_key_ok(*pubkey) ==> final(sig)@ == sig_result_bytes(
            sig_power(old(sig)@, pubkey.modulus@, bswap32(pubkey.rsa.pub_exponent)),
        ),
{
    let d = ExCryptBnQwBeSigDifference(sig, hash, salt, pubkey);
    proof {
        if sig_key_ok(*pubkey) {
            crate::crypto::lemma_mem_diff_zero(sig@, sig_format_spec(hash@, salt@), 256);
            assert(sig@.take(256) =~= sig@);
            assert(sig_format_spec(hash@, salt@).take(256) =~= sig_format_spec(hash@, salt@));
        }
    }
    if d == 0 {
        1
    } else {
        0
    }
}

/// Whether `sig` is a valid signature of `hash` (with `salt`) under the key,
/// checked on a copy of the signature.
pub fn verify_signature(sig: &[u8; 256], hash: &[u8; 20], salt: &[u8], pubkey: &ExCryptRsaPub2048) -> (r: Result<bool, CryptoError>)
    requires
        salt@.len() >= 10,
    ensures
        r == Ok::<bool, CryptoError>(
            sig_key_ok(*pubkey) && sig_result_bytes(sig_power(sig@, pubkey.modulus@, bswap32(pubkey.rsa.pub_exponent)))
                == sig_format_spec(hash@, salt@),
        ),
{
    let mut sig_copy = *sig;
    let result = ExCryptBnQwBeSigVerify(&mut sig_copy, hash, salt, pubkey);
    Ok(result == 1)
}

/// `BigNum::mod_exp` on big-endian byte strings: `a^e mod m`, as the
/// shortest big-endian bytes (`to_vec`). A zero modulus makes the call fail,
/// and it is left out.
#[verifier::external_body]
fn bn_mod_exp(a: &[u8], e: u32, m: &[u8]) -> (r: Vec<u8>)
    requires
        a@.len() <= i32::MAX,
        m@.len() <= i32::MAX,
        be_value(m@) > 0,
    ensures
        r@ == min_be_bytes((nat_pow(be_value(a@), e as nat) % be_value(m@)) as nat),
{
    let a = openssl::bn::BigNum::from_slice(a).unwrap();
    let m = openssl::bn::BigNum::from_slice(m).unwrap();
    let e = openssl::bn::BigNum::from_u32(e).unwrap();
    let mut ctx = openssl::bn::BigNumContext::new().unwrap();
    let mut r = openssl::bn::BigNum::new().unwrap();
    r.mod_exp(&a, &e, &m, &mut ctx).unwrap();
    r.to_vec()
}

/// The public-key operation on `n` words: the input raised to the exponent
/// modulo the modulus, placed back into words by `bn_to_qw_spec`.
pub open spec fn pub_crypt_spec(input: Seq<u64>, modulus: Seq<u64>, exp: u32, n: nat) -> Seq<u64> {
    bn_to_qw_spec(
        min_be_bytes(
            (nat_pow(be_value(qw_be_bytes(input.take(n as int))), exp as nat) % be_value(
                qw_be_bytes(modulus.take(n as int)),
            )) as nat,
        ),
        n,
    )
}

/// RSA public-key operation with the key's word count and exponent as stored
/// (not byte-swapped); the modulus is the `num_digits` words after the key
/// header. Always 1.
#[allow(non_snake_case)]
pub fn ExCryptBnQwNeRsaPubCrypt(input: &[u64], output: &mut [u64], key: &ExCryptRsa, modulus: &[u64]) -> (r: i32)
    requires
        key.num_digits < 0x1000_0000,
        input@.len() >= key.num_digits,
        modulus@.len() >= key.num_digits,
        old(output)@.len() >= key.num_digits,
        be_value(qw_be_bytes(modulus@.take(key.num_digits as int))) > 0,
    ensures
        r == 1,
        final(output)@ == pub_crypt_spec(input@, modulus@, key.pub_exponent, key.num_digits as nat) + old(
            output,
        )@.skip(key.num_digits as int),
{
    let n = key.num_digits as usize;
    let a = qw_to_be_bytes(input, n);
    let m = qw_to_be_bytes(modulus, n);
    proof {
        crate::crypto::bn::lemma_qw_be_bytes_len(input@.take(n as int));
        crate::crypto::bn::lemma_qw_be_bytes_len(modulus@.take(n as int));
    }
    let res = bn_mod_exp(a.as_slice(), key.pub_exponent, m.as_slice());
    let qw = bytes_to_qw(res.as_slice(), n);
    let mut k: usize = 0;
    while k < n
        invariant
            k <= n,
            qw@.len() == n,
            output@.len() == old(output)@.len(),
            old(output)@.len() >= n,
            forall|q: int| 0 <= q < k ==> output@[q] == qw@[q],
            forall|q: int| k <= q < output@.len() ==> output@[q] == old(output)@[q],
        decreases n - k,
    {
        output[k] = qw[k];
        k += 1;
    }
    assert(output@ =~= qw@ + old(output)@.skip(n as int));
    1
}

/// Whether `p` is a prime number.
pub open spec fn is_prime(p: int) -> bool {
    p > 1 && forall|k: int| 1 < k < p ==> #[trigger] (p % k) != 0
}

/// Whether RSA key components (big-endian numbers in the order modulus,
/// public exponent, private exponent, the two primes, the two CRT exponents,
/// the CRT coefficient) form a consistent private key: the modulus is the
/// product of two distinct primes, the exponents are inverse modulo each
/// prime less one, and the CRT values follow from them.
pub open spec fn rsa_key_consistent(parts: Seq<Seq<u8>>) -> bool {
    let n = be_value(parts[0]);
    let e = be_value(parts[1]);
    let d = be_value(parts[2]);
    let p = be_value(parts[3]);
    let q = be_value(parts[4]);
    &&& parts.len() == 8
    &&& is_prime(p) && is_prime(q) && p != q && n == p * q
    &&& (e * d) % (p - 1) == 1 && (e * d) % (q - 1) == 1
    &&& be_value(parts[5]) == d % (p - 1) && be_value(parts[6]) == d % (q - 1)
    &&& (be_value(parts[7]) * q) % p == 1
}

/// The RSA private-key operation on the number `c`: `c^d mod n`.
pub open spec fn rsa_private_value(parts: Seq<Seq<u8>>, c: int) -> int {
    nat_pow(c, be_value(parts[2]) as nat) % be_value(parts[0])
}

/// Whether a raw RSA decryption of `input` that succeeds gives `c^d mod n`: a consistent
/// key, and an input below the modulus and no longer than the modulus's
/// significant bytes.
pub open spec fn rsa_decrypt_determined(parts: Seq<Seq<u8>>, input: Seq<u8>) -> bool {
    &&& rsa_key_consistent(parts)
    &&& be_value(input) < be_value(parts[0])
    &&& input.len() <= min_be_bytes(be_value(parts[0]) as nat).len()
}

/// The result of a raw RSA decryption of `input`, without leading zeros.
pub open spec fn rsa_decrypt_value(parts: Seq<Seq<u8>>, input: Seq<u8>) -> Seq<u8> {
    min_be_bytes(rsa_private_value(parts, be_value(input)) as nat)
}

/// Every component fits a buffer length OpenSSL takes.
pub open spec fn parts_fit(parts: Seq<Seq<u8>>) -> bool {
    forall|i: int| 0 <= i < parts.len() ==> #[trigger] parts[i].len() <= i32::MAX
}

/// The components as byte strings.
pub open spec fn parts_view(parts: Seq<Vec<u8>>) -> Seq<Seq<u8>> {
    parts.map_values(|v: Vec<u8>| v@)
}

/// `Rsa::from_private_components` from the components `parts` (modulus,
/// public exponent, private exponent, the two primes, the two CRT exponents
/// and the CRT coefficient, each as big-endian bytes), then `private_decrypt`
/// of the input with no padding into an `out_len`-byte buffer (at least the
/// modulus's size): the bytes it decrypted, or none when the key cannot be
/// built or the operation fails.
///
/// Claimed: when it returns bytes for a consistent key (`rsa_key_consistent`)
/// and an input below the modulus and no longer than the modulus's
/// significant bytes, they are `c^d mod n`, left-padded with zeros. That is RSA
/// decryption itself, which OpenSSL's blinding and CRT steps do not change for
/// such a key.
/// Left unsaid: whether it succeeds (OpenSSL draws a random blinding factor,
/// and its source is not at hand), and what comes back for components that do
/// not form a consistent key.
#[verifier::external_body]
fn rsa_private_decrypt_raw(parts: &Vec<Vec<u8>>, input: &[u8], out_len: usize) -> (r: Option<Vec<u8>>)
    requires
        parts@.len() == 8,
        out_len >= parts@[0]@.len(),
        input@.len() <= i32::MAX,
        parts_fit(parts_view(parts@)),
    ensures
        r matches Some(v) ==> (rsa_decrypt_determined(parts_view(parts@), input@) ==> strip_zeros(v@) == rsa_decrypt_value(parts_view(parts@), input@)),
{
    let b: Vec<openssl::bn::BigNum> = parts.iter().map(|x| openssl::bn::BigNum::from_slice(x).unwrap()).collect();
    let [n, e, d, p, q, dp, dq, qi]: [openssl::bn::BigNum; 8] = b.try_into().ok()?;
    let rsa = openssl::rsa::Rsa::from_private_components(n, e, d, p, q, dp, dq, qi).ok()?;
    let mut out = vec![0u8; out_len];
    let len = rsa.private_decrypt(input, &mut out, openssl::rsa::Padding::NONE).ok()?;
    Some(out[..len].to_vec())
}

/// A big-endian byte string without its leading zero bytes.
pub open spec fn strip_zeros(s: Seq<u8>) -> Seq<u8>
    decreases s.len(),
{
    if s.len() > 0 && s[0] == 0 {
        strip_zeros(s.skip(1))
    } else {
        s
    }
}

fn strip_leading_zeros(s: &Vec<u8>) -> (r: Vec<u8>)
    ensures
        r@ == strip_zeros(s@),
{
    let mut i: usize = 0;
    assert(s@.skip(0) =~= s@);
    while i < s.len() && s[i] == 0
        invariant
            i <= s@.len(),
            strip_zeros(s@) == strip_zeros(s@.skip(i as int)),
        decreases s@.len() - i,
    {
        assert(s@.skip(i as int).skip(1) =~= s@.skip(i + 1));
        i += 1;
    }
    let r = crate::gxcore::images::blocks::slice_to_vec(s.as_slice(), i, s.len());
    assert(r@ =~= s@.skip(i as int));
    r
}

/// The key components in the private-key words after the header: modulus
/// (`n` words), the two primes, the two CRT exponents and the CRT coefficient
/// (`n / 2` words each), then the private exponent (`n` words); with the
/// public exponent as big-endian bytes.
pub open spec fn prv_parts(words: Seq<u64>, n: int, e: u32) -> Seq<Seq<u8>> {
    let h = n / 2;
    seq![
        qw_be_bytes(words.subrange(0, n)),
        crate::crypto::sha::be_bytes64(e as u64).skip(4),
        qw_be_bytes(words.subrange(n + 5 * h, 2 * n + 5 * h)),
        qw_be_bytes(words.subrange(n, n + h)),
        qw_be_bytes(words.subrange(n + h, n + 2 * h)),
        qw_be_bytes(words.subrange(n + 2 * h, n + 3 * h)),
        qw_be_bytes(words.subrange(n + 3 * h, n + 4 * h)),
        qw_be_bytes(words.subrange(n + 4 * h, n + 5 * h)),
    ]
}

/// The words a private key needs after its header, for `n` words.
pub open spec fn prv_words_needed(n: int) -> int {
    2 * n + 5 * (n / 2)
}

/// The private-key result for what OpenSSL returned: with the word count
/// stored byte-swapped and 1 to 64 words, the decrypted bytes (leading zeros
/// dropped) placed back into words; none when the count is out of range or
/// OpenSSL returned nothing.
pub open spec fn prv_crypt_result(key: ExCryptRsa, outcome: Option<Seq<u8>>) -> Option<Seq<u64>> {
    let n = bswap32(key.num_digits);
    if n == 0 || n > 0x40 {
        None
    } else {
        match outcome {
            Some(out) => Some(bn_to_qw_spec(strip_zeros(out), n as nat)),
            None => None,
        }
    }
}

/// What the private-key operation does to `output` and returns, for what
/// OpenSSL returned.
pub open spec fn prv_crypt_effect(key: ExCryptRsa, outcome: Option<Seq<u8>>, old_out: Seq<u64>, new_out: Seq<u64>, r: i32) -> bool {
    match prv_crypt_result(key, outcome) {
        Some(w) => r == 1 && new_out == w + old_out.skip(bswap32(key.num_digits) as int),
        None => r == 0 && new_out == old_out,
    }
}

/// Applies what OpenSSL returned for an `n`-word private-key operation: the
/// decrypted bytes (leading zeros dropped) go into the first `n` words of
/// `output` and 1 is returned; nothing returned leaves `output` and gives 0.
pub fn prv_crypt_apply(outcome: Option<Vec<u8>>, n: usize, output: &mut [u64]) -> (r: i32)
    requires
        old(output)@.len() >= n,
    ensures
        match outcome {
            Some(v) => r == 1 && final(output)@ == bn_to_qw_spec(strip_zeros(v@), n as nat) + old(output)@.skip(
                n as int,
            ),
            None => r == 0 && final(output)@ == old(output)@,
        },
{
    let res = match outcome {
        Some(v) => v,
        None => return 0,
    };
    let stripped = strip_leading_zeros(&res);
    let qw = bytes_to_qw(stripped.as_slice(), n);
    let mut k: usize = 0;
    while k < n
        invariant
            k <= n,
            qw@.len() == n,
            output@.len() == old(output)@.len(),
            old(output)@.len() >= n,
            forall|q: int| 0 <= q < k ==> output@[q] == qw@[q],
            forall|q: int| k <= q < output@.len() ==> output@[q] == old(output)@[q],
        decreases n - k,
    {
        output[k] = qw[k];
        k += 1;
    }
    assert(output@ =~= qw@ + old(output)@.skip(n as int));
    1
}

fn be_bytes_u32(e: u32) -> (r: Vec<u8>)
    ensures
        r@ == crate::crypto::sha::be_bytes64(e as u64).skip(4),
{
    let v = vec![(e >> 24u32) as u8, (e >> 16u32) as u8, (e >> 8u32) as u8, e as u8];
    proof {
        let w = e as u64;
        assert((w >> 24u64) as u8 == (e >> 24u32) as u8) by (bit_vector)
            requires
                w == e as u64,
        ;
        assert((w >> 16u64) as u8 == (e >> 16u32) as u8) by (bit_vector)
            requires
                w == e as u64,
        ;
        assert((w >> 8u64) as u8 == (e >> 8u32) as u8) by (bit_vector)
            requires
                w == e as u64,
        ;
        assert(w as u8 == e as u8) by (bit_vector)
            requires
                w == e as u64,
        ;
    }
    assert(v@ =~= crate::crypto::sha::be_bytes64(e as u64).skip(4));
    v
}

/// Whether the private-key operation on `n` words, when it succeeds, gives
/// `prv_crypt_spec`: the key
/// words hold a consistent key (`rsa_key_consistent`), the input is below the
/// modulus, and the modulus fills its `8 * n` bytes.
pub open spec fn prv_crypt_admits(input: Seq<u64>, key_words: Seq<u64>, e: u32, n: int) -> bool {
    let parts = prv_parts(key_words, n, e);
    &&& rsa_key_consistent(parts)
    &&& be_value(qw_be_bytes(input.take(n))) < be_value(parts[0])
    &&& 8 * n <= min_be_bytes(be_value(parts[0]) as nat).len()
}

/// The private-key operation on `n` words: the input raised to the private
/// exponent modulo the modulus, placed back into words by `bn_to_qw_spec`.
pub open spec fn prv_crypt_spec(input: Seq<u64>, key_words: Seq<u64>, e: u32, n: int) -> Seq<u64> {
    bn_to_qw_spec(
        min_be_bytes(rsa_private_value(prv_parts(key_words, n, e), be_value(qw_be_bytes(input.take(n)))) as nat),
        n as nat,
    )
}

/// RSA private-key operation with the key header's word count and public
/// exponent stored byte-swapped; `key_words` are the words after the header.
/// 1 with the result in the first `n` words of `output`, 0 (output left as it
/// was) for a count outside 1..=64 or a failed operation.
#[allow(non_snake_case)]
pub fn ExCryptBnQwNeRsaPrvCrypt(input: &[u64], output: &mut [u64], key: &ExCryptRsa, key_words: &[u64]) -> (r: i32)
    requires
        (1 <= bswap32(key.num_digits) <= 0x40) ==> key_words@.len() >= prv_words_needed(bswap32(key.num_digits) as int)
            && input@.len() >= bswap32(key.num_digits) && old(output)@.len() >= bswap32(key.num_digits),
    ensures
        exists|outcome: Option<Seq<u8>>| #[trigger] prv_crypt_effect(*key, outcome, old(output)@, final(output)@, r),
        !(1 <= bswap32(key.num_digits) <= 0x40) ==> r == 0 && final(output)@ == old(output)@,
        (1 <= bswap32(key.num_digits) <= 0x40) && prv_crypt_admits(
            input@,
            key_words@,
            bswap32(key.pub_exponent),
            bswap32(key.num_digits) as int,
        ) && r == 1 ==> final(output)@ == prv_crypt_spec(
            input@,
            key_words@,
            bswap32(key.pub_exponent),
            bswap32(key.num_digits) as int,
        ) + old(output)@.skip(bswap32(key.num_digits) as int),
{
    let n = swap_dword(key.num_digits) as usize;
    if n == 0 || n > 0x40 {
        assert(prv_crypt_effect(*key, None, old(output)@, output@, 0));
        return 0;
    }
    let h = n / 2;
    let ghost pp = prv_parts(key_words@, n as int, bswap32(key.pub_exponent));
    let mut parts: Vec<Vec<u8>> = Vec::new();
    let p0 = qw_to_be_bytes(key_words, n);
    proof {
        assert(key_words@.take(n as int) =~= key_words@.subrange(0, n as int));
        crate::crypto::bn::lemma_qw_be_bytes_len(key_words@.take(n as int));
    }
    parts.push(p0);
    parts.push(be_bytes_u32(swap_dword(key.pub_exponent)));
    let d = crate::crypto::bn::qw_slice(key_words, n + 5 * h, 2 * n + 5 * h);
    let p2 = qw_to_be_bytes(d.as_slice(), n);
    proof {
        assert(d@.take(n as int) =~= key_words@.subrange(n + 5 * h, 2 * n + 5 * h));
        crate::crypto::bn::lemma_qw_be_bytes_len(d@.take(n as int));
    }
    parts.push(p2);
    let mut j: usize = 0;
    let mut off: usize = n;
    while j < 5
        invariant
            j <= 5,
            n == bswap32(key.num_digits),
            1 <= n <= 0x40,
            h == n / 2,
            off == n + j * h,
            off + (5 - j) * h <= n + 5 * h,
            key_words@.len() >= prv_words_needed(n as int),
            pp == prv_parts(key_words@, n as int, bswap32(key.pub_exponent)),
            parts@.len() == 3 + j,
            forall|i: int| 0 <= i < 3 + j ==> #[trigger] parts@[i]@ == pp[i],
            forall|i: int| 0 <= i < 3 + j ==> #[trigger] parts@[i]@.len() <= 512,
        decreases 5 - j,
    {
        assert(off + h <= n + 5 * h) by (nonlinear_arith)
            requires
                off + (5 - j) * h <= n + 5 * h,
                j < 5,
        ;
        let seg = crate::crypto::bn::qw_slice(key_words, off, off + h);
        let bytes = qw_to_be_bytes(seg.as_slice(), h);
        proof {
            assert(seg@.take(h as int) =~= key_words@.subrange(off as int, off + h));
            crate::crypto::bn::lemma_qw_be_bytes_len(seg@.take(h as int));
            assert(pp[3 + j as int] == qw_be_bytes(key_words@.subrange(n + j * h, n + (j + 1) * h))) by {
                assert(n + (j + 1) * h == n + j * h + h) by (nonlinear_arith);
            }
        }
        parts.push(bytes);
        j += 1;
        off = off + h;
        proof {
            assert(off == n + j * h) by (nonlinear_arith)
                requires
                    off == n + (j - 1) * h + h,
            ;
            assert(off + (5 - j) * h <= n + 5 * h) by (nonlinear_arith)
                requires
                    off == n + j * h,
                    j <= 5,
            ;
        }
    }
    proof {
        assert(parts@.map_values(|v: Vec<u8>| v@) =~= pp);
    }
    let inp = qw_to_be_bytes(input, n);
    proof {
        crate::crypto::bn::lemma_qw_be_bytes_len(input@.take(n as int));
    }
    proof {
        assert(parts_view(parts@) =~= pp);
        assert(inp@.len() == 8 * n);
    }
    let res = rsa_private_decrypt_raw(&parts, inp.as_slice(), 8 * n);
    let ghost o = match &res {
        Some(v) => Some(v@),
        None => None::<Seq<u8>>,
    };
    let r = prv_crypt_apply(res, n, output);
    assert(prv_crypt_effect(*key, o, old(output)@, output@, r));
    r
}

} // verus!
