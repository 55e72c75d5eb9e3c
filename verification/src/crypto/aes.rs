//! AES-128-CBC with a fixed key, through `xecrypt`.

use vstd::prelude::*;
use crate::crypto::CryptoError;

verus! {

pub struct Aes {
    key: [u8; 16],
}

/// AES-128-CBC decryption of whole blocks, as `xecrypt` computes it.
pub uninterp spec fn aes_cbc_decrypt_blocks(key: Seq<u8>, iv: Seq<u8>, blocks: Seq<u8>) -> Seq<u8>;

/// AES-128-CBC encryption of whole blocks, as `xecrypt` computes it.
pub uninterp spec fn aes_cbc_encrypt_blocks(key: Seq<u8>, iv: Seq<u8>, blocks: Seq<u8>) -> Seq<u8>;

/// Length of the whole 16-byte blocks of `n` bytes.
pub open spec fn aligned_len(n: int) -> int {
    n - n % 16
}

/// `xecrypt::symmetric::xe_crypt_aes_cbc_decrypt`: decrypts the whole 16-byte
/// blocks of the data in place (the result is the name
/// `aes_cbc_decrypt_blocks` of key, IV and those blocks); a trailing partial
/// block is left as it was.
#[verifier::external_body]
fn xe_aes_cbc_decrypt(key: &[u8; 16], iv: &[u8; 16], data: &mut [u8])
    ensures
        final(data)@.len() == old(data)@.len(),
        final(data)@.subrange(0, aligned_len(old(data)@.len() as int)) == aes_cbc_decrypt_blocks(
            key@,
            iv@,
            old(data)@.subrange(0, aligned_len(old(data)@.len() as int)),
        ),
        final(data)@.subrange(aligned_len(old(data)@.len() as int), old(data)@.len() as int) == old(data)@.subrange(
            aligned_len(old(data)@.len() as int),
            old(data)@.len() as int,
        ),
{
    xecrypt::symmetric::xe_crypt_aes_cbc_decrypt(key, iv, data)
}

/// `xecrypt::symmetric::xe_crypt_aes_cbc_encrypt`: encrypts the whole 16-byte
/// blocks of the data in place (the result is the name
/// `aes_cbc_encrypt_blocks` of key, IV and those blocks); a trailing partial
/// block is left as it was.
#[verifier::external_body]
fn xe_aes_cbc_encrypt(key: &[u8; 16], iv: &[u8; 16], data: &mut [u8])
    ensures
        final(data)@.len() == old(data)@.len(),
        final(data)@.subrange(0, aligned_len(old(data)@.len() as int)) == aes_cbc_encrypt_blocks(
            key@,
            iv@,
            old(data)@.subrange(0, aligned_len(old(data)@.len() as int)),
        ),
        final(data)@.subrange(aligned_len(old(data)@.len() as int), old(data)@.len() as int) == old(data)@.subrange(
            aligned_len(old(data)@.len() as int),
            old(data)@.len() as int,
        ),
{
    xecrypt::symmetric::xe_crypt_aes_cbc_encrypt(key, iv, data)
}

/// AES-128 encryption of one block, as `xecrypt` computes it.
pub uninterp spec fn aes_ecb_encrypt_block(key: Seq<u8>, block: Seq<u8>) -> Seq<u8>;

/// AES-128 decryption of one block, as `xecrypt` computes it.
pub uninterp spec fn aes_ecb_decrypt_block(key: Seq<u8>, block: Seq<u8>) -> Seq<u8>;

/// `xecrypt::symmetric::xe_crypt_aes_ecb_encrypt`: encrypts one 16-byte block
/// in place; the result is the name `aes_ecb_encrypt_block` of key and block.
#[verifier::external_body]
pub(crate) fn xe_aes_ecb_encrypt(key: &[u8; 16], block: &mut [u8; 16])
    ensures
        final(block)@ == aes_ecb_encrypt_block(key@, old(block)@),
{
    xecrypt::symmetric::xe_crypt_aes_ecb_encrypt(key, block)
}

/// `xecrypt::symmetric::xe_crypt_aes_ecb_decrypt`: decrypts one 16-byte block
/// in place; the result is the name `aes_ecb_decrypt_block` of key and block.
#[verifier::external_body]
pub(crate) fn xe_aes_ecb_decrypt(key: &[u8; 16], block: &mut [u8; 16])
    ensures
        final(block)@ == aes_ecb_decrypt_block(key@, old(block)@),
{
    xecrypt::symmetric::xe_crypt_aes_ecb_decrypt(key, block)
}

impl Aes {
    pub closed spec fn key_bytes(&self) -> Seq<u8> {
        self.key@
    }

    /// An AES-128 cipher; the key must be exactly 16 bytes.
    pub fn new(key: &[u8]) -> (r: Result<Self, CryptoError>)
        ensures
            key@.len() != 16 ==> r == Err::<Self, CryptoError>(
                CryptoError::InvalidKeySize { expected: 16, got: key@.len() as usize },
            ),
            key@.len() == 16 ==> (r matches Ok(a) && a.key_bytes() == key@),
    {
        if key.len() != 16 {
            return Err(CryptoError::InvalidKeySize { expected: 16, got: key.len() });
        }
        let mut k = [0u8; 16];
        let mut i: usize = 0;
        while i < 16
            invariant
                i <= 16,
                key@.len() == 16,
                forall|q: int| 0 <= q < i ==> k@[q] == key@[q],
            decreases 16 - i,
        {
            k[i] = key[i];
            i += 1;
        }
        assert(k@ =~= key@);
        Ok(Aes { key: k })
    }

    /// Decrypts the whole blocks of the data in place with the IV.
    pub fn decrypt_cbc(&mut self, data: &mut [u8], iv: &[u8; 16]) -> (r: Result<(), CryptoError>)
        ensures
            r is Ok,
            final(self).key_bytes() == old(self).key_bytes(),
            final(data)@.len() == old(data)@.len(),
            final(data)@.subrange(0, aligned_len(old(data)@.len() as int)) == aes_cbc_decrypt_blocks(
                old(self).key_bytes(),
                iv@,
                old(data)@.subrange(0, aligned_len(old(data)@.len() as int)),
            ),
            final(data)@.subrange(aligned_len(old(data)@.len() as int), old(data)@.len() as int) == old(
                data,
            )@.subrange(aligned_len(old(data)@.len() as int), old(data)@.len() as int),
    {
        xe_aes_cbc_decrypt(&self.key, iv, data);
        Ok(())
    }

    /// Encrypts the whole blocks of the data in place with the IV.
    pub fn encrypt_cbc(&mut self, data: &mut [u8], iv: &[u8; 16]) -> (r: Result<(), CryptoError>)
        ensures
            r is Ok,
            final(self).key_bytes() == old(self).key_bytes(),
            final(data)@.len() == old(data)@.len(),
            final(data)@.subrange(0, aligned_len(old(data)@.len() as int)) == aes_cbc_encrypt_blocks(
                old(self).key_bytes(),
                iv@,
                old(data)@.subrange(0, aligned_len(old(data)@.len() as int)),
            ),
            final(data)@.subrange(aligned_len(old(data)@.len() as int), old(data)@.len() as int) == old(
                data,
            )@.subrange(aligned_len(old(data)@.len() as int), old(data)@.len() as int),
    {
        xe_aes_cbc_encrypt(&self.key, iv, data);
        Ok(())
    }
}

} // verus!
