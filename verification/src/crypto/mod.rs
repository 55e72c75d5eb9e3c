pub mod aes;
pub mod bn;
pub mod keys;
pub mod rc4;
pub mod rsa;
pub mod sha;

use vstd::prelude::*;

verus! {

#[derive(Debug, Clone, Copy, PartialEq, Eq, Structural)]
pub enum CryptoError {
    InvalidKeySize { expected: usize, got: usize },
    InvalidDataSize,
    BufferTooSmall,
    FfiError,
}


/// A 64-bit word with its eight bytes in reverse order.
pub open spec fn bswap64(x: u64) -> u64 {
    ((x & 0xff) << 56u64) | (((x >> 8u64) & 0xff) << 48u64) | (((x >> 16u64) & 0xff) << 40u64) | (((x
        >> 24u64) & 0xff) << 32u64) | (((x >> 32u64) & 0xff) << 24u64) | (((x >> 40u64) & 0xff) << 16u64) | (((x
        >> 48u64) & 0xff) << 8u64) | (x >> 56u64)
}

/// Big-endian 64-bit word `k` (bytes `8k` to `8k + 7`) of a byte buffer.
pub open spec fn be_word(b: Seq<u8>, k: int) -> u64 {
    ((b[8 * k] as u64) << 56u64) | ((b[8 * k + 1] as u64) << 48u64) | ((b[8 * k + 2] as u64) << 40u64) | ((b[8
        * k + 3] as u64) << 32u64) | ((b[8 * k + 4] as u64) << 24u64) | ((b[8 * k + 5] as u64) << 16u64) | ((b[8
        * k + 6] as u64) << 8u64) | (b[8 * k + 7] as u64)
}

pub fn read_be_word(b: &[u8], k: usize) -> (r: u64)
    requires
        8 * k + 8 <= b@.len(),
    ensures
        r == be_word(b@, k as int),
{
    let len = b.len();
    assert(8 * k + 8 <= len);
    let p = 8 * k;
    ((b[p] as u64) << 56u64) | ((b[p + 1] as u64) << 48u64) | ((b[p + 2] as u64) << 40u64) | ((b[p + 3] as u64)
        << 32u64) | ((b[p + 4] as u64) << 24u64) | ((b[p + 5] as u64) << 16u64) | ((b[p + 6] as u64) << 8u64) | (b[p
        + 7] as u64)
}

/// A 32-bit word with its four bytes in reverse order.
pub open spec fn bswap32(x: u32) -> u32 {
    ((x & 0xff) << 24u32) | (((x >> 8u32) & 0xff) << 16u32) | (((x >> 16u32) & 0xff) << 8u32) | (x >> 24u32)
}

pub fn swap_qword(x: u64) -> (r: u64)
    ensures
        r == bswap64(x),
{
    ((x & 0xff) << 56u64) | (((x >> 8u64) & 0xff) << 48u64) | (((x >> 16u64) & 0xff) << 40u64) | (((x
        >> 24u64) & 0xff) << 32u64) | (((x >> 32u64) & 0xff) << 24u64) | (((x >> 40u64) & 0xff) << 16u64) | (((x
        >> 48u64) & 0xff) << 8u64) | (x >> 56u64)
}

pub fn swap_dword(x: u32) -> (r: u32)
    ensures
        r == bswap32(x),
{
    ((x & 0xff) << 24u32) | (((x >> 8u32) & 0xff) << 16u32) | (((x >> 16u32) & 0xff) << 8u32) | (x >> 24u32)
}

/// Reversing the bytes twice gives the word back.
pub proof fn lemma_bswap64_involution(x: u64)
    ensures
        bswap64(bswap64(x)) == x,
{
    assert(bswap64(bswap64(x)) == x) by (bit_vector);
}

/// Byte-swaps the first `num_qwords` words of `source` into `dest`.
#[allow(non_snake_case)]
pub fn ExCryptBnQw_SwapDwQwLeBe(source: &[u64], dest: &mut [u64], num_qwords: u32)
    requires
        source@.len() >= num_qwords,
        old(dest)@.len() >= num_qwords,
    ensures
        final(dest)@.len() == old(dest)@.len(),
        forall|i: int| 0 <= i < num_qwords ==> final(dest)@[i] == bswap64(source@[i]),
        forall|i: int| num_qwords <= i < old(dest)@.len() ==> final(dest)@[i] == old(dest)@[i],
{
    let n = num_qwords as usize;
    let mut i: usize = 0;
    while i < n
        invariant
            n == num_qwords,
            i <= n,
            source@.len() >= n,
            old(dest)@.len() >= n,
            dest@.len() == old(dest)@.len(),
            forall|q: int| 0 <= q < i ==> dest@[q] == bswap64(source@[q]),
            forall|q: int| i <= q < dest@.len() ==> dest@[q] == old(dest)@[q],
        decreases n - i,
    {
        dest[i] = swap_qword(source[i]);
        i += 1;
    }
}

/// The OR of the byte-wise XOR of the first `n` bytes of two buffers.
pub open spec fn mem_diff_spec(a: Seq<u8>, b: Seq<u8>, n: nat) -> u8
    decreases n,
{
    if n == 0 {
        0
    } else {
        mem_diff_spec(a, b, (n - 1) as nat) | (a[n - 1] ^ b[n - 1])
    }
}

/// The difference of two buffers is zero exactly when their first `n` bytes
/// are equal.
pub proof fn lemma_mem_diff_zero(a: Seq<u8>, b: Seq<u8>, n: nat)
    requires
        n <= a.len(),
        n <= b.len(),
    ensures
        (mem_diff_spec(a, b, n) == 0) == (a.take(n as int) == b.take(n as int)),
    decreases n,
{
    if n == 0 {
        assert(a.take(0) =~= b.take(0));
    } else {
        lemma_mem_diff_zero(a, b, (n - 1) as nat);
        let p = mem_diff_spec(a, b, (n - 1) as nat);
        let x = a[n - 1];
        let y = b[n - 1];
        assert(((p | (x ^ y)) == 0) == (p == 0 && x == y)) by (bit_vector);
        if a.take(n as int) == b.take(n as int) {
            assert(a.take(n - 1) =~= a.take(n as int).take(n - 1));
            assert(b.take(n - 1) =~= b.take(n as int).take(n - 1));
            assert(a.take(n as int)[n - 1] == x);
        }
        if p == 0 && x == y {
            assert(a.take(n as int) =~= a.take(n - 1).push(x));
            assert(b.take(n as int) =~= b.take(n - 1).push(y));
        }
    }
}

/// Compares the first `size` bytes of two buffers: 0 when they are equal, a
/// nonzero byte value otherwise.
#[allow(non_snake_case)]
pub fn ExCryptMemDiff(buf1: &[u8], buf2: &[u8], size: u32) -> (r: i32)
    requires
        buf1@.len() >= size,
        buf2@.len() >= size,
    ensures
        r == mem_diff_spec(buf1@, buf2@, size as nat) as i32,
        (r == 0) == (buf1@.take(size as int) == buf2@.take(size as int)),
{
    let n = size as usize;
    let mut diff: u8 = 0;
    let mut i: usize = 0;
    while i < n
        invariant
            n == size,
            i <= n,
            buf1@.len() >= n,
            buf2@.len() >= n,
            diff == mem_diff_spec(buf1@, buf2@, i as nat),
        decreases n - i,
    {
        diff = diff | (buf1[i] ^ buf2[i]);
        i += 1;
    }
    proof {
        lemma_mem_diff_zero(buf1@, buf2@, size as nat);
    }
    diff as i32
}

} // verus!
