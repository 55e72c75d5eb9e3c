//! SHA-1 based digests: plain and HMAC over up to three inputs, and the SMC
//! checksum.

use vstd::prelude::*;
use crate::crypto::{be_word, bswap64, read_be_word, swap_qword, CryptoError};

verus! {

pub struct ExCryptShaState {
    pub count: u32,
    pub state: [u32; 5],
    pub buffer: [u8; 64],
}

pub struct ExCryptHmacShaState {
    pub sha_state: [ExCryptShaState; 2],
}

/// SHA-1 digest of a byte sequence, as the `sha1` crate computes it.
pub uninterp spec fn sha1_digest(data: Seq<u8>) -> Seq<u8>;

/// `sha1::Sha1::digest`: the 20-byte SHA-1 digest of the bytes; the result is
/// the name `sha1_digest` of the input.
#[verifier::external_body]
pub(crate) fn sha1_of(data: &[u8]) -> (r: [u8; 20])
    ensures
        r@ == sha1_digest(data@),
{
    <sha1::Sha1 as sha1::Digest>::digest(data).into()
}

/// The first three inputs, concatenated (later ones are ignored).
pub open spec fn first_three(inputs: Seq<Seq<u8>>) -> Seq<u8> {
    if inputs.len() == 0 {
        Seq::empty()
    } else if inputs.len() == 1 {
        inputs[0]
    } else if inputs.len() == 2 {
        inputs[0] + inputs[1]
    } else {
        inputs[0] + inputs[1] + inputs[2]
    }
}

pub open spec fn inputs_view(inputs: Seq<&[u8]>) -> Seq<Seq<u8>> {
    inputs.map_values(|s: &[u8]| s@)
}

fn append_slice(out: &mut Vec<u8>, s: &[u8])
    ensures
        final(out)@ == old(out)@ + s@,
{
    let mut i: usize = 0;
    while i < s.len()
        invariant
            i <= s@.len(),
            out@ == old(out)@ + s@.subrange(0, i as int),
        decreases s@.len() - i,
    {
        out.push(s[i]);
        i += 1;
        assert(out@ =~= old(out)@ + s@.subrange(0, i as int));
    }
    assert(s@.subrange(0, s@.len() as int) =~= s@);
}

fn concat_first_three(out: &mut Vec<u8>, inputs: &[&[u8]])
    ensures
        final(out)@ == old(out)@ + first_three(inputs_view(inputs@)),
{
    let ghost v = inputs_view(inputs@);
    if inputs.len() > 0 {
        append_slice(out, inputs[0]);
    }
    if inputs.len() > 1 {
        append_slice(out, inputs[1]);
    }
    if inputs.len() > 2 {
        append_slice(out, inputs[2]);
    }
    proof {
        if v.len() == 0 {
            assert(old(out)@ + first_three(v) =~= old(out)@);
        } else if v.len() == 1 {
            assert(v[0] == inputs@[0]@);
        } else if v.len() == 2 {
            assert(v[0] == inputs@[0]@ && v[1] == inputs@[1]@);
            assert(old(out)@ + inputs@[0]@ + inputs@[1]@ =~= old(out)@ + (v[0] + v[1]));
        } else {
            assert(v[0] == inputs@[0]@ && v[1] == inputs@[1]@ && v[2] == inputs@[2]@);
            assert(old(out)@ + inputs@[0]@ + inputs@[1]@ + inputs@[2]@ =~= old(out)@ + (v[0] + v[1] + v[2]));
        }
    }
}

/// SHA-1 over the concatenation of the first three inputs.
pub fn sha(inputs: &[&[u8]]) -> (r: Result<[u8; 20], CryptoError>)
    ensures
        r matches Ok(h) && h@ == sha1_digest(first_three(inputs_view(inputs@))),
{
    let mut buf: Vec<u8> = Vec::new();
    concat_first_three(&mut buf, inputs);
    assert(Seq::<u8>::empty() + first_three(inputs_view(inputs@)) =~= first_three(inputs_view(inputs@)));
    Ok(sha1_of(buf.as_slice()))
}

/// HMAC pad: the key (its first 64 bytes) zero-padded to 64 bytes, XORed with `x`.
pub open spec fn hmac_pad(key: Seq<u8>, x: u8) -> Seq<u8> {
    Seq::new(64, |i: int| (if i < key.len() { key[i] } else { 0u8 }) ^ x)
}

fn make_pad(key: &[u8], x: u8) -> (r: Vec<u8>)
    ensures
        r@ == hmac_pad(key@, x),
{
    let mut out: Vec<u8> = Vec::new();
    let mut i: usize = 0;
    while i < 64
        invariant
            i <= 64,
            out@.len() == i,
            forall|q: int| 0 <= q < i ==> out@[q] == (if q < key@.len() { key@[q] } else { 0u8 }) ^ x,
        decreases 64 - i,
    {
        let b = if i < key.len() {
            key[i]
        } else {
            0u8
        };
        out.push(b ^ x);
        i += 1;
    }
    assert(out@ =~= hmac_pad(key@, x));
    out
}

/// HMAC-SHA-1 (key truncated to 64 bytes) over the first three inputs.
pub open spec fn hmac_sha_spec(key: Seq<u8>, msg: Seq<u8>) -> Seq<u8> {
    sha1_digest(hmac_pad(key, 0x5C) + sha1_digest(hmac_pad(key, 0x36) + msg))
}

/// HMAC-SHA-1 with the key's first 64 bytes over the first three inputs.
pub fn hmac_sha(key: &[u8], inputs: &[&[u8]]) -> (r: Result<[u8; 20], CryptoError>)
    ensures
        r matches Ok(h) && h@ == hmac_sha_spec(key@, first_three(inputs_view(inputs@))),
{
    let mut inner = make_pad(key, 0x36);
    concat_first_three(&mut inner, inputs);
    let ih = sha1_of(inner.as_slice());
    let mut outer = make_pad(key, 0x5C);
    append_slice(&mut outer, &ih);
    Ok(sha1_of(outer.as_slice()))
}

/// 64-bit rotation left by `n` (0 < n < 64).
pub open spec fn rotl(x: u64, n: u64) -> u64 {
    (x << n) | (x >> (64 - n) as u64)
}

/// Big-endian 32-bit word `k` of the data.
pub open spec fn word_be(d: Seq<u8>, k: int) -> u64 {
    ((d[4 * k] as u64) * 0x100_0000 + (d[4 * k + 1] as u64) * 0x1_0000 + (d[4 * k + 2] as u64) * 0x100 + (d[4
        * k + 3] as u64)) as u64
}

/// SMC checksum state after `n` words: each word is added to the first sum and
/// subtracted from the second, which are then rotated by 29 and 31 bits.
pub open spec fn smc_sums(d: Seq<u8>, n: int) -> (u64, u64)
    decreases n,
{
    if n <= 0 {
        (0, 0)
    } else {
        let prev = smc_sums(d, n - 1);
        let v = word_be(d, n - 1);
        (rotl(prev.0.wrapping_add(v), 29), rotl(prev.1.wrapping_sub(v), 31))
    }
}

pub open spec fn be_bytes64(v: u64) -> Seq<u8> {
    seq![
        (v >> 56u64) as u8,
        (v >> 48u64) as u8,
        (v >> 40u64) as u8,
        (v >> 32u64) as u8,
        (v >> 24u64) as u8,
        (v >> 16u64) as u8,
        (v >> 8u64) as u8,
        v as u8,
    ]
}

/// The SMC checksum: the two sums over the data's whole big-endian words
/// (trailing bytes ignored), as 16 big-endian bytes.
pub fn calculate_smc_hash(data: &[u8]) -> (r: [u8; 16])
    ensures
        r@ == be_bytes64(smc_sums(data@, (data@.len() / 4) as int).0) + be_bytes64(smc_sums(data@, (data@.len() / 4) as int).1),
{
    let dl = data.len();
    let n = dl / 4;
    let mut s0: u64 = 0;
    let mut s1: u64 = 0;
    let mut k: usize = 0;
    while k < n
        invariant
            n == data@.len() / 4,
            dl == data@.len(),
            k <= n,
            (s0, s1) == smc_sums(data@, k as int),
        decreases n - k,
    {
        assert(4 * k + 3 < dl) by (nonlinear_arith)
            requires
                k < n,
                n == dl / 4,
        ;
        let p = 4 * k;
        let v = (data[p] as u64) * 0x100_0000 + (data[p + 1] as u64) * 0x1_0000 + (data[p + 2] as u64) * 0x100
            + (data[p + 3] as u64);
        let a = s0.wrapping_add(v);
        let b = s1.wrapping_sub(v);
        s0 = (a << 29u64) | (a >> 35u64);
        s1 = (b << 31u64) | (b >> 33u64);
        k += 1;
    }
    let mut hash = [0u8; 16];
    hash[0] = (s0 >> 56u64) as u8;
    hash[1] = (s0 >> 48u64) as u8;
    hash[2] = (s0 >> 40u64) as u8;
    hash[3] = (s0 >> 32u64) as u8;
    hash[4] = (s0 >> 24u64) as u8;
    hash[5] = (s0 >> 16u64) as u8;
    hash[6] = (s0 >> 8u64) as u8;
    hash[7] = s0 as u8;
    hash[8] = (s1 >> 56u64) as u8;
    hash[9] = (s1 >> 48u64) as u8;
    hash[10] = (s1 >> 40u64) as u8;
    hash[11] = (s1 >> 32u64) as u8;
    hash[12] = (s1 >> 24u64) as u8;
    hash[13] = (s1 >> 16u64) as u8;
    hash[14] = (s1 >> 8u64) as u8;
    hash[15] = s1 as u8;
    assert(hash@ =~= be_bytes64(s0) + be_bytes64(s1));
    hash
}


/// The rotate-sum state as four words.
pub type RotSumState = (u64, u64, u64, u64);

/// One 8-byte chunk of the rotate-sum: the chunk is added to the second word
/// (carrying into the first) and subtracted from the fourth (the first word's
/// partner counting down when the difference exceeds the chunk), then the
/// second and fourth words rotate by 29 and 31 bits.
pub open spec fn rot_sum_step(st: RotSumState, data: u64) -> RotSumState {
    let s1 = st.1.wrapping_add(data);
    let s3 = st.3.wrapping_sub(data);
    let s0 = if s1 < data {
        st.0.wrapping_add(1)
    } else {
        st.0
    };
    let s2 = if s3 > data {
        st.2.wrapping_sub(1)
    } else {
        st.2
    };
    (s0, rotl(s1, 29), s2, rotl(s3, 31))
}

/// The state after the first `n` whole chunks of the input.
pub open spec fn rot_sum_chunks(st: RotSumState, input: Seq<u8>, n: nat) -> RotSumState
    decreases n,
{
    if n == 0 {
        st
    } else {
        rot_sum_step(rot_sum_chunks(st, input, (n - 1) as nat), be_word(input, n - 1))
    }
}

pub open spec fn bswap_state(st: RotSumState) -> RotSumState {
    (bswap64(st.0), bswap64(st.1), bswap64(st.2), bswap64(st.3))
}

/// The rotate-sum of an input over a stored (byte-swapped) state; trailing
/// bytes that do not fill a chunk are ignored.
pub open spec fn rot_sum_spec(st: RotSumState, input: Seq<u8>) -> RotSumState {
    bswap_state(rot_sum_chunks(bswap_state(st), input, (input.len() / 8) as nat))
}

fn excrypt_rot_sum(state: &mut [u64; 4], input: &[u8])
    ensures
        (final(state)@[0], final(state)@[1], final(state)@[2], final(state)@[3]) == rot_sum_spec(
            (old(state)@[0], old(state)@[1], old(state)@[2], old(state)@[3]),
            input@,
        ),
{
    let ghost st0 = (old(state)@[0], old(state)@[1], old(state)@[2], old(state)@[3]);
    let mut s0 = swap_qword(state[0]);
    let mut s1 = swap_qword(state[1]);
    let mut s2 = swap_qword(state[2]);
    let mut s3 = swap_qword(state[3]);
    let n = input.len() / 8;
    let mut k: usize = 0;
    while k < n
        invariant
            k <= n,
            n == input@.len() / 8,
            (s0, s1, s2, s3) == rot_sum_chunks(bswap_state(st0), input@, k as nat),
        decreases n - k,
    {
        assert(8 * k + 8 <= input@.len()) by (nonlinear_arith)
            requires
                k < n,
                n == input@.len() / 8,
        ;
        let data = read_be_word(input, k);
        let a = s1.wrapping_add(data);
        let b = s3.wrapping_sub(data);
        if a < data {
            s0 = s0.wrapping_add(1);
        }
        if b > data {
            s2 = s2.wrapping_sub(1);
        }
        s1 = (a << 29u64) | (a >> 35u64);
        s3 = (b << 31u64) | (b >> 33u64);
        k += 1;
    }
    state[0] = swap_qword(s0);
    state[1] = swap_qword(s1);
    state[2] = swap_qword(s2);
    state[3] = swap_qword(s3);
}

/// Little-endian bytes of a 64-bit word.
pub open spec fn le_bytes64(v: u64) -> Seq<u8> {
    Seq::new(8, |t: int| (v >> (8 * t) as u64) as u8)
}

pub open spec fn state_le_bytes(st: RotSumState) -> Seq<u8> {
    le_bytes64(st.0) + le_bytes64(st.1) + le_bytes64(st.2) + le_bytes64(st.3)
}

pub open spec fn state_not(st: RotSumState) -> RotSumState {
    (!st.0, !st.1, !st.2, !st.3)
}

/// The rotate-sum SHA: SHA-1 over the rotate-sum of both inputs (twice), the
/// inputs, and the complemented rotate-sum (twice).
pub open spec fn rot_sum_sha_spec(input1: Seq<u8>, input2: Seq<u8>) -> Seq<u8> {
    let r = rot_sum_spec(rot_sum_spec((0, 0, 0, 0), input1), input2);
    let b = state_le_bytes(r);
    let nb = state_le_bytes(state_not(r));
    sha1_digest(b + b + input1 + input2 + nb + nb)
}

fn push_le_word(out: &mut Vec<u8>, v: u64)
    ensures
        final(out)@ == old(out)@ + le_bytes64(v),
{
    let mut t: u64 = 0;
    while t < 8
        invariant
            t <= 8,
            out@ == old(out)@ + le_bytes64(v).take(t as int),
        decreases 8 - t,
    {
        out.push((v >> (8 * t)) as u8);
        t += 1;
        assert(out@ =~= old(out)@ + le_bytes64(v).take(t as int));
    }
    assert(le_bytes64(v).take(8) =~= le_bytes64(v));
}

fn push_state(out: &mut Vec<u8>, st: &[u64; 4])
    ensures
        final(out)@ == old(out)@ + state_le_bytes((st@[0], st@[1], st@[2], st@[3])),
{
    push_le_word(out, st[0]);
    push_le_word(out, st[1]);
    push_le_word(out, st[2]);
    push_le_word(out, st[3]);
    assert(out@ =~= old(out)@ + state_le_bytes((st@[0], st@[1], st@[2], st@[3])));
}

/// SHA-1 over the rotate-sum of two inputs, the inputs and the complemented
/// rotate-sum.
pub fn rot_sum_sha(input1: &[u8], input2: &[u8]) -> (r: Result<[u8; 20], CryptoError>)
    ensures
        r matches Ok(h) && h@ == rot_sum_sha_spec(input1@, input2@),
{
    let mut rotsum = [0u64; 4];
    excrypt_rot_sum(&mut rotsum, input1);
    excrypt_rot_sum(&mut rotsum, input2);
    let mut buf: Vec<u8> = Vec::new();
    push_state(&mut buf, &rotsum);
    push_state(&mut buf, &rotsum);
    append_slice(&mut buf, input1);
    append_slice(&mut buf, input2);
    let inv = [!rotsum[0], !rotsum[1], !rotsum[2], !rotsum[3]];
    push_state(&mut buf, &inv);
    push_state(&mut buf, &inv);
    proof {
        let r = (rotsum@[0], rotsum@[1], rotsum@[2], rotsum@[3]);
        assert((inv@[0], inv@[1], inv@[2], inv@[3]) == state_not(r));
        assert(Seq::<u8>::empty() + state_le_bytes(r) + state_le_bytes(r) + input1@ + input2@ + state_le_bytes(
            state_not(r),
        ) + state_le_bytes(state_not(r)) =~= state_le_bytes(r) + state_le_bytes(r) + input1@ + input2@
            + state_le_bytes(state_not(r)) + state_le_bytes(state_not(r)));
    }
    Ok(sha1_of(buf.as_slice()))
}


/// `xecrypt::symmetric::xe_crypt_rot_sum_sha`: the rotate-sum SHA of two
/// inputs. Its source keeps the four state words unswapped and hashes their
/// big-endian bytes, which are the little-endian bytes of the byte-swapped
/// words that `rot_sum_sha_spec` carries; so the result is `rot_sum_sha_spec`
/// of the inputs.
#[verifier::external_body]
fn xe_rot_sum_sha(input1: &[u8], input2: &[u8]) -> (r: [u8; 20])
    ensures
        r@ == rot_sum_sha_spec(input1@, input2@),
{
    xecrypt::symmetric::xe_crypt_rot_sum_sha(input1, input2)
}

/// Copies the first `min(size, 20)` bytes of a digest into `output`.
fn copy_digest(output: &mut [u8], h: &[u8; 20], output_size: u32)
    requires
        old(output)@.len() >= (if output_size < 20 { output_size as int } else { 20 }),
    ensures
        final(output)@ == h@.take(if output_size < 20 { output_size as int } else { 20 }) + old(output)@.skip(
            if output_size < 20 { output_size as int } else { 20 },
        ),
{
    let n: usize = if output_size < 20 {
        output_size as usize
    } else {
        20
    };
    let mut i: usize = 0;
    while i < n
        invariant
            i <= n <= 20,
            output@.len() == old(output)@.len(),
            old(output)@.len() >= n,
            forall|q: int| 0 <= q < i ==> output@[q] == h@[q],
            forall|q: int| i <= q < output@.len() ==> output@[q] == old(output)@[q],
        decreases n - i,
    {
        output[i] = h[i];
        i += 1;
    }
    assert(output@ =~= h@.take(n as int) + old(output)@.skip(n as int));
}

pub open spec fn digest_len(output_size: u32) -> int {
    if output_size < 20 {
        output_size as int
    } else {
        20
    }
}

/// SHA-1 of up to three inputs into the first `min(output_size, 20)` bytes of
/// `output`.
#[allow(non_snake_case)]
pub fn ExCryptSha(inputs: &[&[u8]], output: &mut [u8], output_size: u32)
    requires
        old(output)@.len() >= digest_len(output_size),
    ensures
        final(output)@ == sha1_digest(first_three(inputs_view(inputs@))).take(digest_len(output_size)) + old(
            output,
        )@.skip(digest_len(output_size)),
{
    match sha(inputs) {
        Ok(h) => copy_digest(output, &h, output_size),
        Err(_) => {
            assert(false);
        },
    }
}

/// HMAC-SHA-1 of up to three inputs into the first `min(output_size, 20)`
/// bytes of `output`.
#[allow(non_snake_case)]
pub fn ExCryptHmacSha(key: &[u8], inputs: &[&[u8]], output: &mut [u8], output_size: u32)
    requires
        old(output)@.len() >= digest_len(output_size),
    ensures
        final(output)@ == hmac_sha_spec(key@, first_three(inputs_view(inputs@))).take(digest_len(output_size))
            + old(output)@.skip(digest_len(output_size)),
{
    match hmac_sha(key, inputs) {
        Ok(h) => copy_digest(output, &h, output_size),
        Err(_) => {
            assert(false);
        },
    }
}

/// The rotate-sum SHA of two inputs, computed by `xecrypt`, into the first
/// `min(output_size, 20)` bytes of `output`.
#[allow(non_snake_case)]
pub fn ExCryptRotSumSha(input1: &[u8], input2: &[u8], output: &mut [u8], output_size: u32)
    requires
        old(output)@.len() >= digest_len(output_size),
    ensures
        final(output)@ == rot_sum_sha_spec(input1@, input2@).take(digest_len(output_size)) + old(
            output,
        )@.skip(digest_len(output_size)),
{
    let h = xe_rot_sum_sha(input1, input2);
    copy_digest(output, &h, output_size);
}

} // verus!
