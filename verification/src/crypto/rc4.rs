//! RC4 stream cipher.

use vstd::prelude::*;
use crate::crypto::CryptoError;

verus! {

/// RC4 state: the permutation and the two indices.
pub struct ExCryptRc4State {
    pub s: [u8; 256],
    pub i: u8,
    pub j: u8,
}

pub struct Rc4 {
    state: ExCryptRc4State,
}

pub open spec fn swap(s: Seq<u8>, a: int, b: int) -> Seq<u8> {
    s.update(a, s[b]).update(b, s[a])
}

/// Key schedule after `n` of its 256 steps: the permutation and `j`.
pub open spec fn ksa(key: Seq<u8>, n: int) -> (Seq<u8>, int)
    decreases n,
{
    if n <= 0 {
        (Seq::new(256, |k: int| k as u8), 0)
    } else {
        let prev = ksa(key, n - 1);
        let idx = n - 1;
        let j = (prev.1 + prev.0[idx] + key[idx % (key.len() as int)]) % 256;
        (swap(prev.0, idx, j), j)
    }
}

/// One output step from state `(s, i, j)`: the next state and the keystream byte.
pub open spec fn rc4_step(st: (Seq<u8>, u8, u8)) -> ((Seq<u8>, u8, u8), u8) {
    let i = ((st.1 + 1) % 256) as u8;
    let j = ((st.2 + st.0[i as int]) % 256) as u8;
    let s = swap(st.0, i as int, j as int);
    ((s, i, j), s[((s[i as int] + s[j as int]) % 256) as int])
}

/// State after `n` output steps, and the `n` keystream bytes.
pub open spec fn keystream(st: (Seq<u8>, u8, u8), n: nat) -> ((Seq<u8>, u8, u8), Seq<u8>)
    decreases n,
{
    if n == 0 {
        (st, Seq::empty())
    } else {
        let prev = keystream(st, (n - 1) as nat);
        let step = rc4_step(prev.0);
        (step.0, prev.1.push(step.1))
    }
}

pub open spec fn xor_bytes(d: Seq<u8>, k: Seq<u8>) -> Seq<u8> {
    Seq::new(d.len(), |i: int| d[i] ^ k[i])
}

impl Rc4 {
    /// The cipher state `(permutation, i, j)`.
    pub closed spec fn key_state(&self) -> (Seq<u8>, u8, u8) {
        (self.state.s@, self.state.i, self.state.j)
    }

    /// Keys a cipher: the key schedule over all 256 positions; an empty key is
    /// refused.
    pub fn new(key: &[u8]) -> (r: Result<Self, CryptoError>)
        ensures
            key@.len() == 0 ==> r == Err::<Self, CryptoError>(CryptoError::InvalidKeySize { expected: 1, got: 0 }),
            key@.len() > 0 ==> (r matches Ok(c) && c.key_state() == (ksa(key@, 256).0, 0u8, 0u8)),
    {
        let klen = key.len();
        if klen == 0 {
            return Err(CryptoError::InvalidKeySize { expected: 1, got: 0 });
        }
        let mut s = [0u8; 256];
        let mut k: usize = 0;
        while k < 256
            invariant
                k <= 256,
                s@.len() == 256,
                forall|q: int| 0 <= q < k ==> s@[q] == q as u8,
            decreases 256 - k,
        {
            s[k] = k as u8;
            k += 1;
        }
        assert(s@ =~= ksa(key@, 0).0);
        let mut j: usize = 0;
        let mut idx: usize = 0;
        while idx < 256
            invariant
                idx <= 256,
                klen == key@.len(),
                klen > 0,
                s@.len() == 256,
                j < 256,
                (s@, j as int) == ksa(key@, idx as int),
            decreases 256 - idx,
        {
            j = (j + s[idx] as usize + key[idx % klen] as usize) % 256;
            let a = s[idx];
            let b = s[j];
            s[idx] = b;
            s[j] = a;
            assert(s@ =~= swap(ksa(key@, idx as int).0, idx as int, j as int));
            idx += 1;
        }
        Ok(Rc4 { state: ExCryptRc4State { s, i: 0, j: 0 } })
    }

    /// XORs the data with the next keystream bytes and advances the cipher.
    pub fn crypt(&mut self, data: &mut [u8]) -> (r: Result<(), CryptoError>)
        ensures
            r is Ok,
            final(data)@ == xor_bytes(old(data)@, keystream(old(self).key_state(), old(data)@.len()).1),
            final(self).key_state() == keystream(old(self).key_state(), old(data)@.len()).0,
    {
        let n = data.len();
        let ghost st0 = self.key_state();
        let mut p: usize = 0;
        while p < n
            invariant
                p <= n == data@.len(),
                data@.len() == old(data)@.len(),
                self.state.s@.len() == 256,
                self.key_state() == keystream(st0, p as nat).0,
                keystream(st0, p as nat).1.len() == p,
                forall|q: int| 0 <= q < p ==> data@[q] == old(data)@[q] ^ keystream(st0, p as nat).1[q],
                forall|q: int| p <= q < n ==> data@[q] == old(data)@[q],
            decreases n - p,
        {
            let ghost prev = keystream(st0, p as nat);
            let i = ((self.state.i as u16 + 1) % 256) as u8;
            let j = ((self.state.j as u16 + self.state.s[i as usize] as u16) % 256) as u8;
            let a = self.state.s[i as usize];
            let b = self.state.s[j as usize];
            self.state.s[i as usize] = b;
            self.state.s[j as usize] = a;
            self.state.i = i;
            self.state.j = j;
            let kidx = ((self.state.s[i as usize] as u16 + self.state.s[j as usize] as u16) % 256) as usize;
            let kbyte = self.state.s[kidx];
            proof {
                assert(self.state.s@ =~= swap(prev.0.0, i as int, j as int));
                assert(keystream(st0, (p + 1) as nat) == (rc4_step(prev.0).0, prev.1.push(rc4_step(prev.0).1)));
            }
            data[p] = data[p] ^ kbyte;
            p += 1;
        }
        assert(data@ =~= xor_bytes(old(data)@, keystream(st0, n as nat).1));
        Ok(())
    }
}

/// RC4 is its own inverse: XORing with the same keystream twice gives the data back.
pub proof fn lemma_rc4_involution(d: Seq<u8>, st: (Seq<u8>, u8, u8))
    ensures
        xor_bytes(xor_bytes(d, keystream(st, d.len()).1), keystream(st, d.len()).1) == d,
{
    let k = keystream(st, d.len()).1;
    assert forall|i: int| 0 <= i < d.len() implies #[trigger] xor_bytes(xor_bytes(d, k), k)[i] == d[i] by {
        let a = d[i];
        let b = k[i];
        assert((a ^ b) ^ b == a) by (bit_vector);
    }
    assert(xor_bytes(xor_bytes(d, k), k) =~= d);
}


/// Running the keystream for `a + b` bytes is running it for `a` bytes and
/// then for `b` more from where it stopped.
pub proof fn lemma_keystream_split(st: (Seq<u8>, u8, u8), a: nat, b: nat)
    ensures
        keystream(st, a + b).1 == keystream(st, a).1 + keystream(keystream(st, a).0, b).1,
        keystream(st, a + b).0 == keystream(keystream(st, a).0, b).0,
    decreases b,
{
    if b == 0 {
        assert(keystream(st, a).1 + Seq::<u8>::empty() =~= keystream(st, a).1);
    } else {
        lemma_keystream_split(st, a, (b - 1) as nat);
        let mid = keystream(st, a).0;
        let prev = keystream(mid, (b - 1) as nat);
        assert(keystream(st, (a + b - 1) as nat).1 == keystream(st, a).1 + prev.1);
        assert(keystream(st, a + b).1 =~= keystream(st, a).1 + prev.1.push(rc4_step(prev.0).1));
    }
}


pub proof fn lemma_keystream_len(st: (Seq<u8>, u8, u8), n: nat)
    ensures
        keystream(st, n).1.len() == n,
    decreases n,
{
    if n > 0 {
        lemma_keystream_len(st, (n - 1) as nat);
    }
}

} // verus!
