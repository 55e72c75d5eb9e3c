//! Multi-precision arithmetic on little-endian arrays of 64-bit words: copy,
//! the inverse of a word modulo 2^64, and the modular multiplication used by
//! the RSA signature check.

use vstd::prelude::*;
use vstd::arithmetic::div_mod::*;
use vstd::arithmetic::power2::{lemma2_to64, lemma2_to64_rest, lemma_pow2_adds, lemma_pow2_pos, pow2};

verus! {

/// 2^64, the base of a word.
pub open spec fn word_base() -> int {
    0x1_0000_0000_0000_0000
}

/// Copies the first `num_qwords` words of `source` into `dest`.
#[allow(non_snake_case)]
pub fn ExCryptBnQw_Copy(source: &[u64], dest: &mut [u64], num_qwords: u32)
    requires
        source@.len() >= num_qwords,
        old(dest)@.len() >= num_qwords,
    ensures
        final(dest)@ == source@.subrange(0, num_qwords as int) + old(dest)@.subrange(
            num_qwords as int,
            old(dest)@.len() as int,
        ),
{
    let n = num_qwords as usize;
    let mut k: usize = 0;
    while k < n
        invariant
            n == num_qwords,
            k <= n,
            source@.len() >= n,
            old(dest)@.len() >= n,
            dest@.len() == old(dest)@.len(),
            forall|q: int| 0 <= q < k ==> dest@[q] == source@[q],
            forall|q: int| k <= q < dest@.len() ==> dest@[q] == old(dest)@[q],
        decreases n - k,
    {
        dest[k] = source[k];
        k += 1;
    }
    assert(dest@ =~= source@.subrange(0, num_qwords as int) + old(dest)@.subrange(
        num_qwords as int,
        old(dest)@.len() as int,
    ));
}

/// The first Newton step of the inverse: `3a XOR 2` is an inverse of an odd
/// `a` modulo 32, so `1 - a * (3a XOR 2)` is a multiple of 32.
pub open spec fn mod_inv_seed(a: u64) -> u64 {
    a.wrapping_mul(3) ^ 2
}

/// `(v, x)` after `steps` rounds of `v := v * (x + 1)`, `x := x * x` (mod 2^64).
pub open spec fn mod_inv_rounds(v: u64, x: u64, steps: nat) -> (u64, u64)
    decreases steps,
{
    if steps == 0 {
        (v, x)
    } else {
        mod_inv_rounds(v.wrapping_mul(x.wrapping_add(1)), x.wrapping_mul(x), (steps - 1) as nat)
    }
}

/// The word that `ExCryptBnQwNeModInv` computes: from the seed, three rounds and
/// a last multiplication by `x + 1`.
pub open spec fn mod_inv_spec(a: u64) -> u64 {
    let v0 = mod_inv_seed(a);
    let x0 = 1u64.wrapping_sub(v0.wrapping_mul(a));
    let r = mod_inv_rounds(v0, x0, 3);
    r.0.wrapping_mul(r.1.wrapping_add(1))
}

proof fn lemma_seed_inverse_mod32(a: u64)
    requires
        a % 2 == 1,
    ensures
        1u64.wrapping_sub(mod_inv_seed(a).wrapping_mul(a)) % 32 == 0,
{
    let v0 = mod_inv_seed(a);
    let lo = a % 32;
    assert(a & 31 == a % 32) by (bit_vector);
    assert(a.wrapping_mul(3) % 32 == (lo * 3) % 32) by {
        lemma_mod_mod(a * 3, 32, 0x800_0000_0000_0000);
        lemma_mul_mod_noop_left(a as int, 3, 32);
    }
    let t = a.wrapping_mul(3);
    assert((t ^ 2) % 32 == (t % 32) ^ 2) by (bit_vector);
    assert(v0 % 32 == ((lo * 3) % 32) as u64 ^ 2);
    assert(v0.wrapping_mul(a) % 32 == (v0 * a) % 32) by {
        lemma_mod_mod(v0 * a, 32, 0x800_0000_0000_0000);
    }
    assert((v0 * a) % 32 == ((v0 % 32) * lo) % 32) by {
        lemma_mul_mod_noop(v0 as int, a as int, 32);
    }
    assert(lo % 2 == 1) by {
        lemma_mod_mod(a as int, 2, 16);
    }
    let w = ((lo * 3) % 32) as u64 ^ 2;
    assert(lo < 32 && lo % 2 == 1 ==> ((((lo * 3) % 32) as u64 ^ 2u64) * lo) % 32 == 1) by (bit_vector);
    assert((v0 * a) % 32 == 1);
    let p = v0.wrapping_mul(a);
    assert(p % 32 == 1);
    assert(1u64.wrapping_sub(p) == (if p <= 1 { 1 - p } else { word_base() + 1 - p }));
    if p > 1 {
        assert((word_base() + 1 - p) % 32 == 0) by {
            lemma_fundamental_div_mod(p as int, 32);
            lemma_mod_multiples_vanish(0x800_0000_0000_0000 - p / 32, 0, 32);
        }
    }
}

/// One round keeps `a * v == 1 - x` (mod 2^64) and squares the power of two
/// that divides `x`.
proof fn lemma_inv_round(a: u64, v: u64, x: u64, k: int)
    requires
        (a * v) % word_base() == (1 - x) % word_base(),
        0 < k <= 32,
        (x as int) % (pow2(k as nat) as int) == 0,
    ensures
        (a * v.wrapping_mul(x.wrapping_add(1))) % word_base() == (1 - x.wrapping_mul(x)) % word_base(),
        (x.wrapping_mul(x) as int) % (pow2((2 * k) as nat) as int) == 0,
{
    let wb = word_base();
    let x1 = x.wrapping_add(1);
    assert(x1 == (x + 1) % wb);
    let v1 = v.wrapping_mul(x1);
    assert(v1 == (v * x1) % wb);
    assert((a * v1) % wb == (a * (v * x1)) % wb) by {
        lemma_mul_mod_noop_right(a as int, v * x1, wb);
    }
    assert(a * (v * x1) == (a * v) * x1) by (nonlinear_arith);
    assert(((a * v) * x1) % wb == (((a * v) % wb) * x1) % wb) by {
        lemma_mul_mod_noop_left(a * v, x1 as int, wb);
    }
    assert((((1 - x) % wb) * x1) % wb == ((1 - x) * x1) % wb) by {
        lemma_mul_mod_noop_left(1 - x, x1 as int, wb);
    }
    assert(((1 - x) * x1) % wb == ((1 - x) * (x + 1)) % wb) by {
        lemma_mul_mod_noop_right(1 - x, x + 1, wb);
    }
    assert((1 - x) * (x + 1) == 1 - x * x) by (nonlinear_arith);
    let sq = x.wrapping_mul(x);
    assert(sq == (x * x) % wb);
    assert((1 - x * x) % wb == (1 - sq) % wb) by {
        lemma_sub_mod_noop_right(1, x * x, wb);
        lemma_sub_mod_noop_right(1, sq as int, wb);
        lemma_mod_twice(x * x, wb);
    }
    let pk = pow2(k as nat) as int;
    let p2k = pow2((2 * k) as nat) as int;
    lemma_pow2_adds(k as nat, k as nat);
    lemma_pow2_adds((2 * k) as nat, (64 - 2 * k) as nat);
    lemma2_to64();
    lemma_pow2_pos((64 - 2 * k) as nat);
    lemma_pow2_pos(k as nat);
    lemma_pow2_pos((2 * k) as nat);
    assert(wb == p2k * pow2((64 - 2 * k) as nat));
    let t = (x as int) / pk;
    assert(x == pk * t) by {
        lemma_fundamental_div_mod(x as int, pk);
    }
    assert(x * x == p2k * (t * t)) by (nonlinear_arith)
        requires
            x == pk * t,
            p2k == pk * pk,
    ;
    assert((x * x) % p2k == 0) by {
        lemma_mod_multiples_basic(t * t, p2k);
    }
    assert((sq as int) % p2k == (x * x) % p2k) by {
        lemma_mod_mod(x * x, p2k, pow2((64 - 2 * k) as nat) as int);
    }
}

/// The seed relation: `a * v0 == 1 - x0` (mod 2^64) and 32 divides `x0`.
proof fn lemma_inv_start(a: u64)
    requires
        a % 2 == 1,
    ensures
        ({
            let v0 = mod_inv_seed(a);
            let x0 = 1u64.wrapping_sub(v0.wrapping_mul(a));
            &&& (a * v0) % word_base() == (1 - x0) % word_base()
            &&& (x0 as int) % (pow2(5) as int) == 0
        }),
{
    let wb = word_base();
    let v0 = mod_inv_seed(a);
    let x0 = 1u64.wrapping_sub(v0.wrapping_mul(a));
    lemma2_to64();
    lemma_seed_inverse_mod32(a);
    let p = v0.wrapping_mul(a);
    assert(p == (v0 * a) % wb);
    assert(x0 == (1 - p) % wb);
    assert(v0 * a == a * v0) by (nonlinear_arith);
    assert((1 - x0) % wb == (p as int) % wb) by {
        lemma_sub_mod_noop_right(1, 1 - p, wb);
    }
    assert((p as int) % wb == (a * v0) % wb) by {
        lemma_mod_twice(v0 * a, wb);
    }
}

/// The last multiplication: once 2^40 divides `x`, `a * v * (x + 1) == 1`
/// (mod 2^64).
proof fn lemma_inv_last(a: u64, v: u64, x: u64)
    requires
        (a * v) % word_base() == (1 - x) % word_base(),
        (x as int) % (pow2(40) as int) == 0,
    ensures
        (a * v.wrapping_mul(x.wrapping_add(1))) % word_base() == 1,
{
    let wb = word_base();
    lemma2_to64();
    lemma2_to64_rest();
    let x1p = x.wrapping_add(1);
    let r = v.wrapping_mul(x1p);
    assert(r == (v * x1p) % wb);
    assert((a * r) % wb == (a * (v * x1p)) % wb) by {
        lemma_mul_mod_noop_right(a as int, v * x1p, wb);
    }
    assert(a * (v * x1p) == (a * v) * x1p) by (nonlinear_arith);
    assert(((a * v) * x1p) % wb == (((a * v) % wb) * x1p) % wb) by {
        lemma_mul_mod_noop_left(a * v, x1p as int, wb);
    }
    assert((((1 - x) % wb) * x1p) % wb == ((1 - x) * x1p) % wb) by {
        lemma_mul_mod_noop_left(1 - x, x1p as int, wb);
    }
    assert(((1 - x) * x1p) % wb == ((1 - x) * (x + 1)) % wb) by {
        lemma_mul_mod_noop_right(1 - x, x + 1, wb);
    }
    assert((1 - x) * (x + 1) == 1 - x * x) by (nonlinear_arith);
    let p40 = pow2(40) as int;
    let t = (x as int) / p40;
    assert(x == p40 * t) by {
        lemma_fundamental_div_mod(x as int, p40);
    }
    assert(x * x == wb * (0x1_0000 * t * t)) by (nonlinear_arith)
        requires
            x == p40 * t,
            p40 == 0x100_0000_0000,
            wb == 0x1_0000_0000_0000_0000,
    ;
    assert((1 - x * x) % wb == 1) by {
        lemma_mod_multiples_vanish(-(0x1_0000 * t * t), 1, wb);
    }
}

/// For an odd word, `ExCryptBnQwNeModInv` gives its inverse modulo 2^64.
pub proof fn lemma_mod_inv_is_inverse(a: u64)
    requires
        a % 2 == 1,
    ensures
        (a * mod_inv_spec(a)) % word_base() == 1,
{
    let v0 = mod_inv_seed(a);
    let x0 = 1u64.wrapping_sub(v0.wrapping_mul(a));
    lemma_inv_start(a);
    lemma_inv_round(a, v0, x0, 5);
    let v1 = v0.wrapping_mul(x0.wrapping_add(1));
    let x1 = x0.wrapping_mul(x0);
    lemma_inv_round(a, v1, x1, 10);
    let v2 = v1.wrapping_mul(x1.wrapping_add(1));
    let x2 = x1.wrapping_mul(x1);
    lemma_inv_round(a, v2, x2, 20);
    let v3 = v2.wrapping_mul(x2.wrapping_add(1));
    let x3 = x2.wrapping_mul(x2);
    assert(mod_inv_rounds(v0, x0, 3) == (v3, x3)) by {
        reveal_with_fuel(mod_inv_rounds, 4);
    }
    lemma_inv_last(a, v3, x3);
}

/// The 2-adic inverse of a word by Newton's iteration: for an odd word `a`,
/// `a * r == 1` modulo 2^64.
#[allow(non_snake_case)]
pub fn ExCryptBnQwNeModInv(input: u64) -> (r: u64)
    ensures
        r == mod_inv_spec(input),
        input % 2 == 1 ==> (input * r) % word_base() == 1,
{
    let mut val = input.wrapping_mul(3) ^ 2;
    let mut x = 1u64.wrapping_sub(val.wrapping_mul(input));
    let ghost v0 = val;
    let ghost x0 = x;
    let mut round: u32 = 0;
    while round < 3
        invariant
            round <= 3,
            mod_inv_rounds(val, x, (3 - round) as nat) == mod_inv_rounds(v0, x0, 3),
        decreases 3 - round,
    {
        val = val.wrapping_mul(x.wrapping_add(1));
        x = x.wrapping_mul(x);
        round += 1;
    }
    proof {
        if input % 2 == 1 {
            lemma_mod_inv_is_inverse(input);
        }
    }
    val.wrapping_mul(x.wrapping_add(1))
}

/// 2^(64 k): the weight of word `k`.
pub open spec fn word_weight(k: nat) -> int
    decreases k,
{
    if k == 0 {
        1
    } else {
        word_base() * word_weight((k - 1) as nat)
    }
}

/// The number that a little-endian word sequence stands for.
pub open spec fn words_value(s: Seq<u64>) -> int
    decreases s.len(),
{
    if s.len() == 0 {
        0
    } else {
        words_value(s.drop_last()) + s.last() * word_weight((s.len() - 1) as nat)
    }
}

/// Word `i` (from the least significant) of a number.
pub open spec fn digit(v: int, i: nat) -> int {
    (v / word_weight(i)) % word_base()
}

proof fn lemma_weight_step(k: nat)
    ensures
        word_weight(k + 1) == word_base() * word_weight(k),
        word_weight(k) > 0,
    decreases k,
{
    if k > 0 {
        lemma_weight_step((k - 1) as nat);
        assert(word_base() * word_weight((k - 1) as nat) > 0) by (nonlinear_arith)
            requires
                word_weight((k - 1) as nat) > 0,
        ;
    }
}

proof fn lemma_weight_adds(j: nat, k: nat)
    ensures
        word_weight(j) * word_weight(k) == word_weight(j + k),
    decreases k,
{
    if k > 0 {
        lemma_weight_adds(j, (k - 1) as nat);
        let a = word_weight(j);
        let b = word_weight((k - 1) as nat);
        assert(a * (word_base() * b) == word_base() * (a * b)) by (nonlinear_arith);
    }
}

proof fn lemma_value_push(s: Seq<u64>, w: u64)
    ensures
        words_value(s.push(w)) == words_value(s) + w * word_weight(s.len()),
{
    assert(s.push(w).drop_last() =~= s);
}

/// A sequence of `n` words stands for a number in `[0, 2^(64 n))`.
pub proof fn lemma_value_bounds(s: Seq<u64>)
    ensures
        0 <= words_value(s) < word_weight(s.len()),
    decreases s.len(),
{
    if s.len() == 0 {
        assert(word_weight(0) == 1);
    } else {
        let n1 = (s.len() - 1) as nat;
        lemma_value_bounds(s.drop_last());
        lemma_weight_step(n1);
        let v = words_value(s.drop_last());
        let p = word_weight(n1);
        let l = s.last();
        assert(v + l * p < word_base() * p) by (nonlinear_arith)
            requires
                0 <= v < p,
                0 <= l < word_base(),
        ;
        assert(0 <= l * p) by (nonlinear_arith)
            requires
                0 <= l,
                0 < p,
        ;
    }
}

/// Splitting a sequence at `j`: the low part plus 2^(64 j) times the high part.
pub proof fn lemma_value_split(s: Seq<u64>, j: int)
    requires
        0 <= j <= s.len(),
    ensures
        words_value(s) == words_value(s.take(j)) + word_weight(j as nat) * words_value(s.skip(j)),
    decreases s.len(),
{
    if j == s.len() {
        assert(s.take(j) =~= s);
        assert(s.skip(j) =~= Seq::<u64>::empty());
    } else {
        let n1 = (s.len() - 1) as nat;
        let dl = s.drop_last();
        lemma_value_split(dl, j);
        assert(dl.take(j) =~= s.take(j));
        assert(s.skip(j) =~= dl.skip(j).push(s.last()));
        lemma_value_push(dl.skip(j), s.last());
        lemma_weight_adds(j as nat, (n1 - j) as nat);
        let pj = word_weight(j as nat);
        let hi = words_value(dl.skip(j));
        let l = s.last() as int;
        let q = word_weight((n1 - j) as nat);
        assert(pj * (hi + l * q) == pj * hi + l * (pj * q)) by (nonlinear_arith);
    }
}

/// Word `i` of the number a sequence stands for is its `i`-th element.
pub proof fn lemma_value_digit(s: Seq<u64>, i: int)
    requires
        0 <= i < s.len(),
    ensures
        digit(words_value(s), i as nat) == s[i],
{
    let wb = word_base();
    lemma_value_split(s, i);
    lemma_value_bounds(s.take(i));
    lemma_weight_step(i as nat);
    let hi = s.skip(i);
    lemma_value_split(hi, 1);
    assert(hi.take(1) =~= seq![s[i]]);
    assert(words_value(seq![s[i]]) == s[i]) by {
        let one = seq![s[i]];
        assert(one.len() == 1);
        assert(one.last() == s[i]);
        assert(one.drop_last() =~= Seq::<u64>::empty());
        assert(words_value(Seq::<u64>::empty()) == 0);
        assert(word_weight(0) == 1);
        assert(words_value(one) == words_value(one.drop_last()) + one.last() * word_weight(0));
    }
    assert(word_weight(1) == wb) by {
        lemma_weight_step(0);
        assert(word_weight(0) == 1);
    }
    let rest = words_value(hi.skip(1));
    lemma_value_bounds(hi.skip(1));
    let pi = word_weight(i as nat);
    let lo = words_value(s.take(i));
    assert(words_value(s) == pi * words_value(hi) + lo);
    assert(words_value(s) == words_value(hi) * pi + lo) by (nonlinear_arith)
        requires
            words_value(s) == pi * words_value(hi) + lo,
    ;
    assert(words_value(s) / pi == words_value(hi)) by {
        lemma_fundamental_div_mod_converse_div(words_value(s), pi, words_value(hi), lo);
    }
    assert(words_value(hi) == wb * rest + s[i]);
    assert(words_value(hi) == rest * wb + s[i]) by (nonlinear_arith)
        requires
            words_value(hi) == wb * rest + s[i],
    ;
    assert(words_value(hi) % wb == s[i] as int) by {
        lemma_fundamental_div_mod_converse_mod(words_value(hi), wb, rest, s[i] as int);
    }
}

proof fn lemma_value_single(w: u64)
    ensures
        words_value(seq![w]) == w,
{
    let one = seq![w];
    assert(one.len() == 1);
    assert(one.last() == w);
    assert(one.drop_last() =~= Seq::<u64>::empty());
    assert(words_value(Seq::<u64>::empty()) == 0);
    assert(word_weight(0) == 1);
    assert(words_value(one) == words_value(one.drop_last()) + one.last() * word_weight(0));
}

proof fn lemma_value_zeros(n: nat)
    ensures
        words_value(Seq::new(n, |k: int| 0u64)) == 0,
    decreases n,
{
    if n > 0 {
        lemma_value_zeros((n - 1) as nat);
        let z = Seq::new(n, |k: int| 0u64);
        assert(z.drop_last() =~= Seq::new((n - 1) as nat, |k: int| 0u64));
        assert(z.last() == 0u64);
        assert(words_value(z) == words_value(z.drop_last()) + z.last() * word_weight((n - 1) as nat));
    }
}

/// `acc + x * y`, as `n + 1` words (`x` taken to its first `n` words).
fn mul_add_words(acc: &Vec<u64>, x: &[u64], y: u64, n: usize) -> (res: Vec<u64>)
    requires
        acc@.len() == n,
        x@.len() >= n,
    ensures
        res@.len() == n + 1,
        words_value(res@) == words_value(acc@) + words_value(x@.take(n as int)) * y,
{
    let mut res: Vec<u64> = Vec::new();
    let mut carry: u64 = 0;
    let mut k: usize = 0;
    proof {
        assert(acc@.take(0) =~= Seq::<u64>::empty());
        assert(x@.take(0) =~= Seq::<u64>::empty());
        assert(res@ =~= Seq::<u64>::empty());
    }
    while k < n
        invariant
            k <= n,
            acc@.len() == n,
            x@.len() >= n,
            res@.len() == k,
            words_value(res@) + carry * word_weight(k as nat) == words_value(acc@.take(k as int))
                + words_value(x@.take(k as int)) * y,
        decreases n - k,
    {
        let xk = x[k];
        let ak = acc[k];
        assert(xk * y <= 0xffff_ffff_ffff_ffff * 0xffff_ffff_ffff_ffff) by (nonlinear_arith)
            requires
                xk <= 0xffff_ffff_ffff_ffff,
                y <= 0xffff_ffff_ffff_ffff,
        ;
        let t: u128 = (xk as u128) * (y as u128) + (ak as u128) + (carry as u128);
        let lo = (t % 0x1_0000_0000_0000_0000u128) as u64;
        let hi = (t / 0x1_0000_0000_0000_0000u128) as u64;
        proof {
            let kk = k as nat;
            let wk = word_weight(kk);
            lemma_weight_step(kk);
            assert(acc@.take(k + 1) =~= acc@.take(k as int).push(ak));
            assert(x@.take(k + 1) =~= x@.take(k as int).push(xk));
            lemma_value_push(acc@.take(k as int), ak);
            lemma_value_push(x@.take(k as int), xk);
            lemma_value_push(res@, lo);
            assert(t == lo + hi * word_base()) by {
                lemma_fundamental_div_mod(t as int, word_base());
            }
            let vr = words_value(res@);
            let va = words_value(acc@.take(k as int));
            let vx = words_value(x@.take(k as int));
            assert(vr + lo * wk + hi * (word_base() * wk) == (va + ak * wk) + (vx + xk * wk) * y)
                by (nonlinear_arith)
                requires
                    vr + carry * wk == va + vx * y,
                    t == xk * y + ak + carry,
                    t == lo + hi * word_base(),
            ;
        }
        res.push(lo);
        carry = hi;
        k += 1;
    }
    proof {
        lemma_value_push(res@, carry);
        assert(acc@.take(n as int) =~= acc@);
    }
    res.push(carry);
    res
}

/// The lowest word of a sequence and the rest, which stands for the number
/// divided by 2^64.
fn split_low(res: &Vec<u64>, n: usize) -> (r: (u64, Vec<u64>))
    requires
        res@.len() == n + 1,
    ensures
        r.1@.len() == n,
        r.0 as int == words_value(res@) % word_base(),
        words_value(r.1@) == words_value(res@) / word_base(),
{
    let mut rest: Vec<u64> = Vec::new();
    let total = res.len();
    let mut k: usize = 1;
    while k <= n
        invariant
            total == n + 1,
            1 <= k <= n + 1,
            res@.len() == n + 1,
            rest@ == res@.subrange(1, k as int),
        decreases n + 1 - k,
    {
        rest.push(res[k]);
        k += 1;
        proof {
            assert(rest@ =~= res@.subrange(1, k as int));
        }
    }
    proof {
        assert(rest@ =~= res@.skip(1));
        lemma_value_split(res@, 1);
        assert(res@.take(1) =~= seq![res@[0]]);
        let one = seq![res@[0]];
        assert(one.drop_last() =~= Seq::<u64>::empty());
        assert(words_value(one) == words_value(one.drop_last()) + one.last() * word_weight(0));
        assert(word_weight(1) == word_base() * word_weight(0));
        lemma_value_bounds(rest@);
        assert(words_value(res@) == words_value(rest@) * word_base() + res@[0]) by (nonlinear_arith)
            requires
                words_value(res@) == words_value(res@.take(1)) + word_weight(1) * words_value(res@.skip(1)),
                words_value(res@.take(1)) == res@[0],
                word_weight(1) == word_base(),
                rest@ == res@.skip(1),
        ;
        lemma_fundamental_div_mod_converse(words_value(res@), word_base(), words_value(rest@), res@[0] as int);
    }
    (res[0], rest)
}

/// Comparing two sequences of one length at the highest word where they differ.
proof fn lemma_compare_at(x: Seq<u64>, y: Seq<u64>, j: int)
    requires
        x.len() == y.len(),
        0 <= j < x.len(),
        x.skip(j + 1) == y.skip(j + 1),
        x[j] != y[j],
    ensures
        (words_value(x) > words_value(y)) == (x[j] > y[j]),
{
    lemma_value_split(x, j);
    lemma_value_split(y, j);
    lemma_value_split(x.skip(j), 1);
    lemma_value_split(y.skip(j), 1);
    assert(x.skip(j).skip(1) =~= x.skip(j + 1));
    assert(y.skip(j).skip(1) =~= y.skip(j + 1));
    assert(x.skip(j).take(1) =~= seq![x[j]]);
    assert(y.skip(j).take(1) =~= seq![y[j]]);
    let ox = seq![x[j]];
    let oy = seq![y[j]];
    lemma_value_single(x[j]);
    lemma_value_single(y[j]);
    assert(ox.drop_last() =~= Seq::<u64>::empty());
    assert(oy.drop_last() =~= Seq::<u64>::empty());
    assert(words_value(ox) == words_value(ox.drop_last()) + ox.last() * word_weight(0));
    assert(words_value(oy) == words_value(oy.drop_last()) + oy.last() * word_weight(0));
    assert(word_weight(1) == word_base() * word_weight(0));
    lemma_value_bounds(x.take(j));
    lemma_value_bounds(y.take(j));
    lemma_weight_step(j as nat);
    let h = words_value(x.skip(j + 1));
    let pj = word_weight(j as nat);
    let lx = words_value(x.take(j));
    let ly = words_value(y.take(j));
    let xj = x[j] as int;
    let yj = y[j] as int;
    assert(words_value(ox) == xj);
    assert(words_value(oy) == yj);
    assert(word_weight(1) == word_base());
    assert(words_value(x.skip(j)) == xj + word_base() * h);
    assert(words_value(y.skip(j)) == yj + word_base() * h);
    assert(words_value(x) == lx + pj * (xj + word_base() * h));
    assert(words_value(y) == ly + pj * (yj + word_base() * h));
    assert((lx + pj * (xj + word_base() * h) > ly + pj * (yj + word_base() * h)) == (xj > yj))
        by (nonlinear_arith)
        requires
            0 <= lx < pj,
            0 <= ly < pj,
            xj != yj,
    ;
}

/// Whether the first sequence stands for the larger number, compared from the
/// highest word down.
fn words_greater(x: &Vec<u64>, y: &Vec<u64>) -> (r: bool)
    requires
        x@.len() == y@.len(),
    ensures
        r == (words_value(x@) > words_value(y@)),
{
    let mut k = x.len();
    proof {
        assert(x@.skip(k as int) =~= y@.skip(k as int));
    }
    while k > 0
        invariant
            k <= x@.len(),
            x@.len() == y@.len(),
            x@.skip(k as int) == y@.skip(k as int),
        decreases k,
    {
        k -= 1;
        if x[k] != y[k] {
            proof {
                lemma_compare_at(x@, y@, k as int);
            }
            return x[k] > y[k];
        }
        proof {
            assert(x@.skip(k as int) =~= seq![x@[k as int]] + x@.skip(k + 1));
            assert(y@.skip(k as int) =~= seq![y@[k as int]] + y@.skip(k + 1));
        }
    }
    proof {
        assert(x@ =~= x@.skip(0));
        assert(y@ =~= y@.skip(0));
    }
    false
}

/// `(x + z - y) mod 2^(64 n)`, word by word with a signed carry (`z` taken to
/// its first `n` words).
fn add_sub_words(x: &Vec<u64>, z: &[u64], y: &Vec<u64>, n: usize) -> (out: Vec<u64>)
    requires
        x@.len() == n,
        y@.len() == n,
        z@.len() >= n,
    ensures
        out@.len() == n,
        words_value(out@) == (words_value(x@) + words_value(z@.take(n as int)) - words_value(y@)) % word_weight(
            n as nat,
        ),
{
    let mut out: Vec<u64> = Vec::new();
    let mut carry: i8 = 0;
    let mut k: usize = 0;
    proof {
        assert(x@.take(0) =~= Seq::<u64>::empty());
        assert(y@.take(0) =~= Seq::<u64>::empty());
        assert(z@.take(0) =~= Seq::<u64>::empty());
        assert(out@ =~= Seq::<u64>::empty());
    }
    while k < n
        invariant
            k <= n,
            x@.len() == n,
            y@.len() == n,
            z@.len() >= n,
            out@.len() == k,
            -1 <= carry <= 1,
            words_value(out@) + carry * word_weight(k as nat) == words_value(x@.take(k as int))
                + words_value(z@.take(k as int)) - words_value(y@.take(k as int)),
        decreases n - k,
    {
        let xk = x[k];
        let yk = y[k];
        let zk = z[k];
        let t: i128 = xk as i128 + zk as i128 - yk as i128 + carry as i128;
        let (w, c): (u64, i8) = if t < 0 {
            ((t + 0x1_0000_0000_0000_0000i128) as u64, -1i8)
        } else if t >= 0x1_0000_0000_0000_0000i128 {
            ((t - 0x1_0000_0000_0000_0000i128) as u64, 1i8)
        } else {
            (t as u64, 0i8)
        };
        proof {
            let kk = k as nat;
            let wk = word_weight(kk);
            lemma_weight_step(kk);
            assert(x@.take(k + 1) =~= x@.take(k as int).push(xk));
            assert(y@.take(k + 1) =~= y@.take(k as int).push(yk));
            assert(z@.take(k + 1) =~= z@.take(k as int).push(zk));
            lemma_value_push(x@.take(k as int), xk);
            lemma_value_push(y@.take(k as int), yk);
            lemma_value_push(z@.take(k as int), zk);
            lemma_value_push(out@, w);
            assert(t == w + c * word_base());
            let vo = words_value(out@);
            let vx = words_value(x@.take(k as int));
            let vy = words_value(y@.take(k as int));
            let vz = words_value(z@.take(k as int));
            assert(vo + w * wk + c * (word_base() * wk) == (vx + xk * wk) + (vz + zk * wk) - (vy + yk * wk))
                by (nonlinear_arith)
                requires
                    vo + carry * wk == vx + vz - vy,
                    t == xk + zk - yk + carry,
                    t == w + c * word_base(),
            ;
        }
        out.push(w);
        carry = c;
        k += 1;
    }
    proof {
        assert(x@.take(n as int) =~= x@);
        assert(y@.take(n as int) =~= y@);
        lemma_value_bounds(out@);
        lemma_weight_step(n as nat);
        lemma_fundamental_div_mod_converse_mod(
            words_value(x@) + words_value(z@.take(n as int)) - words_value(y@),
            word_weight(n as nat),
            carry as int,
            words_value(out@),
        );
    }
    out
}

/// The quotient word of one round: `inv * a0 * bi + (acc_low - low_b) * inv`
/// modulo 2^64, where `acc_low` is the lowest word of the product sum and
/// `low_b` the word that the modulus sum dropped in the round before.
pub open spec fn mont_quotient(inv: u64, a0: int, bi: int, acc_low: int, low_b: int) -> int {
    let wb = word_base();
    let r10 = (inv * a0) % wb;
    let diff = (acc_low - low_b) % wb;
    ((r10 * bi) % wb + (diff * inv) % wb) % wb
}

/// The two running sums after `i` rounds, with the word the modulus sum dropped
/// last: round `i` adds `a * b_i` to the first and `m * q_i` to the second and
/// drops the lowest word of each.
pub open spec fn mont_state(a: int, b: int, m: int, inv: u64, i: nat) -> (int, int, int)
    decreases i,
{
    if i == 0 {
        (0, 0, 0)
    } else {
        let prev = mont_state(a, b, m, inv, (i - 1) as nat);
        let bi = digit(b, (i - 1) as nat);
        let q = mont_quotient(inv, a % word_base(), bi, prev.0 % word_base(), prev.2);
        let sa = prev.0 + a * bi;
        let sb = prev.1 + m * q;
        (sa / word_base(), sb / word_base(), sb % word_base())
    }
}

/// The result of `ExCryptBnQwNeModMul` on `n`-word operands: after `n` rounds,
/// the difference of the sums if the first is larger, else the difference plus
/// the modulus, modulo 2^(64 n).
pub open spec fn mod_mul_spec(a: int, b: int, m: int, inv: u64, n: nat) -> int {
    let st = mont_state(a, b, m, inv, n);
    if st.0 > st.1 {
        st.0 - st.1
    } else {
        (st.0 + m - st.1) % word_weight(n)
    }
}

/// Word-serial modular multiplication of `n`-word numbers (`n` from 1 to 32):
/// the first `n` words of `output_c` receive `mod_mul_spec` of the operands,
/// the rest of `output_c` is left as it was.
#[allow(non_snake_case)]
pub fn ExCryptBnQwNeModMul(
    input_a: &[u64],
    input_b: &[u64],
    output_c: &mut [u64],
    inverse: u64,
    modulus: &[u64],
    modulus_size: u32,
)
    requires
        1 <= modulus_size <= 32,
        input_a@.len() >= modulus_size,
        input_b@.len() >= modulus_size,
        modulus@.len() >= modulus_size,
        old(output_c)@.len() >= modulus_size,
    ensures
        final(output_c)@.len() == old(output_c)@.len(),
        final(output_c)@.skip(modulus_size as int) == old(output_c)@.skip(modulus_size as int),
        words_value(final(output_c)@.take(modulus_size as int)) == mod_mul_spec(
            words_value(input_a@.take(modulus_size as int)),
            words_value(input_b@.take(modulus_size as int)),
            words_value(modulus@.take(modulus_size as int)),
            inverse,
            modulus_size as nat,
        ),
{
    let n = modulus_size as usize;
    let ghost va = words_value(input_a@.take(n as int));
    let ghost vb = words_value(input_b@.take(n as int));
    let ghost vm = words_value(modulus@.take(n as int));
    let mut acc_a: Vec<u64> = vec![0u64; n];
    let mut acc_b: Vec<u64> = vec![0u64; n];
    let mut low_b: u64 = 0;
    proof {
        lemma_value_zeros(n as nat);
        assert(acc_a@ =~= Seq::new(n as nat, |k: int| 0u64));
        assert(acc_b@ =~= Seq::new(n as nat, |k: int| 0u64));
        lemma_value_digit(input_a@.take(n as int), 0);
        assert(word_weight(0) == 1);
    }
    let a0 = input_a[0];
    assert(a0 as int == va % word_base());
    let r10 = inverse.wrapping_mul(a0);
    let mut i: usize = 0;
    while i < n
        invariant
            n == modulus_size,
            1 <= n <= 32,
            i <= n,
            input_a@.len() >= n,
            input_b@.len() >= n,
            modulus@.len() >= n,
            va == words_value(input_a@.take(n as int)),
            vb == words_value(input_b@.take(n as int)),
            vm == words_value(modulus@.take(n as int)),
            r10 as int == (inverse * (va % word_base())) % word_base(),
            acc_a@.len() == n,
            acc_b@.len() == n,
            words_value(acc_a@) == mont_state(va, vb, vm, inverse, i as nat).0,
            words_value(acc_b@) == mont_state(va, vb, vm, inverse, i as nat).1,
            low_b as int == mont_state(va, vb, vm, inverse, i as nat).2,
        decreases n - i,
    {
        let ghost prev = mont_state(va, vb, vm, inverse, i as nat);
        let r11 = input_b[i];
        proof {
            lemma_value_digit(input_b@.take(n as int), i as int);
            lemma_value_digit(acc_a@, 0);
            assert(word_weight(0) == 1);
        }
        assert(r11 as int == digit(vb, i as nat));
        assert(acc_a@[0] as int == prev.0 % word_base());
        let diff = acc_a[0].wrapping_sub(low_b);
        assert(diff as int == (prev.0 % word_base() - prev.2) % word_base());
        let q = r10.wrapping_mul(r11).wrapping_add(diff.wrapping_mul(inverse));
        assert(q as int == mont_quotient(inverse, va % word_base(), r11 as int, prev.0 % word_base(), prev.2));
        let ra = mul_add_words(&acc_a, input_a, r11, n);
        let (_, na) = split_low(&ra, n);
        let rb = mul_add_words(&acc_b, modulus, q, n);
        let (lb, nb) = split_low(&rb, n);
        proof {
            assert(va * r11 == words_value(input_a@.take(n as int)) * r11);
        }
        acc_a = na;
        acc_b = nb;
        low_b = lb;
        i += 1;
    }
    let greater = words_greater(&acc_a, &acc_b);
    let out = if greater {
        let zeros: Vec<u64> = vec![0u64; n];
        proof {
            lemma_value_zeros(n as nat);
            assert(zeros@.take(n as int) =~= Seq::new(n as nat, |k: int| 0u64));
            lemma_value_bounds(acc_a@);
            lemma_value_bounds(acc_b@);
        }
        let o = add_sub_words(&acc_a, zeros.as_slice(), &acc_b, n);
        proof {
            let d = words_value(acc_a@) - words_value(acc_b@);
            lemma_small_mod(d as nat, word_weight(n as nat) as nat);
        }
        o
    } else {
        add_sub_words(&acc_a, modulus, &acc_b, n)
    };
    let mut k: usize = 0;
    while k < n
        invariant
            k <= n,
            n == modulus_size,
            out@.len() == n,
            output_c@.len() == old(output_c)@.len(),
            old(output_c)@.len() >= n,
            forall|q: int| 0 <= q < k ==> output_c@[q] == out@[q],
            forall|q: int| k <= q < output_c@.len() ==> output_c@[q] == old(output_c)@[q],
        decreases n - k,
    {
        output_c[k] = out[k];
        k += 1;
    }
    proof {
        assert(output_c@.take(n as int) =~= out@);
        assert(output_c@.skip(n as int) =~= old(output_c)@.skip(n as int));
    }
}

/// The number a big-endian byte string stands for.
pub open spec fn be_value(s: Seq<u8>) -> int
    decreases s.len(),
{
    if s.len() == 0 {
        0
    } else {
        be_value(s.drop_last()) * 256 + s.last()
    }
}

/// `b` to the power `e`.
pub open spec fn nat_pow(b: int, e: nat) -> int
    decreases e,
{
    if e == 0 {
        1
    } else {
        b * nat_pow(b, (e - 1) as nat)
    }
}

/// The shortest big-endian byte string of a number (empty for zero).
pub open spec fn min_be_bytes(v: nat) -> Seq<u8>
    decreases v,
{
    if v == 0 {
        Seq::empty()
    } else {
        min_be_bytes(v / 256).push((v % 256) as u8)
    }
}

/// Words (least significant first) as big-endian bytes, highest word first.
pub open spec fn qw_be_bytes(qw: Seq<u64>) -> Seq<u8>
    decreases qw.len(),
{
    if qw.len() == 0 {
        Seq::empty()
    } else {
        crate::crypto::sha::be_bytes64(qw.last()) + qw_be_bytes(qw.drop_last())
    }
}

pub(crate) fn qw_to_be_bytes(qw: &[u64], n: usize) -> (r: Vec<u8>)
    requires
        n <= qw@.len(),
    ensures
        r@ == qw_be_bytes(qw@.take(n as int)),
{
    let mut out: Vec<u8> = Vec::new();
    let mut k = n;
    proof {
        assert(qw@.take(n as int).skip(n as int) =~= Seq::<u64>::empty());
    }
    while k > 0
        invariant
            k <= n <= qw@.len(),
            out@ + qw_be_bytes(qw@.take(k as int)) == qw_be_bytes(qw@.take(n as int)),
        decreases k,
    {
        let w = qw[k - 1];
        let ghost t = qw@.take(k as int);
        assert(t.drop_last() =~= qw@.take(k - 1));
        let b = [(w >> 56u64) as u8, (w >> 48u64) as u8, (w >> 40u64) as u8, (w >> 32u64) as u8, (w >> 24u64) as u8,
            (w >> 16u64) as u8, (w >> 8u64) as u8, w as u8];
        assert(b@ =~= crate::crypto::sha::be_bytes64(w));
        let mut j: usize = 0;
        let ghost before = out@;
        while j < 8
            invariant
                j <= 8,
                out@ == before + b@.take(j as int),
            decreases 8 - j,
        {
            out.push(b[j]);
            j += 1;
            assert(out@ =~= before + b@.take(j as int));
        }
        assert(b@.take(8) =~= b@);
        assert(out@ + qw_be_bytes(qw@.take(k - 1)) =~= before + qw_be_bytes(t));
        k -= 1;
    }
    proof {
        assert(qw@.take(0) =~= Seq::<u64>::empty());
        assert(out@ + Seq::<u8>::empty() =~= out@);
    }
    out
}

/// Number of 8-byte chunks of the last `min(len, 8 n)` bytes (the last one
/// possibly short).
pub open spec fn bn_chunks(len: int, n: int) -> int {
    let l = if len < 8 * n { len } else { 8 * n };
    (l + 7) / 8
}

/// Big-endian bytes placed into `n` words the way the conversion does it: the
/// last `8 n` bytes (or all) are cut into 8-byte chunks from their start, and
/// chunk `i` (a short last chunk right-aligned) becomes word `n - 1 - i`;
/// the words no chunk reaches are zero.
pub open spec fn bn_to_qw_spec(bytes: Seq<u8>, n: nat) -> Seq<u64> {
    let l = if bytes.len() < 8 * n { bytes.len() as int } else { (8 * n) as int };
    let t = bytes.skip(bytes.len() - l);
    Seq::new(
        n,
        |k: int|
            {
                let i = n - 1 - k;
                if i < bn_chunks(bytes.len() as int, n as int) {
                    be_value(t.subrange(8 * i, if 8 * i + 8 < l { 8 * i + 8 } else { l })) as u64
                } else {
                    0u64
                }
            },
    )
}

proof fn lemma_be_value_bound(s: Seq<u8>)
    ensures
        0 <= be_value(s),
        s.len() <= 8 ==> be_value(s) < nat_pow(256, s.len()),
        s.len() <= 8 ==> nat_pow(256, s.len()) <= 0x1_0000_0000_0000_0000,
    decreases s.len(),
{
    if s.len() > 0 {
        lemma_be_value_bound(s.drop_last());
    }
    if s.len() <= 8 {
        reveal_with_fuel(nat_pow, 9);
        if s.len() > 0 {
            let p = nat_pow(256, (s.len() - 1) as nat);
            let v = be_value(s.drop_last());
            assert(v * 256 + s.last() < p * 256) by (nonlinear_arith)
                requires
                    0 <= v < p,
                    s.last() < 256,
            ;
        }
    }
}

fn be_word_of(t: &[u8], start: usize, end: usize) -> (r: u64)
    requires
        start <= end <= t@.len(),
        end - start <= 8,
    ensures
        r as int == be_value(t@.subrange(start as int, end as int)),
{
    let mut acc: u64 = 0;
    let mut j = start;
    while j < end
        invariant
            start <= j <= end <= t@.len(),
            end - start <= 8,
            acc as int == be_value(t@.subrange(start as int, j as int)),
        decreases end - j,
    {
        proof {
            lemma_be_value_bound(t@.subrange(start as int, j + 1));
            assert(t@.subrange(start as int, j + 1).drop_last() =~= t@.subrange(start as int, j as int));
        }
        acc = acc * 256 + t[j] as u64;
        j += 1;
    }
    acc
}

pub(crate) fn bytes_to_qw(bytes: &[u8], n: usize) -> (r: Vec<u64>)
    ensures
        r@ == bn_to_qw_spec(bytes@, n as nat),
{
    let len = bytes.len();
    let cap: usize = if n <= len / 8 {
        8 * n
    } else {
        len
    };
    assert(cap as int == (if len < 8 * n { len as int } else { 8 * n }));
    let start = len - cap;
    let t = crate::gxcore::images::blocks::slice_to_vec(bytes, start, len);
    assert(t@ =~= bytes@.skip(start as int));
    let chunks = cap / 8 + (if cap % 8 != 0 {
        1usize
    } else {
        0usize
    });
    let mut qw: Vec<u64> = vec![0u64; n];
    let mut i: usize = 0;
    while i < chunks
        invariant
            i <= chunks,
            chunks as int == bn_chunks(len as int, n as int),
            chunks <= n,
            cap == t@.len(),
            qw@.len() == n,
            forall|k: int| 0 <= k < n ==> #[trigger] qw@[k] == (if n - 1 - k < i {
                bn_to_qw_spec(bytes@, n as nat)[k]
            } else {
                0u64
            }),
            t@ == bytes@.skip(bytes@.len() - cap),
            cap as int == (if len < 8 * n { len as int } else { 8 * n }),
            len == bytes@.len(),
        decreases chunks - i,
    {
        assert(8 * i < cap);
        let lo = 8 * i;
        let hi = if cap - lo > 8 {
            lo + 8
        } else {
            cap
        };
        let w = be_word_of(t.as_slice(), lo, hi);
        qw.set(n - 1 - i, w);
        i += 1;
    }
    assert(qw@ =~= bn_to_qw_spec(bytes@, n as nat));
    qw
}

pub proof fn lemma_qw_be_bytes_len(qw: Seq<u64>)
    ensures
        qw_be_bytes(qw).len() == 8 * qw.len(),
    decreases qw.len(),
{
    if qw.len() > 0 {
        lemma_qw_be_bytes_len(qw.drop_last());
    }
}

/// Copies `qw[start..end]` into a new vector.
pub(crate) fn qw_slice(qw: &[u64], start: usize, end: usize) -> (r: Vec<u64>)
    requires
        start <= end <= qw@.len(),
    ensures
        r@ == qw@.subrange(start as int, end as int),
{
    let mut out: Vec<u64> = Vec::new();
    let mut k = start;
    while k < end
        invariant
            start <= k <= end <= qw@.len(),
            out@ == qw@.subrange(start as int, k as int),
        decreases end - k,
    {
        out.push(qw[k]);
        k += 1;
        assert(out@ =~= qw@.subrange(start as int, k as int));
    }
    out
}

} // verus!
