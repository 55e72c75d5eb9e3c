//! Pools of named buffers: each name held once, with the buffer stored last
//! under it (what inserting into a map keyed by name gives).

use vstd::prelude::*;

verus! {

pub open spec fn pool_view(v: Seq<(String, Vec<u8>)>) -> Seq<(Seq<char>, Seq<u8>)> {
    v.map_values(|p: (String, Vec<u8>)| (p.0@, p.1@))
}

/// The buffer held under `k` after the first `n` entries: that of the last
/// of them named `k`.
pub open spec fn last_under(entries: Seq<(Seq<char>, Seq<u8>)>, k: Seq<char>, n: int) -> Option<Seq<u8>>
    decreases n,
{
    if n <= 0 {
        None
    } else if entries[n - 1].0 == k {
        Some(entries[n - 1].1)
    } else {
        last_under(entries, k, n - 1)
    }
}

/// `pool` holds each name of the first `n` entries once, with the buffer
/// stored last under it, and nothing else.
pub open spec fn pools(entries: Seq<(Seq<char>, Seq<u8>)>, n: int, pool: Seq<(Seq<char>, Seq<u8>)>) -> bool {
    &&& forall|i: int, j: int| 0 <= i < j < pool.len() ==> (#[trigger] pool[i]).0 != (#[trigger] pool[j]).0
    &&& forall|i: int| 0 <= i < pool.len() ==> last_under(entries, (#[trigger] pool[i]).0, n) == Some(pool[i].1)
    &&& forall|k: Seq<char>| #[trigger] last_under(entries, k, n) is Some ==> exists|i: int| 0 <= i < pool.len() && pool[i].0 == k
}

/// Stores `(name, data)` in a pool: replaces the buffer held under `name`, or
/// adds the entry.
pub(crate) fn pool_insert(pool: &mut Vec<(String, Vec<u8>)>, name: String, data: Vec<u8>, Ghost(entries): Ghost<Seq<(Seq<char>, Seq<u8>)>>)
    requires
        pools(entries, entries.len() as int, pool_view(old(pool)@)),
    ensures
        pools(entries.push((name@, data@)), entries.len() as int + 1, pool_view(final(pool)@)),
{
    let ghost ov = pool_view(pool@);
    let ghost kv = name@;
    let ghost dv = data@;
    let ghost e2 = entries.push((kv, dv));
    let ghost n = entries.len() as int;
    assert forall|k: Seq<char>| k != kv implies #[trigger] last_under(e2, k, n + 1) == last_under(entries, k, n) by {
        lemma_last_under_prefix(entries, kv, dv, k, n);
    }
    assert(last_under(e2, kv, n + 1) == Some(dv));
    let mut j: usize = 0;
    while j < pool.len() && !pool[j].0.eq(&name)
        invariant
            j <= pool@.len(),
            ov == pool_view(pool@),
            kv == name@,
            forall|q: int| 0 <= q < j ==> (#[trigger] ov[q]).0 != kv,
        decreases pool@.len() - j,
    {
        j += 1;
    }
    if j < pool.len() {
        assert(ov[j as int].0 == kv);
        pool.set(j, (name, data));
        proof {
            let nv = pool_view(pool@);
            assert(nv =~= ov.update(j as int, (kv, dv)));
            assert forall|a: int, b: int| 0 <= a < b < nv.len() implies (#[trigger] nv[a]).0 != (#[trigger] nv[b]).0 by {
                assert(nv[a].0 == ov[a].0 && nv[b].0 == ov[b].0);
            }
            assert forall|a: int| 0 <= a < nv.len() implies last_under(e2, (#[trigger] nv[a]).0, n + 1) == Some(nv[a].1) by {
                if a != j {
                    assert(nv[a] == ov[a]);
                    assert(ov[a].0 != ov[j as int].0);
                }
            }
            assert forall|k: Seq<char>| #[trigger] last_under(e2, k, n + 1) is Some implies exists|a: int| 0 <= a < nv.len() && nv[a].0 == k by {
                if k == kv {
                    assert(nv[j as int].0 == k);
                } else {
                    assert(last_under(entries, k, n) is Some);
                    let a = choose|a: int| 0 <= a < ov.len() && ov[a].0 == k;
                    assert(nv[a].0 == k);
                }
            }
        }
    } else {
        pool.push((name, data));
        proof {
            let nv = pool_view(pool@);
            assert(nv =~= ov.push((kv, dv)));
            assert forall|a: int, b: int| 0 <= a < b < nv.len() implies (#[trigger] nv[a]).0 != (#[trigger] nv[b]).0 by {
                if b == ov.len() {
                    assert(nv[a] == ov[a]);
                } else {
                    assert(nv[a] == ov[a] && nv[b] == ov[b]);
                }
            }
            assert forall|a: int| 0 <= a < nv.len() implies last_under(e2, (#[trigger] nv[a]).0, n + 1) == Some(nv[a].1) by {
                if a < ov.len() {
                    assert(nv[a] == ov[a]);
                }
            }
            assert forall|k: Seq<char>| #[trigger] last_under(e2, k, n + 1) is Some implies exists|a: int| 0 <= a < nv.len() && nv[a].0 == k by {
                if k == kv {
                    assert(nv[ov.len() as int].0 == k);
                } else {
                    assert(last_under(entries, k, n) is Some);
                    let a = choose|a: int| 0 <= a < ov.len() && ov[a].0 == k;
                    assert(nv[a].0 == k);
                }
            }
        }
    }
}

proof fn lemma_last_under_prefix(entries: Seq<(Seq<char>, Seq<u8>)>, kv: Seq<char>, dv: Seq<u8>, k: Seq<char>, n: int)
    requires
        n == entries.len(),
        k != kv,
    ensures
        last_under(entries.push((kv, dv)), k, n + 1) == last_under(entries, k, n),
{
    lemma_last_under_same(entries, entries.push((kv, dv)), k, n);
}

proof fn lemma_last_under_same(a: Seq<(Seq<char>, Seq<u8>)>, b: Seq<(Seq<char>, Seq<u8>)>, k: Seq<char>, n: int)
    requires
        n <= a.len(),
        n <= b.len(),
        forall|i: int| 0 <= i < n ==> a[i] == b[i],
    ensures
        last_under(b, k, n) == last_under(a, k, n),
    decreases n,
{
    if n > 0 {
        lemma_last_under_same(a, b, k, n - 1);
    }
}

/// The pool of a list of named buffers, in order of first appearance.
pub fn pool_of(entries: Vec<(String, Vec<u8>)>) -> (r: Vec<(String, Vec<u8>)>)
    ensures
        pools(pool_view(entries@), entries@.len() as int, pool_view(r@)),
{
    let ghost fv = pool_view(entries@);
    let n = entries.len();
    let mut entries = entries;
    let mut out: Vec<(String, Vec<u8>)> = Vec::new();
    let mut i: usize = 0;
    while i < n
        invariant
            n == fv.len(),
            i <= n,
            entries@.len() == n - i,
            forall|q: int| 0 <= q < n - i ==> #[trigger] pool_view(entries@)[q] == fv[i + q],
            pools(fv.subrange(0, i as int), i as int, pool_view(out@)),
        decreases n - i,
    {
        let ghost before = entries@;
        assert(pool_view(before)[0] == fv[i as int]);
        let (name, data) = entries.remove(0);
        assert(pool_view(before)[0] == (before[0].0@, before[0].1@));
        assert forall|q: int| 0 <= q < n - (i + 1) implies #[trigger] pool_view(entries@)[q] == fv[i + 1 + q] by {
            assert(entries@[q] == before[q + 1]);
            assert(pool_view(before)[q + 1] == fv[i + (q + 1)]);
        }
        assert(fv.subrange(0, i as int).push((name@, data@)) =~= fv.subrange(0, i + 1));
        pool_insert(&mut out, name, data, Ghost(fv.subrange(0, i as int)));
        i += 1;
    }
    proof {
        assert(fv.subrange(0, n as int) =~= fv);
    }
    out
}

} // verus!
