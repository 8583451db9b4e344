//! The index holds one projection for each stored entry: this is kept by sweeps and by upserts
//! of keys that are not stored. An upsert under a stored key adds a second projection of it.
use crate::cache::{
    expired_key, keeps_entry, keeps_projection, lemma_lookup_found, lemma_sweep_lookup_none, lookup,
    swept, unique_keys,
    upserted, Cache,
    CacheEntry, CacheExpiry, CacheKey,
};
use vstd::prelude::*;

verus! {

/// No two projections have the same key.
pub open spec fn unique_index_keys(idx: Seq<CacheExpiry>) -> bool {
    forall|i: int, j: int| 0 <= i < idx.len() && 0 <= j < idx.len() && i != j ==> (
    #[trigger] idx[i]).key@ != (#[trigger] idx[j]).key@
}

/// Some entry is stored under `k` with expiry `expiry`.
pub open spec fn stored_with(s: Seq<(CacheKey, CacheEntry)>, k: (Seq<char>, u16, u16), expiry: u64) -> bool {
    exists|j: int| 0 <= j < s.len() && (#[trigger] s[j]).0@ == k && s[j].1.expiry == expiry
}

/// Some projection of `k` is in the index.
pub open spec fn indexed(idx: Seq<CacheExpiry>, k: (Seq<char>, u16, u16)) -> bool {
    exists|i: int| 0 <= i < idx.len() && (#[trigger] idx[i]).key@ == k
}

/// Each projection is of a stored entry, with that entry's key and expiry, no key has two
/// projections, and each stored entry has a projection.
pub open spec fn matched(s: Seq<(CacheKey, CacheEntry)>, idx: Seq<CacheExpiry>) -> bool {
    &&& unique_index_keys(idx)
    &&& forall|i: int| 0 <= i < idx.len() ==> stored_with(s, (#[trigger] idx[i]).key@, idx[i].expiry)
    &&& forall|j: int| 0 <= j < s.len() ==> indexed(idx, (#[trigger] s[j]).0@)
}

/// The index of `c` matches its entries one for one.
pub open spec fn consistent(c: Cache) -> bool {
    matched(c.stored(), c.index())
}

/// Keeping part of a run keeps its keys apart.
proof fn lemma_filter_injective<A, K>(s: Seq<A>, p: spec_fn(A) -> bool, f: spec_fn(A) -> K)
    requires
        forall|i: int, j: int|
            0 <= i < s.len() && 0 <= j < s.len() && i != j ==> f(#[trigger] s[i]) != f(
                #[trigger] s[j],
            ),
    ensures
        forall|i: int, j: int|
            0 <= i < s.filter(p).len() && 0 <= j < s.filter(p).len() && i != j ==> f(
                #[trigger] s.filter(p)[i],
            ) != f(#[trigger] s.filter(p)[j]),
    decreases s.len(),
{
    reveal(Seq::filter);
    if s.len() > 0 {
        let rest = s.drop_last();
        lemma_filter_injective(rest, p, f);
        let fr = rest.filter(p);
        if p(s.last()) {
            assert forall|i: int| 0 <= i < fr.len() implies f(#[trigger] fr[i]) != f(s.last()) by {
                assert(fr.contains(fr[i]));
                rest.lemma_filter_contains_rev(p, fr[i]);
                let t = choose|t: int| 0 <= t < rest.len() && rest[t] == fr[i];
                assert(s[t] == rest[t]);
                assert(s.last() == s[s.len() - 1]);
            }
            let g = fr.push(s.last());
            assert(s.filter(p) == g);
            assert forall|i: int, j: int|
                0 <= i < g.len() && 0 <= j < g.len() && i != j implies f(#[trigger] g[i]) != f(
                #[trigger] g[j]) by {
                if i < fr.len() && j < fr.len() {
                    assert(g[i] == fr[i] && g[j] == fr[j]);
                } else if i < fr.len() {
                    assert(g[i] == fr[i]);
                } else {
                    assert(g[j] == fr[j]);
                }
            }
        }
    }
}

/// Two runs whose keys are unique and the same have the same length.
proof fn lemma_matched_len(s: Seq<(CacheKey, CacheEntry)>, idx: Seq<CacheExpiry>)
    requires
        unique_keys(s),
        matched(s, idx),
    ensures
        s.len() == idx.len(),
{
    let a = s.map_values(|kv: (CacheKey, CacheEntry)| kv.0@);
    let b = idx.map_values(|p: CacheExpiry| p.key@);
    assert(a.no_duplicates());
    assert(b.no_duplicates());
    a.unique_seq_to_set();
    b.unique_seq_to_set();
    assert forall|k: (Seq<char>, u16, u16)| a.to_set().contains(k) implies b.to_set().contains(k) by {
        let j = choose|j: int| 0 <= j < a.len() && a[j] == k;
        assert(s[j].0@ == k);
        assert(indexed(idx, s[j].0@));
        let i = choose|i: int| 0 <= i < idx.len() && (#[trigger] idx[i]).key@ == s[j].0@;
        assert(b[i] == k);
    }
    assert forall|k: (Seq<char>, u16, u16)| b.to_set().contains(k) implies a.to_set().contains(k) by {
        let i = choose|i: int| 0 <= i < b.len() && b[i] == k;
        assert(idx[i].key@ == k);
        assert(stored_with(s, idx[i].key@, idx[i].expiry));
        let j = choose|j: int|
            0 <= j < s.len() && (#[trigger] s[j]).0@ == idx[i].key@ && s[j].1.expiry
                == idx[i].expiry;
        assert(a[j] == k);
    }
    assert(a.to_set() =~= b.to_set());
}

/// In a consistent cache the number of stored entries equals the number of projections.
pub proof fn lemma_consistent_counts(c: Cache)
    requires
        c.wf(),
        consistent(c),
    ensures
        c.stored().len() == c.index().len(),
{
    lemma_matched_len(c.stored(), c.index());
}

/// An empty cache is consistent.
pub proof fn lemma_empty_consistent(c: Cache)
    requires
        c.stored().len() == 0,
        c.index().len() == 0,
    ensures
        consistent(c),
{
}

/// After a sweep each kept projection is of a kept entry.
proof fn lemma_sweep_projections(s: Seq<(CacheKey, CacheEntry)>, idx: Seq<CacheExpiry>, now: u64)
    requires
        unique_keys(s),
        matched(s, idx),
    ensures
        forall|i: int|
            0 <= i < idx.filter(keeps_projection(now)).len() ==> stored_with(
                s.filter(keeps_entry(idx, now)),
                (#[trigger] idx.filter(keeps_projection(now))[i]).key@,
                idx.filter(keeps_projection(now))[i].expiry,
            ),
{
    let pe = keeps_entry(idx, now);
    let pi = keeps_projection(now);
    let fs = s.filter(pe);
    let fi = idx.filter(pi);
    broadcast use vstd::seq_lib::group_filter_ensures;

    assert forall|i: int| 0 <= i < fi.len() implies stored_with(fs, (#[trigger] fi[i]).key@, fi[i].expiry) by {
        let q = fi[i];
        assert(fi.contains(q));
        idx.lemma_filter_contains_rev(pi, q);
        let t = choose|t: int| 0 <= t < idx.len() && idx[t] == q;
        assert(pi(q));
        assert(stored_with(s, idx[t].key@, idx[t].expiry));
        let j = choose|j: int|
            0 <= j < s.len() && (#[trigger] s[j]).0@ == idx[t].key@ && s[j].1.expiry
                == idx[t].expiry;
        assert(pe(s[j])) by {
            if expired_key(idx, s[j].0@, now) {
                let u = choose|u: int| 0 <= u < idx.len() && (#[trigger] idx[u]).key@ == s[j].0@
                    && idx[u].expiry <= now;
                if u != t {
                    assert(idx[u].key@ != idx[t].key@);
                }
            }
        }
        s.lemma_filter_contains(pe, j);
        let j2 = choose|j2: int| 0 <= j2 < fs.len() && fs[j2] == s[j];
        assert(fs[j2].0@ == q.key@);
    }
}

/// After a sweep each kept entry has a kept projection.
proof fn lemma_sweep_entries(s: Seq<(CacheKey, CacheEntry)>, idx: Seq<CacheExpiry>, now: u64)
    requires
        unique_keys(s),
        matched(s, idx),
    ensures
        forall|j: int|
            0 <= j < s.filter(keeps_entry(idx, now)).len() ==> indexed(
                idx.filter(keeps_projection(now)),
                (#[trigger] s.filter(keeps_entry(idx, now))[j]).0@,
            ),
{
    let pe = keeps_entry(idx, now);
    let pi = keeps_projection(now);
    let fs = s.filter(pe);
    let fi = idx.filter(pi);
    broadcast use vstd::seq_lib::group_filter_ensures;

    assert forall|j: int| 0 <= j < fs.len() implies indexed(fi, (#[trigger] fs[j]).0@) by {
        let kv = fs[j];
        assert(fs.contains(kv));
        s.lemma_filter_contains_rev(pe, kv);
        let t = choose|t: int| 0 <= t < s.len() && s[t] == kv;
        assert(pe(kv));
        assert(indexed(idx, s[t].0@));
        let i = choose|i: int| 0 <= i < idx.len() && (#[trigger] idx[i]).key@ == s[t].0@;
        assert(stored_with(s, idx[i].key@, idx[i].expiry));
        let t2 = choose|t2: int|
            0 <= t2 < s.len() && (#[trigger] s[t2]).0@ == idx[i].key@ && s[t2].1.expiry
                == idx[i].expiry;
        if t2 != t {
            assert(s[t2].0@ != s[t].0@);
        }
        if idx[i].expiry <= now {
            assert(expired_key(idx, kv.0@, now));
        }
        assert(pi(idx[i]));
        idx.lemma_filter_contains(pi, i);
        let i2 = choose|i2: int| 0 <= i2 < fi.len() && fi[i2] == idx[i];
        assert(fi[i2].key@ == kv.0@);
    }
}

/// A sweep keeps the index matched to the entries.
proof fn lemma_sweep_matched(s: Seq<(CacheKey, CacheEntry)>, idx: Seq<CacheExpiry>, now: u64)
    requires
        unique_keys(s),
        matched(s, idx),
    ensures
        matched(s.filter(keeps_entry(idx, now)), idx.filter(keeps_projection(now))),
{
    let pi = keeps_projection(now);
    let fi = idx.filter(pi);
    let key_of = |p: CacheExpiry| p.key@;
    assert forall|i: int, j: int| 0 <= i < idx.len() && 0 <= j < idx.len() && i != j implies key_of(
        #[trigger] idx[i],
    ) != key_of(#[trigger] idx[j]) by {
        assert(idx[i].key@ != idx[j].key@);
    }
    lemma_filter_injective(idx, pi, key_of);
    assert forall|i: int, j: int| 0 <= i < fi.len() && 0 <= j < fi.len() && i != j implies (
    #[trigger] fi[i]).key@ != (#[trigger] fi[j]).key@ by {
        assert(key_of(fi[i]) != key_of(fi[j]));
    }
    lemma_sweep_projections(s, idx, now);
    lemma_sweep_entries(s, idx, now);
}

/// A sweep keeps a cache consistent.
pub proof fn lemma_sweep_keeps_consistent(c0: Cache, c1: Cache, now: u64)
    requires
        c0.wf(),
        consistent(c0),
        swept(c0, c1, now),
    ensures
        consistent(c1),
{
    lemma_sweep_matched(c0.stored(), c0.index(), now);
}

/// An upsert under a key that the cache does not hold keeps the cache consistent.
pub proof fn lemma_fresh_upsert_keeps_consistent(
    c0: Cache,
    c1: Cache,
    key: CacheKey,
    val: CacheEntry,
    now: u64,
)
    requires
        c0.wf(),
        consistent(c0),
        lookup(c0.stored(), key@) is None,
        upserted(c0, c1, key, val, now),
    ensures
        consistent(c1),
{
    let ms = c0.stored().filter(keeps_entry(c0.index(), now));
    let mi = c0.index().filter(keeps_projection(now));
    lemma_sweep_matched(c0.stored(), c0.index(), now);
    lemma_sweep_lookup_none(c0.stored(), c0.index(), now, key@);
    let proj = CacheExpiry { key, expiry: val.expiry };
    let pos = choose|pos: int|
        0 <= pos <= mi.len() && c1.index() == mi.insert(pos, proj) && (forall|j: int|
            0 <= j < pos ==> (#[trigger] mi[j]).expiry < val.expiry) && (forall|j: int|
            pos <= j < mi.len() ==> (#[trigger] mi[j]).expiry >= val.expiry);
    let ns = c1.stored();
    let ni = c1.index();
    assert(ns == ms.push((key, val)));
    assert(ni == mi.insert(pos, proj));
    assert forall|i: int| 0 <= i < mi.len() implies (#[trigger] mi[i]).key@ != key@ by {
        assert(stored_with(ms, mi[i].key@, mi[i].expiry));
        let j = choose|j: int|
            0 <= j < ms.len() && (#[trigger] ms[j]).0@ == mi[i].key@ && ms[j].1.expiry
                == mi[i].expiry;
        if mi[i].key@ == key@ {
            assert(ms[j].0@ == key@);
        }
    }
    assert forall|a: int, b: int| 0 <= a < ni.len() && 0 <= b < ni.len() && a != b implies (
    #[trigger] ni[a]).key@ != (#[trigger] ni[b]).key@ by {
        let a0 = if a < pos { a } else { a - 1 };
        let b0 = if b < pos { b } else { b - 1 };
        if a != pos && b != pos {
            assert(ni[a] == mi[a0] && ni[b] == mi[b0]);
        } else if a == pos {
            assert(ni[b] == mi[b0]);
        } else {
            assert(ni[a] == mi[a0]);
        }
    }
    assert forall|i: int| 0 <= i < ni.len() implies stored_with(
        ns,
        (#[trigger] ni[i]).key@,
        ni[i].expiry,
    ) by {
        if i == pos {
            assert(ns[ms.len() as int].0@ == key@);
        } else {
            let i0 = if i < pos { i } else { i - 1 };
            assert(ni[i] == mi[i0]);
            assert(stored_with(ms, mi[i0].key@, mi[i0].expiry));
            let j = choose|j: int|
                0 <= j < ms.len() && (#[trigger] ms[j]).0@ == mi[i0].key@ && ms[j].1.expiry
                    == mi[i0].expiry;
            assert(ns[j] == ms[j]);
        }
    }
    assert forall|j: int| 0 <= j < ns.len() implies indexed(ni, (#[trigger] ns[j]).0@) by {
        if j == ms.len() {
            assert(ni[pos].key@ == key@);
        } else {
            assert(ns[j] == ms[j]);
            assert(indexed(mi, ms[j].0@));
            let i = choose|i: int| 0 <= i < mi.len() && (#[trigger] mi[i]).key@ == ms[j].0@;
            if i < pos {
                assert(ni[i] == mi[i]);
            } else {
                assert(ni[i + 1] == mi[i]);
            }
        }
    }
}

/// In a consistent cache a sweep at `now` removes an entry exactly when it lapses by `now`:
/// `get` then finds nothing under its key, and otherwise finds the same entry.
pub proof fn lemma_sweep_evicts(c0: Cache, c1: Cache, now: u64, k: (Seq<char>, u16, u16))
    requires
        c0.wf(),
        c1.wf(),
        consistent(c0),
        swept(c0, c1, now),
        lookup(c0.stored(), k) is Some,
    ensures
        lookup(c0.stored(), k).unwrap().expiry <= now ==> lookup(c1.stored(), k) is None,
        lookup(c0.stored(), k).unwrap().expiry > now ==> lookup(c1.stored(), k) == lookup(
            c0.stored(),
            k,
        ),
{
    let s = c0.stored();
    let idx = c0.index();
    let pred = keeps_entry(idx, now);
    let fs = s.filter(pred);
    let t = choose|t: int| 0 <= t < s.len() && (#[trigger] s[t]).0@ == k;
    assert(0 <= t < s.len() && s[t].0@ == k);
    lemma_lookup_found(s, t);
    let e = s[t].1;
    assert(indexed(idx, s[t].0@));
    let i = choose|i: int| 0 <= i < idx.len() && (#[trigger] idx[i]).key@ == s[t].0@;
    assert(stored_with(s, idx[i].key@, idx[i].expiry));
    let t2 = choose|t2: int|
        0 <= t2 < s.len() && (#[trigger] s[t2]).0@ == idx[i].key@ && s[t2].1.expiry == idx[i].expiry;
    if t2 != t {
        assert(s[t2].0@ != s[t].0@);
    }
    assert(expired_key(idx, k, now) == (e.expiry <= now)) by {
        if expired_key(idx, k, now) {
            let u = choose|u: int| 0 <= u < idx.len() && (#[trigger] idx[u]).key@ == k && idx[u].expiry
                <= now;
            if u != i {
                assert(idx[u].key@ != idx[i].key@);
            }
        }
        if e.expiry <= now {
            assert(idx[i].key@ == k && idx[i].expiry <= now);
        }
    }
    assert(c1.stored() == fs);
    if e.expiry <= now {
        if exists|j: int| 0 <= j < fs.len() && (#[trigger] fs[j]).0@ == k {
            let j = choose|j: int| 0 <= j < fs.len() && (#[trigger] fs[j]).0@ == k;
            assert(fs.contains(fs[j]));
            s.lemma_filter_contains_rev(pred, fs[j]);
            s.lemma_filter_pred(pred, j);
        }
    } else {
        assert(pred(s[t]));
        s.lemma_filter_contains(pred, t);
        let j = choose|j: int| 0 <= j < fs.len() && fs[j] == s[t];
        assert(fs[j].0@ == k);
        lemma_lookup_found(fs, j);
    }
}

} // verus!
