//! Keyed storage kept as a sequence of `(key, value)` entries, and the map
//! that such a sequence stands for.

use vstd::prelude::*;

verus! {

/// The map that a sequence of entries stands for: a later entry for a key
/// overrides an earlier one.
pub open spec fn entries_map<K, V>(s: Seq<(K, V)>) -> Map<K, V>
    decreases s.len(),
{
    if s.len() == 0 {
        Map::empty()
    } else {
        entries_map(s.drop_last()).insert(s.last().0, s.last().1)
    }
}

/// No key occurs in two entries.
pub open spec fn keys_distinct<K, V>(s: Seq<(K, V)>) -> bool {
    forall|i: int, j: int| 0 <= i < s.len() && 0 <= j < s.len() && i != j ==> s[i].0 != s[j].0
}

/// The keys of the entries, in order.
pub open spec fn entry_keys<K, V>(s: Seq<(K, V)>) -> Seq<K> {
    s.map_values(|e: (K, V)| e.0)
}

pub proof fn lemma_entries_map_push<K, V>(s: Seq<(K, V)>, e: (K, V))
    ensures
        entries_map(s.push(e)) == entries_map(s).insert(e.0, e.1),
{
    assert(s.push(e).drop_last() =~= s);
}

pub proof fn lemma_entries_map_dom<K, V>(s: Seq<(K, V)>, k: K)
    ensures
        entries_map(s).dom().contains(k) <==> exists|i: int| 0 <= i < s.len() && s[i].0 == k,
    decreases s.len(),
{
    if s.len() > 0 {
        let t = s.drop_last();
        lemma_entries_map_dom(t, k);
        if entries_map(s).dom().contains(k) {
            if k == s.last().0 {
                assert(s[s.len() - 1].0 == k);
            } else {
                let i = choose|i: int| 0 <= i < t.len() && t[i].0 == k;
                assert(s[i].0 == k);
            }
        }
        if exists|i: int| 0 <= i < s.len() && s[i].0 == k {
            let i = choose|i: int| 0 <= i < s.len() && s[i].0 == k;
            if i < s.len() - 1 {
                assert(t[i].0 == k);
            }
        }
    }
}

pub proof fn lemma_entries_map_index<K, V>(s: Seq<(K, V)>, i: int)
    requires
        keys_distinct(s),
        0 <= i < s.len(),
    ensures
        entries_map(s).dom().contains(s[i].0),
        entries_map(s)[s[i].0] == s[i].1,
    decreases s.len(),
{
    let t = s.drop_last();
    if i < s.len() - 1 {
        assert(t[i] == s[i]);
        lemma_entries_map_index(t, i);
        assert(s[i].0 != s.last().0);
    }
}

pub proof fn lemma_entries_map_absent<K, V>(s: Seq<(K, V)>, k: K)
    requires
        forall|i: int| 0 <= i < s.len() ==> s[i].0 != k,
    ensures
        !entries_map(s).dom().contains(k),
{
    lemma_entries_map_dom(s, k);
}

pub proof fn lemma_entries_map_remove<K, V>(s: Seq<(K, V)>, i: int)
    requires
        keys_distinct(s),
        0 <= i < s.len(),
    ensures
        entries_map(s.remove(i)) == entries_map(s).remove(s[i].0),
        keys_distinct(s.remove(i)),
    decreases s.len(),
{
    let t = s.drop_last();
    let k0 = s.last().0;
    if i == s.len() - 1 {
        assert(s.remove(i) =~= t);
        assert forall|j: int| 0 <= j < t.len() implies t[j].0 != k0 by {
            assert(s[j] == t[j]);
        }
        lemma_entries_map_absent(t, k0);
        assert(entries_map(s).remove(k0) =~= entries_map(t));
    } else {
        assert(s.remove(i) =~= t.remove(i).push(s.last()));
        assert(keys_distinct(t));
        lemma_entries_map_remove(t, i);
        lemma_entries_map_push(t.remove(i), s.last());
        assert(s[i] == t[i]);
        assert(s[i].0 != k0);
        assert(entries_map(s.remove(i)) =~= entries_map(s).remove(s[i].0));
    }
}

pub proof fn lemma_entries_map_update<K, V>(s: Seq<(K, V)>, i: int, v: V)
    requires
        keys_distinct(s),
        0 <= i < s.len(),
    ensures
        entries_map(s.update(i, (s[i].0, v))) == entries_map(s).insert(s[i].0, v),
        keys_distinct(s.update(i, (s[i].0, v))),
    decreases s.len(),
{
    let t = s.drop_last();
    let u = s.update(i, (s[i].0, v));
    if i == s.len() - 1 {
        assert(u.drop_last() =~= t);
        assert(entries_map(u) =~= entries_map(s).insert(s[i].0, v));
    } else {
        assert(u.drop_last() =~= t.update(i, (s[i].0, v)));
        assert(t[i] == s[i]);
        lemma_entries_map_update(t, i, v);
        assert(s[i].0 != s.last().0);
        assert(entries_map(u) =~= entries_map(s).insert(s[i].0, v));
    }
}


/// Filtering a strictly increasing sequence keeps it strictly increasing and
/// keeps exactly the elements that pass.
pub proof fn lemma_filter_increasing(s: Seq<u64>, p: spec_fn(u64) -> bool)
    requires
        forall|i: int, j: int| 0 <= i < j < s.len() ==> s[i] < s[j],
    ensures
        forall|i: int, j: int| 0 <= i < j < s.filter(p).len() ==> s.filter(p)[i] < s.filter(p)[j],
        forall|x: u64| #[trigger] s.filter(p).contains(x) <==> s.contains(x) && p(x),
    decreases s.len(),
{
    reveal_with_fuel(Seq::<_>::filter, 1);
    if s.len() > 0 {
        let t = s.drop_last();
        lemma_filter_increasing(t, p);
        let ft = t.filter(p);
        assert forall|x: u64| s.contains(x) <==> t.contains(x) || x == s.last() by {
            if s.contains(x) {
                let i = choose|i: int| 0 <= i < s.len() && s[i] == x;
                if i < s.len() - 1 {
                    assert(t[i] == x);
                }
            }
            if t.contains(x) {
                let i = choose|i: int| 0 <= i < t.len() && t[i] == x;
                assert(s[i] == x);
            }
            if x == s.last() {
                assert(s[s.len() - 1] == x);
            }
        }
        if p(s.last()) {
            let fs = ft.push(s.last());
            assert(s.filter(p) == fs);
            assert forall|i: int| 0 <= i < ft.len() implies ft[i] < s.last() by {
                assert(ft.contains(ft[i]));
                assert(t.contains(ft[i]));
                let k = choose|k: int| 0 <= k < t.len() && t[k] == ft[i];
                assert(s[k] == t[k]);
            }
            assert forall|x: u64| fs.contains(x) <==> ft.contains(x) || x == s.last() by {
                if fs.contains(x) {
                    let i = choose|i: int| 0 <= i < fs.len() && fs[i] == x;
                    if i < ft.len() {
                        assert(ft[i] == x);
                    }
                }
                if ft.contains(x) {
                    let i = choose|i: int| 0 <= i < ft.len() && ft[i] == x;
                    assert(fs[i] == x);
                }
                if x == s.last() {
                    assert(fs[fs.len() - 1] == x);
                }
            }
        } else {
            assert(s.filter(p) == ft);
        }
    }
}

/// Filtering keeps a sequence whole when every element passes, and empties it
/// when none does.
pub proof fn lemma_filter_all(s: Seq<u64>, p: spec_fn(u64) -> bool)
    requires
        forall|x: u64| #[trigger] s.contains(x) ==> p(x),
    ensures
        s.filter(p) == s,
    decreases s.len(),
{
    reveal_with_fuel(Seq::<_>::filter, 1);
    if s.len() > 0 {
        let t = s.drop_last();
        assert forall|x: u64| #[trigger] t.contains(x) implies p(x) by {
            let i = choose|i: int| 0 <= i < t.len() && t[i] == x;
            assert(s[i] == x);
            assert(s.contains(x));
        }
        lemma_filter_all(t, p);
        assert(s.contains(s.last()));
        assert(s.filter(p) =~= s);
    }
}

pub proof fn lemma_filter_none(s: Seq<u64>, p: spec_fn(u64) -> bool)
    requires
        forall|x: u64| #[trigger] s.contains(x) ==> !p(x),
    ensures
        s.filter(p) == Seq::<u64>::empty(),
    decreases s.len(),
{
    reveal_with_fuel(Seq::<_>::filter, 1);
    if s.len() > 0 {
        let t = s.drop_last();
        assert forall|x: u64| #[trigger] t.contains(x) implies !p(x) by {
            let i = choose|i: int| 0 <= i < t.len() && t[i] == x;
            assert(s[i] == x);
            assert(s.contains(x));
        }
        lemma_filter_none(t, p);
        assert(s.contains(s.last()));
    }
}

} // verus!

verus! {

/// Byte-wise equality of two byte strings.
pub fn bytes_eq(a: &[u8], b: &[u8]) -> (r: bool)
    ensures
        r == (a@ == b@),
{
    if a.len() != b.len() {
        return false;
    }
    let mut i: usize = 0;
    while i < a.len()
        invariant
            a@.len() == b@.len(),
            0 <= i <= a@.len(),
            forall|j: int| 0 <= j < i ==> a@[j] == b@[j],
        decreases a@.len() - i,
    {
        if a[i] != b[i] {
            return false;
        }
        i = i + 1;
    }
    assert(a@ =~= b@);
    true
}

/// A fresh copy of a byte string.
pub fn copy_bytes(a: &Vec<u8>) -> (r: Vec<u8>)
    ensures
        r@ == a@,
{
    let mut r: Vec<u8> = Vec::new();
    let mut i: usize = 0;
    while i < a.len()
        invariant
            0 <= i <= a@.len(),
            r@ == a@.take(i as int),
        decreases a@.len() - i,
    {
        r.push(a[i]);
        i = i + 1;
        assert(r@ =~= a@.take(i as int));
    }
    assert(a@.take(a@.len() as int) =~= a@);
    r
}


/// The entries with each value taken by its view.
pub open spec fn entry_views<R: View>(v: Seq<(u64, R)>) -> Seq<(u64, R::V)> {
    v.map_values(|e: (u64, R)| (e.0, e.1@))
}

/// The ids of the entries increase strictly.
pub open spec fn ids_increasing<R>(v: Seq<(u64, R)>) -> bool {
    forall|i: int, j: int| 0 <= i < j < v.len() ==> v[i].0 < v[j].0
}

/// Strictly increasing ids are distinct keys.
pub proof fn lemma_increasing_distinct<R: View>(v: Seq<(u64, R)>)
    requires
        ids_increasing(v),
    ensures
        keys_distinct(entry_views(v)),
{
    let kv = entry_views(v);
    assert forall|a: int, b: int| 0 <= a < kv.len() && 0 <= b < kv.len() && a != b implies kv[a].0 != kv[b].0 by {
        if a < b {
            assert(v[a].0 < v[b].0);
        } else {
            assert(v[b].0 < v[a].0);
        }
    }
}

/// `ids` lists the keys of `m` in increasing order, and every key lies
/// below `bound`.
pub open spec fn ids_index<V>(ids: Seq<u64>, m: Map<u64, V>, bound: u64) -> bool {
    &&& forall|i: int, j: int| 0 <= i < j < ids.len() ==> ids[i] < ids[j]
    &&& forall|id: u64| #[trigger] m.contains_key(id) <==> ids.contains(id)
    &&& forall|id: u64| #[trigger] m.contains_key(id) ==> id < bound
}

/// The part of `m` whose keys pass `keep`.
pub open spec fn keep_where<V>(m: Map<u64, V>, keep: spec_fn(u64) -> bool) -> Map<u64, V> {
    Map::new(|id: u64| m.contains_key(id) && keep(id), |id: u64| m[id])
}

/// Entries with strictly increasing ids below `bound` index the map they
/// stand for.
pub proof fn lemma_entries_index<R: View>(v: Seq<(u64, R)>, bound: u64)
    requires
        ids_increasing(v),
        forall|i: int| 0 <= i < v.len() ==> v[i].0 < bound,
    ensures
        keys_distinct(entry_views(v)),
        ids_index(entry_keys(entry_views(v)), entries_map(entry_views(v)), bound),
{
    let re = entry_views(v);
    let ids = entry_keys(re);
    let m = entries_map(re);
    lemma_increasing_distinct(v);
    assert forall|id: u64| #[trigger] m.contains_key(id) <==> ids.contains(id) by {
        lemma_entries_map_dom(re, id);
        if ids.contains(id) {
            let i = choose|i: int| 0 <= i < ids.len() && ids[i] == id;
            assert(re[i].0 == id);
        }
        if m.contains_key(id) {
            let i = choose|i: int| 0 <= i < re.len() && re[i].0 == id;
            assert(ids[i] == id);
        }
    }
    assert forall|id: u64| #[trigger] m.contains_key(id) implies id < bound by {
        lemma_entries_map_dom(re, id);
    }
}

/// Adding the key `bound` at the end keeps an index.
pub proof fn lemma_ids_index_push<V>(ids: Seq<u64>, m: Map<u64, V>, bound: u64, v: V)
    requires
        ids_index(ids, m, bound),
        bound < u64::MAX,
    ensures
        ids_index(ids.push(bound), m.insert(bound, v), (bound + 1) as u64),
{
    let ids2 = ids.push(bound);
    let m2 = m.insert(bound, v);
    assert forall|x: u64| #[trigger] m2.contains_key(x) <==> ids2.contains(x) by {
        if ids2.contains(x) && x != bound {
            let i = choose|i: int| 0 <= i < ids2.len() && ids2[i] == x;
            assert(ids[i] == x);
        }
        if ids.contains(x) {
            let i = choose|i: int| 0 <= i < ids.len() && ids[i] == x;
            assert(ids2[i] == x);
        }
        if x == bound {
            assert(ids2[ids2.len() - 1] == x);
        }
    }
    assert forall|i: int, j: int| 0 <= i < j < ids2.len() implies ids2[i] < ids2[j] by {
        if j == ids2.len() - 1 {
            assert(ids.contains(ids[i]));
            assert(m.contains_key(ids[i]));
        }
    }
}

/// Removing a key keeps an index.
pub proof fn lemma_ids_index_remove<V>(ids: Seq<u64>, m: Map<u64, V>, bound: u64, id: u64)
    requires
        ids_index(ids, m, bound),
        m.contains_key(id),
    ensures
        ids_index(ids.remove(ids.index_of(id)), m.remove(id), bound),
{
    assert(ids.contains(id));
    let k = ids.index_of(id);
    assert(0 <= k < ids.len() && ids[k] == id);
    let ids2 = ids.remove(k);
    let m2 = m.remove(id);
    assert forall|x: u64| #[trigger] m2.contains_key(x) <==> ids2.contains(x) by {
        if ids2.contains(x) {
            let i = choose|i: int| 0 <= i < ids2.len() && ids2[i] == x;
            if i < k {
                assert(ids[i] == x);
                assert(ids[i] < ids[k]);
            } else {
                assert(ids[i + 1] == x);
                assert(ids[k] < ids[i + 1]);
            }
        }
        if m2.contains_key(x) {
            assert(ids.contains(x));
            let i = choose|i: int| 0 <= i < ids.len() && ids[i] == x;
            if i < k {
                assert(ids2[i] == x);
            } else {
                assert(i != k);
                assert(ids2[i - 1] == x);
            }
        }
    }
    assert forall|i: int, j: int| 0 <= i < j < ids2.len() implies ids2[i] < ids2[j] by {
        if i < k && j >= k {
            assert(ids[i] < ids[j + 1]);
        }
    }
}

/// Keeping the keys that pass a test keeps an index.
pub proof fn lemma_ids_index_filter<V>(ids: Seq<u64>, m: Map<u64, V>, bound: u64, keep: spec_fn(u64) -> bool)
    requires
        ids_index(ids, m, bound),
    ensures
        ids_index(ids.filter(keep), keep_where(m, keep), bound),
{
    lemma_filter_increasing(ids, keep);
}

/// A value that knows the block it was made in.
pub trait Dated: View {
    /// The block in which `v` was made.
    spec fn made_at(v: Self::V) -> u64;

    /// The block in which this value was made.
    fn block_made(&self) -> (r: u64)
        ensures
            r == Self::made_at(self@),
    ;
}

/// The block in which a dated value was made, as a function.
pub open spec fn made_by<R: Dated>() -> spec_fn(R::V) -> u64 {
    |v: R::V| R::made_at(v)
}

/// The keys of `m` whose value, made in block `made(value)`, was made at
/// most `period` blocks before `n`.
pub open spec fn lives_past<V>(m: Map<u64, V>, made: spec_fn(V) -> u64, n: u64, period: u64) -> spec_fn(u64) -> bool {
    |id: u64| !(n > made(m[id]) + period)
}

/// The keys of `m` whose value, made in block `made(value)`, was made more
/// than `period` blocks before `n`.
pub open spec fn dies_at<V>(m: Map<u64, V>, made: spec_fn(V) -> u64, n: u64, period: u64) -> spec_fn(u64) -> bool {
    |id: u64| n > made(m[id]) + period
}

/// The index of the entry with id `id`.
pub fn find_entry<R>(v: &Vec<(u64, R)>, id: u64) -> (r: Option<usize>)
    ensures
        match r {
            Some(i) => i < v@.len() && v@[i as int].0 == id,
            None => forall|i: int| 0 <= i < v@.len() ==> v@[i].0 != id,
        },
{
    let mut i: usize = 0;
    while i < v.len()
        invariant
            0 <= i <= v@.len(),
            forall|j: int| 0 <= j < i ==> v@[j].0 != id,
        decreases v@.len() - i,
    {
        if v[i].0 == id {
            return Some(i);
        }
        i = i + 1;
    }
    None
}

/// Splits dated entries at the end of block `n`: the entries made at most
/// `period` blocks before `n` stay, in order; the ids of the others are
/// given back, in order.
pub fn split_expired<R: Dated>(pending: Vec<(u64, R)>, n: u64, period: u64) -> (r: (Vec<(u64, R)>, Vec<u64>))
    requires
        ids_increasing(pending@),
        forall|j: int| 0 <= j < pending@.len() ==> R::made_at(#[trigger] pending@[j].1@) + period <= u64::MAX,
    ensures
        ({
            let re = entry_views(pending@);
            let m = entries_map(re);
            &&& entry_keys(entry_views(r.0@)) == entry_keys(re).filter(lives_past(m, made_by::<R>(), n, period))
            &&& entries_map(entry_views(r.0@)) == keep_where(m, lives_past(m, made_by::<R>(), n, period))
            &&& ids_increasing(r.0@)
            &&& forall|j: int| 0 <= j < r.0@.len() ==> m.contains_key(#[trigger] r.0@[j].0)
            &&& r.1@ == entry_keys(re).filter(dies_at(m, made_by::<R>(), n, period))
        }),
{
    let ghost orig = pending@;
    let ghost re = entry_views(orig);
    let ghost m = entries_map(re);
    let ghost kid = entry_keys(re);
    let ghost keep = lives_past(m, made_by::<R>(), n, period);
    let ghost drop = dies_at(m, made_by::<R>(), n, period);
    proof {
        lemma_increasing_distinct(orig);
    }
    let mut pending = pending;
    let mut kept: Vec<(u64, R)> = Vec::new();
    let mut dropped: Vec<u64> = Vec::new();
    let ghost mut i: int = 0;
    assert(entry_views(kept@) =~= Seq::empty());
    assert(entries_map(re.take(0)) =~= Map::empty());
    assert(keep_where(entries_map(re.take(0)), keep) =~= Map::empty());
    assert(kid.take(0) =~= Seq::empty());
    assert(orig.skip(0) =~= orig);
    while pending.len() > 0
        invariant
            0 <= i <= orig.len(),
            pending@ == orig.skip(i),
            re == entry_views(orig),
            m == entries_map(re),
            kid == entry_keys(re),
            keep == lives_past(m, made_by::<R>(), n, period),
            drop == dies_at(m, made_by::<R>(), n, period),
            keys_distinct(re),
            ids_increasing(orig),
            forall|j: int| 0 <= j < orig.len() ==> R::made_at(#[trigger] orig[j].1@) + period <= u64::MAX,
            entry_keys(entry_views(kept@)) == kid.take(i).filter(keep),
            entries_map(entry_views(kept@)) == keep_where(entries_map(re.take(i)), keep),
            ids_increasing(kept@),
            forall|j: int| 0 <= j < kept@.len() ==> i > 0 && kept@[j].0 <= orig[i - 1].0,
            forall|j: int| 0 <= j < kept@.len() ==> m.contains_key(#[trigger] kept@[j].0),
            dropped@ == kid.take(i).filter(drop),
        decreases pending@.len(),
    {
        let entry = pending.remove(0);
        proof {
            assert(entry == orig[i]);
            assert(pending@ =~= orig.skip(i + 1));
        }
        let id = entry.0;
        let made = entry.1.block_made();
        let ghost info = entry.1@;
        let ghost cur = entry_views(kept@);
        proof {
            assert(re[i] == (id, info));
            lemma_entries_map_index(re, i);
            assert(m[id] == info);
            assert(re.take(i + 1) =~= re.take(i).push(re[i]));
            lemma_entries_map_push(re.take(i), re[i]);
            assert(kid.take(i + 1).drop_last() =~= kid.take(i));
            assert(kid[i] == id);
            assert(kid.take(i + 1).last() == id);
            reveal_with_fuel(Seq::<_>::filter, 1);
        }
        if n > made + period {
            dropped.push(id);
            proof {
                reveal_with_fuel(Seq::<_>::filter, 1);
                assert(drop(id));
                assert(!keep(id));
                assert(kid.take(i + 1).filter(drop) == kid.take(i).filter(drop).push(id));
                assert(kid.take(i + 1).filter(keep) == kid.take(i).filter(keep));
                assert(keep_where(entries_map(re.take(i + 1)), keep) =~= keep_where(entries_map(re.take(i)), keep));
            }
        } else {
            kept.push(entry);
            proof {
                reveal_with_fuel(Seq::<_>::filter, 1);
                assert(!drop(id));
                assert(keep(id));
                assert(entry_views(kept@) =~= cur.push((id, info)));
                lemma_entries_map_push(cur, (id, info));
                assert(entry_keys(entry_views(kept@)) =~= entry_keys(cur).push(id));
                assert(kid.take(i + 1).filter(keep) == kid.take(i).filter(keep).push(id));
                assert(kid.take(i + 1).filter(drop) == kid.take(i).filter(drop));
                assert(keep_where(entries_map(re.take(i + 1)), keep) =~= keep_where(entries_map(re.take(i)), keep).insert(id, info));
                assert(m.contains_key(id));
            }
        }
        proof {
            i = i + 1;
        }
    }
    proof {
        assert(orig.skip(i).len() == 0);
        assert(re.take(i) =~= re);
        assert(kid.take(i) =~= kid);
    }
    (kept, dropped)
}
} // verus!
