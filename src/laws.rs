use crate::bounded::{has_key, keys_distinct, keys_of, lookup, put_model, trim_oldest};
use vstd::prelude::*;

verus! {

/// The entries after filing `vs[i]` under `ks[i]`, for each `i` in turn,
/// into an empty store of capacity `cap`.
pub open spec fn put_all(cap: nat, ks: Seq<Seq<char>>, vs: Seq<Seq<u8>>) -> Seq<(Seq<char>, Seq<u8>)>
    decreases ks.len(),
{
    if ks.len() == 0 || vs.len() == 0 {
        Seq::empty()
    } else {
        put_model(put_all(cap, ks.drop_last(), vs.drop_last()), cap, ks.last(), vs.last())
    }
}

/// The pairs `(ks[i], vs[i])`, in order.
pub open spec fn pairs(ks: Seq<Seq<char>>, vs: Seq<Seq<u8>>) -> Seq<(Seq<char>, Seq<u8>)> {
    Seq::new(ks.len(), |i: int| (ks[i], vs[i]))
}

/// Where keys are distinct, the entry found under a key is the one that has it.
pub proof fn lemma_lookup_at(s: Seq<(Seq<char>, Seq<u8>)>, i: int)
    requires
        keys_distinct(s),
        0 <= i < s.len(),
    ensures
        lookup(s, s[i].0) == Some(s[i].1),
{
    assert(has_key(s, s[i].0));
}

/// Filing keeps a store within its capacity and its keys distinct.
pub proof fn lemma_put_within_capacity(s: Seq<(Seq<char>, Seq<u8>)>, cap: nat, k: Seq<char>, v: Seq<u8>)
    requires
        s.len() <= cap,
        keys_distinct(s),
    ensures
        put_model(s, cap, k, v).len() <= cap,
        keys_distinct(put_model(s, cap, k, v)),
{
    let t = put_model(s, cap, k, v);
    if has_key(s, k) {
        let i = choose|i: int| 0 <= i < s.len() && #[trigger] s[i].0 == k;
        assert forall|a: int, b: int| 0 <= a < t.len() && 0 <= b < t.len() && a != b implies #[trigger] t[a].0 != #[trigger] t[b].0 by {
            assert(s[a].0 == t[a].0);
            assert(s[b].0 == t[b].0);
        }
    } else {
        let pushed = s.push((k, v));
        assert forall|a: int, b: int| 0 <= a < t.len() && 0 <= b < t.len() && a != b implies #[trigger] t[a].0 != #[trigger] t[b].0 by {
            let off = pushed.len() - t.len();
            assert(t[a] == pushed[a + off]);
            assert(t[b] == pushed[b + off]);
            if a + off < s.len() && b + off < s.len() {
                assert(s[a + off] == pushed[a + off]);
                assert(s[b + off] == pushed[b + off]);
            } else if a + off < s.len() {
                assert(s[a + off] == pushed[a + off]);
            } else if b + off < s.len() {
                assert(s[b + off] == pushed[b + off]);
            }
        }
    }
}

/// Right after `v` is filed under `k`, in a store that can hold anything,
/// `k` gives back exactly `v`.
pub proof fn lemma_read_after_write(s: Seq<(Seq<char>, Seq<u8>)>, cap: nat, k: Seq<char>, v: Seq<u8>)
    requires
        cap > 0,
        s.len() <= cap,
        keys_distinct(s),
    ensures
        lookup(put_model(s, cap, k, v), k) == Some(v),
{
    lemma_put_within_capacity(s, cap, k, v);
    let t = put_model(s, cap, k, v);
    if has_key(s, k) {
        let i = choose|i: int| 0 <= i < s.len() && #[trigger] s[i].0 == k;
        lemma_lookup_at(t, i);
    } else {
        lemma_lookup_at(t, t.len() - 1);
    }
}

/// Filing `b` under a key that holds `a` leaves `b` there, and the key
/// keeps its place in the eviction order.
pub proof fn lemma_overwrite(s: Seq<(Seq<char>, Seq<u8>)>, cap: nat, k: Seq<char>, a: Seq<u8>, b: Seq<u8>)
    requires
        cap > 0,
        s.len() <= cap,
        keys_distinct(s),
    ensures
        lookup(put_model(put_model(s, cap, k, a), cap, k, b), k) == Some(b),
        keys_of(put_model(put_model(s, cap, k, a), cap, k, b)) == keys_of(put_model(s, cap, k, a)),
{
    lemma_put_within_capacity(s, cap, k, a);
    let t = put_model(s, cap, k, a);
    lemma_read_after_write(t, cap, k, b);
    lemma_read_after_write(s, cap, k, a);
    assert(has_key(t, k));
    let u = put_model(t, cap, k, b);
    assert(keys_of(u) =~= keys_of(t));
}

/// A key that was never filed is not found.
pub proof fn lemma_absent_never_filed(cap: nat, ks: Seq<Seq<char>>, vs: Seq<Seq<u8>>, k: Seq<char>)
    requires
        !ks.contains(k),
    ensures
        lookup(put_all(cap, ks, vs), k) is None,
    decreases ks.len(),
{
    if ks.len() == 0 || vs.len() == 0 {
    } else {
        let s = put_all(cap, ks.drop_last(), vs.drop_last());
        assert(!ks.drop_last().contains(k)) by {
            if ks.drop_last().contains(k) {
                let j = choose|j: int| 0 <= j < ks.drop_last().len() && ks.drop_last()[j] == k;
                assert(ks[j] == k);
            }
        }
        lemma_absent_never_filed(cap, ks.drop_last(), vs.drop_last(), k);
        assert(ks.last() != k) by {
            assert(ks[ks.len() - 1] == ks.last());
        }
        let t = put_all(cap, ks, vs);
        if has_key(t, k) {
            let i = choose|i: int| 0 <= i < t.len() && #[trigger] t[i].0 == k;
            if has_key(s, ks.last()) {
                let j = choose|j: int| 0 <= j < s.len() && #[trigger] s[j].0 == ks.last();
                assert(s[i].0 == t[i].0);
            } else {
                let pushed = s.push((ks.last(), vs.last()));
                let off = pushed.len() - t.len();
                assert(t[i] == pushed[i + off]);
                assert(pushed[i + off].0 == k);
                assert(i + off < s.len());
                assert(s[i + off].0 == k);
            }
        }
    }
}

/// With capacity zero every filing is evicted at once: the store stays empty.
pub proof fn lemma_zero_capacity(ks: Seq<Seq<char>>, vs: Seq<Seq<u8>>)
    ensures
        put_all(0, ks, vs) == Seq::<(Seq<char>, Seq<u8>)>::empty(),
    decreases ks.len(),
{
    if ks.len() == 0 || vs.len() == 0 {
    } else {
        lemma_zero_capacity(ks.drop_last(), vs.drop_last());
        let s = put_all(0, ks.drop_last(), vs.drop_last());
        assert(!has_key(s, ks.last()));
        assert(put_all(0, ks, vs) =~= Seq::<(Seq<char>, Seq<u8>)>::empty());
    }
}

/// Filing distinct keys in turn keeps the `cap` newest pairs, in order.
pub proof fn lemma_distinct_keys_keep_newest(cap: nat, ks: Seq<Seq<char>>, vs: Seq<Seq<u8>>)
    requires
        ks.no_duplicates(),
        ks.len() == vs.len(),
    ensures
        put_all(cap, ks, vs) == trim_oldest(pairs(ks, vs), cap),
    decreases ks.len(),
{
    if ks.len() == 0 {
        assert(pairs(ks, vs) =~= Seq::<(Seq<char>, Seq<u8>)>::empty());
    } else {
        let ks0 = ks.drop_last();
        let vs0 = vs.drop_last();
        assert(ks0.no_duplicates()) by {
            assert forall|i: int, j: int| 0 <= i < ks0.len() && 0 <= j < ks0.len() && i != j implies ks0[i] != ks0[j] by {
                assert(ks0[i] == ks[i]);
                assert(ks0[j] == ks[j]);
            }
        }
        lemma_distinct_keys_keep_newest(cap, ks0, vs0);
        let z0 = pairs(ks0, vs0);
        let s = trim_oldest(z0, cap);
        let k = ks.last();
        let v = vs.last();
        assert(!has_key(s, k)) by {
            if has_key(s, k) {
                let i = choose|i: int| 0 <= i < s.len() && #[trigger] s[i].0 == k;
                let off = z0.len() - s.len();
                assert(s[i] == z0[i + off]);
                assert(ks[i + off] == ks[ks.len() - 1]);
            }
        }
        let z = pairs(ks, vs);
        assert(z =~= z0.push((k, v)));
        assert(trim_oldest(s.push((k, v)), cap) =~= trim_oldest(z, cap));
    }
}

/// Filing `cap + 1` distinct keys into an empty store of capacity `cap`
/// evicts the first and keeps every other.
pub proof fn lemma_fifo_eviction(cap: nat, ks: Seq<Seq<char>>, vs: Seq<Seq<u8>>)
    requires
        ks.len() == cap + 1,
        vs.len() == ks.len(),
        ks.no_duplicates(),
    ensures
        lookup(put_all(cap, ks, vs), ks[0]) is None,
        forall|i: int| 1 <= i <= cap ==> lookup(put_all(cap, ks, vs), #[trigger] ks[i]) == Some(vs[i]),
{
    lemma_distinct_keys_keep_newest(cap, ks, vs);
    let t = put_all(cap, ks, vs);
    let z = pairs(ks, vs);
    assert(t =~= z.subrange(1, cap + 1 as int));
    assert(keys_distinct(t)) by {
        assert forall|a: int, b: int| 0 <= a < t.len() && 0 <= b < t.len() && a != b implies #[trigger] t[a].0 != #[trigger] t[b].0 by {
            assert(t[a].0 == ks[a + 1]);
            assert(t[b].0 == ks[b + 1]);
        }
    }
    assert(!has_key(t, ks[0])) by {
        if has_key(t, ks[0]) {
            let i = choose|i: int| 0 <= i < t.len() && #[trigger] t[i].0 == ks[0];
            assert(t[i].0 == ks[i + 1]);
        }
    }
    assert forall|i: int| 1 <= i <= cap implies lookup(t, #[trigger] ks[i]) == Some(vs[i]) by {
        assert(t[i - 1] == (ks[i], vs[i]));
        lemma_lookup_at(t, i - 1);
    }
}

} // verus!
