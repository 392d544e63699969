//! Association lists: a sequence of `(key, value)` entries read as a map.
//!
//! The routing table and the ledger keep their entries in vectors. The
//! functions here give such a vector its meaning as a `Map` from key views to
//! value views, and prove how that map changes under the edits the stores make.

use vstd::prelude::*;

verus! {

/// The map that a sequence of entries stands for; a later entry wins.
pub open spec fn entries_map<K: View, V: View>(s: Seq<(K, V)>) -> Map<K::V, V::V>
    decreases s.len(),
{
    if s.len() == 0 {
        Map::empty()
    } else {
        entries_map(s.drop_last()).insert(s.last().0@, s.last().1@)
    }
}

/// No two entries share a key.
pub open spec fn keys_unique<K: View, V>(s: Seq<(K, V)>) -> bool {
    forall|i: int, j: int|
        0 <= i < s.len() && 0 <= j < s.len() && i != j ==> s[i].0@ != s[j].0@
}

/// The entries whose key satisfies `p`, in their order.
pub open spec fn keep_keys<K: View, V>(s: Seq<(K, V)>, p: spec_fn(K::V) -> bool) -> Seq<(K, V)> {
    s.filter(key_pred(p))
}

/// `p` read as a test on whole entries.
pub open spec fn key_pred<K: View, V>(p: spec_fn(K::V) -> bool) -> spec_fn((K, V)) -> bool {
    |e: (K, V)| p(e.0@)
}

/// Holds of every key but `k0`.
pub open spec fn differs_from<K>(k0: K) -> spec_fn(K) -> bool {
    |k: K| k != k0
}

/// Appending an entry under a new key keeps keys unique and adds it to the map.
pub proof fn lemma_push_fresh<K: View, V: View>(s: Seq<(K, V)>, e: (K, V))
    requires
        keys_unique(s),
        !entries_map(s).contains_key(e.0@),
    ensures
        keys_unique(s.push(e)),
        entries_map(s.push(e)) == entries_map(s).insert(e.0@, e.1@),
{
    lemma_entries_map_push(s, e);
    lemma_entries_map_contains(s, e.0@);
    let t = s.push(e);
    assert forall|a: int, b: int|
        0 <= a < t.len() && 0 <= b < t.len() && a != b implies t[a].0@ != t[b].0@ by {
        if a < s.len() && b < s.len() {
            assert(t[a] == s[a] && t[b] == s[b]);
        } else if a < s.len() {
            assert(t[a] == s[a]);
        } else {
            assert(t[b] == s[b]);
        }
    }
}

/// Keeping the entries whose key is not `k0` removes `k0` from the map.
pub proof fn lemma_keep_others<K: View, V: View>(s: Seq<(K, V)>, k0: K::V)
    requires
        keys_unique(s),
    ensures
        keys_unique(keep_keys(s, differs_from(k0))),
        entries_map(keep_keys(s, differs_from(k0))) == entries_map(s).remove(k0),
{
    lemma_keep_keys_unique(s, differs_from(k0));
    lemma_entries_map_keep_keys(s, differs_from(k0));
    let m = entries_map(s);
    assert(m.restrict(m.dom().filter(differs_from(k0))) =~= m.remove(k0));
}

pub proof fn lemma_entries_map_push<K: View, V: View>(s: Seq<(K, V)>, e: (K, V))
    ensures
        entries_map(s.push(e)) == entries_map(s).insert(e.0@, e.1@),
{
    assert(s.push(e).drop_last() =~= s);
}

pub proof fn lemma_entries_map_contains<K: View, V: View>(s: Seq<(K, V)>, k: K::V)
    ensures
        entries_map(s).contains_key(k) <==> exists|i: int| 0 <= i < s.len() && s[i].0@ == k,
    decreases s.len(),
{
    if s.len() > 0 {
        let t = s.drop_last();
        lemma_entries_map_contains(t, k);
        if entries_map(s).contains_key(k) {
            if s.last().0@ != k {
                let i = choose|i: int| 0 <= i < t.len() && t[i].0@ == k;
                assert(s[i] == t[i]);
            }
        }
        if exists|i: int| 0 <= i < s.len() && s[i].0@ == k {
            let i = choose|i: int| 0 <= i < s.len() && s[i].0@ == k;
            if i < s.len() - 1 {
                assert(t[i] == s[i]);
            }
        }
    }
}

pub proof fn lemma_entries_map_value<K: View, V: View>(s: Seq<(K, V)>, i: int)
    requires
        keys_unique(s),
        0 <= i < s.len(),
    ensures
        entries_map(s).contains_key(s[i].0@),
        entries_map(s)[s[i].0@] == s[i].1@,
    decreases s.len(),
{
    let t = s.drop_last();
    if i < s.len() - 1 {
        assert(keys_unique(t)) by {
            assert forall|a: int, b: int|
                0 <= a < t.len() && 0 <= b < t.len() && a != b implies t[a].0@ != t[b].0@ by {
                assert(t[a] == s[a] && t[b] == s[b]);
            }
        }
        lemma_entries_map_value(t, i);
        assert(t[i] == s[i]);
        assert(s[i].0@ != s.last().0@);
    }
}

pub proof fn lemma_keep_keys_step<K: View, V>(s: Seq<(K, V)>, p: spec_fn(K::V) -> bool, i: int)
    requires
        0 <= i < s.len(),
    ensures
        keep_keys(s.subrange(0, i + 1), p) == if p(s[i].0@) {
            keep_keys(s.subrange(0, i), p).push(s[i])
        } else {
            keep_keys(s.subrange(0, i), p)
        },
{
    reveal(Seq::filter);
    assert(s.subrange(0, i + 1).drop_last() =~= s.subrange(0, i));
}

pub proof fn lemma_keep_keys_unique<K: View, V>(s: Seq<(K, V)>, p: spec_fn(K::V) -> bool)
    requires
        keys_unique(s),
    ensures
        keys_unique(keep_keys(s, p)),
        forall|i: int|
            0 <= i < keep_keys(s, p).len() ==> #[trigger] s.contains(keep_keys(s, p)[i]),
    decreases s.len(),
{
    let pred = key_pred::<K, V>(p);
    reveal(Seq::filter);
    if s.len() > 0 {
        let t = s.drop_last();
        assert(keys_unique(t)) by {
            assert forall|a: int, b: int|
                0 <= a < t.len() && 0 <= b < t.len() && a != b implies t[a].0@ != t[b].0@ by {
                assert(t[a] == s[a] && t[b] == s[b]);
            }
        }
        lemma_keep_keys_unique(t, p);
        let ft = t.filter(pred);
        assert(keep_keys(t, p) == ft);
        assert forall|i: int| 0 <= i < ft.len() implies #[trigger] s.contains(ft[i]) by {
            assert(t.contains(keep_keys(t, p)[i]));
            let j = choose|j: int| 0 <= j < t.len() && t[j] == ft[i];
            assert(s[j] == t[j]);
        }
        if pred(s.last()) {
            let fs = ft.push(s.last());
            assert(keep_keys(s, p) == fs);
            assert forall|a: int, b: int|
                0 <= a < fs.len() && 0 <= b < fs.len() && a != b implies fs[a].0@ != fs[b].0@ by {
                if a < ft.len() && b < ft.len() {
                    assert(fs[a] == ft[a] && fs[b] == ft[b]);
                } else if a < ft.len() {
                    assert(t.contains(keep_keys(t, p)[a]));
                    let j = choose|j: int| 0 <= j < t.len() && t[j] == ft[a];
                    assert(s[j] == t[j]);
                    assert(fs[a] == ft[a]);
                } else if b < ft.len() {
                    assert(t.contains(keep_keys(t, p)[b]));
                    let j = choose|j: int| 0 <= j < t.len() && t[j] == ft[b];
                    assert(s[j] == t[j]);
                    assert(fs[b] == ft[b]);
                }
            }
            assert forall|i: int| 0 <= i < fs.len() implies #[trigger] s.contains(fs[i]) by {
                if i < ft.len() {
                    assert(fs[i] == ft[i]);
                    assert(s.contains(ft[i]));
                } else {
                    assert(s[s.len() - 1] == fs[i]);
                }
            }
        } else {
            assert(keep_keys(s, p) == ft);
        }
    }
}

/// Keeping the entries whose key satisfies `p` restricts the map to those keys.
pub proof fn lemma_entries_map_keep_keys<K: View, V: View>(
    s: Seq<(K, V)>,
    p: spec_fn(K::V) -> bool,
)
    ensures
        entries_map(keep_keys(s, p)) == entries_map(s).restrict(entries_map(s).dom().filter(p)),
    decreases s.len(),
{
    let pred = key_pred::<K, V>(p);
    reveal(Seq::filter);
    let m = entries_map(s);
    if s.len() == 0 {
        assert(keep_keys(s, p) =~= s);
        assert(m.restrict(m.dom().filter(p)) =~= m);
    } else {
        let t = s.drop_last();
        lemma_entries_map_keep_keys(t, p);
        let mt = entries_map(t);
        assert(keep_keys(t, p) == t.filter(pred));
        if pred(s.last()) {
            assert(keep_keys(s, p) == t.filter(pred).push(s.last()));
            lemma_entries_map_push(t.filter(pred), s.last());
        } else {
            assert(keep_keys(s, p) == t.filter(pred));
        }
        assert(entries_map(keep_keys(s, p)) =~= m.restrict(m.dom().filter(p)));
    }
}

pub proof fn lemma_entries_map_len<K: View, V: View>(s: Seq<(K, V)>)
    requires
        keys_unique(s),
    ensures
        entries_map(s).dom().finite(),
        entries_map(s).dom().len() == s.len(),
    decreases s.len(),
{
    if s.len() > 0 {
        let t = s.drop_last();
        assert(keys_unique(t)) by {
            assert forall|a: int, b: int|
                0 <= a < t.len() && 0 <= b < t.len() && a != b implies t[a].0@ != t[b].0@ by {
                assert(t[a] == s[a] && t[b] == s[b]);
            }
        }
        lemma_entries_map_len(t);
        lemma_entries_map_contains(t, s.last().0@);
        if entries_map(t).contains_key(s.last().0@) {
            let i = choose|i: int| 0 <= i < t.len() && t[i].0@ == s.last().0@;
            assert(t[i] == s[i]);
        }
    }
}

/// Two entry sequences that agree entry by entry on views stand for the same map.
pub proof fn lemma_entries_map_same_views<K: View, V: View, K2: View<V = K::V>, V2: View<
    V = V::V,
>>(s: Seq<(K, V)>, t: Seq<(K2, V2)>)
    requires
        s.len() == t.len(),
        forall|i: int| 0 <= i < s.len() ==> #[trigger] s[i].0@ == t[i].0@ && s[i].1@ == t[i].1@,
    ensures
        entries_map(s) == entries_map(t),
        keys_unique(s) ==> keys_unique(t),
    decreases s.len(),
{
    if s.len() > 0 {
        let s1 = s.drop_last();
        let t1 = t.drop_last();
        assert forall|i: int| 0 <= i < s1.len() implies #[trigger] s1[i].0@ == t1[i].0@
            && s1[i].1@ == t1[i].1@ by {
            assert(s1[i] == s[i] && t1[i] == t[i]);
        }
        lemma_entries_map_same_views(s1, t1);
    }
    if keys_unique(s) {
        assert forall|a: int, b: int|
            0 <= a < t.len() && 0 <= b < t.len() && a != b implies t[a].0@ != t[b].0@ by {
            assert(s[a].0@ == t[a].0@ && s[b].0@ == t[b].0@);
        }
    }
}

} // verus!
