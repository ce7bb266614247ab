//! Operations on `BTreeMap`, added through the `BTreeMapU` extension trait.
use crate::{
    accepts_entry, clone_is_exact, copy_of, deref_pairs, entries_where, inverts,
    is_entry_predicate, lists_entries,
};
use std::collections::BTreeMap;
use vstd::laws_cmp::obeys_cmp;
use vstd::prelude::*;
use vstd::std_specs::cmp::OrdSpec;
use vstd::std_specs::iter::IteratorSpec;

verus! {

/// `s` lists the entries of `m` by strictly increasing key.
pub open spec fn lists_in_key_order<K: Ord, V>(m: Map<K, V>, s: Seq<(K, V)>) -> bool {
    &&& lists_entries(m, s)
    &&& forall|i: int, j: int|
        #![trigger s[i], s[j]]
        0 <= i < j < s.len() ==> s[i].0.cmp_spec(&s[j].0) == core::cmp::Ordering::Less
}

/// What the axioms on `BTreeMap::iter` give, put as `lists_in_key_order`.
proof fn lemma_key_order<K: Ord, V>(m: Map<K, V>, s: Seq<(&K, &V)>)
    requires
        obeys_cmp::<K>(),
        forall|i: int| 0 <= i < s.len() ==> m.contains_key(*(#[trigger] s[i]).0) && m[*s[i].0] == *s[i].1,
        forall|k: K| #[trigger] m.contains_key(k) ==> s.contains((&k, &m[k])),
        vstd::std_specs::btree::increasing_seq(s.map_values(|kv: (&K, &V)| *kv.0)),
    ensures
        lists_in_key_order(m, deref_pairs(s)),
{
    let d = deref_pairs(s);
    let ks = s.map_values(|kv: (&K, &V)| *kv.0);
    assert forall|i: int, j: int| 0 <= i < j < d.len() implies #[trigger] d[i].0.cmp_spec(&(#[trigger] d[j]).0) == core::cmp::Ordering::Less by {
        assert(ks[i] == d[i].0);
        assert(ks[j] == d[j].0);
    }
    assert forall|k: K| m.contains_key(k) implies exists|i: int| 0 <= i < d.len() && #[trigger] d[i].0 == k by {
        assert(s.contains((&k, &m[k])));
        let i = choose|i: int| 0 <= i < s.len() && s[i] == (&k, &m[k]);
        assert(d[i].0 == k);
    }
}

/// The entries of `m` for which `f` answers `want`.
fn keep_by_filter<K: Ord + Clone, V: Ord + Clone, F: Fn(&K, &V) -> bool>(
    m: &BTreeMap<K, V>,
    f: F,
    want: bool,
) -> (r: BTreeMap<K, V>)
    requires
        obeys_cmp::<K>(),
        clone_is_exact::<K>(),
        clone_is_exact::<V>(),
        is_entry_predicate(f),
    ensures
        r@ == entries_where(m@, f, want),
{
    let entries = m.iter();
    let ghost s = entries.remaining();
    let ghost d = deref_pairs(s);
    proof {
        lemma_key_order(m@, s);
    }
    let mut kept: BTreeMap<K, V> = BTreeMap::new();
    for (k, v) in it: entries
        invariant
            it.seq() == s,
            d == deref_pairs(s),
            obeys_cmp::<K>(),
            clone_is_exact::<K>(),
            clone_is_exact::<V>(),
            is_entry_predicate(f),
            lists_in_key_order(m@, d),
            forall|x: K| #[trigger] kept@.contains_key(x) ==> m@.contains_key(x) && accepts_entry(f, x, m@[x]) == want && kept@[x] == m@[x],
            forall|i: int| 0 <= i < it.index() && accepts_entry(f, (#[trigger] d[i]).0, d[i].1) == want ==> kept@.contains_key(d[i].0),
    {
        assert(d[it.index()] == (*k, *v));
        let verdict = f(k, v);
        if verdict == want {
            let key = copy_of(k);
            let value = copy_of(v);
            kept.insert(key, value);
        }
    }
    proof {
        assert(kept@ =~= entries_where(m@, f, want));
    }
    kept
}

/// Operations added to `BTreeMap<K, V>`.
pub trait BTreeMapU<K: Ord + Clone, V: Ord + Clone>: View<V = Map<K, V>> + Sized {
    /// The map from each value to its key; where several keys share a value,
    /// the greatest of them.
    fn invert(self) -> (r: BTreeMap<V, K>)
        requires
            obeys_cmp::<K>(),
            obeys_cmp::<V>(),
            clone_is_exact::<K>(),
            clone_is_exact::<V>(),
        ensures
            inverts(r@, self@),
            forall|k: K|
                #[trigger] self@.contains_key(k) ==> k == r@[self@[k]] || k.cmp_spec(&r@[self@[k]])
                    == core::cmp::Ordering::Less,
    ;

    /// The entries whose key is among `keys`.
    fn pick(self, keys: &Vec<K>) -> (r: BTreeMap<K, V>)
        requires
            obeys_cmp::<K>(),
            clone_is_exact::<K>(),
            clone_is_exact::<V>(),
        ensures
            r@ == self@.restrict(keys@.to_set()),
    ;

    /// The entries for which `f` answers `true`.
    fn pick_by_filter<F: Fn(&K, &V) -> bool>(self, f: F) -> (r: BTreeMap<K, V>)
        requires
            obeys_cmp::<K>(),
            clone_is_exact::<K>(),
            clone_is_exact::<V>(),
            is_entry_predicate(f),
        ensures
            r@ == entries_where(self@, f, true),
    ;

    /// The entries whose key is not among `keys`.
    fn omit(self, keys: &Vec<K>) -> (r: BTreeMap<K, V>)
        requires
            obeys_cmp::<K>(),
        ensures
            r@ == self@.remove_keys(keys@.to_set()),
    ;

    /// The entries for which `f` answers `false`.
    fn omit_by_filter<F: Fn(&K, &V) -> bool>(self, f: F) -> (r: BTreeMap<K, V>)
        requires
            obeys_cmp::<K>(),
            clone_is_exact::<K>(),
            clone_is_exact::<V>(),
            is_entry_predicate(f),
        ensures
            r@ == entries_where(self@, f, false),
    ;

    /// These entries, and those of `appends` whose key is not among them.
    fn defaults(self, appends: BTreeMap<K, V>) -> (r: BTreeMap<K, V>)
        requires
            obeys_cmp::<K>(),
            clone_is_exact::<K>(),
            clone_is_exact::<V>(),
        ensures
            r@ == appends@.union_prefer_right(self@),
    ;

    /// The entries, by increasing key.
    fn pairs(&self) -> (r: Vec<(&K, &V)>)
        requires
            obeys_cmp::<K>(),
        ensures
            lists_in_key_order(self@, deref_pairs(r@)),
    ;
}

impl<K: Ord + Clone, V: Ord + Clone> BTreeMapU<K, V> for BTreeMap<K, V> {
    fn invert(self) -> (r: BTreeMap<V, K>) {
        let entries = self.iter();
        let ghost s = entries.remaining();
        let ghost d = deref_pairs(s);
        let ghost m = self@;
        proof {
            lemma_key_order(m, s);
        }
        let mut inv: BTreeMap<V, K> = BTreeMap::new();
        let ghost mut n: int = 0;
        for (k, v) in it: entries
            invariant
                it.seq() == s,
                n == it.index(),
                d == deref_pairs(s),
                m == self@,
                obeys_cmp::<K>(),
                obeys_cmp::<V>(),
                clone_is_exact::<K>(),
                clone_is_exact::<V>(),
                lists_in_key_order(m, d),
                forall|v: V| #[trigger] inv@.contains_key(v) ==> exists|i: int| 0 <= i < it.index() && #[trigger] d[i] == (inv@[v], v),
                forall|i: int| 0 <= i < it.index() ==> inv@.contains_key(#[trigger] d[i].1),
                forall|i: int| 0 <= i < it.index() ==> #[trigger] d[i].0 == inv@[d[i].1] || d[i].0.cmp_spec(&inv@[d[i].1]) == core::cmp::Ordering::Less,
        {
            assert(d[it.index()] == (*k, *v));
            let key = copy_of(k);
            let value = copy_of(v);
            inv.insert(value, key);
            proof {
                n = n + 1;
            }
        }
        proof {
            assert(n == d.len());
            assert forall|x: V| #[trigger] inv@.contains_key(x) implies m.contains_key(inv@[x]) && m[inv@[x]] == x by {
                let i = choose|i: int| 0 <= i < n && #[trigger] d[i] == (inv@[x], x);
            }
            assert forall|x: V| m.values().contains(x) implies inv@.contains_key(x) by {
                let k = choose|k: K| m.contains_key(k) && m[k] == x;
                let i = choose|i: int| 0 <= i < d.len() && #[trigger] d[i].0 == k;
            }
            assert(inv@.dom() =~= m.values());
            assert forall|k: K| #[trigger] m.contains_key(k) implies k == inv@[m[k]] || k.cmp_spec(&inv@[m[k]]) == core::cmp::Ordering::Less by {
                let i = choose|i: int| 0 <= i < d.len() && #[trigger] d[i].0 == k;
            }
        }
        inv
    }

    fn pick(self, keys: &Vec<K>) -> (r: BTreeMap<K, V>) {
        let mut picked: BTreeMap<K, V> = BTreeMap::new();
        let mut i: usize = 0;
        while i < keys.len()
            invariant
                i <= keys@.len(),
                obeys_cmp::<K>(),
                clone_is_exact::<K>(),
                clone_is_exact::<V>(),
                picked@ == self@.restrict(keys@.take(i as int).to_set()),
            decreases keys@.len() - i,
        {
            proof {
                assert(keys@.take(i + 1) == keys@.take(i as int) + seq![keys@[i as int]]);
                Seq::lemma_to_set_insert_commutes(keys@.take(i as int), keys@[i as int]);
            }
            match self.get(&keys[i]) {
                Some(value) => {
                    let k = copy_of(&keys[i]);
                    let v = copy_of(value);
                    picked.insert(k, v);
                    proof {
                        assert(picked@ =~= self@.restrict(keys@.take(i + 1).to_set()));
                    }
                },
                None => {
                    proof {
                        assert(picked@ =~= self@.restrict(keys@.take(i + 1).to_set()));
                    }
                },
            }
            i = i + 1;
        }
        proof {
            assert(keys@.take(keys@.len() as int) == keys@);
        }
        picked
    }

    fn pick_by_filter<F: Fn(&K, &V) -> bool>(self, f: F) -> (r: BTreeMap<K, V>) {
        keep_by_filter(&self, f, true)
    }

    fn omit(self, keys: &Vec<K>) -> (r: BTreeMap<K, V>) {
        let mut omitted = self;
        let mut i: usize = 0;
        while i < keys.len()
            invariant
                i <= keys@.len(),
                obeys_cmp::<K>(),
                omitted@ == self@.remove_keys(keys@.take(i as int).to_set()),
            decreases keys@.len() - i,
        {
            proof {
                assert(keys@.take(i + 1) == keys@.take(i as int) + seq![keys@[i as int]]);
                Seq::lemma_to_set_insert_commutes(keys@.take(i as int), keys@[i as int]);
            }
            omitted.remove(&keys[i]);
            proof {
                assert(omitted@ =~= self@.remove_keys(keys@.take(i + 1).to_set()));
            }
            i = i + 1;
        }
        proof {
            assert(keys@.take(keys@.len() as int) == keys@);
        }
        omitted
    }

    fn omit_by_filter<F: Fn(&K, &V) -> bool>(self, f: F) -> (r: BTreeMap<K, V>) {
        keep_by_filter(&self, f, false)
    }

    fn defaults(self, appends: BTreeMap<K, V>) -> (r: BTreeMap<K, V>) {
        let entries = appends.iter();
        let ghost s = entries.remaining();
        let ghost d = deref_pairs(s);
        let ghost a = appends@;
        proof {
            lemma_key_order(a, s);
        }
        let mut merged = self;
        for (k, v) in it: entries
            invariant
                it.seq() == s,
                d == deref_pairs(s),
                a == appends@,
                obeys_cmp::<K>(),
                clone_is_exact::<K>(),
                clone_is_exact::<V>(),
                lists_in_key_order(a, d),
                forall|x: K| #[trigger] merged@.contains_key(x) ==> self@.contains_key(x) || exists|i: int| 0 <= i < it.index() && #[trigger] d[i].0 == x,
                forall|x: K| #[trigger] self@.contains_key(x) ==> merged@.contains_key(x) && merged@[x] == self@[x],
                forall|x: K| #[trigger] merged@.contains_key(x) && !self@.contains_key(x) ==> merged@[x] == a[x],
                forall|i: int| 0 <= i < it.index() ==> merged@.contains_key(#[trigger] d[i].0),
        {
            assert(d[it.index()] == (*k, *v));
            if !merged.contains_key(k) {
                let key = copy_of(k);
                let value = copy_of(v);
                merged.insert(key, value);
            }
        }
        proof {
            assert(merged@ =~= a.union_prefer_right(self@));
        }
        merged
    }

    fn pairs(&self) -> (r: Vec<(&K, &V)>) {
        let entries = self.iter();
        let ghost s = entries.remaining();
        let mut out: Vec<(&K, &V)> = Vec::new();
        for (k, v) in it: entries
            invariant
                it.seq() == s,
                out@ == s.take(it.index()),
        {
            out.push((k, v));
        }
        proof {
            assert(s.take(s.len() as int) == s);
            lemma_key_order(self@, s);
        }
        out
    }
}

} // verus!
