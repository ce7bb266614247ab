//! Operations on `HashMap`, added through the `HashMapU` extension trait.
use crate::{
    accepts_entry, clone_is_exact, copy_of, deref_pairs, entries_where, inverts,
    is_entry_predicate, lists_entries,
};
use std::collections::HashMap;
use std::hash::Hash;
use vstd::prelude::*;
use vstd::std_specs::hash::obeys_key_model;
use vstd::std_specs::iter::IteratorSpec;

verus! {

/// What the axioms on `HashMap::iter` give, put as `lists_entries`.
proof fn lemma_entries<K, V>(m: Map<K, V>, s: Seq<(&K, &V)>)
    requires
        forall|i: int| 0 <= i < s.len() ==> m.contains_key(*(#[trigger] s[i]).0) && m[*s[i].0] == *s[i].1,
        forall|k: K| #[trigger] m.contains_key(k) ==> s.contains((&k, &m[k])),
    ensures
        lists_entries(m, deref_pairs(s)),
{
    let d = deref_pairs(s);
    assert forall|k: K| m.contains_key(k) implies exists|i: int| 0 <= i < d.len() && #[trigger] d[i].0 == k by {
        assert(s.contains((&k, &m[k])));
        let i = choose|i: int| 0 <= i < s.len() && s[i] == (&k, &m[k]);
        assert(d[i].0 == k);
    }
}

/// The entries of `m` for which `f` answers `want`.
fn keep_by_filter<K: Eq + Hash + Clone, V: Eq + Hash + Clone, F: Fn(&K, &V) -> bool>(
    m: &HashMap<K, V>,
    f: F,
    want: bool,
) -> (r: HashMap<K, V>)
    requires
        obeys_key_model::<K>(),
        clone_is_exact::<K>(),
        clone_is_exact::<V>(),
        is_entry_predicate(f),
    ensures
        r@ == entries_where(m@, f, want),
{
    let entries = m.iter();
    let ghost s = entries.remaining();
    let ghost d = deref_pairs(s);
    proof {
        lemma_entries(m@, s);
    }
    let mut kept: HashMap<K, V> = HashMap::new();
    for (k, v) in it: entries
        invariant
            it.seq() == s,
            d == deref_pairs(s),
            obeys_key_model::<K>(),
            clone_is_exact::<K>(),
            clone_is_exact::<V>(),
            is_entry_predicate(f),
            lists_entries(m@, d),
            forall|x: K| #[trigger] kept@.contains_key(x) ==> m@.contains_key(x) && accepts_entry(f, x, m@[x]) == want && kept@[x] == m@[x],
            forall|i: int| 0 <= i < it.index() && accepts_entry(f, (#[trigger] d[i]).0, d[i].1) == want ==> kept@.contains_key(d[i].0),
    {
        assert(d[it.index()] == (*k, *v));
        let verdict = f(k, v);
        if verdict == want {
            let key = copy_of(k);
            let value = copy_of(v);
            kept.insert(key, value);
        }
    }
    proof {
        assert(kept@ =~= entries_where(m@, f, want));
    }
    kept
}

/// Operations added to `HashMap<K, V>`.
pub trait HashMapU<K: Eq + Hash + Clone, V: Eq + Hash + Clone>: View<V = Map<K, V>> + Sized {
    /// The map from each value to a key that holds it; where several keys
    /// share a value, which of them is left open.
    fn invert(self) -> (r: HashMap<V, K>)
        requires
            obeys_key_model::<K>(),
            obeys_key_model::<V>(),
            clone_is_exact::<K>(),
            clone_is_exact::<V>(),
        ensures
            inverts(r@, self@),
    ;

    /// The entries whose key is among `keys`.
    fn pick(self, keys: Vec<K>) -> (r: HashMap<K, V>)
        requires
            obeys_key_model::<K>(),
            clone_is_exact::<V>(),
        ensures
            r@ == self@.restrict(keys@.to_set()),
    ;

    /// The entries for which `f` answers `true`.
    fn pick_by_filter<F: Fn(&K, &V) -> bool>(self, f: F) -> (r: HashMap<K, V>)
        requires
            obeys_key_model::<K>(),
            clone_is_exact::<K>(),
            clone_is_exact::<V>(),
            is_entry_predicate(f),
        ensures
            r@ == entries_where(self@, f, true),
    ;

    /// The entries whose key is not among `keys`.
    fn omit(self, keys: Vec<K>) -> (r: HashMap<K, V>)
        requires
            obeys_key_model::<K>(),
        ensures
            r@ == self@.remove_keys(keys@.to_set()),
    ;

    /// The entries for which `f` answers `false`.
    fn omit_by_filter<F: Fn(&K, &V) -> bool>(self, f: F) -> (r: HashMap<K, V>)
        requires
            obeys_key_model::<K>(),
            clone_is_exact::<K>(),
            clone_is_exact::<V>(),
            is_entry_predicate(f),
        ensures
            r@ == entries_where(self@, f, false),
    ;

    /// These entries, and those of `appends` whose key is not among them.
    fn defaults(self, appends: HashMap<K, V>) -> (r: HashMap<K, V>)
        requires
            obeys_key_model::<K>(),
            clone_is_exact::<K>(),
            clone_is_exact::<V>(),
        ensures
            r@ == appends@.union_prefer_right(self@),
    ;
}

impl<K: Eq + Hash + Clone, V: Eq + Hash + Clone> HashMapU<K, V> for HashMap<K, V> {
    fn invert(self) -> (r: HashMap<V, K>) {
        let entries = self.iter();
        let ghost s = entries.remaining();
        let ghost d = deref_pairs(s);
        let ghost m = self@;
        proof {
            lemma_entries(m, s);
        }
        let mut inv: HashMap<V, K> = HashMap::new();
        let ghost mut n: int = 0;
        for (k, v) in it: entries
            invariant
                it.seq() == s,
                n == it.index(),
                d == deref_pairs(s),
                m == self@,
                obeys_key_model::<K>(),
                obeys_key_model::<V>(),
                clone_is_exact::<K>(),
                clone_is_exact::<V>(),
                lists_entries(m, d),
                forall|v: V| #[trigger] inv@.contains_key(v) ==> exists|i: int| 0 <= i < it.index() && #[trigger] d[i] == (inv@[v], v),
                forall|i: int| 0 <= i < it.index() ==> inv@.contains_key(#[trigger] d[i].1),
        {
            assert(d[it.index()] == (*k, *v));
            let key = copy_of(k);
            let value = copy_of(v);
            inv.insert(value, key);
            proof {
                n = n + 1;
            }
        }
        proof {
            assert(n == d.len());
            assert forall|x: V| #[trigger] inv@.contains_key(x) implies m.contains_key(inv@[x]) && m[inv@[x]] == x by {
                let i = choose|i: int| 0 <= i < n && #[trigger] d[i] == (inv@[x], x);
            }
            assert forall|x: V| m.values().contains(x) implies inv@.contains_key(x) by {
                let k = choose|k: K| m.contains_key(k) && m[k] == x;
                let i = choose|i: int| 0 <= i < d.len() && #[trigger] d[i].0 == k;
            }
            assert(inv@.dom() =~= m.values());
        }
        inv
    }

    fn pick(self, keys: Vec<K>) -> (r: HashMap<K, V>) {
        let ghost ks = keys@;
        let mut picked: HashMap<K, V> = HashMap::new();
        for key in it: keys.into_iter()
            invariant
                it.seq() == ks,
                obeys_key_model::<K>(),
                clone_is_exact::<V>(),
                picked@ == self@.restrict(ks.take(it.index()).to_set()),
        {
            proof {
                assert(ks.take(it.index() + 1) == ks.take(it.index()) + seq![key]);
                Seq::lemma_to_set_insert_commutes(ks.take(it.index()), key);
            }
            match self.get(&key) {
                Some(value) => {
                    let v = copy_of(value);
                    picked.insert(key, v);
                    proof {
                        assert(picked@ =~= self@.restrict(ks.take(it.index() + 1).to_set()));
                    }
                },
                None => {
                    proof {
                        assert(picked@ =~= self@.restrict(ks.take(it.index() + 1).to_set()));
                    }
                },
            }
        }
        proof {
            assert(ks.take(ks.len() as int) == ks);
        }
        picked
    }

    fn pick_by_filter<F: Fn(&K, &V) -> bool>(self, f: F) -> (r: HashMap<K, V>) {
        keep_by_filter(&self, f, true)
    }

    fn omit(self, keys: Vec<K>) -> (r: HashMap<K, V>) {
        let mut omitted = self;
        let mut i: usize = 0;
        while i < keys.len()
            invariant
                i <= keys@.len(),
                obeys_key_model::<K>(),
                omitted@ == self@.remove_keys(keys@.take(i as int).to_set()),
            decreases keys@.len() - i,
        {
            proof {
                assert(keys@.take(i + 1) == keys@.take(i as int) + seq![keys@[i as int]]);
                Seq::lemma_to_set_insert_commutes(keys@.take(i as int), keys@[i as int]);
            }
            omitted.remove(&keys[i]);
            proof {
                assert(omitted@ =~= self@.remove_keys(keys@.take(i + 1).to_set()));
            }
            i = i + 1;
        }
        proof {
            assert(keys@.take(keys@.len() as int) == keys@);
        }
        omitted
    }

    fn omit_by_filter<F: Fn(&K, &V) -> bool>(self, f: F) -> (r: HashMap<K, V>) {
        keep_by_filter(&self, f, false)
    }

    fn defaults(self, appends: HashMap<K, V>) -> (r: HashMap<K, V>) {
        let entries = appends.iter();
        let ghost s = entries.remaining();
        let ghost d = deref_pairs(s);
        let ghost a = appends@;
        proof {
            lemma_entries(a, s);
        }
        let mut merged = self;
        for (k, v) in it: entries
            invariant
                it.seq() == s,
                d == deref_pairs(s),
                a == appends@,
                obeys_key_model::<K>(),
                clone_is_exact::<K>(),
                clone_is_exact::<V>(),
                lists_entries(a, d),
                forall|x: K| #[trigger] merged@.contains_key(x) ==> self@.contains_key(x) || exists|i: int| 0 <= i < it.index() && #[trigger] d[i].0 == x,
                forall|x: K| #[trigger] self@.contains_key(x) ==> merged@.contains_key(x) && merged@[x] == self@[x],
                forall|x: K| #[trigger] merged@.contains_key(x) && !self@.contains_key(x) ==> merged@[x] == a[x],
                forall|i: int| 0 <= i < it.index() ==> merged@.contains_key(#[trigger] d[i].0),
        {
            assert(d[it.index()] == (*k, *v));
            if !merged.contains_key(k) {
                let key = copy_of(k);
                let value = copy_of(v);
                merged.insert(key, value);
            }
        }
        proof {
            assert(merged@ =~= a.union_prefer_right(self@));
        }
        merged
    }
}

} // verus!
