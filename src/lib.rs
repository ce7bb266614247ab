//! Convenience operations over vectors, ordered maps and hash maps, in the
//! style of underscore.js, each with a contract over the containers' views.
use vstd::pervasive::strictly_cloned;
use vstd::prelude::*;

pub mod btreemap;
pub mod collection;
pub mod hashmap;
pub mod treemap;
pub mod vec;

pub use collection::{Iter, Vect};

verus! {

/// Cloning a value of `T` always gives back an equal value. The operations
/// that copy elements, keys or values out of a borrowed container ask this
/// of the type, so that their results can be stated over the originals.
pub open spec fn clone_is_exact<T: Clone>() -> bool {
    forall|a: T, b: T| #[trigger] strictly_cloned(a, b) ==> a == b
}

/// `f` accepts every element and gives one answer for each.
pub open spec fn is_predicate<T, F: Fn(&T) -> bool>(f: F) -> bool {
    &&& forall|x: T| #[trigger] f.requires((&x,))
    &&& forall|x: T, a: bool, b: bool|
        #[trigger] f.ensures((&x,), a) && #[trigger] f.ensures((&x,), b) ==> a == b
}

/// `f` answers `true` for `x`.
pub open spec fn accepts<T, F: Fn(&T) -> bool>(f: F, x: T) -> bool {
    f.ensures((&x,), true)
}

/// `f` accepts every entry and gives one answer for each.
pub open spec fn is_entry_predicate<K, V, F: Fn(&K, &V) -> bool>(f: F) -> bool {
    &&& forall|k: K, v: V| #[trigger] f.requires((&k, &v))
    &&& forall|k: K, v: V, a: bool, b: bool|
        #[trigger] f.ensures((&k, &v), a) && #[trigger] f.ensures((&k, &v), b) ==> a == b
}

/// `f` answers `true` for the entry `k`, `v`.
pub open spec fn accepts_entry<K, V, F: Fn(&K, &V) -> bool>(f: F, k: K, v: V) -> bool {
    f.ensures((&k, &v), true)
}

/// `r` maps each value of `m` to a key that `m` maps to it, and holds
/// nothing else.
pub open spec fn inverts<K, V>(r: Map<V, K>, m: Map<K, V>) -> bool {
    &&& r.dom() == m.values()
    &&& forall|v: V| #[trigger] r.contains_key(v) ==> m.contains_key(r[v]) && m[r[v]] == v
}

/// The entries of `m` for which `f` answers `want`.
pub open spec fn entries_where<K, V, F: Fn(&K, &V) -> bool>(m: Map<K, V>, f: F, want: bool) -> Map<
    K,
    V,
> {
    Map::new(|k: K| m.contains_key(k) && accepts_entry(f, k, m[k]) == want, |k: K| m[k])
}

/// Each pair of `s` is an entry of `m`, and each key of `m` is in `s`.
pub open spec fn lists_entries<K, V>(m: Map<K, V>, s: Seq<(K, V)>) -> bool {
    &&& forall|i: int| 0 <= i < s.len() ==> m.contains_key(#[trigger] s[i].0) && m[s[i].0] == s[i].1
    &&& forall|k: K| m.contains_key(k) ==> exists|i: int| 0 <= i < s.len() && #[trigger] s[i].0 == k
}

/// The pairs of `s`, read through their references.
pub open spec fn deref_pairs<K, V>(s: Seq<(&K, &V)>) -> Seq<(K, V)> {
    s.map_values(|p: (&K, &V)| (*p.0, *p.1))
}

/// Inverting a map whose values are all distinct, then inverting the
/// result, gives the map back.
pub proof fn lemma_invert_twice<K, V>(m: Map<K, V>, inverted: Map<V, K>, back: Map<K, V>)
    requires
        forall|k1: K, k2: K|
            #[trigger] m.contains_key(k1) && #[trigger] m.contains_key(k2) && m[k1] == m[k2]
                ==> k1 == k2,
        inverts(inverted, m),
        inverts(back, inverted),
    ensures
        back == m,
{
    assert forall|k: K| m.contains_key(k) implies inverted.values().contains(k) by {
        assert(m.values().contains(m[k]));
        assert(inverted.contains_key(m[k]));
    }
    assert(back.dom() =~= m.dom());
    assert forall|k: K| back.contains_key(k) implies back[k] == m[k] by {
        assert(inverted.contains_key(back[k]));
    }
    assert(back =~= m);
}

/// Picking some keys and omitting the same keys split a map in two: the
/// two results share no key, and together they are the map.
pub proof fn lemma_pick_omit_partition<K, V>(m: Map<K, V>, keys: Seq<K>)
    ensures
        m.restrict(keys.to_set()).dom().disjoint(m.remove_keys(keys.to_set()).dom()),
        m.restrict(keys.to_set()).union_prefer_right(m.remove_keys(keys.to_set())) == m,
{
    let s = keys.to_set();
    assert(m.restrict(s).union_prefer_right(m.remove_keys(s)) =~= m);
}

/// Filling `origin` from `appends` keeps every entry of `origin`, adds each
/// entry of `appends` whose key `origin` lacks, and so holds as many
/// entries as the two maps have distinct keys.
pub proof fn lemma_defaults<K, V>(origin: Map<K, V>, appends: Map<K, V>)
    requires
        origin.dom().finite(),
        appends.dom().finite(),
    ensures
        forall|k: K| #[trigger] origin.contains_key(k) ==> appends.union_prefer_right(origin).contains_key(k)
            && appends.union_prefer_right(origin)[k] == origin[k],
        forall|k: K| #[trigger] appends.contains_key(k) && !origin.contains_key(k) ==> appends.union_prefer_right(origin)[k] == appends[k],
        appends.union_prefer_right(origin).dom() == origin.dom() + appends.dom(),
        appends.union_prefer_right(origin).len() == (origin.dom() + appends.dom()).len(),
{
    assert(appends.union_prefer_right(origin).dom() =~= origin.dom() + appends.dom());
}

/// A copy of `x`, equal to it.
pub fn copy_of<T: Clone>(x: &T) -> (r: T)
    requires
        clone_is_exact::<T>(),
    ensures
        r == *x,
{
    let r = x.clone();
    assert(strictly_cloned(*x, r));
    r
}

} // verus!
