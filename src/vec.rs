//! Operations on `Vec`, added through the `VecU` extension trait.
use crate::collection::Vect;
use crate::{accepts, clone_is_exact, copy_of, is_predicate};
use std::collections::BTreeMap;
use vstd::laws_cmp::obeys_cmp;
use vstd::laws_eq::obeys_concrete_eq;
use vstd::prelude::*;

verus! {

/// The elements of `s` that do not occur in `values`, in their order.
pub open spec fn without_spec<T>(s: Seq<T>, values: Seq<T>) -> Seq<T> {
    s.filter(|x: T| !values.contains(x))
}

/// The elements of `s` that occur in `other`, in their order, repeats kept.
pub open spec fn intersection_spec<T>(s: Seq<T>, other: Seq<T>) -> Seq<T> {
    s.filter(|x: T| other.contains(x))
}

/// The first occurrence of each distinct element of `s`, in order.
pub open spec fn uniq_spec<T>(s: Seq<T>) -> Seq<T>
    decreases s.len(),
{
    if s.len() == 0 {
        Seq::empty()
    } else {
        let prefix = uniq_spec(s.drop_last());
        if prefix.contains(s.last()) {
            prefix
        } else {
            prefix.push(s.last())
        }
    }
}

/// How many positions `object` pairs for `nk` keys and `nv` values: one
/// fewer than the shorter of the two, and none when either is empty.
pub open spec fn paired_len(nk: nat, nv: nat) -> nat {
    let n = if nk < nv { nk } else { nv };
    if n == 0 { 0 } else { (n - 1) as nat }
}

/// The map from `keys[i]` to `values[i]` for each `i < n`; where a key
/// repeats, the pair at the higher index wins.
pub open spec fn zip_map<K, V>(keys: Seq<K>, values: Seq<V>, n: nat) -> Map<K, V>
    decreases n,
{
    if n == 0 {
        Map::empty()
    } else {
        zip_map(keys, values, (n - 1) as nat).insert(keys[n - 1], values[n - 1])
    }
}

/// `a` is `b` with some elements left out, the rest in their order.
pub open spec fn is_subsequence<T>(a: Seq<T>, b: Seq<T>) -> bool
    decreases b.len(),
{
    if b.len() == 0 {
        a.len() == 0
    } else {
        ||| is_subsequence(a, b.drop_last())
        ||| (a.len() > 0 && a.last() == b.last() && is_subsequence(a.drop_last(), b.drop_last()))
    }
}

/// Filtering keeps a subsequence.
pub proof fn lemma_filter_is_subsequence<T>(s: Seq<T>, pred: spec_fn(T) -> bool)
    ensures
        is_subsequence(s.filter(pred), s),
    decreases s.len(),
{
    reveal_with_fuel(Seq::filter, 1);
    if s.len() > 0 {
        lemma_filter_is_subsequence(s.drop_last(), pred);
        if pred(s.last()) {
            assert(s.filter(pred).drop_last() == s.drop_last().filter(pred));
        }
    }
}

/// Removing `values` from `s` leaves none of them, and keeps a subsequence
/// of `s`.
pub proof fn lemma_without<T>(s: Seq<T>, values: Seq<T>)
    ensures
        forall|i: int|
            0 <= i < without_spec(s, values).len() ==> !values.contains(
                #[trigger] without_spec(s, values)[i],
            ),
        is_subsequence(without_spec(s, values), s),
{
    let pred = |x: T| !values.contains(x);
    assert forall|i: int| 0 <= i < s.filter(pred).len() implies pred(
        #[trigger] s.filter(pred)[i],
    ) by {
        s.lemma_filter_pred(pred, i);
    }

    lemma_filter_is_subsequence(s, pred);
}

/// Every element of `uniq_spec(s)` occurs in `s`, and every element of `s`
/// occurs in `uniq_spec(s)`.
pub proof fn lemma_uniq_same_elements<T>(s: Seq<T>)
    ensures
        forall|x: T| uniq_spec(s).contains(x) <==> s.contains(x),
    decreases s.len(),
{
    if s.len() > 0 {
        lemma_uniq_same_elements(s.drop_last());
        let p = uniq_spec(s.drop_last());
        assert forall|x: T| s.contains(x) <==> (s.drop_last().contains(x) || x == s.last()) by {
            if s.contains(x) && x != s.last() {
                let q = choose|q: int| 0 <= q < s.len() && s[q] == x;
                assert(s.drop_last()[q] == x);
            }
            if s.drop_last().contains(x) {
                let q = choose|q: int| 0 <= q < s.drop_last().len() && s.drop_last()[q] == x;
                assert(s[q] == x);
            }
            if x == s.last() {
                assert(s[s.len() - 1] == x);
            }
        }
        if !p.contains(s.last()) {
            assert forall|x: T| p.push(s.last()).contains(x) <==> (p.contains(x) || x == s.last()) by {
                if p.push(s.last()).contains(x) && x != s.last() {
                    let q = choose|q: int| 0 <= q < p.push(s.last()).len() && p.push(s.last())[q] == x;
                    assert(p[q] == x);
                }
                if p.contains(x) {
                    let q = choose|q: int| 0 <= q < p.len() && p[q] == x;
                    assert(p.push(s.last())[q] == x);
                }
                if x == s.last() {
                    assert(p.push(s.last())[p.len() as int] == x);
                }
            }
        }
    }
}

/// `uniq_spec(s)` holds no element twice, holds exactly the elements of `s`,
/// and keeps them in the order of their first occurrences in `s`: wherever
/// a later element of the result occurs in `s`, an earlier one occurs before.
pub proof fn lemma_uniq<T>(s: Seq<T>)
    ensures
        uniq_spec(s).no_duplicates(),
        forall|x: T| uniq_spec(s).contains(x) <==> s.contains(x),
        forall|i: int, j: int, q: int|
            0 <= i < j < uniq_spec(s).len() && 0 <= q < s.len() && s[q] == uniq_spec(s)[j]
                ==> s.take(q).contains(uniq_spec(s)[i]),
    decreases s.len(),
{
    lemma_uniq_same_elements(s);
    if s.len() > 0 {
        let s0 = s.drop_last();
        let p = uniq_spec(s0);
        let r = uniq_spec(s);
        lemma_uniq(s0);
        assert forall|i: int, j: int, q: int|
            0 <= i < j < r.len() && 0 <= q < s.len() && s[q] == r[j] implies s.take(
                q,
            ).contains(r[i]) by {
            if q < s.len() - 1 {
                assert(s0[q] == s[q]);
                assert(s0.take(q) == s.take(q));
                if j < p.len() {
                    assert(r[j] == p[j]);
                    assert(r[i] == p[i]);
                } else {
                    assert(r[j] == s.last());
                    assert(s0.contains(s.last()));
                }
            } else {
                assert(s.take(q) == s0);
                assert(r[i] == p[i]);
                assert(p.contains(r[i]));
            }
        }
    }
}

/// Removing repeats a second time changes nothing.
pub proof fn lemma_uniq_idempotent<T>(s: Seq<T>)
    ensures
        uniq_spec(uniq_spec(s)) == uniq_spec(s),
{
    lemma_uniq(s);
    lemma_uniq_of_distinct(uniq_spec(s));
}

/// A sequence without repeats is its own `uniq_spec`.
pub proof fn lemma_uniq_of_distinct<T>(s: Seq<T>)
    requires
        s.no_duplicates(),
    ensures
        uniq_spec(s) == s,
    decreases s.len(),
{
    if s.len() > 0 {
        let s0 = s.drop_last();
        assert(s0.no_duplicates());
        lemma_uniq_of_distinct(s0);
        if s0.contains(s.last()) {
            let q = choose|q: int| 0 <= q < s0.len() && s0[q] == s.last();
            assert(s[q] == s[s.len() - 1]);
        }
        assert(s0.push(s.last()) == s);
    }
}

/// Operations added to `Vec<T>`.
pub trait VecU<T: PartialEq + Clone + Ord>: View<V = Seq<T>> + Sized {
    /// The first element, or `None` when the vector is empty.
    fn first(&self) -> (r: Option<&T>)
        ensures
            self@.len() == 0 ==> r is None,
            self@.len() > 0 ==> r == Some(&self@[0]),
    ;

    /// The elements that equal none of `values`, in their order.
    fn without(self, values: &Vec<T>) -> (r: Vec<T>)
        requires
            obeys_concrete_eq::<T>(),
        ensures
            r@ == without_spec(self@, values@),
    ;

    /// The elements that equal some element of `other`, in their order, each
    /// repeat kept.
    fn intersection(self, other: &Vec<T>) -> (r: Vec<T>)
        requires
            obeys_concrete_eq::<T>(),
        ensures
            r@ == intersection_spec(self@, other@),
    ;

    /// The first occurrence of each distinct element, in order.
    fn uniq(self) -> (r: Vec<T>)
        requires
            obeys_concrete_eq::<T>(),
        ensures
            r@ == uniq_spec(self@),
    ;

    /// The lowest index holding an element equal to `value`.
    fn index_of(&self, value: &T) -> (r: Option<usize>)
        requires
            obeys_concrete_eq::<T>(),
        ensures
            match r {
                Some(i) => i < self@.len() && self@[i as int] == *value && forall|j: int|
                    0 <= j < i ==> self@[j] != *value,
                None => !self@.contains(*value),
            },
    ;

    /// The highest index holding an element equal to `value`.
    fn last_index_of(&self, value: &T) -> (r: Option<usize>)
        requires
            obeys_concrete_eq::<T>(),
        ensures
            match r {
                Some(i) => i < self@.len() && self@[i as int] == *value && forall|j: int|
                    i < j < self@.len() ==> self@[j] != *value,
                None => !self@.contains(*value),
            },
    ;

    /// The map from each element to the value at the same position in
    /// `values`, over the positions that `paired_len` counts; a later
    /// repeat of a key overwrites the earlier one.
    fn object<V: Clone>(self, values: Vec<V>) -> (r: BTreeMap<T, V>)
        requires
            obeys_cmp::<T>(),
            clone_is_exact::<T>(),
            clone_is_exact::<V>(),
        ensures
            r@ == zip_map(self@, values@, paired_len(self@.len(), values@.len())),
    ;

    /// The elements for which `f` answers `false`, in their order.
    fn reject<F: Fn(&T) -> bool>(self, f: F) -> (r: Vec<T>)
        requires
            is_predicate(f),
        ensures
            r@ == self@.filter(|x: T| !accepts(f, x)),
    ;
}

impl<T: PartialEq + Clone + Ord> VecU<T> for Vec<T> {
    fn first(&self) -> (r: Option<&T>) {
        if self.len() == 0 {
            None
        } else {
            Some(&self[0])
        }
    }

    fn without(self, values: &Vec<T>) -> (r: Vec<T>) {
        let ghost s = self@;
        let mut kept: Vec<T> = Vec::new();
        for x in it: self.into_iter()
            invariant
                it.seq() == s,
                obeys_concrete_eq::<T>(),
                kept@ == without_spec(s.take(it.index()), values@),
        {
            proof {
                assert(s.take(it.index() + 1).drop_last() == s.take(it.index()));
                reveal_with_fuel(Seq::filter, 1);
            }
            if !Vect.contains(&x, values) {
                kept.push(x);
            }
        }
        proof {
            assert(s.take(s.len() as int) == s);
        }
        kept
    }

    fn intersection(self, other: &Vec<T>) -> (r: Vec<T>) {
        let ghost s = self@;
        let mut kept: Vec<T> = Vec::new();
        for x in it: self.into_iter()
            invariant
                it.seq() == s,
                obeys_concrete_eq::<T>(),
                kept@ == intersection_spec(s.take(it.index()), other@),
        {
            proof {
                assert(s.take(it.index() + 1).drop_last() == s.take(it.index()));
                reveal_with_fuel(Seq::filter, 1);
            }
            if Vect.contains(&x, other) {
                kept.push(x);
            }
        }
        proof {
            assert(s.take(s.len() as int) == s);
        }
        kept
    }

    fn uniq(self) -> (r: Vec<T>) {
        Vect.uniq(self)
    }

    fn object<V: Clone>(self, values: Vec<V>) -> (r: BTreeMap<T, V>) {
        let shorter = if self.len() < values.len() { self.len() } else { values.len() };
        let n = if shorter == 0 { 0 } else { shorter - 1 };
        let mut obj: BTreeMap<T, V> = BTreeMap::new();
        let mut i: usize = 0;
        while i < n
            invariant
                n == paired_len(self@.len(), values@.len()),
                i <= n,
                n <= self@.len(),
                n <= values@.len(),
                obeys_cmp::<T>(),
                clone_is_exact::<T>(),
                clone_is_exact::<V>(),
                obj@ == zip_map(self@, values@, i as nat),
            decreases n - i,
        {
            let k = copy_of(&self[i]);
            let v = copy_of(&values[i]);
            obj.insert(k, v);
            i = i + 1;
        }
        obj
    }

    fn reject<F: Fn(&T) -> bool>(self, f: F) -> (r: Vec<T>) {
        let ghost s = self@;
        let mut kept: Vec<T> = Vec::new();
        for x in it: self.into_iter()
            invariant
                it.seq() == s,
                is_predicate(f),
                kept@ == s.take(it.index()).filter(|y: T| !accepts(f, y)),
        {
            proof {
                assert(s.take(it.index() + 1).drop_last() == s.take(it.index()));
                reveal_with_fuel(Seq::filter, 1);
            }
            let verdict = f(&x);
            proof {
                if !verdict {
                    assert(!accepts(f, x));
                }
            }
            if !verdict {
                kept.push(x);
            }
        }
        proof {
            assert(s.take(s.len() as int) == s);
        }
        kept
    }

    fn index_of(&self, value: &T) -> (r: Option<usize>) {
        let mut i: usize = 0;
        while i < self.len()
            invariant
                i <= self@.len(),
                obeys_concrete_eq::<T>(),
                forall|j: int| 0 <= j < i ==> self@[j] != *value,
            decreases self@.len() - i,
        {
            proof {
                reveal(obeys_concrete_eq);
            }
            if self[i].eq(value) {
                return Some(i);
            }
            i = i + 1;
        }
        None
    }

    fn last_index_of(&self, value: &T) -> (r: Option<usize>) {
        let mut i: usize = self.len();
        while i > 0
            invariant
                i <= self@.len(),
                obeys_concrete_eq::<T>(),
                forall|j: int| i <= j < self@.len() ==> self@[j] != *value,
            decreases i,
        {
            proof {
                reveal(obeys_concrete_eq);
            }
            i = i - 1;
            if self[i].eq(value) {
                return Some(i);
            }
        }
        None
    }
}

} // verus!
