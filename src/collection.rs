//! Free-standing operations on vectors, called through the `Vect` value.
use crate::vec::{intersection_spec, uniq_spec, without_spec};
use crate::{clone_is_exact, copy_of};
use vstd::laws_eq::obeys_concrete_eq;
use vstd::prelude::*;

verus! {

/// The elements of `s`, read through their references.
pub open spec fn deref_seq<T>(s: Seq<&T>) -> Seq<T> {
    s.map_values(|x: &T| *x)
}

/// Operations on vectors, called as methods of this unit value.
#[derive(Clone, Copy)]
pub struct Vect;

impl Vect {
    /// The first element; `v` must not be empty.
    pub fn first<'a, T>(self, v: &'a Vec<T>) -> (r: &'a T)
        requires
            v@.len() > 0,
        ensures
            *r == v@[0],
    {
        &v[0]
    }

    /// The last element; `v` must not be empty.
    pub fn last<'a, T>(self, v: &'a Vec<T>) -> (r: &'a T)
        requires
            v@.len() > 0,
        ensures
            *r == v@.last(),
    {
        &v[v.len() - 1]
    }

    /// The first `n` elements; `v` must hold at least `n`.
    pub fn initial<'a, T>(self, v: &'a Vec<T>, n: usize) -> (r: Vec<&'a T>)
        requires
            n <= v@.len(),
        ensures
            deref_seq(r@) == v@.take(n as int),
    {
        let mut initialized: Vec<&'a T> = Vec::new();
        let mut i: usize = 0;
        while i < n
            invariant
                i <= n <= v@.len(),
                deref_seq(initialized@) == v@.take(i as int),
            decreases n - i,
        {
            initialized.push(&v[i]);
            proof {
                assert(deref_seq(initialized@) =~= deref_seq(initialized@).drop_last().push(v@[i as int]));
                assert(v@.take(i + 1) == v@.take(i as int).push(v@[i as int]));
            }
            i = i + 1;
        }
        initialized
    }

    /// The elements from index `n` on; none when `n` is past the end.
    pub fn rest<'a, T>(self, v: &'a Vec<T>, n: usize) -> (r: Vec<&'a T>)
        ensures
            n <= v@.len() ==> deref_seq(r@) == v@.skip(n as int),
            n > v@.len() ==> r@.len() == 0,
    {
        let mut rest: Vec<&'a T> = Vec::new();
        let mut i: usize = n;
        while i < v.len()
            invariant
                n <= i,
                n <= v@.len() ==> i <= v@.len(),
                n <= v@.len() ==> deref_seq(rest@) == v@.subrange(n as int, i as int),
                n > v@.len() ==> rest@.len() == 0,
            decreases v@.len() - i,
        {
            rest.push(&v[i]);
            i = i + 1;
            proof {
                assert(deref_seq(rest@) =~= v@.subrange(n as int, i as int));
            }
        }
        proof {
            if n <= v@.len() {
                assert(v@.subrange(n as int, v@.len() as int) == v@.skip(n as int));
            }
        }
        rest
    }

    /// Whether some element of `v` equals `x`.
    pub fn contains<T: PartialEq>(self, x: &T, v: &Vec<T>) -> (r: bool)
        requires
            obeys_concrete_eq::<T>(),
        ensures
            r == v@.contains(*x),
    {
        let mut i: usize = 0;
        while i < v.len()
            invariant
                i <= v@.len(),
                obeys_concrete_eq::<T>(),
                forall|j: int| 0 <= j < i ==> v@[j] != *x,
            decreases v@.len() - i,
        {
            proof {
                reveal(obeys_concrete_eq);
            }
            if v[i].eq(x) {
                return true;
            }
            i = i + 1;
        }
        false
    }

    /// The elements of `v` that equal none of `values`, in their order.
    pub fn without<'a, T: PartialEq>(self, v: &'a Vec<T>, values: &Vec<T>) -> (r: Vec<&'a T>)
        requires
            obeys_concrete_eq::<T>(),
        ensures
            deref_seq(r@) == without_spec(v@, values@),
    {
        let mut kept: Vec<&'a T> = Vec::new();
        let mut i: usize = 0;
        while i < v.len()
            invariant
                i <= v@.len(),
                obeys_concrete_eq::<T>(),
                deref_seq(kept@) == without_spec(v@.take(i as int), values@),
            decreases v@.len() - i,
        {
            proof {
                assert(v@.take(i + 1).drop_last() == v@.take(i as int));
                reveal_with_fuel(Seq::filter, 1);
            }
            if !Vect.contains(&v[i], values) {
                kept.push(&v[i]);
                proof {
                    assert(deref_seq(kept@) =~= deref_seq(kept@).drop_last().push(v@[i as int]));
                }
            }
            i = i + 1;
        }
        proof {
            assert(v@.take(v@.len() as int) == v@);
        }
        kept
    }

    /// The elements of `origin` followed by those of `adds`.
    pub fn union<T: Clone>(self, origin: &Vec<T>, adds: &Vec<T>) -> (r: Vec<T>)
        requires
            clone_is_exact::<T>(),
        ensures
            r@ == origin@ + adds@,
    {
        let mut joined: Vec<T> = Vec::new();
        let mut i: usize = 0;
        while i < origin.len()
            invariant
                i <= origin@.len(),
                clone_is_exact::<T>(),
                joined@ == origin@.take(i as int),
            decreases origin@.len() - i,
        {
            joined.push(copy_of(&origin[i]));
            i = i + 1;
            proof {
                assert(joined@ =~= origin@.take(i as int));
            }
        }
        let mut j: usize = 0;
        while j < adds.len()
            invariant
                j <= adds@.len(),
                clone_is_exact::<T>(),
                joined@ == origin@ + adds@.take(j as int),
            decreases adds@.len() - j,
        {
            joined.push(copy_of(&adds[j]));
            j = j + 1;
            proof {
                assert(joined@ =~= origin@ + adds@.take(j as int));
            }
        }
        proof {
            assert(adds@.take(adds@.len() as int) == adds@);
        }
        joined
    }

    /// The elements of `v1` that equal some element of `v2`, in their order,
    /// each repeat kept.
    pub fn intersection<'a, T: PartialEq>(self, v1: &'a Vec<T>, v2: &Vec<T>) -> (r: Vec<&'a T>)
        requires
            obeys_concrete_eq::<T>(),
        ensures
            deref_seq(r@) == intersection_spec(v1@, v2@),
    {
        let mut kept: Vec<&'a T> = Vec::new();
        let mut i: usize = 0;
        while i < v1.len()
            invariant
                i <= v1@.len(),
                obeys_concrete_eq::<T>(),
                deref_seq(kept@) == intersection_spec(v1@.take(i as int), v2@),
            decreases v1@.len() - i,
        {
            proof {
                assert(v1@.take(i + 1).drop_last() == v1@.take(i as int));
                reveal_with_fuel(Seq::filter, 1);
            }
            if Vect.contains(&v1[i], v2) {
                kept.push(&v1[i]);
                proof {
                    assert(deref_seq(kept@) =~= deref_seq(kept@).drop_last().push(v1@[i as int]));
                }
            }
            i = i + 1;
        }
        proof {
            assert(v1@.take(v1@.len() as int) == v1@);
        }
        kept
    }

    /// The first occurrence of each distinct element of `v`, in order.
    pub fn uniq<T: PartialEq>(self, v: Vec<T>) -> (r: Vec<T>)
        requires
            obeys_concrete_eq::<T>(),
        ensures
            r@ == uniq_spec(v@),
    {
        let ghost s = v@;
        let mut kept: Vec<T> = Vec::new();
        for x in it: v.into_iter()
            invariant
                it.seq() == s,
                obeys_concrete_eq::<T>(),
                kept@ == uniq_spec(s.take(it.index())),
        {
            proof {
                assert(s.take(it.index() + 1).drop_last() == s.take(it.index()));
            }
            if !Vect.contains(&x, &kept) {
                kept.push(x);
            }
        }
        proof {
            assert(s.take(s.len() as int) == s);
        }
        kept
    }
}

/// Visiting the elements of a vector, called through this unit value.
#[derive(Clone, Copy)]
pub struct Iter;

impl Iter {
    /// Calls `func` on each element of `v` with its index, in order.
    pub fn each<T, F: Fn(&T, usize)>(self, v: &Vec<T>, func: F)
        requires
            forall|i: int| 0 <= i < v@.len() ==> func.requires((&v@[i], i as usize)),
    {
        let mut i: usize = 0;
        while i < v.len()
            invariant
                i <= v@.len(),
                forall|j: int| 0 <= j < v@.len() ==> func.requires((&v@[j], j as usize)),
            decreases v@.len() - i,
        {
            func(&v[i], i);
            i = i + 1;
        }
    }
}

} // verus!
