use std::cell::Cell;
use std::collections::BTreeMap;
use std::collections::HashMap;
use std::collections::HashSet;
use underscore::btreemap::BTreeMapU;
use underscore::hashmap::HashMapU;
use underscore::vec::VecU;
use underscore::{Iter, Vect};

fn btree(entries: &[(isize, usize)]) -> BTreeMap<isize, usize> {
    let mut m = BTreeMap::new();
    for (k, v) in entries {
        m.insert(*k, *v);
    }
    m
}

fn hash(entries: &[(isize, usize)]) -> HashMap<isize, usize> {
    let mut m = HashMap::new();
    for (k, v) in entries {
        m.insert(*k, *v);
    }
    m
}

#[test]
fn first_of_empty_is_none() {
    let v: Vec<isize> = vec![];
    assert_eq!(None, v.first());
    assert_eq!(Some(&1isize), vec![1isize, 2, 3].first());
}

#[test]
fn intersection_keeps_order_and_repeats() {
    assert_eq!(vec![2isize, 3], vec![1isize, 2, 3].intersection(&vec![2isize, 3, 4]));
    assert_eq!(vec![2isize, 2, 3], vec![2isize, 1, 2, 3].intersection(&vec![3isize, 2]));
    let empty: Vec<isize> = vec![];
    assert_eq!(empty, vec![1isize, 2].intersection(&vec![]));
}

#[test]
fn uniq_keeps_first_occurrences() {
    let once = vec![0usize, 1, 1, 2, 2, 3].uniq();
    assert_eq!(vec![0usize, 1, 2, 3], once);
    assert_eq!(once.clone(), once.uniq());
    assert_eq!(vec![3isize, 1, 2], vec![3isize, 1, 3, 2, 1, 2].uniq());
    let empty: Vec<isize> = vec![];
    assert_eq!(empty, empty.clone().uniq());
}

#[test]
fn without_removes_every_listed_value() {
    let s = vec![1isize, 2, 3, 2, 4, 1];
    let removed = vec![2isize, 1];
    let r = s.clone().without(&removed);
    assert_eq!(vec![3isize, 4], r);
    assert!(r.iter().all(|x| !removed.contains(x)));
    assert_eq!(vec![1isize, 2], vec![1isize, 2].without(&vec![]));
}

#[test]
fn index_of_finds_first_and_last() {
    assert_eq!(Some(2usize), vec![3isize, 2, 1].index_of(&1));
    assert_eq!(Some(0usize), vec![1isize, 2, 1].index_of(&1));
    assert_eq!(Some(3usize), vec![1isize, 2, 3, 1].last_index_of(&1));
    let empty: Vec<isize> = vec![];
    assert_eq!(None, empty.index_of(&1));
    assert_eq!(None, empty.last_index_of(&1));
}

#[test]
fn object_pairs_all_but_the_last_position_of_the_shorter() {
    let obj = vec![5usize, 6, 7, 8].object(vec![50isize, 60, 70, 80]);
    let expected: BTreeMap<usize, isize> = [(5, 50), (6, 60), (7, 70)].into_iter().collect();
    assert_eq!(expected, obj);

    let short = vec![1usize, 2, 3].object(vec![10isize, 20]);
    let expected: BTreeMap<usize, isize> = [(1, 10)].into_iter().collect();
    assert_eq!(expected, short);

    let repeated = vec![1usize, 1, 2].object(vec![10isize, 11, 12]);
    let expected: BTreeMap<usize, isize> = [(1, 11)].into_iter().collect();
    assert_eq!(expected, repeated);

    let empty: Vec<usize> = vec![];
    assert!(empty.object(vec![1isize]).is_empty());
}

#[test]
fn reject_keeps_failing_elements() {
    assert_eq!(vec![10isize, 12], vec![1isize, 10, 2, 12].reject(|v| *v < 10));
    assert_eq!(vec![1isize, 2], vec![1isize, 2].reject(|_| false));
}

#[test]
fn treemap_invert_twice_gives_the_map_back() {
    let m = btree(&[(1, 10), (2, 20), (3, 30)]);
    let back: BTreeMap<isize, usize> = m.clone().invert().invert();
    assert_eq!(m, back);
}

#[test]
fn hashmap_invert_twice_gives_the_map_back() {
    let m = hash(&[(1, 10), (2, 20), (3, 30)]);
    let back: HashMap<isize, usize> = m.clone().invert().invert();
    assert_eq!(m, back);
}

#[test]
fn treemap_invert_shared_value_keeps_greatest_key() {
    let inverted = btree(&[(1, 7), (5, 7), (3, 7), (2, 8)]).invert();
    let expected: BTreeMap<usize, isize> = [(7, 5), (8, 2)].into_iter().collect();
    assert_eq!(expected, inverted);
}

#[test]
fn hashmap_invert_shared_value_keeps_one_of_its_keys() {
    let inverted = hash(&[(1, 7), (5, 7), (2, 8)]).invert();
    assert_eq!(2, inverted.len());
    assert!(inverted[&7] == 1 || inverted[&7] == 5);
    assert_eq!(2, inverted[&8]);
}

#[test]
fn treemap_pick_and_omit_split_the_map() {
    let m = btree(&[(1, 1), (2, 2), (3, 3)]);
    let keys = vec![1isize, 3, 3, 9];
    let picked = m.clone().pick(&keys);
    let omitted = m.clone().omit(&keys);
    assert_eq!(btree(&[(1, 1), (3, 3)]), picked);
    assert_eq!(btree(&[(2, 2)]), omitted);
    let mut joined = picked.clone();
    joined.extend(omitted.clone());
    assert_eq!(m, joined);
    assert!(picked.keys().all(|k| !omitted.contains_key(k)));
}

#[test]
fn hashmap_pick_and_omit_split_the_map() {
    let m = hash(&[(1, 1), (2, 2)]);
    assert_eq!(hash(&[(1, 1)]), m.clone().pick(vec![1isize]));
    assert_eq!(hash(&[(2, 2)]), m.clone().omit(vec![1isize]));
    assert_eq!(hash(&[]), m.clone().pick(vec![]));
    assert_eq!(m.clone(), m.clone().omit(vec![7isize]));
}

#[test]
fn filters_split_by_answer() {
    let m = btree(&[(1, 1), (2, 2), (3, 3), (4, 4)]);
    assert_eq!(btree(&[(2, 2), (4, 4)]), m.clone().pick_by_filter(|k, _| k % 2 == 0));
    assert_eq!(btree(&[(1, 1), (3, 3)]), m.clone().omit_by_filter(|k, _| k % 2 == 0));
    let h = hash(&[(1, 1), (2, 2), (3, 3), (4, 4)]);
    assert_eq!(hash(&[(3, 3), (4, 4)]), h.clone().pick_by_filter(|_, v| *v > 2));
    assert_eq!(hash(&[(1, 1), (2, 2)]), h.clone().omit_by_filter(|_, v| *v > 2));
}

#[test]
fn defaults_never_overwrite() {
    let r = btree(&[(1, 1), (2, 2)]).defaults(btree(&[(1, 10000), (3, 3)]));
    assert_eq!(btree(&[(1, 1), (2, 2), (3, 3)]), r);
    assert_eq!(3, r.len());
    let h = hash(&[(1, 1), (2, 2)]).defaults(hash(&[(1, 10000), (3, 3)]));
    assert_eq!(hash(&[(1, 1), (2, 2), (3, 3)]), h);
    let keys: HashSet<isize> = [1, 2, 3].into_iter().collect();
    assert_eq!(keys.len(), h.len());
}

#[test]
fn pairs_come_in_key_order() {
    let m = btree(&[(3, 30), (1, 10), (2, 20)]);
    assert_eq!(vec![(&1isize, &10usize), (&2, &20), (&3, &30)], m.pairs());
    assert!(btree(&[]).pairs().is_empty());
}

#[test]
fn vect_operations() {
    let __ = Vect;
    let v = vec![1isize, 2, 3, 2];
    assert_eq!(1, *__.first(&v));
    assert_eq!(2, *__.last(&v));
    assert_eq!(vec![&1isize, &2], __.initial(&v, 2));
    assert_eq!(vec![&3isize, &2], __.rest(&v, 2));
    assert!(__.rest(&v, 9).is_empty());
    assert!(__.contains(&3, &v));
    assert!(!__.contains(&4, &v));
    assert_eq!(vec![&1isize, &3], __.without(&v, &vec![2]));
    assert_eq!(vec![&2isize, &2], __.intersection(&v, &vec![2, 5]));
    assert_eq!(vec![1isize, 2, 3, 2, 9], __.union(&v, &vec![9]));
    assert_eq!(vec![1isize, 2, 3], __.uniq(v));
}

#[test]
fn each_visits_in_order() {
    let seen = Cell::new(0usize);
    let total = Cell::new(0isize);
    Iter.each(&vec![5isize, 6, 7], |x, i| {
        assert_eq!(seen.get(), i);
        seen.set(i + 1);
        total.set(total.get() + *x);
    });
    assert_eq!(3, seen.get());
    assert_eq!(18, total.get());
}

fn pick_through<M: underscore::treemap::UnderscoreTreeMap<isize, usize>>(
    m: M,
    keys: &Vec<isize>,
) -> BTreeMap<isize, usize> {
    m.pick(keys)
}

#[test]
fn treemap_name_reaches_the_same_operations() {
    let m = btree(&[(1, 1), (2, 2)]);
    assert_eq!(btree(&[(2, 2)]), pick_through(m, &vec![2isize, 5]));
}
