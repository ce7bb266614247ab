//! The ordered-map operations under the name `UnderscoreTreeMap`.
use crate::btreemap::BTreeMapU;
use std::collections::BTreeMap;
use vstd::prelude::*;

verus! {

/// The operations of `BTreeMapU`, reachable under this name too; every
/// `BTreeMap` has them.
pub trait UnderscoreTreeMap<K: Ord + Clone, V: Ord + Clone>: BTreeMapU<K, V> {
}

impl<K: Ord + Clone, V: Ord + Clone> UnderscoreTreeMap<K, V> for BTreeMap<K, V> {
}

} // verus!
