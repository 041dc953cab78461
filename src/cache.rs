//! The census cache: directory path to last known file count.
use vstd::prelude::*;
use dashmap::DashMap;

verus! {

#[verifier::external_type_specification]
#[verifier::external_body]
#[verifier::reject_recursive_types(K)]
#[verifier::reject_recursive_types(V)]
#[verifier::reject_recursive_types(S)]
pub struct ExDashMap<K, V, S>(DashMap<K, V, S>);

/// What a path-to-count `DashMap` holds, keyed by the path's characters.
pub uninterp spec fn dash_contents(m: DashMap<String, usize>) -> Map<Seq<char>, usize>;

/// Relies on `DashMap::new`: a new map holds no entry.
#[verifier::external_body]
fn dash_new() -> (r: DashMap<String, usize>)
    ensures
        dash_contents(r).is_empty(),
{
    DashMap::new()
}

/// Relies on `DashMap::get`: the value stored under an equal key, if any.
#[verifier::external_body]
fn dash_get(m: &DashMap<String, usize>, key: &String) -> (r: Option<usize>)
    ensures
        r == (if dash_contents(*m).contains_key(key@) {
            Some(dash_contents(*m)[key@])
        } else {
            None
        }),
{
    m.get(key).map(|v| *v)
}

/// Relies on `DashMap::insert`: the key now maps to the value, other keys are kept.
#[verifier::external_body]
fn dash_insert(m: &mut DashMap<String, usize>, key: String, value: usize)
    ensures
        dash_contents(*final(m)) == dash_contents(*old(m)).insert(key@, value),
{
    m.insert(key, value);
}

/// Mapping from directory path to the last count computed for it.
/// Entries are never removed.
pub struct CensusCache {
    map: DashMap<String, usize>,
}

impl CensusCache {
    pub closed spec fn view(&self) -> Map<Seq<char>, usize> {
        dash_contents(self.map)
    }

    pub fn new() -> (r: CensusCache)
        ensures
            r.view() == Map::<Seq<char>, usize>::empty(),
    {
        let map = dash_new();
        assert(dash_contents(map) =~= Map::<Seq<char>, usize>::empty());
        CensusCache { map }
    }

    /// The count recorded for `path`, or `None` on a miss.
    pub fn get(&self, path: &String) -> (r: Option<usize>)
        ensures
            r == lookup(self.view(), path@),
    {
        dash_get(&self.map, path)
    }

    /// Records `count` for `path`, overwriting any earlier count.
    pub fn insert(&mut self, path: String, count: usize)
        ensures
            final(self).view() == old(self).view().insert(path@, count),
    {
        dash_insert(&mut self.map, path, count)
    }
}

/// The count a cache model holds for `p`.
pub open spec fn lookup(m: Map<Seq<char>, usize>, p: Seq<char>) -> Option<usize> {
    if m.contains_key(p) {
        Some(m[p])
    } else {
        None
    }
}

/// Inserting the same pair twice reads back as inserting it once, and a later
/// insert under the same path with another count overwrites the first.
pub proof fn lemma_insert_idempotent(m: Map<Seq<char>, usize>, p: Seq<char>, c: usize, d: usize)
    ensures
        lookup(m.insert(p, c).insert(p, c), p) == lookup(m.insert(p, c), p),
        m.insert(p, c).insert(p, c) == m.insert(p, c),
        lookup(m.insert(p, c).insert(p, d), p) == Some(d),
{
    assert(m.insert(p, c).insert(p, c) =~= m.insert(p, c));
}

} // verus!
