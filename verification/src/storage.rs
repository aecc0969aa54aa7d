//! Sparse per-entity storage.

use crate::entity::Entity;
use std::collections::HashMap;
use vstd::prelude::*;

verus! {

broadcast use vstd::std_specs::hash::group_hash_axioms;

/// The map `m` without the entries of the entities in `gone`.
pub open spec fn without<T>(m: Map<u32, T>, gone: Seq<Entity>) -> Map<u32, T> {
    Map::new(|id: u32| m.contains_key(id) && !gone.contains(Entity(id)), |id: u32| m[id])
}

/// Values attached to some entities. Its view maps an entity's number to
/// the value attached to it.
pub struct Sparse<T> {
    map: HashMap<u32, T>,
}

impl<T> View for Sparse<T> {
    type V = Map<u32, T>;

    closed spec fn view(&self) -> Map<u32, T> {
        self.map@
    }
}

impl<T> Sparse<T> {
    /// A storage with no entry.
    pub fn new() -> (s: Sparse<T>)
        ensures
            s@ == Map::<u32, T>::empty(),
    {
        Sparse { map: HashMap::new() }
    }

    /// Attaches `value` to `entity` and returns what was attached before.
    pub fn insert(&mut self, entity: Entity, value: T) -> (prev: Option<T>)
        ensures
            final(self)@ == old(self)@.insert(entity.0, value),
            prev == (if old(self)@.contains_key(entity.0) {
                Some(old(self)@[entity.0])
            } else {
                None
            }),
    {
        self.map.insert(entity.0, value)
    }

    /// Detaches and returns the value of `entity`.
    pub fn remove(&mut self, entity: Entity) -> (prev: Option<T>)
        ensures
            final(self)@ == old(self)@.remove(entity.0),
            prev == (if old(self)@.contains_key(entity.0) {
                Some(old(self)@[entity.0])
            } else {
                None
            }),
    {
        self.map.remove(&entity.0)
    }

    /// The value attached to `entity`.
    pub fn get(&self, entity: Entity) -> (r: Option<&T>)
        ensures
            match r {
                Some(v) => self@.contains_key(entity.0) && *v == self@[entity.0],
                None => !self@.contains_key(entity.0),
            },
    {
        self.map.get(&entity.0)
    }

    /// Whether a value is attached to `entity`.
    pub fn contains(&self, entity: Entity) -> (b: bool)
        ensures
            b == self@.contains_key(entity.0),
    {
        self.map.contains_key(&entity.0)
    }

    /// Detaches the values of all the entities in `gone`.
    pub fn release(&mut self, gone: &Vec<Entity>)
        ensures
            final(self)@ == without(old(self)@, gone@),
    {
        let mut k: usize = 0;
        assert(self@ =~= without(old(self)@, gone@.take(0)));
        while k < gone.len()
            invariant
                k <= gone.len(),
                self@ == without(old(self)@, gone@.take(k as int)),
            decreases gone.len() - k,
        {
            let e = gone[k];
            self.map.remove(&e.0);
            proof {
                let before = gone@.take(k as int);
                let after = gone@.take(k + 1);
                assert(after =~= before.push(e));
                assert forall|x: Entity| after.contains(x) <==> (before.contains(x) || x == e) by {
                    if before.contains(x) {
                        let j = choose|j: int| 0 <= j < before.len() && before[j] == x;
                        assert(after[j] == x);
                    }
                    if x == e {
                        assert(after[k as int] == x);
                    }
                }
                assert(self@ =~= without(old(self)@, after));
            }
            k += 1;
        }
        assert(gone@.take(k as int) =~= gone@);
    }
}

} // verus!
