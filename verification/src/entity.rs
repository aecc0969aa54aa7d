//! Entity handles and the registry that issues them.

use vstd::prelude::*;

verus! {

/// An opaque handle that identifies one node of the UI tree.
#[derive(Clone, Copy, Debug, PartialEq, Eq, Structural, Hash)]
pub struct Entity(pub u32);

impl Entity {
    /// The handle of the root node, which exists for as long as the tree does.
    pub open spec fn spec_root() -> Entity {
        Entity(0)
    }

    /// The sentinel that stands for "no entity".
    pub open spec fn spec_null() -> Entity {
        Entity(u32::MAX)
    }

    #[verifier::when_used_as_spec(spec_root)]
    pub fn root() -> (e: Entity)
        ensures
            e == Entity::spec_root(),
    {
        Entity(0)
    }

    #[verifier::when_used_as_spec(spec_null)]
    pub fn null() -> (e: Entity)
        ensures
            e == Entity::spec_null(),
    {
        Entity(u32::MAX)
    }

    pub fn is_null(&self) -> (b: bool)
        ensures
            b == (*self == Entity::null()),
    {
        self.0 == u32::MAX
    }

    pub fn is_root(&self) -> (b: bool)
        ensures
            b == (*self == Entity::root()),
    {
        self.0 == 0
    }

    /// The handle's number.
    pub fn index(&self) -> (i: u32)
        ensures
            i == self.0,
    {
        self.0
    }
}

/// Issues entity handles and takes them back for reuse.
///
/// A handle is live from the `create` that returned it until the `destroy`
/// that gives it back. The root is live from the start and is never
/// destroyed; the null sentinel is never issued.
pub struct IdManager {
    next: u32,
    free: Vec<u32>,
}

impl IdManager {
    /// The number below which every handle was issued at least once.
    pub closed spec fn issued(&self) -> nat {
        self.next as nat
    }

    /// The handles that were given back and wait for reuse, oldest first.
    pub closed spec fn recycled(&self) -> Seq<u32> {
        self.free@
    }

    pub open spec fn wf(&self) -> bool {
        &&& 1 <= self.issued() <= u32::MAX
        &&& forall|i: int|
            0 <= i < self.recycled().len() ==> 0 < #[trigger] self.recycled()[i] < self.issued()
        &&& forall|i: int, j: int|
            0 <= i < j < self.recycled().len() ==> self.recycled()[i] != self.recycled()[j]
    }

    /// Whether `e` is a handle in use.
    pub open spec fn is_live(&self, e: Entity) -> bool {
        e.0 < self.issued() && !self.recycled().contains(e.0)
    }

    /// Whether `create` can still hand out a handle.
    pub open spec fn has_room(&self) -> bool {
        self.recycled().len() > 0 || self.issued() < u32::MAX
    }

    /// A registry in which only the root is live.
    pub fn new() -> (m: IdManager)
        ensures
            m.wf(),
            m.issued() == 1,
            m.recycled().len() == 0,
            forall|e: Entity| m.is_live(e) <==> e == Entity::root(),
    {
        IdManager { next: 1, free: Vec::new() }
    }

    pub fn can_create(&self) -> (b: bool)
        ensures
            b == self.has_room(),
    {
        self.free.len() > 0 || self.next < u32::MAX
    }

    pub fn contains(&self, e: Entity) -> (b: bool)
        ensures
            b == self.is_live(e),
    {
        if e.0 >= self.next {
            return false;
        }
        let mut i: usize = 0;
        while i < self.free.len()
            invariant
                i <= self.free.len(),
                forall|k: int| 0 <= k < i ==> self.free@[k] != e.0,
            decreases self.free.len() - i,
        {
            if self.free[i] == e.0 {
                return false;
            }
            i += 1;
        }
        true
    }

    /// Hands out a handle that was not live: the one most recently given
    /// back if there is one, a fresh one otherwise.
    pub fn create(&mut self) -> (e: Entity)
        requires
            old(self).wf(),
            old(self).has_room(),
        ensures
            final(self).wf(),
            !old(self).is_live(e),
            final(self).is_live(e),
            e != Entity::null(),
            e != Entity::root(),
            forall|x: Entity| x != e ==> (final(self).is_live(x) <==> old(self).is_live(x)),
            old(self).recycled().len() > 0 ==> e.0 == old(self).recycled().last()
                && final(self).recycled() == old(self).recycled().drop_last()
                && final(self).issued() == old(self).issued(),
            old(self).recycled().len() == 0 ==> e.0 == old(self).issued()
                && final(self).issued() == old(self).issued() + 1
                && final(self).recycled() == old(self).recycled(),
    {
        match self.free.pop() {
            Some(id) => {
                proof {
                    let before = old(self).free@;
                    let after = self.free@;
                    assert(before[before.len() - 1] == id);
                    assert forall|x: Entity| x != Entity(id) implies (self.is_live(x)
                        <==> old(self).is_live(x)) by {
                        if before.contains(x.0) {
                            let k = choose|k: int| 0 <= k < before.len() && before[k] == x.0;
                            assert(after[k] == x.0);
                        }
                        if after.contains(x.0) {
                            let k = choose|k: int| 0 <= k < after.len() && after[k] == x.0;
                            assert(before[k] == x.0);
                        }
                    }
                    assert(!after.contains(id)) by {
                        if after.contains(id) {
                            let k = choose|k: int| 0 <= k < after.len() && after[k] == id;
                            assert(before[k] == id);
                        }
                    }
                }
                Entity(id)
            },
            None => {
                let id: u32 = self.next;
                self.next = id + 1;
                Entity(id)
            },
        }
    }

    /// Gives back a live handle other than the root. Returns whether it did;
    /// on any other handle nothing changes.
    pub fn destroy(&mut self, e: Entity) -> (done: bool)
        requires
            old(self).wf(),
        ensures
            final(self).wf(),
            done == (old(self).is_live(e) && e != Entity::root()),
            done ==> !final(self).is_live(e) && final(self).recycled() == old(self).recycled().push(
                e.0,
            ) && final(self).issued() == old(self).issued(),
            !done ==> final(self).recycled() == old(self).recycled() && final(self).issued() == old(self).issued(),
            forall|x: Entity| x != e ==> (final(self).is_live(x) <==> old(self).is_live(x)),
    {
        if e.0 == 0 || !self.contains(e) {
            return false;
        }
        self.free.push(e.0);
        proof {
            let before = old(self).free@;
            let after = self.free@;
            assert(after[after.len() - 1] == e.0);
            assert forall|x: Entity| x != e implies (self.is_live(x) <==> old(self).is_live(
                x,
            )) by {
                if before.contains(x.0) {
                    let k = choose|k: int| 0 <= k < before.len() && before[k] == x.0;
                    assert(after[k] == x.0);
                }
                if after.contains(x.0) {
                    let k = choose|k: int| 0 <= k < after.len() && after[k] == x.0;
                    assert(before[k] == x.0);
                }
            }
        }
        true
    }
}

} // verus!
