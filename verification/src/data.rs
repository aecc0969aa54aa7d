//! The model store: which models an entity owns, which of them changed,
//! and whom to tell.

use crate::entity::Entity;
use crate::storage::{without, Sparse};
use vstd::prelude::*;

verus! {

/// What the runtime knows of one model: whether it changed since its
/// observers were last told, and who they are.
pub struct Model {
    pub dirty: bool,
    pub observers: Vec<Entity>,
}

/// The observers to notify for a list of models: those of the dirty
/// models, model by model, in order.
pub open spec fn due(models: Seq<Model>) -> Seq<Entity>
    decreases models.len(),
{
    if models.len() == 0 {
        Seq::empty()
    } else if models.last().dirty {
        due(models.drop_last()) + models.last().observers@
    } else {
        due(models.drop_last())
    }
}

/// The same models, none of them dirty.
pub open spec fn cleaned(models: Seq<Model>) -> Seq<Model> {
    Seq::new(models.len(), |k: int| Model { dirty: false, observers: models[k].observers })
}

/// The models of every entity, each entity's in the order they were added.
pub struct Data {
    models: Sparse<Vec<Model>>,
}

impl Data {
    /// The entities that own models, by number, each with its models.
    pub closed spec fn store(&self) -> Map<u32, Vec<Model>> {
        self.models@
    }

    /// The models of `entity`, in order; none where it owns no model.
    pub open spec fn models(&self, entity: Entity) -> Seq<Model> {
        if self.store().contains_key(entity.0) {
            self.store()[entity.0]@
        } else {
            Seq::empty()
        }
    }

    /// A store without models.
    pub fn new() -> (d: Data)
        ensures
            d.store() == Map::<u32, Vec<Model>>::empty(),
    {
        Data { models: Sparse::new() }
    }

    /// Gives `entity` one more model, clean, with the given observers, and
    /// returns its index among the models of `entity`.
    pub fn add_model(&mut self, entity: Entity, observers: Vec<Entity>) -> (index: usize)
        ensures
            index == old(self).models(entity).len(),
            final(self).models(entity) == old(self).models(entity).push(
                Model { dirty: false, observers },
            ),
            forall|x: Entity| x != entity ==> final(self).models(x) == old(self).models(x),
    {
        let mut list = match self.models.remove(entity) {
            Some(list) => list,
            None => Vec::new(),
        };
        let index = list.len();
        list.push(Model { dirty: false, observers });
        self.models.insert(entity, list);
        assert forall|x: Entity| x != entity implies self.models(x) == old(self).models(x) by {
            assert(x.0 != entity.0);
        }
        index
    }

    /// Marks the model `index` of `entity` as changed. Returns whether
    /// there is such a model; where there is none, nothing changes.
    pub fn mark_dirty(&mut self, entity: Entity, index: usize) -> (found: bool)
        ensures
            found == (index < old(self).models(entity).len()),
            found ==> final(self).models(entity) == old(self).models(entity).update(
                index as int,
                Model { dirty: true, observers: old(self).models(entity)[index as int].observers },
            ),
            !found ==> final(self).store() == old(self).store(),
            forall|x: Entity| x != entity ==> final(self).models(x) == old(self).models(x),
    {
        match self.models.remove(entity) {
            None => {
                assert(self.store() =~= old(self).store());
                false
            },
            Some(mut list) => {
                let found = index < list.len();
                if found {
                    let m = list.remove(index);
                    list.insert(index, Model { dirty: true, observers: m.observers });
                    assert(list@ =~= old(self).models(entity).update(
                        index as int,
                        Model {
                            dirty: true,
                            observers: old(self).models(entity)[index as int].observers,
                        },
                    ));
                }
                self.models.insert(entity, list);
                if !found {
                    assert(self.store() =~= old(self).store());
                }
                assert forall|x: Entity| x != entity implies self.models(x) == old(self).models(
                    x,
                ) by {
                    assert(x.0 != entity.0);
                }
                found
            },
        }
    }

    /// Whether the model `index` of `entity` exists and is dirty.
    pub fn is_dirty(&self, entity: Entity, index: usize) -> (b: bool)
        ensures
            b == (index < self.models(entity).len() && self.models(entity)[index as int].dirty),
    {
        match self.models.get(entity) {
            None => false,
            Some(list) => index < list.len() && list[index].dirty,
        }
    }

    /// The observers to notify for `entity`: those of its dirty models, in
    /// the order of the models. Nothing is reset.
    pub fn observers_due(&self, entity: Entity) -> (out: Vec<Entity>)
        ensures
            out@ == due(self.models(entity)),
    {
        let mut out: Vec<Entity> = Vec::new();
        match self.models.get(entity) {
            None => out,
            Some(list) => {
                let mut k: usize = 0;
                assert(list@.take(0) =~= Seq::<Model>::empty());
                while k < list.len()
                    invariant
                        k <= list.len(),
                        out@ == due(list@.take(k as int)),
                    decreases list.len() - k,
                {
                    proof {
                        assert(list@.take(k + 1).drop_last() =~= list@.take(k as int));
                        assert(list@.take(k + 1).last() == list@[k as int]);
                    }
                    if list[k].dirty {
                        let obs = &list[k].observers;
                        let mut j: usize = 0;
                        while j < obs.len()
                            invariant
                                j <= obs.len(),
                                out@ == due(list@.take(k as int)) + obs@.take(j as int),
                            decreases obs.len() - j,
                        {
                            out.push(obs[j]);
                            j += 1;
                            assert(out@ =~= due(list@.take(k as int)) + obs@.take(j as int));
                        }
                        assert(obs@.take(j as int) =~= obs@);
                    }
                    k += 1;
                }
                assert(list@.take(k as int) =~= list@);
                out
            },
        }
    }

    /// Clears the dirty flag of every model of `entity`. On an entity
    /// without models, and on clean models, nothing changes.
    pub fn reset(&mut self, entity: Entity)
        ensures
            final(self).models(entity) == cleaned(old(self).models(entity)),
            forall|x: Entity| x != entity ==> final(self).models(x) == old(self).models(x),
            !old(self).store().contains_key(entity.0) ==> final(self).store() == old(self).store(),
    {
        match self.models.remove(entity) {
            None => {
                assert(self.store() =~= old(self).store());
                assert(cleaned(old(self).models(entity)) =~= Seq::<Model>::empty());
            },
            Some(mut list) => {
                let ghost before = list@;
                let mut k: usize = 0;
                while k < list.len()
                    invariant
                        k <= list.len(),
                        list@.len() == before.len(),
                        forall|j: int|
                            0 <= j < k ==> list@[j] == (Model {
                                dirty: false,
                                observers: before[j].observers,
                            }),
                        forall|j: int| k <= j < list@.len() ==> list@[j] == before[j],
                    decreases list.len() - k,
                {
                    let m = list.remove(k);
                    list.insert(k, Model { dirty: false, observers: m.observers });
                    k += 1;
                }
                assert(list@ =~= cleaned(before));
                self.models.insert(entity, list);
                assert forall|x: Entity| x != entity implies self.models(x) == old(self).models(
                    x,
                ) by {
                    assert(x.0 != entity.0);
                }
            },
        }
    }

    /// Releases the models of all the entities in `gone`.
    pub fn release(&mut self, gone: &Vec<Entity>)
        ensures
            final(self).store() == without(old(self).store(), gone@),
    {
        self.models.release(gone);
    }
}

/// A model that is clean stays as it is when its owner is reset.
pub proof fn lemma_reset_keeps_clean(models: Seq<Model>, k: int)
    requires
        0 <= k < models.len(),
        !models[k].dirty,
    ensures
        cleaned(models)[k] == models[k],
{
}

/// After a reset nothing is due.
pub proof fn lemma_reset_settles(models: Seq<Model>)
    ensures
        due(cleaned(models)) == Seq::<Entity>::empty(),
    decreases models.len(),
{
    if models.len() > 0 {
        lemma_reset_settles(models.drop_last());
        assert(cleaned(models).drop_last() =~= cleaned(models.drop_last()));
    }
}

/// Where exactly one model of an entity is dirty, exactly its observers
/// are due, each as often as that model names it.
pub proof fn lemma_due_single(models: Seq<Model>, k: int)
    requires
        0 <= k < models.len(),
        models[k].dirty,
        forall|j: int| 0 <= j < models.len() && j != k ==> !models[j].dirty,
    ensures
        due(models) == models[k].observers@,
    decreases models.len(),
{
    if k == models.len() - 1 {
        lemma_due_clean(models.drop_last());
        assert(Seq::<Entity>::empty() + models[k].observers@ =~= models[k].observers@);
    } else {
        lemma_due_single(models.drop_last(), k);
    }
}

/// Where no model is dirty, nothing is due.
pub proof fn lemma_due_clean(models: Seq<Model>)
    requires
        forall|j: int| 0 <= j < models.len() ==> !models[j].dirty,
    ensures
        due(models) == Seq::<Entity>::empty(),
    decreases models.len(),
{
    if models.len() > 0 {
        lemma_due_clean(models.drop_last());
    }
}

/// Every observer of a dirty model is due, and after the reset that
/// follows the model is clean and keeps its observers.
pub proof fn lemma_dirty_round_trip(models: Seq<Model>, k: int, j: int)
    requires
        0 <= k < models.len(),
        models[k].dirty,
        0 <= j < models[k].observers@.len(),
    ensures
        due(models).contains(models[k].observers@[j]),
        !cleaned(models)[k].dirty,
        cleaned(models)[k].observers == models[k].observers,
    decreases models.len(),
{
    let rest = due(models.drop_last());
    if k == models.len() - 1 {
        assert(due(models)[rest.len() + j] == models[k].observers@[j]);
    } else {
        lemma_dirty_round_trip(models.drop_last(), k, j);
        let i = choose|i: int| 0 <= i < rest.len() && rest[i] == models[k].observers@[j];
        assert(due(models)[i] == models[k].observers@[j]);
    }
}

} // verus!
