//! The frame cycle: what one tick does, in which order.

use crate::context::Context;
use crate::data::{cleaned, due, Model};
use crate::entity::Entity;
use crate::event::Event;
use crate::tree::entities;
use vstd::prelude::*;

verus! {

/// The phases of a tick, in the order in which they run.
#[derive(Clone, Copy, Debug, PartialEq, Eq, Structural)]
pub enum Phase {
    /// The top-level builder runs again.
    Rebuild,
    /// Queued events are delivered until the queue is empty.
    Flush,
    /// The observers of dirty models are rebuilt, entity by entity.
    Update,
    /// Style resolution; nothing is done here yet.
    Style,
    /// The layout of the tree is computed into the cache.
    Layout,
    /// The platform is asked to repaint.
    Redraw,
    /// The tick is over.
    Done,
}

/// The phase that follows `p` once the work of `p` is done.
pub open spec fn successor(p: Phase) -> Phase {
    match p {
        Phase::Rebuild => Phase::Flush,
        Phase::Flush => Phase::Update,
        Phase::Update => Phase::Style,
        Phase::Style => Phase::Layout,
        Phase::Layout => Phase::Redraw,
        Phase::Redraw => Phase::Done,
        Phase::Done => Phase::Done,
    }
}

/// One tick in progress. The application asks it what to do next, does
/// it, and reports back; the frame keeps the phases in order.
pub struct Frame {
    phase: Phase,
    order: Vec<Entity>,
    at: usize,
}

impl Frame {
    /// The phase the tick is in.
    pub closed spec fn stage(&self) -> Phase {
        self.phase
    }

    /// The entities that the update phase walks: the traversal of the
    /// tree as it was when the event queue ran empty.
    pub closed spec fn snapshot(&self) -> Seq<Entity> {
        self.order@
    }

    /// How many entities of the snapshot were handed out.
    pub closed spec fn walked(&self) -> nat {
        self.at as nat
    }

    pub open spec fn wf(&self) -> bool {
        self.walked() <= self.snapshot().len()
    }

    /// Starts a tick. Where a rebuild was asked for, the tick starts in
    /// the rebuild phase with the insertion cursor at the root; otherwise
    /// it starts with the event flush and the context is untouched.
    pub fn begin<V>(cx: &mut Context<V>) -> (f: Frame)
        ensures
            f.wf(),
            f.walked() == 0,
            f.snapshot().len() == 0,
            old(cx).environment.needs_rebuild ==> f.stage() == Phase::Rebuild && *final(cx) == (
            Context { current: Entity::root(), count: 0, ..*old(cx) }),
            !old(cx).environment.needs_rebuild ==> f.stage() == Phase::Flush && *final(cx) == *old(cx),
    {
        if cx.environment.needs_rebuild {
            cx.current = Entity::root();
            cx.count = 0;
            Frame { phase: Phase::Rebuild, order: Vec::new(), at: 0 }
        } else {
            Frame { phase: Phase::Flush, order: Vec::new(), at: 0 }
        }
    }

    pub fn phase(&self) -> (p: Phase)
        ensures
            p == self.stage(),
    {
        self.phase
    }

    /// Reports that the builder has run: the request for a rebuild is
    /// cleared, and the event flush may begin. In any other phase nothing
    /// changes.
    pub fn rebuilt<V>(&mut self, cx: &mut Context<V>)
        requires
            old(self).wf(),
        ensures
            final(self).wf(),
            final(self).snapshot() == old(self).snapshot(),
            final(self).walked() == old(self).walked(),
            old(self).stage() == Phase::Rebuild ==> final(self).stage() == successor(Phase::Rebuild)
                && final(cx).environment.locale == old(cx).environment.locale
                && !final(cx).environment.needs_rebuild && *final(cx) == (Context {
                environment: final(cx).environment,
                ..*old(cx)
            }),
            old(self).stage() != Phase::Rebuild ==> final(self).stage() == old(self).stage()
                && *final(cx) == *old(cx),
    {
        if self.phase == Phase::Rebuild {
            cx.environment.needs_rebuild = false;
            self.phase = Phase::Flush;
        }
    }

    /// The next event to deliver.
    ///
    /// Outside the flush phase there is none, and nothing changes: no
    /// event is taken before a pending rebuild was reported done. In the
    /// flush phase the oldest queued event is taken. Where the queue is
    /// empty, nothing in the context changes, the traversal of the tree
    /// is recorded and the update phase begins.
    pub fn next_event<V>(&mut self, cx: &mut Context<V>) -> (r: Option<Event>)
        requires
            old(self).wf(),
        ensures
            final(self).wf(),
            *final(cx) == (Context { event_queue: final(cx).event_queue, ..*old(cx) }),
            old(self).stage() != Phase::Flush ==> r.is_none() && *final(self) == *old(self)
                && *final(cx) == *old(cx),
            old(self).stage() == Phase::Flush && old(cx).event_queue@.len() > 0 ==> r == Some(
                old(cx).event_queue@[0],
            ) && final(cx).event_queue@ == old(cx).event_queue@.subrange(
                1,
                old(cx).event_queue@.len() as int,
            ) && *final(self) == *old(self),
            old(self).stage() == Phase::Flush && old(cx).event_queue@.len() == 0 ==> r.is_none()
                && final(cx).event_queue@ == old(cx).event_queue@ && final(self).stage()
                == successor(Phase::Flush) && final(self).snapshot() == entities(old(cx).tree@)
                && final(self).walked() == 0,
    {
        if self.phase != Phase::Flush {
            return None;
        }
        match cx.next_event() {
            Some(event) => Some(event),
            None => {
                self.phase = Phase::Update;
                self.order = cx.tree.iter();
                self.at = 0;
                None
            },
        }
    }

    /// The next step of the update phase: the observers to rebuild for the
    /// next entity of the snapshot, which are those of its models that are
    /// dirty at this moment.
    ///
    /// The models of the entity handed out by the call before are reset
    /// first: after its observers were rebuilt, never in between, and
    /// whether or not they were dirty. At the end of the snapshot the
    /// update phase is over. Outside the update phase there is no step and
    /// nothing changes.
    pub fn next_update<V>(&mut self, cx: &mut Context<V>) -> (r: Option<Vec<Entity>>)
        requires
            old(self).wf(),
        ensures
            final(self).wf(),
            final(self).snapshot() == old(self).snapshot(),
            *final(cx) == (Context { data: final(cx).data, ..*old(cx) }),
            old(self).stage() != Phase::Update ==> r.is_none() && *final(self) == *old(self)
                && *final(cx) == *old(cx),
            old(self).stage() == Phase::Update ==> forall|x: Entity|
                #[trigger] final(cx).data.models(x) == settled(
                    old(cx).data.models(x),
                    old(self).walked() > 0 && x == old(self).snapshot()[old(self).walked() - 1],
                ),
            old(self).stage() == Phase::Update && old(self).walked() < old(self).snapshot().len()
                ==> r.is_some() && r.unwrap()@ == due(
                final(cx).data.models(old(self).snapshot()[old(self).walked() as int]),
            ) && final(self).walked() == old(self).walked() + 1 && final(self).stage()
                == Phase::Update,
            old(self).stage() == Phase::Update && old(self).walked() >= old(self).snapshot().len()
                ==> r.is_none() && final(self).walked() == old(self).walked() && final(self).stage()
                == successor(Phase::Update),
    {
        if self.phase != Phase::Update {
            return None;
        }
        if self.at > 0 {
            cx.data.reset(self.order[self.at - 1]);
        }
        if self.at < self.order.len() {
            let observers = cx.data.observers_due(self.order[self.at]);
            self.at = self.at + 1;
            Some(observers)
        } else {
            self.phase = Phase::Style;
            None
        }
    }

    /// Reports that the work of the style, layout or redraw phase is done
    /// and returns the phase that follows. The earlier phases end by their
    /// own reports; in them, and after the tick, nothing changes.
    pub fn advance(&mut self) -> (p: Phase)
        requires
            old(self).wf(),
        ensures
            final(self).wf(),
            p == final(self).stage(),
            final(self).snapshot() == old(self).snapshot(),
            final(self).walked() == old(self).walked(),
            p == (match old(self).stage() {
                Phase::Style | Phase::Layout | Phase::Redraw => successor(old(self).stage()),
                other => other,
            }),
    {
        match self.phase {
            Phase::Style => {
                self.phase = Phase::Layout;
            },
            Phase::Layout => {
                self.phase = Phase::Redraw;
            },
            Phase::Redraw => {
                self.phase = Phase::Done;
            },
            _ => {},
        }
        self.phase
    }
}

/// The models of an entity after a step of the update phase: all clean
/// where the entity was the one to reset, untouched otherwise.
pub open spec fn settled(models: Seq<Model>, reset: bool) -> Seq<Model> {
    if reset {
        cleaned(models)
    } else {
        models
    }
}

/// How far along the tick a phase is.
pub open spec fn rank(p: Phase) -> nat {
    match p {
        Phase::Rebuild => 0,
        Phase::Flush => 1,
        Phase::Update => 2,
        Phase::Style => 3,
        Phase::Layout => 4,
        Phase::Redraw => 5,
        Phase::Done => 6,
    }
}

/// The phases follow one another in one order, and the rebuild comes
/// before the event flush.
pub proof fn lemma_phase_order(p: Phase)
    ensures
        p != Phase::Done ==> rank(successor(p)) == rank(p) + 1,
        rank(Phase::Rebuild) < rank(Phase::Flush),
        rank(Phase::Flush) < rank(Phase::Update),
        rank(Phase::Update) < rank(Phase::Layout),
        rank(Phase::Layout) < rank(Phase::Redraw),
{
}

} // verus!
