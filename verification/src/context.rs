//! The application context: every piece of state that views, handlers and
//! the frame cycle share.

use crate::data::{Data, Model};
use crate::entity::{Entity, IdManager};
use crate::event::{
    propagation_path, reversed, Code, Event, Key, Message, MouseButton, MouseButtonState,
    Propagation, WindowEvent,
};
use crate::storage::{without, Sparse};
use crate::tree::{ancestors, occurs, subtree, without_subtree, Node, Tree, TreeError};
use std::collections::VecDeque;
use vstd::prelude::*;

verus! {

/// A colour with transparency, eight bits a channel.
#[derive(Clone, Copy, Debug, PartialEq, Eq, Structural)]
pub struct Color {
    pub r: u8,
    pub g: u8,
    pub b: u8,
    pub a: u8,
}

impl Color {
    pub fn rgba(r: u8, g: u8, b: u8, a: u8) -> (c: Color)
        ensures
            c == (Color { r, g, b, a }),
    {
        Color { r, g, b, a }
    }

    pub fn white() -> (c: Color)
        ensures
            c == (Color { r: 255, g: 255, b: 255, a: 255 }),
    {
        Color { r: 255, g: 255, b: 255, a: 255 }
    }

    pub fn black() -> (c: Color)
        ensures
            c == (Color { r: 0, g: 0, b: 0, a: 255 }),
    {
        Color { r: 0, g: 0, b: 0, a: 255 }
    }
}

impl Default for Color {
    /// Transparent black.
    fn default() -> (c: Color)
        ensures
            c == (Color { r: 0, g: 0, b: 0, a: 0 }),
    {
        Color { r: 0, g: 0, b: 0, a: 0 }
    }
}

/// The computed bounds of an entity, each number held as the bit pattern
/// of a single-precision number.
#[derive(Clone, Copy, Debug, PartialEq, Eq, Structural)]
pub struct Bounds {
    pub x: u32,
    pub y: u32,
    pub w: u32,
    pub h: u32,
}

/// Where the pointer is, as bit patterns of single-precision numbers.
#[derive(Clone, Copy, Debug, PartialEq, Eq, Structural)]
pub struct MouseState {
    pub cursorx: u32,
    pub cursory: u32,
}

/// The style properties that the runtime itself reads and writes.
pub struct Style {
    pub background_color: Sparse<Color>,
    pub text: Sparse<String>,
}

/// State that lasts as long as the application runs.
pub struct Environment {
    pub locale: String,
    pub needs_rebuild: bool,
}

impl Environment {
    /// The state at startup: no locale chosen, nothing to rebuild.
    pub fn new() -> (e: Environment)
        ensures
            e.locale@ == Seq::<char>::empty(),
            !e.needs_rebuild,
    {
        Environment { locale: String::new(), needs_rebuild: false }
    }

    /// Chooses the locale and asks for a rebuild at the next tick. Asking
    /// twice before a tick asks once.
    pub fn set_locale(&mut self, id: &str)
        ensures
            final(self).locale@ == id@,
            final(self).needs_rebuild,
    {
        self.locale = id.to_owned();
        self.needs_rebuild = true;
    }
}

/// What a view saves when it becomes the insertion cursor, to put back
/// when it is done.
#[derive(Clone, Copy, Debug, PartialEq, Eq, Structural)]
pub struct Cursor {
    pub current: Entity,
    pub count: usize,
}

/// The shared state of an application whose views are of type `V`.
pub struct Context<V> {
    pub entity_manager: IdManager,
    pub tree: Tree,
    /// The entity below which a view's body inserts.
    pub current: Entity,
    /// How many children the running body has inserted.
    pub count: usize,
    pub views: Sparse<V>,
    pub data: Data,
    pub style: Style,
    pub cache: Sparse<Bounds>,
    pub environment: Environment,
    pub event_queue: VecDeque<Event>,
    pub mouse: MouseState,
    pub hovered: Entity,
    pub focused: Entity,
}

/// The entity that a keyboard event targets: the focused one, or the
/// hovered one where nothing is focused.
pub open spec fn keyboard_target(focused: Entity, hovered: Entity) -> Entity {
    if focused != Entity::null() {
        focused
    } else {
        hovered
    }
}

/// The event that a mouse button makes: down or up, aimed at the hovered
/// entity, bubbling up.
pub open spec fn mouse_event(button: MouseButton, state: MouseButtonState, hovered: Entity) -> Event {
    Event {
        message: Message::Window(
            match state {
                MouseButtonState::Pressed => WindowEvent::MouseDown(button),
                MouseButtonState::Released => WindowEvent::MouseUp(button),
            },
        ),
        target: hovered,
        propagation: Propagation::Up,
        consumed: false,
    }
}

/// The event that a key makes: down or up, aimed at the keyboard target,
/// travelling down and up again.
pub open spec fn key_event(
    code: Code,
    key: Option<Key>,
    state: MouseButtonState,
    focused: Entity,
    hovered: Entity,
) -> Event {
    Event {
        message: Message::Window(
            match state {
                MouseButtonState::Pressed => WindowEvent::KeyDown(code, key),
                MouseButtonState::Released => WindowEvent::KeyUp(code, key),
            },
        ),
        target: keyboard_target(focused, hovered),
        propagation: Propagation::DownUp,
        consumed: false,
    }
}

/// The event that a typed character makes: aimed at the focused entity,
/// travelling down.
pub open spec fn char_event(c: char, focused: Entity) -> Event {
    Event {
        message: Message::Window(WindowEvent::CharInput(c)),
        target: focused,
        propagation: Propagation::Down,
        consumed: false,
    }
}

impl<V> Context<V> {
    pub open spec fn wf(&self) -> bool {
        self.tree.wf() && self.entity_manager.wf()
    }

    /// The context at startup: a tree with the root alone, the root's
    /// bounds in the cache, an empty queue, the pointer over the root and
    /// nothing focused.
    pub fn new() -> (cx: Context<V>)
        ensures
            cx.wf(),
            cx.tree@ == seq![Node { entity: Entity::root(), depth: 0 }],
            cx.current == Entity::root(),
            cx.count == 0,
            cx.views@ == Map::<u32, V>::empty(),
            cx.data.store() == Map::<u32, Vec<Model>>::empty(),
            cx.style.background_color@ == Map::<u32, Color>::empty(),
            cx.style.text@ == Map::<u32, String>::empty(),
            cx.cache@ == Map::<u32, Bounds>::empty().insert(
                0u32,
                Bounds { x: 0, y: 0, w: 0, h: 0 },
            ),
            !cx.environment.needs_rebuild,
            cx.event_queue@ == Seq::<Event>::empty(),
            cx.hovered == Entity::root(),
            cx.focused == Entity::null(),
            forall|e: Entity| cx.entity_manager.is_live(e) <==> e == Entity::root(),
    {
        let mut cache: Sparse<Bounds> = Sparse::new();
        cache.insert(Entity::root(), Bounds { x: 0, y: 0, w: 0, h: 0 });
        Context {
            entity_manager: IdManager::new(),
            tree: Tree::new(),
            current: Entity::root(),
            count: 0,
            views: Sparse::new(),
            data: Data::new(),
            style: Style { background_color: Sparse::new(), text: Sparse::new() },
            cache,
            environment: Environment::new(),
            event_queue: VecDeque::new(),
            mouse: MouseState { cursorx: 0, cursory: 0 },
            hovered: Entity::root(),
            focused: Entity::null(),
        }
    }

    /// Appends `event` to the queue. It is delivered after every event
    /// that was queued before it, never at once.
    pub fn emit(&mut self, event: Event)
        ensures
            final(self).event_queue@ == old(self).event_queue@.push(event),
            *final(self) == (Context { event_queue: final(self).event_queue, ..*old(self) }),
    {
        self.event_queue.push_back(event);
    }

    /// Takes the oldest event off the queue. On an empty queue nothing
    /// changes.
    pub fn next_event(&mut self) -> (r: Option<Event>)
        ensures
            *final(self) == (Context { event_queue: final(self).event_queue, ..*old(self) }),
            match r {
                Some(event) => old(self).event_queue@.len() > 0 && event == old(self).event_queue@[0] && final(self).event_queue@ == old(self).event_queue@.subrange(
                    1,
                    old(self).event_queue@.len() as int,
                ),
                None => old(self).event_queue@.len() == 0 && final(self).event_queue@ == old(self).event_queue@,
            },
    {
        self.event_queue.pop_front()
    }

    /// A mouse button went down or came up.
    pub fn mouse_input(&mut self, button: MouseButton, state: MouseButtonState)
        ensures
            final(self).event_queue@ == old(self).event_queue@.push(
                mouse_event(button, state, old(self).hovered),
            ),
            *final(self) == (Context { event_queue: final(self).event_queue, ..*old(self) }),
    {
        let hovered = self.hovered;
        match state {
            MouseButtonState::Pressed => {
                self.emit(
                    Event::window(WindowEvent::MouseDown(button)).target(hovered).propagate(
                        Propagation::Up,
                    ),
                );
            },
            MouseButtonState::Released => {
                self.emit(
                    Event::window(WindowEvent::MouseUp(button)).target(hovered).propagate(
                        Propagation::Up,
                    ),
                );
            },
        }
    }

    /// A key went down or came up.
    pub fn keyboard_input(&mut self, code: Code, key: Option<Key>, state: MouseButtonState)
        ensures
            final(self).event_queue@ == old(self).event_queue@.push(
                key_event(code, key, state, old(self).focused, old(self).hovered),
            ),
            *final(self) == (Context { event_queue: final(self).event_queue, ..*old(self) }),
    {
        let target = if !self.focused.is_null() {
            self.focused
        } else {
            self.hovered
        };
        match state {
            MouseButtonState::Pressed => {
                self.emit(
                    Event::window(WindowEvent::KeyDown(code, key)).target(target).propagate(
                        Propagation::DownUp,
                    ),
                );
            },
            MouseButtonState::Released => {
                self.emit(
                    Event::window(WindowEvent::KeyUp(code, key)).target(target).propagate(
                        Propagation::DownUp,
                    ),
                );
            },
        }
    }

    /// A character was typed.
    pub fn character_input(&mut self, c: char)
        ensures
            final(self).event_queue@ == old(self).event_queue@.push(
                char_event(c, old(self).focused),
            ),
            *final(self) == (Context { event_queue: final(self).event_queue, ..*old(self) }),
    {
        let focused = self.focused;
        self.emit(
            Event::window(WindowEvent::CharInput(c)).target(focused).propagate(Propagation::Down),
        );
    }

    /// The pointer moved to the given coordinates.
    pub fn cursor_moved(&mut self, x: u32, y: u32)
        ensures
            *final(self) == (Context {
                mouse: MouseState { cursorx: x, cursory: y },
                ..*old(self)
            }),
    {
        self.mouse.cursorx = x;
        self.mouse.cursory = y;
    }

    /// Takes the view of `entity` out of the registry, so that it can
    /// change the registry it belongs to.
    pub fn checkout(&mut self, entity: Entity) -> (view: Option<V>)
        ensures
            *final(self) == (Context { views: final(self).views, ..*old(self) }),
            final(self).views@ == old(self).views@.remove(entity.0),
            view == (if old(self).views@.contains_key(entity.0) {
                Some(old(self).views@[entity.0])
            } else {
                None
            }),
    {
        self.views.remove(entity)
    }

    /// Puts the view of `entity` back, or registers a new one.
    pub fn checkin(&mut self, entity: Entity, view: V)
        ensures
            *final(self) == (Context { views: final(self).views, ..*old(self) }),
            final(self).views@ == old(self).views@.insert(entity.0, view),
    {
        self.views.insert(entity, view);
    }

    /// Makes `entity` the insertion cursor and returns the cursor to put
    /// back afterwards.
    pub fn enter(&mut self, entity: Entity) -> (saved: Cursor)
        ensures
            saved == (Cursor { current: old(self).current, count: old(self).count }),
            *final(self) == (Context { current: entity, count: 0, ..*old(self) }),
    {
        let saved = Cursor { current: self.current, count: self.count };
        self.current = entity;
        self.count = 0;
        saved
    }

    /// Puts a saved insertion cursor back.
    pub fn leave(&mut self, saved: Cursor)
        ensures
            *final(self) == (Context { current: saved.current, count: saved.count, ..*old(self) }),
    {
        self.current = saved.current;
        self.count = saved.count;
    }

    /// Removes `entity` and its whole subtree, and with each entity removed
    /// its view, its models, its style entries, its bounds and its handle.
    /// Returns the entities removed, in traversal order.
    ///
    /// Where `entity` is not in the tree, or is the root, nothing changes.
    pub fn remove(&mut self, entity: Entity) -> (r: Result<Vec<Entity>, TreeError>)
        requires
            old(self).wf(),
        ensures
            final(self).wf(),
            match r {
                Ok(gone) => {
                    &&& occurs(old(self).tree@, entity)
                    &&& entity != Entity::root()
                    &&& gone@ == subtree(old(self).tree@, entity)
                    &&& final(self).tree@ == without_subtree(old(self).tree@, entity)
                    &&& final(self).views@ == without(old(self).views@, gone@)
                    &&& final(self).data.store() == without(old(self).data.store(), gone@)
                    &&& final(self).cache@ == without(old(self).cache@, gone@)
                    &&& final(self).style.background_color@ == without(
                        old(self).style.background_color@,
                        gone@,
                    )
                    &&& final(self).style.text@ == without(old(self).style.text@, gone@)
                    &&& forall|x: Entity| gone@.contains(x) ==> !final(self).entity_manager.is_live(x)
                    &&& forall|x: Entity|
                        !gone@.contains(x) ==> (final(self).entity_manager.is_live(x) <==> old(self).entity_manager.is_live(x))
                },
                Err(err) => {
                    &&& *final(self) == (Context { tree: final(self).tree, ..*old(self) })
                    &&& final(self).tree@ == old(self).tree@
                    &&& err == TreeError::NotFound <==> !occurs(old(self).tree@, entity)
                    &&& err == TreeError::Root <==> entity == Entity::root()
                    &&& err != TreeError::Occupied
                },
            },
            final(self).current == old(self).current,
            final(self).count == old(self).count,
            final(self).event_queue == old(self).event_queue,
            final(self).hovered == old(self).hovered,
            final(self).focused == old(self).focused,
            final(self).environment == old(self).environment,
    {
        match self.tree.remove(entity) {
            Err(err) => Err(err),
            Ok(gone) => {
                self.views.release(&gone);
                self.data.release(&gone);
                self.cache.release(&gone);
                self.style.background_color.release(&gone);
                self.style.text.release(&gone);
                let ghost released = *self;
                let mut k: usize = 0;
                while k < gone.len()
                    invariant
                        k <= gone.len(),
                        self.entity_manager.wf(),
                        !gone@.contains(Entity::root()),
                        forall|x: Entity|
                            gone@.take(k as int).contains(x) ==> !self.entity_manager.is_live(x),
                        forall|x: Entity|
                            !gone@.take(k as int).contains(x) ==> (self.entity_manager.is_live(x)
                                <==> old(self).entity_manager.is_live(x)),
                        *self == (Context { entity_manager: self.entity_manager, ..released }),
                    decreases gone.len() - k,
                {
                    assert(gone@.contains(gone@[k as int]));
                    let e = gone[k];
                    self.entity_manager.destroy(e);
                    proof {
                        let before = gone@.take(k as int);
                        let after = gone@.take(k + 1);
                        assert(after =~= before.push(e));
                        assert forall|x: Entity| after.contains(x) <==> (before.contains(x) || x
                            == e) by {
                            if before.contains(x) {
                                let j = choose|j: int| 0 <= j < before.len() && before[j] == x;
                                assert(after[j] == x);
                            }
                            if x == e {
                                assert(after[k as int] == x);
                            }
                        }
                    }
                    k += 1;
                }
                assert(gone@.take(k as int) =~= gone@);
                Ok(gone)
            },
        }
    }
}

/// The entities of `a` that do not occur in `b`, in the order of `a`.
pub open spec fn outside(a: Seq<Entity>, b: Seq<Entity>) -> Seq<Entity>
    decreases a.len(),
{
    if a.len() == 0 {
        Seq::empty()
    } else if b.contains(a.last()) {
        outside(a.drop_last(), b)
    } else {
        outside(a.drop_last(), b).push(a.last())
    }
}

/// An event for `target` alone.
pub open spec fn direct(w: WindowEvent, target: Entity) -> Event {
    Event {
        message: Message::Window(w),
        target,
        propagation: Propagation::Direct,
        consumed: false,
    }
}

/// The two events that tell each of `targets` in turn, and nobody else,
/// that the pointer crossed its border: `MouseLeave` and `MouseOut` if
/// `leaving`, `MouseEnter` and `MouseOver` otherwise.
pub open spec fn crossings(targets: Seq<Entity>, leaving: bool) -> Seq<Event>
    decreases targets.len(),
{
    if targets.len() == 0 {
        Seq::empty()
    } else if leaving {
        crossings(targets.drop_last(), leaving).push(
            direct(WindowEvent::MouseLeave, targets.last()),
        ).push(direct(WindowEvent::MouseOut, targets.last()))
    } else {
        crossings(targets.drop_last(), leaving).push(
            direct(WindowEvent::MouseEnter, targets.last()),
        ).push(direct(WindowEvent::MouseOver, targets.last()))
    }
}

/// The events of a change of the hovered entity from `prev` to `next`:
/// `MouseLeave` and `MouseOut` to each ancestor of `prev` (itself
/// included, innermost first) that is no ancestor of `next`, then
/// `MouseEnter` and `MouseOver` to each ancestor of `next` (itself
/// included, outermost first) that was no ancestor of `prev`. No change,
/// no event.
pub open spec fn hover_events(s: Seq<Node>, prev: Entity, next: Entity) -> Seq<Event> {
    if prev == next {
        Seq::empty()
    } else {
        crossings(outside(ancestors(s, prev), ancestors(s, next)), true) + crossings(
            outside(reversed(ancestors(s, next)), ancestors(s, prev)),
            false,
        )
    }
}

fn member(b: &Vec<Entity>, x: Entity) -> (r: bool)
    ensures
        r == b@.contains(x),
{
    let mut k: usize = 0;
    while k < b.len()
        invariant
            k <= b.len(),
            forall|j: int| 0 <= j < k ==> b@[j] != x,
        decreases b.len() - k,
    {
        if b[k] == x {
            return true;
        }
        k += 1;
    }
    false
}

fn difference(a: &Vec<Entity>, b: &Vec<Entity>) -> (out: Vec<Entity>)
    ensures
        out@ == outside(a@, b@),
{
    let mut out: Vec<Entity> = Vec::new();
    let mut k: usize = 0;
    assert(a@.take(0) =~= Seq::<Entity>::empty());
    while k < a.len()
        invariant
            k <= a.len(),
            out@ == outside(a@.take(k as int), b@),
        decreases a.len() - k,
    {
        proof {
            assert(a@.take(k + 1).drop_last() =~= a@.take(k as int));
            assert(a@.take(k + 1).last() == a@[k as int]);
        }
        if !member(b, a[k]) {
            out.push(a[k]);
        }
        k += 1;
    }
    assert(a@.take(k as int) =~= a@);
    out
}

impl<V> Context<V> {
    fn emit_crossings(&mut self, targets: &Vec<Entity>, leaving: bool)
        ensures
            final(self).event_queue@ == old(self).event_queue@ + crossings(targets@, leaving),
            *final(self) == (Context { event_queue: final(self).event_queue, ..*old(self) }),
    {
        let mut k: usize = 0;
        assert(self.event_queue@ =~= old(self).event_queue@ + crossings(targets@.take(0), leaving));
        while k < targets.len()
            invariant
                k <= targets.len(),
                self.event_queue@ == old(self).event_queue@ + crossings(
                    targets@.take(k as int),
                    leaving,
                ),
                *self == (Context { event_queue: self.event_queue, ..*old(self) }),
            decreases targets.len() - k,
        {
            proof {
                assert(targets@.take(k + 1).drop_last() =~= targets@.take(k as int));
                assert(targets@.take(k + 1).last() == targets@[k as int]);
            }
            let ghost before = self.event_queue@;
            if leaving {
                self.emit(
                    Event::window(WindowEvent::MouseLeave).target(targets[k]).propagate(
                        Propagation::Direct,
                    ),
                );
                self.emit(
                    Event::window(WindowEvent::MouseOut).target(targets[k]).propagate(
                        Propagation::Direct,
                    ),
                );
            } else {
                self.emit(
                    Event::window(WindowEvent::MouseEnter).target(targets[k]).propagate(
                        Propagation::Direct,
                    ),
                );
                self.emit(
                    Event::window(WindowEvent::MouseOver).target(targets[k]).propagate(
                        Propagation::Direct,
                    ),
                );
            }
            k += 1;
            assert(self.event_queue@ =~= old(self).event_queue@ + crossings(
                targets@.take(k as int),
                leaving,
            ));
        }
        assert(targets@.take(k as int) =~= targets@);
    }

    /// Makes `hit`, the entity that the pointer is over now, the hovered
    /// entity, and queues the events of the change.
    pub fn apply_hover(&mut self, hit: Entity)
        requires
            old(self).wf(),
        ensures
            final(self).event_queue@ == old(self).event_queue@ + hover_events(
                old(self).tree@,
                old(self).hovered,
                hit,
            ),
            *final(self) == (Context {
                event_queue: final(self).event_queue,
                hovered: hit,
                ..*old(self)
            }),
    {
        let prev = self.hovered;
        if prev == hit {
            assert(self.event_queue@ =~= self.event_queue@ + Seq::<Event>::empty());
            return ;
        }
        let up_prev = self.tree.ancestors(prev);
        let up_next = self.tree.ancestors(hit);
        let down_next = propagation_path(&self.tree, hit, Propagation::Down);
        let left = difference(&up_prev, &up_next);
        let entered = difference(&down_next, &up_prev);
        self.emit_crossings(&left, true);
        self.emit_crossings(&entered, false);
        self.hovered = hit;
        assert(self.event_queue@ =~= old(self).event_queue@ + hover_events(
            old(self).tree@,
            old(self).hovered,
            hit,
        ));
    }
}

} // verus!
