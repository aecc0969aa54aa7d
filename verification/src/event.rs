//! Events: what they carry, whom they target and how they travel.

use crate::entity::Entity;
use crate::storage::Sparse;
use crate::tree::{ancestors, occurs, Node, Tree};
use vstd::prelude::*;

verus! {

/// `accesskit::ActionRequest`, a request from an assistive technology. It is
/// declared so that a window event can carry one; nothing is claimed of
/// what it holds.
#[verifier::external_type_specification]
#[verifier::external_body]
pub struct ExActionRequest(accesskit::ActionRequest);

/// `clone` of `accesskit::ActionRequest`, which the derived `Clone` of
/// `WindowEvent` calls. Nothing is claimed of the copy.
pub assume_specification[ <accesskit::ActionRequest as Clone>::clone ](
    request: &accesskit::ActionRequest,
) -> (copy: accesskit::ActionRequest)
;

/// `std::path::PathBuf`, declared so that a drop can carry the path of a
/// file; nothing is claimed of what it holds.
#[verifier::external_type_specification]
#[verifier::external_body]
pub struct ExPathBuf(std::path::PathBuf);

/// `clone` of `std::path::PathBuf`, which the derived `Clone` of `DropData`
/// calls. Nothing is claimed of the copy.
pub assume_specification[ <std::path::PathBuf as Clone>::clone ](
    path: &std::path::PathBuf,
) -> (copy: std::path::PathBuf)
;

/// A button of the pointing device.
#[derive(Clone, Copy, Debug, PartialEq, Eq, Structural)]
pub enum MouseButton {
    Left,
    Right,
    Middle,
    Other(u16),
}

/// Whether a button or key went down or came up.
#[derive(Clone, Copy, Debug, PartialEq, Eq, Structural)]
pub enum MouseButtonState {
    Pressed,
    Released,
}

/// The physical key of a keyboard event, by its number.
#[derive(Clone, Copy, Debug, PartialEq, Eq, Structural)]
pub struct Code(pub u32);

/// The logical key of a keyboard event, by its number.
#[derive(Clone, Copy, Debug, PartialEq, Eq, Structural)]
pub struct Key(pub u32);

/// The shape of the mouse cursor.
#[derive(Clone, Copy, Debug, PartialEq, Eq, Structural)]
pub enum CursorIcon {
    Default,
    Crosshair,
    Hand,
    Arrow,
    Move,
    Text,
    Wait,
    Help,
    Progress,
    NotAllowed,
    Grab,
    Grabbing,
    EResize,
    NResize,
    SResize,
    WResize,
    EwResize,
    NsResize,
    ColResize,
    RowResize,
    Hidden,
}

/// The size of a window in pixels.
#[derive(Clone, Copy, Debug, PartialEq, Eq, Structural)]
pub struct WindowSize {
    pub width: u32,
    pub height: u32,
}

/// The position of a window in pixels.
#[derive(Clone, Copy, Debug, PartialEq, Eq, Structural)]
pub struct Position {
    pub x: u32,
    pub y: u32,
}

/// What changed in an entity's geometry.
#[derive(Clone, Copy, Debug, PartialEq, Eq, Structural)]
pub struct GeoChanged {
    /// The position moved.
    pub position: bool,
    /// The width or the height changed, so descendants need to hear of it.
    pub size: bool,
}

/// What was dropped onto the window.
#[derive(Clone, Debug, PartialEq)]
pub enum DropData {
    /// The path of a dropped file.
    File(std::path::PathBuf),
    /// A dragged entity.
    Id(Entity),
}

impl From<Entity> for DropData {
    fn from(value: Entity) -> (d: DropData) {
        DropData::Id(value)
    }
}

impl vstd::std_specs::convert::FromSpecImpl<Entity> for DropData {
    open spec fn obeys_from_spec() -> bool {
        true
    }

    open spec fn from_spec(value: Entity) -> DropData {
        DropData::Id(value)
    }
}

impl From<std::path::PathBuf> for DropData {
    fn from(value: std::path::PathBuf) -> (d: DropData) {
        DropData::File(value)
    }
}

impl vstd::std_specs::convert::FromSpecImpl<std::path::PathBuf> for DropData {
    open spec fn obeys_from_spec() -> bool {
        true
    }

    open spec fn from_spec(value: std::path::PathBuf) -> DropData {
        DropData::File(value)
    }
}

/// Events that the window produces in answer to the platform, and events
/// that set properties of the window. Pointer coordinates and scroll
/// distances are held as the bit patterns of single-precision numbers.
#[derive(Clone, Debug, PartialEq)]
pub enum WindowEvent {
    WindowClose,
    Drop(DropData),
    MouseDoubleClick(MouseButton),
    MouseTripleClick(MouseButton),
    MouseDown(MouseButton),
    MouseUp(MouseButton),
    Press { mouse: bool },
    PressDown { mouse: bool },
    MouseMove(u32, u32),
    MouseScroll(u32, u32),
    MouseOver,
    MouseOut,
    MouseEnter,
    MouseLeave,
    FocusIn,
    FocusOut,
    CharInput(char),
    KeyDown(Code, Option<Key>),
    KeyUp(Code, Option<Key>),
    SetCursor(CursorIcon),
    GrabCursor(bool),
    SetCursorPosition(u32, u32),
    SetTitle(String),
    SetSize(WindowSize),
    SetPosition(Position),
    SetMaxSize(Option<WindowSize>),
    SetMinSize(Option<WindowSize>),
    SetResizable(bool),
    SetMinimized(bool),
    SetMaximized(bool),
    SetVisible(bool),
    SetDecorations(bool),
    SetAlwaysOnTop(bool),
    MouseCaptureEvent,
    MouseCaptureOutEvent,
    GeometryChanged(GeoChanged),
    Redraw,
    Restyle,
    Relayout,
    Debug(String),
    ActionRequest(accesskit::ActionRequest),
    ReloadStyles,
}

/// What an event carries: a window event, or a message of the
/// application's own, known here by its number alone.
#[derive(Clone, Debug, PartialEq)]
pub enum Message {
    Window(WindowEvent),
    Custom(u64),
}

/// Which entities besides the target receive an event, and in what order.
#[derive(Clone, Copy, Debug, PartialEq, Eq, Structural)]
pub enum Propagation {
    /// From the root down to the target.
    Down,
    /// From the target up to the root.
    Up,
    /// From the root down to the target, then from the target up to the root.
    DownUp,
    /// To the target alone.
    Direct,
}

/// A message on its way: payload, target and propagation policy.
#[derive(Clone, Debug, PartialEq)]
pub struct Event {
    pub message: Message,
    pub target: Entity,
    pub propagation: Propagation,
    pub consumed: bool,
}

impl Event {
    /// An event that carries `message`, targets no entity yet and bubbles up.
    pub fn new(message: Message) -> (e: Event)
        ensures
            e.message == message,
            e.target == Entity::null(),
            e.propagation == Propagation::Up,
            !e.consumed,
    {
        Event { message, target: Entity::null(), propagation: Propagation::Up, consumed: false }
    }

    /// An event that carries the window event `w`.
    pub fn window(w: WindowEvent) -> (e: Event)
        ensures
            e.message == Message::Window(w),
            e.target == Entity::null(),
            e.propagation == Propagation::Up,
            !e.consumed,
    {
        Event::new(Message::Window(w))
    }

    /// The same event, aimed at `entity`.
    pub fn target(self, entity: Entity) -> (e: Event)
        ensures
            e == (Event { target: entity, ..self }),
    {
        Event { target: entity, ..self }
    }

    /// The same event, travelling by `propagation`.
    pub fn propagate(self, propagation: Propagation) -> (e: Event)
        ensures
            e == (Event { propagation, ..self }),
    {
        Event { propagation, ..self }
    }

    /// Marks the event as consumed, which ends its delivery.
    pub fn consume(&mut self)
        ensures
            *final(self) == (Event { consumed: true, ..*old(self) }),
    {
        self.consumed = true;
    }
}

/// A sequence back to front.
pub open spec fn reversed(a: Seq<Entity>) -> Seq<Entity> {
    Seq::new(a.len(), |k: int| a[a.len() - 1 - k])
}

/// The entities that an event aimed at `target` visits in the tree `s`, in
/// order, as long as nobody consumes it. An event aimed at an entity
/// outside the tree visits nobody.
pub open spec fn path(s: Seq<Node>, target: Entity, propagation: Propagation) -> Seq<Entity> {
    match propagation {
        Propagation::Direct => if occurs(s, target) {
            seq![target]
        } else {
            Seq::empty()
        },
        Propagation::Up => ancestors(s, target),
        Propagation::Down => reversed(ancestors(s, target)),
        Propagation::DownUp => reversed(ancestors(s, target)) + ancestors(s, target),
    }
}

/// Computes the path of an event through the tree.
pub fn propagation_path(tree: &Tree, target: Entity, propagation: Propagation) -> (v: Vec<Entity>)
    requires
        tree.wf(),
    ensures
        v@ == path(tree@, target, propagation),
{
    let up = tree.ancestors(target);
    match propagation {
        Propagation::Up => up,
        Propagation::Direct => {
            let mut out: Vec<Entity> = Vec::new();
            if up.len() > 0 {
                out.push(target);
            }
            proof {
                if occurs(tree@, target) {
                    crate::tree::lemma_chain_ends(tree@, crate::tree::position(tree@, target));
                }
            }
            out
        },
        Propagation::Down => reverse(&up),
        Propagation::DownUp => {
            let mut out = reverse(&up);
            let mut k: usize = 0;
            while k < up.len()
                invariant
                    k <= up.len(),
                    out@ == reversed(up@) + up@.subrange(0, k as int),
                decreases up.len() - k,
            {
                out.push(up[k]);
                k += 1;
                assert(out@ =~= reversed(up@) + up@.subrange(0, k as int));
            }
            assert(up@.subrange(0, k as int) =~= up@);
            out
        },
    }
}

fn reverse(a: &Vec<Entity>) -> (out: Vec<Entity>)
    ensures
        out@ == reversed(a@),
{
    let n: usize = a.len();
    let mut out: Vec<Entity> = Vec::new();
    let mut k: usize = 0;
    while k < n
        invariant
            n == a.len(),
            k <= n,
            out.len() == k,
            forall|j: int| 0 <= j < k ==> out@[j] == a@[n - 1 - j],
        decreases n - k,
    {
        out.push(a[n - 1 - k]);
        k += 1;
    }
    assert(out@ =~= reversed(a@));
    out
}

/// The first position at or after `from` on `route` whose entity has a
/// view, or the length of the route.
pub open spec fn next_with_view<V>(route: Seq<Entity>, from: int, views: Map<u32, V>) -> int
    decreases route.len() - from,
{
    if from < 0 || from >= route.len() {
        route.len() as int
    } else if views.contains_key(route[from].0) {
        from
    } else {
        next_with_view(route, from + 1, views)
    }
}

/// The walk of one event along its path. The application calls the view of
/// `current`, then `advance` with what the handler did to the event, until
/// `current` is none.
pub struct Delivery {
    path: Vec<Entity>,
    next: usize,
    halted: bool,
}

impl Delivery {
    /// The whole path of the event.
    pub closed spec fn route(&self) -> Seq<Entity> {
        self.path@
    }

    /// How many steps were delivered.
    pub closed spec fn steps(&self) -> nat {
        self.next as nat
    }

    /// Whether the event was consumed.
    pub closed spec fn halted(&self) -> bool {
        self.halted
    }

    pub open spec fn wf(&self) -> bool {
        self.steps() <= self.route().len()
    }

    /// The entities visited so far, in order.
    pub open spec fn visited(&self) -> Seq<Entity> {
        self.route().take(self.steps() as int)
    }

    /// The entity whose view is called next, if any.
    pub open spec fn pending(&self) -> Option<Entity> {
        if !self.halted() && self.steps() < self.route().len() {
            Some(self.route()[self.steps() as int])
        } else {
            None
        }
    }

    /// Begins the delivery of `event` in `tree`. An event that is consumed
    /// already visits nobody.
    pub fn start(tree: &Tree, event: &Event) -> (d: Delivery)
        requires
            tree.wf(),
        ensures
            d.wf(),
            d.route() == path(tree@, event.target, event.propagation),
            d.steps() == 0,
            d.halted() == event.consumed,
    {
        Delivery {
            path: propagation_path(tree, event.target, event.propagation),
            next: 0,
            halted: event.consumed,
        }
    }

    pub fn current(&self) -> (r: Option<Entity>)
        requires
            self.wf(),
        ensures
            r == self.pending(),
    {
        if !self.halted && self.next < self.path.len() {
            Some(self.path[self.next])
        } else {
            None
        }
    }

    /// Passes over the entities that have no view, which get nothing, and
    /// returns the next entity on the path that has one. None is left
    /// where the event was consumed or no later entity has a view.
    pub fn seek<V>(&mut self, views: &Sparse<V>) -> (r: Option<Entity>)
        requires
            old(self).wf(),
        ensures
            final(self).wf(),
            final(self).route() == old(self).route(),
            final(self).halted() == old(self).halted(),
            old(self).halted() ==> r.is_none() && final(self).steps() == old(self).steps(),
            !old(self).halted() ==> final(self).steps() == next_with_view(
                old(self).route(),
                old(self).steps() as int,
                views@,
            ) && r == final(self).pending(),
            r.is_some() ==> views@.contains_key(r.unwrap().0),
    {
        if self.halted {
            return None;
        }
        while self.next < self.path.len() && !views.contains(self.path[self.next])
            invariant
                self.next <= self.path.len(),
                self.path == old(self).path,
                self.halted == old(self).halted,
                !self.halted,
                next_with_view(self.path@, self.next as int, views@) == next_with_view(
                    old(self).path@,
                    old(self).next as int,
                    views@,
                ),
            decreases self.path.len() - self.next,
        {
            self.next = self.next + 1;
        }
        if self.next < self.path.len() {
            Some(self.path[self.next])
        } else {
            None
        }
    }

    /// Records that the view of `current` was called and whether it
    /// consumed the event. Once the event is consumed, or the path is at
    /// its end, nothing is pending and `advance` changes nothing.
    pub fn advance(&mut self, consumed: bool)
        requires
            old(self).wf(),
        ensures
            final(self).wf(),
            final(self).route() == old(self).route(),
            old(self).pending().is_some() ==> final(self).steps() == old(self).steps() + 1
                && final(self).halted() == consumed && final(self).visited() == old(self).visited().push(old(self).pending().unwrap()),
            old(self).pending().is_none() ==> final(self).steps() == old(self).steps()
                && final(self).halted() == old(self).halted(),
            consumed ==> final(self).pending().is_none(),
    {
        if !self.halted && self.next < self.path.len() {
            self.next = self.next + 1;
            self.halted = consumed;
            assert(self.visited() =~= old(self).visited().push(old(self).pending().unwrap()));
        }
    }
}

/// The shape of a path to an entity of the tree: bubbling starts at the
/// target and ends at the root, capturing is the same walk backwards, and
/// an event that goes down and up walks the capturing path, then the
/// bubbling path.
pub proof fn lemma_path_shapes(s: Seq<Node>, target: Entity)
    requires
        crate::tree::well_formed(s),
        occurs(s, target),
    ensures
        path(s, target, Propagation::Up) == ancestors(s, target),
        path(s, target, Propagation::Up).len() >= 1,
        path(s, target, Propagation::Up)[0] == target,
        path(s, target, Propagation::Up).last() == Entity::root(),
        path(s, target, Propagation::Down) == reversed(path(s, target, Propagation::Up)),
        path(s, target, Propagation::Down)[0] == Entity::root(),
        path(s, target, Propagation::Down).last() == target,
        path(s, target, Propagation::DownUp) == path(s, target, Propagation::Down) + path(
            s,
            target,
            Propagation::Up,
        ),
        path(s, target, Propagation::Direct) == seq![target],
{
    crate::tree::lemma_all_reachable(s, target);
}

/// Once an event is consumed, or its path is at its end, no further call
/// of `advance` makes it visit anybody: the entities visited are the path
/// up to and including the step that consumed it.
pub proof fn lemma_consumed_stays(before: Delivery, after: Delivery)
    requires
        before.wf(),
        before.pending().is_none(),
        after.route() == before.route(),
        after.steps() == before.steps(),
        after.halted() == before.halted(),
    ensures
        after.pending().is_none(),
        after.visited() == before.visited(),
{
}

} // verus!
