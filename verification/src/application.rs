//! The application: a context and the builder of its top-level views.

use crate::context::{Bounds, Color, Context};
use crate::entity::Entity;
use crate::event::Event;
use crate::tree::Node;
use vstd::prelude::*;

verus! {

/// An application with views of type `V` and a builder of type `F`, which
/// populates the tree below the root.
pub struct Application<V, F> {
    pub context: Context<V>,
    pub builder: Option<F>,
}

impl<V, F> Application<V, F> {
    /// An application at startup: the tree holds the root alone, whose
    /// bounds are in the cache; the queue is empty; the pointer is over
    /// the root; nothing is focused; the builder has not run.
    pub fn new(builder: F) -> (app: Application<V, F>)
        ensures
            app.builder == Some(builder),
            app.context.wf(),
            app.context.tree@ == seq![Node { entity: Entity::root(), depth: 0 }],
            app.context.current == Entity::root(),
            app.context.count == 0,
            app.context.views@ == Map::<u32, V>::empty(),
            app.context.style.background_color@ == Map::<u32, Color>::empty(),
            app.context.style.text@ == Map::<u32, String>::empty(),
            app.context.cache@ == Map::<u32, Bounds>::empty().insert(
                0u32,
                Bounds { x: 0, y: 0, w: 0, h: 0 },
            ),
            !app.context.environment.needs_rebuild,
            app.context.event_queue@ == Seq::<Event>::empty(),
            app.context.hovered == Entity::root(),
            app.context.focused == Entity::null(),
            forall|e: Entity| app.context.entity_manager.is_live(e) <==> e == Entity::root(),
    {
        Application { context: Context::new(), builder: Some(builder) }
    }

    /// The same application with `color` as the background of the root.
    pub fn background_color(self, color: Color) -> (app: Application<V, F>)
        ensures
            app.context.style.background_color@ == self.context.style.background_color@.insert(
                0u32,
                color,
            ),
            app.context.style.text == self.context.style.text,
            app.builder == self.builder,
            app.context == (Context { style: app.context.style, ..self.context }),
    {
        let mut app = self;
        app.context.style.background_color.insert(Entity::root(), color);
        app
    }

    /// The same application with `id` as its locale. Views are rebuilt at
    /// the next tick.
    pub fn locale(self, id: &str) -> (app: Application<V, F>)
        ensures
            app.context.environment.locale@ == id@,
            app.context.environment.needs_rebuild,
            app.builder == self.builder,
            app.context == (Context { environment: app.context.environment, ..self.context }),
    {
        let mut app = self;
        app.context.environment.set_locale(id);
        app
    }
}

/// The description that `describe` gives of the view of `entity`, or
/// `None` where the entity has no view.
pub fn debug<V, D: Fn(&V, Entity) -> String>(cx: &Context<V>, entity: Entity, describe: D) -> (s:
    String)
    requires
        forall|v: &V| describe.requires((v, entity)),
    ensures
        cx.views@.contains_key(entity.0) ==> describe.ensures((&cx.views@[entity.0], entity), s),
        !cx.views@.contains_key(entity.0) ==> s@ == "None"@,
{
    match cx.views.get(entity) {
        Some(view) => describe(view, entity),
        None => "None".to_owned(),
    }
}

} // verus!
