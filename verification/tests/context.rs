use vizia_runtime::application::{debug, Application};
use vizia_runtime::context::{Bounds, Color, Context, Cursor};
use vizia_runtime::data::Data;
use vizia_runtime::entity::Entity;
use vizia_runtime::event::{
    Code, Delivery, Event, Key, Message, MouseButton, MouseButtonState, Propagation, WindowEvent,
};
use vizia_runtime::frame::{Frame, Phase};
use vizia_runtime::storage::Sparse;
use vizia_runtime::tree::TreeError;

struct Label(&'static str);

fn describe(view: &Label, entity: Entity) -> String {
    format!("{} {}", view.0, entity.0)
}

fn direct(w: WindowEvent, target: Entity) -> Event {
    Event::new(Message::Window(w)).target(target).propagate(Propagation::Direct)
}

fn two_children() -> Context<Label> {
    let mut cx: Context<Label> = Context::new();
    for id in [1u32, 2] {
        let e = cx.entity_manager.create();
        assert_eq!(e, Entity(id));
        cx.tree.insert(Entity::root(), e).unwrap();
        cx.checkin(e, Label("child"));
    }
    cx
}

#[test]
fn application_starts_with_the_root_alone() {
    let app: Application<Label, u8> = Application::new(7u8);
    assert_eq!(app.builder, Some(7u8));
    let cx = &app.context;
    assert_eq!(cx.tree.iter(), vec![Entity::root()]);
    assert_eq!(cx.current, Entity::root());
    assert_eq!(cx.count, 0);
    assert_eq!(cx.hovered, Entity::root());
    assert_eq!(cx.focused, Entity::null());
    assert!(cx.event_queue.is_empty());
    assert!(!cx.environment.needs_rebuild);
    assert_eq!(cx.cache.get(Entity::root()), Some(&Bounds { x: 0, y: 0, w: 0, h: 0 }));
    assert!(cx.entity_manager.contains(Entity::root()));
    assert!(!cx.entity_manager.contains(Entity(1)));
    assert!(!cx.views.contains(Entity::root()));
}

#[test]
fn background_color_styles_the_root() {
    let app: Application<Label, ()> = Application::new(()).background_color(Color::rgba(1, 2, 3, 4));
    assert_eq!(
        app.context.style.background_color.get(Entity::root()),
        Some(&Color { r: 1, g: 2, b: 3, a: 4 })
    );
    assert!(!app.context.environment.needs_rebuild);
    assert_eq!(Color::default(), Color { r: 0, g: 0, b: 0, a: 0 });
    assert_eq!(Color::white(), Color { r: 255, g: 255, b: 255, a: 255 });
    assert_eq!(Color::black(), Color { r: 0, g: 0, b: 0, a: 255 });
}

#[test]
fn locale_asks_for_a_rebuild() {
    let app: Application<Label, ()> = Application::new(()).locale("fr");
    assert_eq!(app.context.environment.locale, "fr");
    assert!(app.context.environment.needs_rebuild);
    let app = app.locale("de").locale("en-US");
    assert_eq!(app.context.environment.locale, "en-US");
    assert!(app.context.environment.needs_rebuild);
}

#[test]
fn debug_describes_a_view_or_says_none() {
    let cx = two_children();
    assert_eq!(debug(&cx, Entity(2), describe), "child 2");
    assert_eq!(debug(&cx, Entity(9), describe), "None");
    assert_eq!(debug(&cx, Entity::root(), describe), "None");
}

#[test]
fn sparse_storage_attaches_and_releases() {
    let mut s: Sparse<u8> = Sparse::new();
    assert_eq!(s.insert(Entity(1), 10), None);
    assert_eq!(s.insert(Entity(1), 11), Some(10));
    assert_eq!(s.insert(Entity(2), 20), None);
    assert_eq!(s.insert(Entity(3), 30), None);
    assert!(s.contains(Entity(1)));
    assert_eq!(s.get(Entity(2)), Some(&20));
    s.release(&vec![Entity(1), Entity(3), Entity(8)]);
    assert!(!s.contains(Entity(1)));
    assert!(!s.contains(Entity(3)));
    assert_eq!(s.get(Entity(2)), Some(&20));
    assert_eq!(s.remove(Entity(2)), Some(20));
    assert_eq!(s.remove(Entity(2)), None);
}

#[test]
fn removal_releases_everything_attached() {
    let mut cx = two_children();
    let g = cx.entity_manager.create();
    assert_eq!(g, Entity(3));
    cx.tree.insert(Entity(1), g).unwrap();
    cx.checkin(g, Label("grandchild"));
    for id in [1u32, 2, 3] {
        cx.style.background_color.insert(Entity(id), Color::white());
        cx.style.text.insert(Entity(id), String::from("t"));
        cx.cache.insert(Entity(id), Bounds { x: 1, y: 2, w: 3, h: 4 });
        cx.data.add_model(Entity(id), vec![Entity(2)]);
    }
    assert_eq!(cx.remove(Entity(1)), Ok(vec![Entity(1), Entity(3)]));
    assert_eq!(cx.tree.iter(), vec![Entity(0), Entity(2)]);
    for id in [1u32, 3] {
        let e = Entity(id);
        assert!(!cx.tree.contains(e));
        assert!(!cx.views.contains(e));
        assert!(!cx.style.background_color.contains(e));
        assert!(!cx.style.text.contains(e));
        assert!(!cx.cache.contains(e));
        assert!(!cx.entity_manager.contains(e));
        assert!(!cx.data.mark_dirty(e, 0));
    }
    let kept = Entity(2);
    assert!(cx.views.contains(kept));
    assert!(cx.style.background_color.contains(kept));
    assert!(cx.style.text.contains(kept));
    assert!(cx.cache.contains(kept));
    assert!(cx.cache.contains(Entity::root()));
    assert!(cx.entity_manager.contains(kept));
    assert!(cx.data.mark_dirty(kept, 0));
}

#[test]
fn removal_of_a_stranger_changes_nothing() {
    let mut cx = two_children();
    assert_eq!(cx.remove(Entity(9)), Err(TreeError::NotFound));
    assert_eq!(cx.remove(Entity::root()), Err(TreeError::Root));
    assert_eq!(cx.tree.iter(), vec![Entity(0), Entity(1), Entity(2)]);
    assert!(cx.views.contains(Entity(1)) && cx.views.contains(Entity(2)));
}

#[test]
fn checkout_and_checkin() {
    let mut cx = two_children();
    let view = cx.checkout(Entity(1));
    assert!(view.is_some());
    assert!(!cx.views.contains(Entity(1)));
    assert!(cx.checkout(Entity(1)).is_none());
    let saved = cx.enter(Entity(1));
    assert_eq!(saved, Cursor { current: Entity::root(), count: 0 });
    assert_eq!(cx.current, Entity(1));
    cx.count = 5;
    let inner = cx.enter(Entity(2));
    assert_eq!(inner, Cursor { current: Entity(1), count: 5 });
    assert_eq!(cx.count, 0);
    cx.leave(inner);
    assert_eq!((cx.current, cx.count), (Entity(1), 5));
    cx.leave(saved);
    assert_eq!((cx.current, cx.count), (Entity::root(), 0));
    cx.checkin(Entity(1), view.unwrap());
    assert!(cx.views.contains(Entity(1)));
}

#[test]
fn the_queue_is_first_in_first_out() {
    let mut cx = two_children();
    cx.emit(Event::new(Message::Custom(1)));
    cx.emit(Event::new(Message::Custom(2)));
    assert_eq!(cx.next_event(), Some(Event::new(Message::Custom(1))));
    cx.emit(Event::new(Message::Custom(3)));
    assert_eq!(cx.next_event(), Some(Event::new(Message::Custom(2))));
    assert_eq!(cx.next_event(), Some(Event::new(Message::Custom(3))));
    assert_eq!(cx.next_event(), None);
}

#[test]
fn flushing_an_empty_queue_changes_nothing() {
    let mut cx = two_children();
    cx.hovered = Entity(2);
    assert_eq!(cx.next_event(), None);
    assert_eq!(cx.next_event(), None);
    assert!(cx.event_queue.is_empty());
    assert_eq!(cx.tree.iter(), vec![Entity(0), Entity(1), Entity(2)]);
    assert_eq!(cx.hovered, Entity(2));
    assert_eq!(cx.current, Entity::root());
    assert!(cx.views.contains(Entity(1)) && cx.views.contains(Entity(2)));
    let mut frame = Frame::begin(&mut cx);
    assert_eq!(frame.phase(), Phase::Flush);
    assert_eq!(frame.next_event(&mut cx), None);
    assert_eq!(frame.phase(), Phase::Update);
    assert!(cx.event_queue.is_empty());
}

#[test]
fn mouse_buttons_target_the_hovered_entity() {
    let mut cx = two_children();
    cx.hovered = Entity(2);
    cx.mouse_input(MouseButton::Left, MouseButtonState::Pressed);
    cx.mouse_input(MouseButton::Right, MouseButtonState::Released);
    assert_eq!(
        cx.next_event(),
        Some(Event {
            message: Message::Window(WindowEvent::MouseDown(MouseButton::Left)),
            target: Entity(2),
            propagation: Propagation::Up,
            consumed: false,
        })
    );
    assert_eq!(
        cx.next_event(),
        Some(Event {
            message: Message::Window(WindowEvent::MouseUp(MouseButton::Right)),
            target: Entity(2),
            propagation: Propagation::Up,
            consumed: false,
        })
    );
}

#[test]
fn keys_fall_back_to_the_hovered_entity() {
    // Nothing focused, pointer over an entity: the key goes there, down and up again.
    let mut cx = two_children();
    let x = cx.entity_manager.create();
    cx.tree.insert(Entity(1), x).unwrap();
    cx.hovered = x;
    assert_eq!(cx.focused, Entity::null());
    cx.keyboard_input(Code(30), Some(Key(97)), MouseButtonState::Pressed);
    let event = cx.next_event().unwrap();
    assert_eq!(event.message, Message::Window(WindowEvent::KeyDown(Code(30), Some(Key(97)))));
    assert_eq!(event.target, x);
    assert_eq!(event.propagation, Propagation::DownUp);
    let mut d = Delivery::start(&cx.tree, &event);
    let mut seen = Vec::new();
    while let Some(e) = d.current() {
        seen.push(e.0);
        d.advance(false);
    }
    assert_eq!(seen, vec![0, 1, 3, 3, 1, 0]);
}

#[test]
fn keys_target_the_focused_entity() {
    let mut cx = two_children();
    cx.hovered = Entity(2);
    cx.focused = Entity(1);
    cx.keyboard_input(Code(30), None, MouseButtonState::Released);
    let event = cx.next_event().unwrap();
    assert_eq!(event.message, Message::Window(WindowEvent::KeyUp(Code(30), None)));
    assert_eq!(event.target, Entity(1));
    assert_eq!(event.propagation, Propagation::DownUp);
}

#[test]
fn characters_target_the_focused_entity() {
    let mut cx = two_children();
    cx.hovered = Entity(2);
    cx.focused = Entity(1);
    cx.character_input('x');
    assert_eq!(
        cx.next_event(),
        Some(Event {
            message: Message::Window(WindowEvent::CharInput('x')),
            target: Entity(1),
            propagation: Propagation::Down,
            consumed: false,
        })
    );
}

#[test]
fn cursor_moves_are_recorded() {
    let mut cx = two_children();
    cx.cursor_moved(1.5f32.to_bits(), 2.5f32.to_bits());
    assert_eq!(f32::from_bits(cx.mouse.cursorx), 1.5);
    assert_eq!(f32::from_bits(cx.mouse.cursory), 2.5);
    assert!(cx.event_queue.is_empty());
}

fn drain(cx: &mut Context<Label>) -> Vec<Event> {
    let mut out = Vec::new();
    while let Some(e) = cx.next_event() {
        out.push(e);
    }
    out
}

#[test]
fn pointer_moves_from_one_child_to_the_other() {
    let mut cx = two_children();
    let (a, b) = (Entity(1), Entity(2));
    cx.apply_hover(a);
    assert_eq!(cx.hovered, a);
    let first = drain(&mut cx);
    let enter_a = first.iter().position(|e| *e == direct(WindowEvent::MouseEnter, a)).unwrap();
    let over_a = first.iter().position(|e| *e == direct(WindowEvent::MouseOver, a)).unwrap();
    assert!(enter_a < over_a);
    assert_eq!(first, vec![direct(WindowEvent::MouseEnter, a), direct(WindowEvent::MouseOver, a)]);
    cx.apply_hover(b);
    assert_eq!(cx.hovered, b);
    assert_eq!(
        drain(&mut cx),
        vec![
            direct(WindowEvent::MouseLeave, a),
            direct(WindowEvent::MouseOut, a),
            direct(WindowEvent::MouseEnter, b),
            direct(WindowEvent::MouseOver, b),
        ]
    );
    cx.apply_hover(b);
    assert!(cx.event_queue.is_empty());
}

#[test]
fn hover_enters_outermost_first_and_leaves_innermost_first() {
    let mut cx = two_children();
    let g = cx.entity_manager.create();
    cx.tree.insert(Entity(1), g).unwrap();
    cx.apply_hover(g);
    assert_eq!(
        drain(&mut cx),
        vec![
            direct(WindowEvent::MouseEnter, Entity(1)),
            direct(WindowEvent::MouseOver, Entity(1)),
            direct(WindowEvent::MouseEnter, g),
            direct(WindowEvent::MouseOver, g),
        ]
    );
    cx.apply_hover(Entity(2));
    assert_eq!(
        drain(&mut cx),
        vec![
            direct(WindowEvent::MouseLeave, g),
            direct(WindowEvent::MouseOut, g),
            direct(WindowEvent::MouseLeave, Entity(1)),
            direct(WindowEvent::MouseOut, Entity(1)),
            direct(WindowEvent::MouseEnter, Entity(2)),
            direct(WindowEvent::MouseOver, Entity(2)),
        ]
    );
    // Moving to an ancestor leaves the descendant and enters nothing.
    cx.apply_hover(g);
    drain(&mut cx);
    cx.apply_hover(Entity(1));
    assert_eq!(
        drain(&mut cx),
        vec![direct(WindowEvent::MouseLeave, g), direct(WindowEvent::MouseOut, g)]
    );
}

#[test]
fn rebuild_comes_before_the_flush() {
    let mut cx = two_children();
    cx.emit(Event::new(Message::Custom(1)));
    cx.environment.set_locale("fr");
    cx.environment.set_locale("de");
    cx.current = Entity(2);
    cx.count = 3;
    let mut frame = Frame::begin(&mut cx);
    assert_eq!(frame.phase(), Phase::Rebuild);
    assert_eq!((cx.current, cx.count), (Entity::root(), 0));
    // No event leaves the queue before the rebuild is reported.
    assert_eq!(frame.next_event(&mut cx), None);
    assert_eq!(frame.next_update(&mut cx), None);
    assert_eq!(frame.advance(), Phase::Rebuild);
    assert_eq!(cx.event_queue.len(), 1);
    assert!(cx.environment.needs_rebuild);
    frame.rebuilt(&mut cx);
    assert!(!cx.environment.needs_rebuild);
    assert_eq!(cx.environment.locale, "de");
    assert_eq!(frame.phase(), Phase::Flush);
    assert_eq!(frame.next_event(&mut cx), Some(Event::new(Message::Custom(1))));
    assert_eq!(frame.phase(), Phase::Flush);
    assert_eq!(frame.next_event(&mut cx), None);
    assert_eq!(frame.phase(), Phase::Update);
}

#[test]
fn a_tick_runs_its_phases_in_order() {
    let mut cx = two_children();
    let mut frame = Frame::begin(&mut cx);
    assert_eq!(frame.phase(), Phase::Flush);
    frame.rebuilt(&mut cx);
    assert_eq!(frame.phase(), Phase::Flush);
    assert_eq!(frame.next_update(&mut cx), None);
    cx.data.add_model(Entity(1), vec![Entity(2)]);
    cx.data.mark_dirty(Entity(1), 0);
    assert_eq!(frame.next_event(&mut cx), None);
    // The walk goes over the tree as it was when the queue ran empty.
    cx.remove(Entity(2)).unwrap();
    assert_eq!(frame.next_update(&mut cx), Some(vec![]));
    assert_eq!(frame.next_event(&mut cx), None);
    assert_eq!(frame.next_update(&mut cx), Some(vec![Entity(2)]));
    // Still dirty while its observers are rebuilt, clean with the next step.
    assert!(cx.data.is_dirty(Entity(1), 0));
    assert_eq!(frame.next_update(&mut cx), Some(vec![]));
    assert!(!cx.data.is_dirty(Entity(1), 0));
    assert_eq!(frame.phase(), Phase::Update);
    assert_eq!(frame.next_update(&mut cx), None);
    assert_eq!(frame.phase(), Phase::Style);
    assert_eq!(frame.advance(), Phase::Layout);
    assert_eq!(frame.advance(), Phase::Redraw);
    assert_eq!(frame.advance(), Phase::Done);
    assert_eq!(frame.advance(), Phase::Done);
    assert_eq!(frame.next_update(&mut cx), None);
}

#[test]
fn a_dirty_model_is_clean_after_its_observers_were_told() {
    let mut cx = two_children();
    let index = cx.data.add_model(Entity(1), vec![Entity(2), Entity(1)]);
    assert_eq!(index, 0);
    assert!(!cx.data.is_dirty(Entity(1), 0));
    assert!(cx.data.observers_due(Entity(1)).is_empty());
    assert!(cx.data.mark_dirty(Entity(1), 0));
    assert!(cx.data.is_dirty(Entity(1), 0));
    let mut rebuilt: Vec<Entity> = Vec::new();
    let mut frame = Frame::begin(&mut cx);
    while let Some(_event) = frame.next_event(&mut cx) {}
    while let Some(observers) = frame.next_update(&mut cx) {
        for observer in observers {
            if let Some(view) = cx.checkout(observer) {
                let saved = cx.enter(observer);
                rebuilt.push(observer);
                cx.leave(saved);
                cx.checkin(observer, view);
            }
        }
    }
    assert_eq!(frame.phase(), Phase::Style);
    assert_eq!(rebuilt, vec![Entity(2), Entity(1)]);
    assert!(!cx.data.is_dirty(Entity(1), 0));
    assert!(cx.data.observers_due(Entity(1)).is_empty());
}

#[test]
fn only_the_dirty_model_tells_its_observers() {
    let mut data = Data::new();
    let e = Entity(4);
    assert_eq!(data.add_model(e, vec![Entity(1)]), 0);
    assert_eq!(data.add_model(e, vec![Entity(2), Entity(3)]), 1);
    assert!(data.mark_dirty(e, 1));
    assert!(!data.mark_dirty(e, 2));
    assert!(!data.mark_dirty(Entity(5), 0));
    assert_eq!(data.observers_due(e), vec![Entity(2), Entity(3)]);
    assert_eq!(data.observers_due(e), vec![Entity(2), Entity(3)]);
    data.reset(e);
    assert!(!data.is_dirty(e, 0));
    assert!(!data.is_dirty(e, 1));
    assert!(data.observers_due(e).is_empty());
    // The observers outlive the reset.
    assert!(data.mark_dirty(e, 0));
    assert!(data.mark_dirty(e, 1));
    assert_eq!(data.observers_due(e), vec![Entity(1), Entity(2), Entity(3)]);
    data.reset(Entity(9));
    assert!(data.observers_due(Entity(9)).is_empty());
    data.release(&vec![e]);
    assert!(data.observers_due(e).is_empty());
    assert!(!data.is_dirty(e, 0));
}

#[test]
fn two_models_one_dirty_in_a_tick() {
    let mut cx = two_children();
    cx.data.add_model(Entity(1), vec![Entity(1)]);
    cx.data.add_model(Entity(1), vec![Entity(2)]);
    assert!(cx.data.mark_dirty(Entity(1), 1));
    let mut frame = Frame::begin(&mut cx);
    assert_eq!(frame.next_event(&mut cx), None);
    let mut told: Vec<Entity> = Vec::new();
    while let Some(observers) = frame.next_update(&mut cx) {
        told.extend(observers);
    }
    assert_eq!(told, vec![Entity(2)]);
    assert!(!cx.data.is_dirty(Entity(1), 0));
    assert!(!cx.data.is_dirty(Entity(1), 1));
    // The clean model is as it was: dirtied now, it names its observer.
    assert!(cx.data.mark_dirty(Entity(1), 0));
    assert_eq!(cx.data.observers_due(Entity(1)), vec![Entity(1)]);
}

#[test]
fn entities_without_a_view_are_passed_over() {
    let mut cx = two_children();
    let g = cx.entity_manager.create();
    cx.tree.insert(Entity(1), g).unwrap();
    // The root and the grandchild have no view; the child has one.
    let event = Event::new(Message::Custom(1)).target(g).propagate(Propagation::DownUp);
    let mut d = Delivery::start(&cx.tree, &event);
    let mut called = Vec::new();
    while let Some(e) = d.seek(&cx.views) {
        assert_eq!(d.current(), Some(e));
        called.push(e);
        d.advance(false);
    }
    assert_eq!(called, vec![Entity(1), Entity(1)]);
    assert_eq!(d.current(), None);

    let stranger = Event::new(Message::Custom(1)).target(Entity(2)).propagate(Propagation::Up);
    cx.checkout(Entity(2));
    let mut d = Delivery::start(&cx.tree, &stranger);
    assert_eq!(d.seek(&cx.views), None);
    assert_eq!(d.current(), None);

    let mut d = Delivery::start(&cx.tree, &event);
    assert_eq!(d.seek(&cx.views), Some(Entity(1)));
    d.advance(true);
    assert_eq!(d.seek(&cx.views), None);
}
