use vizia_runtime::entity::Entity;
use vizia_runtime::event::{
    propagation_path, Code, Delivery, DropData, Event, Key, Message, MouseButton, Propagation,
    WindowEvent,
};
use vizia_runtime::tree::Tree;

fn chain_tree() -> Tree {
    // root -> 1 -> 2 -> 3, root -> 4
    let mut t = Tree::new();
    t.insert(Entity::root(), Entity(1)).unwrap();
    t.insert(Entity(1), Entity(2)).unwrap();
    t.insert(Entity(2), Entity(3)).unwrap();
    t.insert(Entity::root(), Entity(4)).unwrap();
    t
}

fn ids(v: &[Entity]) -> Vec<u32> {
    v.iter().map(|e| e.0).collect()
}

#[test]
fn a_new_event_bubbles_from_nobody() {
    let e = Event::new(Message::Custom(9));
    assert_eq!(e.target, Entity::null());
    assert_eq!(e.propagation, Propagation::Up);
    assert!(!e.consumed);
    assert_eq!(e.message, Message::Custom(9));
    let e = e.target(Entity(3)).propagate(Propagation::Direct);
    assert_eq!(e.target, Entity(3));
    assert_eq!(e.propagation, Propagation::Direct);
    assert_eq!(e.message, Message::Custom(9));
    let mut e = e;
    e.consume();
    assert!(e.consumed);
    assert_eq!(e.target, Entity(3));
}

#[test]
fn up_visits_the_ancestor_chain() {
    let t = chain_tree();
    assert_eq!(ids(&propagation_path(&t, Entity(3), Propagation::Up)), vec![3, 2, 1, 0]);
    assert_eq!(ids(&propagation_path(&t, Entity(0), Propagation::Up)), vec![0]);
}

#[test]
fn down_visits_the_chain_in_reverse() {
    let t = chain_tree();
    assert_eq!(ids(&propagation_path(&t, Entity(3), Propagation::Down)), vec![0, 1, 2, 3]);
    assert_eq!(ids(&propagation_path(&t, Entity(4), Propagation::Down)), vec![0, 4]);
}

#[test]
fn down_up_is_down_then_up() {
    let t = chain_tree();
    assert_eq!(
        ids(&propagation_path(&t, Entity(2), Propagation::DownUp)),
        vec![0, 1, 2, 2, 1, 0]
    );
    let mut both = propagation_path(&t, Entity(3), Propagation::Down);
    both.extend(propagation_path(&t, Entity(3), Propagation::Up));
    assert_eq!(propagation_path(&t, Entity(3), Propagation::DownUp), both);
}

#[test]
fn direct_visits_the_target_alone() {
    let t = chain_tree();
    assert_eq!(ids(&propagation_path(&t, Entity(2), Propagation::Direct)), vec![2]);
}

#[test]
fn an_event_for_a_stranger_visits_nobody() {
    let t = chain_tree();
    for p in [Propagation::Up, Propagation::Down, Propagation::DownUp, Propagation::Direct] {
        assert!(propagation_path(&t, Entity(77), p).is_empty());
        assert!(propagation_path(&t, Entity::null(), p).is_empty());
        let d = Delivery::start(&t, &Event::new(Message::Custom(0)).target(Entity(77)).propagate(p));
        assert_eq!(d.current(), None);
    }
}

fn walk(t: &Tree, e: &Event, consume_at: Option<usize>) -> Vec<u32> {
    let mut d = Delivery::start(t, e);
    let mut seen = Vec::new();
    let mut step = 0usize;
    while let Some(entity) = d.current() {
        seen.push(entity.0);
        d.advance(consume_at == Some(step));
        step += 1;
    }
    d.advance(false);
    assert_eq!(d.current(), None);
    seen
}

#[test]
fn an_unconsumed_event_walks_its_whole_path() {
    let t = chain_tree();
    let e = Event::new(Message::Custom(1)).target(Entity(3)).propagate(Propagation::Up);
    assert_eq!(walk(&t, &e, None), vec![3, 2, 1, 0]);
}

#[test]
fn consuming_halts_the_walk() {
    let t = chain_tree();
    let up = Event::new(Message::Custom(1)).target(Entity(3)).propagate(Propagation::Up);
    assert_eq!(walk(&t, &up, Some(0)), vec![3]);
    assert_eq!(walk(&t, &up, Some(1)), vec![3, 2]);
    assert_eq!(walk(&t, &up, Some(3)), vec![3, 2, 1, 0]);
    let down = Event::new(Message::Custom(1)).target(Entity(3)).propagate(Propagation::Down);
    assert_eq!(walk(&t, &down, Some(1)), vec![0, 1]);
    let both = Event::new(Message::Custom(1)).target(Entity(2)).propagate(Propagation::DownUp);
    assert_eq!(walk(&t, &both, Some(4)), vec![0, 1, 2, 2, 1]);
}

#[test]
fn a_consumed_event_is_not_delivered() {
    let t = chain_tree();
    let mut e = Event::new(Message::Custom(1)).target(Entity(3));
    e.consume();
    assert_eq!(walk(&t, &e, None), Vec::<u32>::new());
}

#[test]
fn drop_data_from_its_parts() {
    assert_eq!(DropData::from(Entity(5)), DropData::Id(Entity(5)));
    let path = std::path::PathBuf::from("/tmp/a.txt");
    assert_eq!(DropData::from(path.clone()), DropData::File(path.clone()));
    assert_ne!(DropData::from(path.clone()), DropData::Id(Entity(5)));
    let dropped = WindowEvent::Drop(DropData::from(path.clone()));
    assert_eq!(dropped.clone(), WindowEvent::Drop(DropData::File(path)));
}

#[test]
fn window_events_compare_and_clone() {
    let a = WindowEvent::KeyDown(Code(30), Some(Key(97)));
    assert_eq!(a.clone(), a);
    assert_ne!(a, WindowEvent::KeyUp(Code(30), Some(Key(97))));
    assert_ne!(WindowEvent::MouseDown(MouseButton::Left), WindowEvent::MouseDown(MouseButton::Other(4)));
    let request = accesskit::ActionRequest {
        action: accesskit::Action::Focus,
        target_tree: accesskit::TreeId::ROOT,
        target_node: accesskit::NodeId(12),
        data: None,
    };
    let w = WindowEvent::ActionRequest(request.clone());
    assert_eq!(w.clone(), WindowEvent::ActionRequest(request));
}
