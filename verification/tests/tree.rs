use vizia_runtime::entity::{Entity, IdManager};
use vizia_runtime::tree::{Tree, TreeError};

fn sample() -> Tree {
    // root -> [1 -> [3, 4 -> [6]], 2 -> [5]]
    let mut t = Tree::new();
    assert_eq!(t.insert(Entity::root(), Entity(1)), Ok(()));
    assert_eq!(t.insert(Entity::root(), Entity(2)), Ok(()));
    assert_eq!(t.insert(Entity(1), Entity(3)), Ok(()));
    assert_eq!(t.insert(Entity(1), Entity(4)), Ok(()));
    assert_eq!(t.insert(Entity(2), Entity(5)), Ok(()));
    assert_eq!(t.insert(Entity(4), Entity(6)), Ok(()));
    t
}

#[test]
fn root_and_null_are_reserved() {
    assert_eq!(Entity::root(), Entity(0));
    assert_eq!(Entity::null(), Entity(u32::MAX));
    assert!(Entity::null().is_null());
    assert!(!Entity::root().is_null());
    assert!(Entity::root().is_root());
    assert_eq!(Entity(7).index(), 7);
}

#[test]
fn ids_are_fresh_then_recycled() {
    let mut m = IdManager::new();
    assert!(m.contains(Entity::root()));
    assert!(m.can_create());
    let a = m.create();
    let b = m.create();
    assert_eq!(a, Entity(1));
    assert_eq!(b, Entity(2));
    assert!(m.contains(a) && m.contains(b));
    assert!(m.destroy(a));
    assert!(!m.contains(a));
    assert!(!m.destroy(a));
    assert!(!m.destroy(Entity::root()));
    assert!(m.contains(Entity::root()));
    assert!(!m.destroy(Entity(99)));
    let c = m.create();
    assert_eq!(c, Entity(1));
    assert!(m.contains(c));
    assert_eq!(m.create(), Entity(3));
}

#[test]
fn new_tree_holds_the_root_alone() {
    let t = Tree::new();
    assert_eq!(t.len(), 1);
    assert_eq!(t.iter(), vec![Entity::root()]);
    assert_eq!(t.parent_of(Entity::root()), None);
    assert!(t.children_of(Entity::root()).is_empty());
    assert!(t.contains(Entity::root()));
    assert!(!t.contains(Entity(1)));
}

#[test]
fn traversal_is_pre_order() {
    let t = sample();
    let order: Vec<u32> = t.iter().iter().map(|e| e.0).collect();
    assert_eq!(order, vec![0, 1, 3, 4, 6, 2, 5]);
    assert_eq!(t.iter(), t.iter());
}

#[test]
fn parents_and_children() {
    let t = sample();
    assert_eq!(t.parent_of(Entity(1)), Some(Entity::root()));
    assert_eq!(t.parent_of(Entity(6)), Some(Entity(4)));
    assert_eq!(t.parent_of(Entity(5)), Some(Entity(2)));
    assert_eq!(t.parent_of(Entity(42)), None);
    assert_eq!(t.children_of(Entity::root()), vec![Entity(1), Entity(2)]);
    assert_eq!(t.children_of(Entity(1)), vec![Entity(3), Entity(4)]);
    assert_eq!(t.children_of(Entity(6)), Vec::<Entity>::new());
    assert_eq!(t.children_of(Entity(42)), Vec::<Entity>::new());
    assert_eq!(t.ancestors(Entity(6)), vec![Entity(6), Entity(4), Entity(1), Entity(0)]);
    assert_eq!(t.ancestors(Entity(42)), Vec::<Entity>::new());
}

#[test]
fn insert_is_refused_with_a_reason() {
    let mut t = sample();
    assert_eq!(t.insert(Entity(42), Entity(7)), Err(TreeError::NotFound));
    assert_eq!(t.insert(Entity(1), Entity(2)), Err(TreeError::Occupied));
    assert_eq!(t.insert(Entity(1), Entity::null()), Err(TreeError::Occupied));
    assert_eq!(t.insert(Entity(1), Entity::root()), Err(TreeError::Occupied));
    assert_eq!(t.len(), 7);
}

#[test]
fn remove_takes_the_whole_subtree() {
    let mut t = sample();
    assert_eq!(t.remove(Entity(1)), Ok(vec![Entity(1), Entity(3), Entity(4), Entity(6)]));
    assert_eq!(t.iter(), vec![Entity(0), Entity(2), Entity(5)]);
    for gone in [1u32, 3, 4, 6] {
        assert!(!t.contains(Entity(gone)));
        assert_eq!(t.parent_of(Entity(gone)), None);
        assert!(t.ancestors(Entity(gone)).is_empty());
    }
    assert_eq!(t.parent_of(Entity(5)), Some(Entity(2)));
    assert_eq!(t.children_of(Entity::root()), vec![Entity(2)]);
}

#[test]
fn remove_of_a_leaf_keeps_its_siblings() {
    let mut t = sample();
    assert_eq!(t.remove(Entity(3)), Ok(vec![Entity(3)]));
    assert_eq!(t.children_of(Entity(1)), vec![Entity(4)]);
    assert_eq!(t.parent_of(Entity(6)), Some(Entity(4)));
}

#[test]
fn remove_is_refused_with_a_reason() {
    let mut t = sample();
    assert_eq!(t.remove(Entity(42)), Err(TreeError::NotFound));
    assert_eq!(t.remove(Entity::null()), Err(TreeError::NotFound));
    assert_eq!(t.remove(Entity::root()), Err(TreeError::Root));
    assert_eq!(t.len(), 7);
}

#[test]
fn a_removed_entity_can_come_back() {
    let mut t = sample();
    assert!(t.remove(Entity(4)).is_ok());
    assert_eq!(t.insert(Entity(2), Entity(4)), Ok(()));
    assert_eq!(t.iter(), vec![Entity(0), Entity(1), Entity(3), Entity(2), Entity(5), Entity(4)]);
    assert_eq!(t.parent_of(Entity(4)), Some(Entity(2)));
}

#[test]
fn the_topmost_entity_under_the_pointer_wins() {
    let t = sample();
    // traversal: 0 1 3 4 6 2 5
    assert_eq!(t.hit(&vec![true, true, false, true, false, false, false]), Some(Entity(4)));
    assert_eq!(t.hit(&vec![true, true, false, true, false, true, false]), Some(Entity(2)));
    assert_eq!(t.hit(&vec![true]), Some(Entity(0)));
    assert_eq!(t.hit(&vec![false; 7]), None);
    assert_eq!(t.hit(&vec![]), None);
    assert_eq!(t.hit(&vec![false, false, false, false, false, false, false, true]), None);
}
