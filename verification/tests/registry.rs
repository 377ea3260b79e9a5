use collisions::colliders::Collider;
use collisions::math::{Rect, Vec2};
use collisions::registry::{ColliderComponent, ColliderSet};
use collisions::shapes::ColliderShapeType;

fn circle(radius: u32) -> Collider {
    Collider::new(ColliderShapeType::Circle { radius })
}

fn radius_of(c: &Collider) -> u32 {
    match c.shape.shape_type {
        ColliderShapeType::Circle { radius } => radius,
        ColliderShapeType::Box { .. } => panic!("a box has no radius"),
    }
}

#[test]
fn new_registry_is_empty() {
    let set = ColliderSet::new();
    assert!(set.get_as_components().is_empty());
    assert!(set.get(&ColliderComponent { id: 0 }).is_none());
    let other = ColliderSet::default();
    assert!(other.get_as_components().is_empty());
}

#[test]
fn register_gives_out_increasing_ids() {
    let mut set = ColliderSet::new();
    assert_eq!(set.register(circle(1)), 0);
    assert_eq!(set.register(circle(2)), 1);
    assert_eq!(set.register(circle(3)), 2);
    set.deregister(ColliderComponent { id: 1 });
    assert_eq!(set.register(circle(4)), 3);
}

#[test]
fn register_get_deregister_round_trip() {
    let mut set = ColliderSet::new();
    let mut c = circle(7);
    c.is_trigger = true;
    c.update_from_transform(Vec2::new(4, 5));
    let handle = ColliderComponent { id: set.register(c) };
    assert_eq!(set.get(&handle), Some(&c));
    assert_eq!(set.deregister(handle), Some(c));
    assert_eq!(set.get(&handle), None);
    assert_eq!(set.deregister(handle), None);
}

#[test]
fn deregistered_handle_stays_unknown_after_later_registrations() {
    let mut set = ColliderSet::new();
    set.register(circle(1));
    let gone = ColliderComponent { id: set.register(circle(2)) };
    assert_eq!(set.deregister(gone), Some(circle(2)));
    for r in 0..100 {
        let id = set.register(circle(r));
        assert_ne!(id, gone.id);
        assert!(set.get(&gone).is_none());
    }
    assert_eq!(set.get_as_components().len(), 101);
}

#[test]
fn registering_and_deregistering_change_the_count_by_one() {
    let mut set = ColliderSet::new();
    let a = ColliderComponent { id: set.register(circle(1)) };
    assert_eq!(set.get_as_components().len(), 1);
    set.register(circle(2));
    assert_eq!(set.get_as_components().len(), 2);
    set.deregister(a);
    assert_eq!(set.get_as_components().len(), 1);
    set.deregister(a);
    assert_eq!(set.get_as_components().len(), 1);
}

#[test]
fn get_of_unknown_handle_is_none() {
    let mut set = ColliderSet::new();
    set.register(circle(1));
    assert!(set.get(&ColliderComponent { id: 99 }).is_none());
    assert!(set.get_mut(&ColliderComponent { id: 99 }).is_none());
    assert!(set.deregister(ColliderComponent { id: 99 }).is_none());
    assert_eq!(set.get_as_components().len(), 1);
}

#[test]
fn get_mut_writes_into_the_registry() {
    let mut set = ColliderSet::new();
    let first = ColliderComponent { id: set.register(circle(1)) };
    let second = ColliderComponent { id: set.register(circle(2)) };
    set.get_mut(&first).unwrap().is_trigger = true;
    assert!(set.get(&first).unwrap().is_trigger);
    assert!(!set.get(&second).unwrap().is_trigger);
    assert_eq!(radius_of(set.get(&first).unwrap()), 1);
}

#[test]
fn get_as_components_lists_each_handle_once() {
    let mut set = ColliderSet::new();
    for r in 0..5 {
        set.register(circle(r));
    }
    set.deregister(ColliderComponent { id: 2 });
    let mut ids: Vec<u32> = Vec::new();
    for c in set.get_as_components() {
        ids.push(c.id);
    }
    ids.sort();
    assert_eq!(ids, vec![0, 1, 3, 4]);
}

#[test]
fn get_neighbors_leaves_out_own_entry() {
    let mut set = ColliderSet::new();
    set.register(circle(10));
    let own = ColliderComponent { id: set.register(circle(20)) };
    set.register(circle(30));
    let mut radii: Vec<u32> = Vec::new();
    for c in set.get_neighbors(&own) {
        radii.push(radius_of(c));
    }
    radii.sort();
    assert_eq!(radii, vec![10, 30]);
}

#[test]
fn get_neighbors_of_unknown_handle_lists_everything() {
    let mut set = ColliderSet::new();
    set.register(circle(10));
    set.register(circle(20));
    let res = set.get_neighbors(&ColliderComponent { id: 7 });
    assert_eq!(res.len(), 2);
    let empty = ColliderSet::new();
    assert!(empty.get_neighbors(&ColliderComponent { id: 0 }).is_empty());
}

#[test]
fn get_neighbors_and_self_splits_the_registry() {
    let mut set = ColliderSet::new();
    let own = ColliderComponent { id: set.register(circle(10)) };
    set.register(circle(20));
    set.register(circle(30));
    let (me, others) = set.get_neighbors_and_self(&own);
    assert_eq!(radius_of(me), 10);
    let mut radii: Vec<u32> = Vec::new();
    for c in others {
        radii.push(radius_of(c));
    }
    radii.sort();
    assert_eq!(radii, vec![20, 30]);
}

#[test]
fn neighbors_can_be_queried_for_collisions() {
    let mut set = ColliderSet::new();
    let own = ColliderComponent::new(&mut set, ColliderShapeType::Circle { radius: 5 });
    let near = ColliderComponent::new(&mut set, ColliderShapeType::Circle { radius: 4 });
    let far = ColliderComponent::new(&mut set, ColliderShapeType::Box { width: 2, height: 2 });
    set.update_single(&near, Vec2::new(8, 0));
    set.update_single(&far, Vec2::new(100, 100));
    let (me, others) = set.get_neighbors_and_self(&own);
    let mut hits: u32 = 0;
    for other in others {
        if let Some(res) = me.collides_with(other) {
            hits += 1;
            assert_eq!(res.penetration.depth, 1);
            assert_eq!(res.collider, set.get(&near).unwrap());
        }
    }
    assert_eq!(hits, 1);
}

#[test]
fn update_single_moves_the_registered_collider() {
    let mut set = ColliderSet::new();
    let first = ColliderComponent { id: set.register(circle(5)) };
    let second = ColliderComponent { id: set.register(circle(5)) };
    set.update_single(&first, Vec2::new(3, 7));
    let moved = set.get(&first).unwrap();
    assert_eq!(moved.position(), Vec2::new(3, 7));
    assert_eq!(moved.center(), Vec2::new(3, 7));
    assert_eq!(moved.bounds(), Rect::new(-4, 4, 10, 10));
    assert_eq!(set.get(&second), Some(&circle(5)));
}

#[test]
fn update_single_twice_is_a_no_op_the_second_time() {
    let mut set = ColliderSet::new();
    let handle = ColliderComponent { id: set.register(circle(5)) };
    set.update_single(&handle, Vec2::new(3, 7));
    set.get_mut(&handle).unwrap().shape.bounds = Rect::new(0, 0, 1, 1);
    set.update_single(&handle, Vec2::new(3, 7));
    assert_eq!(set.get(&handle).unwrap().bounds(), Rect::new(0, 0, 1, 1));
}

#[test]
fn update_single_of_unknown_handle_does_nothing() {
    let mut set = ColliderSet::new();
    let handle = ColliderComponent { id: set.register(circle(5)) };
    set.update_single(&ColliderComponent { id: 42 }, Vec2::new(3, 7));
    assert_eq!(set.get(&handle), Some(&circle(5)));
    assert_eq!(set.get_as_components().len(), 1);
    assert!(set.get(&ColliderComponent { id: 42 }).is_none());
}

#[test]
fn component_new_registers_a_fresh_collider() {
    let mut set = ColliderSet::new();
    let a = ColliderComponent::new(&mut set, ColliderShapeType::Circle { radius: 3 });
    let b = ColliderComponent::new(&mut set, ColliderShapeType::Box { width: 2, height: 6 });
    assert_ne!(a, b);
    assert_eq!(set.get(&a), Some(&circle(3)));
    assert_eq!(
        set.get(&b),
        Some(&Collider::new(ColliderShapeType::Box { width: 2, height: 6 }))
    );
}

#[test]
fn handles_are_plain_values() {
    let a = ColliderComponent { id: 5 };
    let b = a;
    assert_eq!(a, b);
    assert_eq!(a.id, 5);
    assert_ne!(a, ColliderComponent { id: 6 });
}
