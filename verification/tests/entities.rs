//! Tests for the entity/component world.

use yasss13rtwcf_shared::entities::components::Component;
use yasss13rtwcf_shared::entities::{make_builder, World};

struct TestComponent {
    a: i32,
}

impl Component for TestComponent {}

const TEST_KIND: u64 = 0;

#[test]
fn test_basic() {
    let mut world: World<TestComponent> = World::new();
    if let Some(_) = world.get_entity(0) {
        panic!("World returned a Some!")
    }
    let builder = make_builder(&mut world);
    let entity = builder.finish(&mut world);
    let other = world.get_entity(0).unwrap();

    assert_eq!(entity.get_id(), other.get_id());
}

#[test]
fn test_component() {
    let mut world: World<TestComponent> = World::new();
    world.register_component(TEST_KIND);
    let builder = make_builder(&mut world).with_component(TEST_KIND, TestComponent { a: 123 });
    builder.finish(&mut world);

    let comp = world.get_component(TEST_KIND, 0).unwrap();

    assert_eq!(comp.a, 123);
}

#[test]
fn test_iter_entities() {
    let mut world: World<TestComponent> = World::new();
    make_builder(&mut world).finish(&mut world);
    make_builder(&mut world).finish(&mut world);
    make_builder(&mut world).finish(&mut world);

    let mut iter = world.iter_entities();
    let a = iter.next().unwrap();
    let b = iter.next().unwrap();
    let c = iter.next().unwrap();
    assert_eq!(a.0, a.1.get_id());
    assert_eq!(b.0, b.1.get_id());
    assert_eq!(c.0, c.1.get_id());
}

#[test]
fn test_component_overwrite() {
    let mut world: World<TestComponent> = World::new();
    world.register_component(TEST_KIND);
    let builder = make_builder(&mut world)
        .with_component(TEST_KIND, TestComponent { a: 1 })
        .with_component(TEST_KIND, TestComponent { a: 2 });
    builder.finish(&mut world);

    let comp = world.get_component(TEST_KIND, 0).unwrap();
    assert_eq!(comp.a, 2);
}

#[test]
fn test_iter_components() {
    let mut world: World<TestComponent> = World::new();
    world.register_component(TEST_KIND);
    make_builder(&mut world)
        .with_component(TEST_KIND, TestComponent { a: 10 })
        .finish(&mut world);
    make_builder(&mut world)
        .with_component(TEST_KIND, TestComponent { a: 20 })
        .finish(&mut world);

    let mut iter = world.iter_components(TEST_KIND);
    let first = iter.next().unwrap();
    let second = iter.next().unwrap();
    assert_eq!(first.0, 0);
    assert_eq!(first.1.a, 10);
    assert_eq!(second.0, 1);
    assert_eq!(second.1.a, 20);
    assert!(iter.next().is_none());
}

#[test]
fn test_register_anew_clears() {
    let mut world: World<TestComponent> = World::new();
    world.register_component(TEST_KIND);
    make_builder(&mut world)
        .with_component(TEST_KIND, TestComponent { a: 5 })
        .finish(&mut world);
    assert!(world.get_component(TEST_KIND, 0).is_some());

    world.register_component(TEST_KIND);
    assert!(world.get_component(TEST_KIND, 0).is_none());
}

#[test]
fn test_get_missing_entity() {
    let mut world: World<TestComponent> = World::new();
    make_builder(&mut world).finish(&mut world);
    assert!(world.get_entity(0).is_some());
    assert!(world.get_entity(1).is_none());
}
