use engine::{ComponentManager, EntityManager, ErrorKind};

#[derive(Clone, Copy, PartialEq, Eq, Debug)]
enum DemoComponent {
    Position { x: i32, y: i32 },
    Velocity { dx: i32, dy: i32 },
}

const POSITION: u64 = 1;
const VELOCITY: u64 = 2;
const UNREGISTERED: u64 = 99;

#[test]
fn registering_a_component_twice_returns_the_same_key_and_one_array() {
    let mut em = EntityManager::new();
    let mut cm: ComponentManager<DemoComponent> = ComponentManager::new();
    let e = em.create_entity().unwrap();

    let k1 = cm.register_component(POSITION);
    let k2 = cm.register_component(POSITION);
    assert_eq!(k1, k2);

    // inserting through both returned keys hits a single backing array:
    // the second insert replaces the first value
    cm.add_component(&e, k1, DemoComponent::Position { x: 1, y: 1 }).unwrap();
    cm.add_component(&e, k2, DemoComponent::Position { x: 7, y: 8 }).unwrap();
    let stored = *cm.get_component(&e, k1).unwrap();
    assert_eq!(stored, DemoComponent::Position { x: 7, y: 8 });
}

#[test]
fn add_component_on_unregistered_type_fails_with_not_registered() {
    let mut em = EntityManager::new();
    let mut cm: ComponentManager<DemoComponent> = ComponentManager::new();
    let e = em.create_entity().unwrap();
    let err = cm
        .add_component(&e, UNREGISTERED, DemoComponent::Position { x: 0, y: 0 })
        .unwrap_err();
    assert_eq!(err.kind(), ErrorKind::ComponentNotRegistered);
}

#[test]
fn has_components_on_unregistered_type_fails_with_not_registered() {
    let mut em = EntityManager::new();
    let cm: ComponentManager<DemoComponent> = ComponentManager::new();
    let e = em.create_entity().unwrap();
    let err = cm.has_components(&e, &vec![UNREGISTERED]).unwrap_err();
    assert_eq!(err.kind(), ErrorKind::ComponentNotRegistered);
}

#[test]
fn has_components_fails_when_any_listed_key_is_unregistered() {
    let mut em = EntityManager::new();
    let mut cm: ComponentManager<DemoComponent> = ComponentManager::new();
    let e = em.create_entity().unwrap();
    cm.register_component(POSITION);

    // the unknown key fails the call wherever it stands in the list, even
    // though the entity also lacks the registered component
    let err = cm.has_components(&e, &vec![POSITION, UNREGISTERED]).unwrap_err();
    assert_eq!(err.kind(), ErrorKind::ComponentNotRegistered);
    let err = cm.has_components(&e, &vec![UNREGISTERED, POSITION]).unwrap_err();
    assert_eq!(err.kind(), ErrorKind::ComponentNotRegistered);
}

#[test]
fn has_components_answers_ownership_of_every_listed_type() {
    let mut em = EntityManager::new();
    let mut cm: ComponentManager<DemoComponent> = ComponentManager::new();
    let e = em.create_entity().unwrap();
    cm.register_component(POSITION);
    cm.register_component(VELOCITY);
    cm.add_component(&e, POSITION, DemoComponent::Position { x: 0, y: 0 }).unwrap();

    assert!(cm.has_components(&e, &vec![POSITION]).unwrap());
    assert!(!cm.has_components(&e, &vec![POSITION, VELOCITY]).unwrap());
    assert!(cm.has_components(&e, &vec![]).unwrap());

    cm.add_component(&e, VELOCITY, DemoComponent::Velocity { dx: 1, dy: 1 }).unwrap();
    assert!(cm.has_components(&e, &vec![POSITION, VELOCITY]).unwrap());
}

#[test]
fn get_component_for_a_type_the_entity_never_received_fails() {
    let mut em = EntityManager::new();
    let mut cm: ComponentManager<DemoComponent> = ComponentManager::new();
    let e = em.create_entity().unwrap();
    cm.register_component(POSITION);
    let err = cm.get_component(&e, POSITION).unwrap_err();
    assert_eq!(err.kind(), ErrorKind::EntityDoesNotOwnComponent);
}

#[test]
fn get_component_for_an_unregistered_type_fails() {
    let mut em = EntityManager::new();
    let cm: ComponentManager<DemoComponent> = ComponentManager::new();
    let e = em.create_entity().unwrap();
    let err = cm.get_component(&e, UNREGISTERED).unwrap_err();
    assert_eq!(err.kind(), ErrorKind::ComponentNotRegistered);
}

#[test]
fn remove_component_is_not_an_error_when_absent() {
    let mut em = EntityManager::new();
    let mut cm: ComponentManager<DemoComponent> = ComponentManager::new();
    let e = em.create_entity().unwrap();
    cm.register_component(POSITION);
    cm.remove_component(&e, POSITION).unwrap();
    let err = cm.remove_component(&e, UNREGISTERED).unwrap_err();
    assert_eq!(err.kind(), ErrorKind::ComponentNotRegistered);
}

#[test]
fn remove_component_removes_only_the_named_type() {
    let mut em = EntityManager::new();
    let mut cm: ComponentManager<DemoComponent> = ComponentManager::new();
    let e = em.create_entity().unwrap();
    cm.register_component(POSITION);
    cm.register_component(VELOCITY);
    cm.add_component(&e, POSITION, DemoComponent::Position { x: 3, y: 4 }).unwrap();
    cm.add_component(&e, VELOCITY, DemoComponent::Velocity { dx: 1, dy: 1 }).unwrap();

    cm.remove_component(&e, POSITION).unwrap();
    assert!(!cm.has_components(&e, &vec![POSITION]).unwrap());
    assert!(cm.has_components(&e, &vec![VELOCITY]).unwrap());
}

#[test]
fn remove_components_clears_the_entity_from_every_array() {
    let mut em = EntityManager::new();
    let mut cm: ComponentManager<DemoComponent> = ComponentManager::new();
    let e = em.create_entity().unwrap();
    let other = em.create_entity().unwrap();
    cm.register_component(POSITION);
    cm.register_component(VELOCITY);
    cm.add_component(&e, POSITION, DemoComponent::Position { x: 0, y: 0 }).unwrap();
    cm.add_component(&e, VELOCITY, DemoComponent::Velocity { dx: 0, dy: 0 }).unwrap();
    cm.add_component(&other, POSITION, DemoComponent::Position { x: 5, y: 5 }).unwrap();

    cm.remove_components(&e).unwrap();
    assert!(!cm.has_components(&e, &vec![POSITION]).unwrap());
    assert!(!cm.has_components(&e, &vec![VELOCITY]).unwrap());
    // the other entity keeps its components
    assert!(cm.has_components(&other, &vec![POSITION]).unwrap());
}

#[test]
fn is_component_registered_tracks_registration() {
    let mut cm: ComponentManager<DemoComponent> = ComponentManager::new();
    assert!(!cm.is_component_registered(&POSITION));
    cm.register_component(POSITION);
    assert!(cm.is_component_registered(&POSITION));
    assert!(!cm.is_component_registered(&VELOCITY));
}
