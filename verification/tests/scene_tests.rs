use engine::{ErrorKind, SceneManager, SceneState, System};

#[derive(Clone, Copy, PartialEq, Eq, Debug)]
enum DemoComponent {
    Marker(i32),
}

const MARKER: u64 = 10;

#[test]
fn destroyed_entity_is_gone_after_the_cull() {
    let mut state: SceneState<DemoComponent> = SceneState::new();
    state.register_component(MARKER);

    let a = state.create_entity().unwrap();
    let _b = state.create_entity().unwrap();
    let _c = state.create_entity().unwrap();
    state.add_component(&a, MARKER, DemoComponent::Marker(1)).unwrap();
    let snapshot = state.get_living_entities();

    state.destroy_entity(a).unwrap();
    // destruction is deferred: the entity is still live until the cull
    assert_eq!(state.get_living_entities().len(), 3);

    state.cull_entities().unwrap();

    // absent from the living set and owning no components in any array
    assert_eq!(state.get_living_entities().len(), 2);
    let dead = &snapshot[0];
    let err = state.get_component(dead, MARKER).unwrap_err();
    assert_eq!(err.kind(), ErrorKind::EntityDoesNotOwnComponent);
    assert!(!state.has_components(dead, &vec![MARKER]).unwrap());
}

#[test]
fn culled_id_is_reissued_on_the_next_create() {
    let mut state: SceneState<DemoComponent> = SceneState::new();
    let a = state.create_entity().unwrap();
    let _b = state.create_entity().unwrap();
    let snapshot = state.get_living_entities();

    state.destroy_entity(a).unwrap();
    state.cull_entities().unwrap();

    let reissued = state.create_entity().unwrap();
    assert_eq!(reissued, snapshot[0]);
}

#[test]
fn destroying_a_nonexistent_entity_fails_at_the_scene_level() {
    let mut state: SceneState<DemoComponent> = SceneState::new();
    let a = state.create_entity().unwrap();
    let snapshot = state.get_living_entities();
    state.destroy_entity(a).unwrap();
    state.cull_entities().unwrap();

    // the id was freed by the cull, so the stale handle no longer exists
    let dead = snapshot.into_iter().next().unwrap();
    let err = state.destroy_entity(dead).unwrap_err();
    assert_eq!(err.kind(), ErrorKind::EntityDoesNotExist);
}

#[test]
fn adding_a_component_to_a_nonexistent_entity_fails() {
    let mut state: SceneState<DemoComponent> = SceneState::new();
    state.register_component(MARKER);
    let a = state.create_entity().unwrap();
    let snapshot = state.get_living_entities();
    state.destroy_entity(a).unwrap();
    state.cull_entities().unwrap();

    let dead = &snapshot[0];
    let err = state.add_component(dead, MARKER, DemoComponent::Marker(0)).unwrap_err();
    assert_eq!(err.kind(), ErrorKind::EntityDoesNotExist);
    let err = state.remove_component(dead, MARKER).unwrap_err();
    assert_eq!(err.kind(), ErrorKind::EntityDoesNotExist);
}

#[test]
fn marking_an_entity_twice_culls_it_once() {
    let mut state: SceneState<DemoComponent> = SceneState::new();
    let a = state.create_entity().unwrap();
    let _b = state.create_entity().unwrap();
    let snapshot = state.get_living_entities();

    state.destroy_entity(a).unwrap();
    let duplicate = snapshot.into_iter().next().unwrap();
    state.destroy_entity(duplicate).unwrap();
    state.cull_entities().unwrap();
    assert_eq!(state.get_living_entities().len(), 1);

    // the freed id comes back exactly once
    let r1 = state.create_entity().unwrap();
    let r2 = state.create_entity().unwrap();
    assert_ne!(r1, r2);
}

enum TouchSystem {
    OnEntry,
}

impl System<DemoComponent> for TouchSystem {
    fn on_entry(
        &mut self,
        state: &mut SceneState<DemoComponent>,
        entity: engine::Entity,
    ) {
        match self {
            TouchSystem::OnEntry => {
                state.add_component(&entity, MARKER, DemoComponent::Marker(42)).unwrap();
            },
        }
    }
}

#[test]
fn scene_manager_issues_distinct_scene_handles() {
    let mut scenes: SceneManager<DemoComponent, TouchSystem> = SceneManager::new();
    let s1 = scenes.create_scene().unwrap();
    let s2 = scenes.create_scene().unwrap();
    assert_ne!(s1, s2);
    assert!(scenes.does_scene_exist(&s1));
    assert!(scenes.does_scene_exist(&s2));
}

#[test]
fn current_scene_is_unset_until_a_swap_runs() {
    let mut scenes: SceneManager<DemoComponent, TouchSystem> = SceneManager::new();
    let s1 = scenes.create_scene().unwrap();

    let err = scenes.get_current_scene().unwrap_err();
    assert_eq!(err.kind(), ErrorKind::NoCurrentScene);

    scenes.set_current_scene(&s1).unwrap();
    // the selection is deferred: still no current scene before the swap
    let err = scenes.get_current_scene().unwrap_err();
    assert_eq!(err.kind(), ErrorKind::NoCurrentScene);

    scenes.swap_scenes();
    let current = scenes.get_current_scene().unwrap();
    assert_eq!(current, s1);
}

#[test]
fn selecting_a_scene_that_was_never_created_fails() {
    let mut scenes: SceneManager<DemoComponent, TouchSystem> = SceneManager::new();
    let s1 = scenes.create_scene().unwrap();
    let mut other: SceneManager<DemoComponent, TouchSystem> = SceneManager::new();
    other.create_scene().unwrap();
    other.create_scene().unwrap();
    let foreign = other.create_scene().unwrap();

    scenes.set_current_scene(&s1).unwrap();
    let err = scenes.set_current_scene(&foreign).unwrap_err();
    assert_eq!(err.kind(), ErrorKind::SceneDoesNotExist);
    match scenes.get_scene(&foreign) {
        Ok(_) => panic!("a foreign scene handle must not resolve"),
        Err(err) => assert_eq!(err.kind(), ErrorKind::SceneDoesNotExist),
    }
    match scenes.get_scene_systems(&foreign) {
        Ok(_) => panic!("a foreign scene handle must not resolve"),
        Err(err) => assert_eq!(err.kind(), ErrorKind::SceneDoesNotExist),
    }
}

#[test]
fn swapping_in_a_scene_runs_its_entry_pass() {
    let mut scenes: SceneManager<DemoComponent, TouchSystem> = SceneManager::new();
    let s1 = scenes.create_scene().unwrap();

    let state = scenes.get_scene(&s1).unwrap();
    state.register_component(MARKER);
    let e = state.create_entity().unwrap();

    let systems = scenes.get_scene_systems(&s1).unwrap();
    systems.register_system(1, &vec![], TouchSystem::OnEntry);

    scenes.set_current_scene(&s1).unwrap();
    scenes.swap_scenes();

    // the entry callback ran over the matching entities and left its mark
    let state = scenes.get_scene(&s1).unwrap();
    let stored = *state.get_component(&e, MARKER).unwrap();
    assert_eq!(stored, DemoComponent::Marker(42));
}
