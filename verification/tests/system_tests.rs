use engine::{matching_entities, SceneState, System, SystemManager, Systems};

#[derive(Clone, Copy, PartialEq, Eq, Debug)]
enum DemoComponent {
    Position { x: i32, y: i32 },
    Velocity { dx: i32, dy: i32 },
}

const POSITION: u64 = 1;
const VELOCITY: u64 = 2;

const MOVEMENT: u64 = 100;
const SYSTEM_A: u64 = 101;
const SYSTEM_B: u64 = 102;
const SYSTEM_C: u64 = 103;

/// Moves each matched entity by its velocity on every physics tick and
/// marks it for destruction once its x coordinate exceeds 120.
enum DemoSystem {
    Movement,
    Idle,
}

impl System<DemoComponent> for DemoSystem {
    fn on_physics_frame(&mut self, state: &mut SceneState<DemoComponent>, entity: engine::Entity) {
        match self {
            DemoSystem::Movement => {
                let pos = *state.get_component(&entity, POSITION).unwrap();
                let vel = *state.get_component(&entity, VELOCITY).unwrap();
                let (DemoComponent::Position { x, y }, DemoComponent::Velocity { dx, dy }) =
                    (pos, vel)
                else {
                    panic!("unexpected component values");
                };
                let moved = DemoComponent::Position { x: x + dx, y: y + dy };
                state.add_component(&entity, POSITION, moved).unwrap();
                if x + dx > 120 {
                    state.destroy_entity(entity).unwrap();
                }
            },
            DemoSystem::Idle => {},
        }
    }
}

#[test]
fn disjoint_systems_share_a_batch_and_overlapping_ones_do_not() {
    let mut systems: Systems<DemoSystem> = Systems::new();

    // A requires {Position}, B requires {Velocity}: disjoint, one batch
    systems.add_system(SYSTEM_A, &vec![POSITION], DemoSystem::Idle);
    systems.add_system(SYSTEM_B, &vec![VELOCITY], DemoSystem::Idle);
    assert_eq!(systems.batch_count(), 1);
    assert_eq!(systems.batch_size(0), 2);

    // C requires {Position} too: it conflicts with A, so it opens a new,
    // second batch
    systems.add_system(SYSTEM_C, &vec![POSITION], DemoSystem::Idle);
    assert_eq!(systems.batch_count(), 2);
    assert_eq!(systems.batch_size(0), 2);
    assert_eq!(systems.batch_size(1), 1);
    assert_eq!(systems.batch_member(0, 0), SYSTEM_A);
    assert_eq!(systems.batch_member(0, 1), SYSTEM_B);
    assert_eq!(systems.batch_member(1, 0), SYSTEM_C);
}

#[test]
fn registering_the_same_system_id_twice_is_a_no_op() {
    let mut systems: Systems<DemoSystem> = Systems::new();
    systems.add_system(SYSTEM_A, &vec![POSITION], DemoSystem::Idle);
    systems.add_system(SYSTEM_A, &vec![VELOCITY], DemoSystem::Idle);
    assert_eq!(systems.batch_count(), 1);
    assert_eq!(systems.batch_size(0), 1);
}

#[test]
fn a_later_compatible_system_joins_the_first_batch_that_fits() {
    let mut systems: Systems<DemoSystem> = Systems::new();
    systems.add_system(SYSTEM_A, &vec![POSITION], DemoSystem::Idle);
    systems.add_system(SYSTEM_B, &vec![POSITION], DemoSystem::Idle);
    assert_eq!(systems.batch_count(), 2);

    // a system conflicting with neither batch joins the first one
    systems.add_system(SYSTEM_C, &vec![VELOCITY], DemoSystem::Idle);
    assert_eq!(systems.batch_count(), 2);
    assert_eq!(systems.batch_size(0), 2);
    assert_eq!(systems.batch_size(1), 1);
}

#[test]
fn matching_entities_selects_exactly_the_entities_with_the_signature() {
    let mut state: SceneState<DemoComponent> = SceneState::new();
    state.register_component(POSITION);
    state.register_component(VELOCITY);

    let with_both = state.create_entity().unwrap();
    let with_pos = state.create_entity().unwrap();
    let _bare = state.create_entity().unwrap();
    state
        .add_component(&with_both, POSITION, DemoComponent::Position { x: 0, y: 0 })
        .unwrap();
    state
        .add_component(&with_both, VELOCITY, DemoComponent::Velocity { dx: 1, dy: 1 })
        .unwrap();
    state
        .add_component(&with_pos, POSITION, DemoComponent::Position { x: 0, y: 0 })
        .unwrap();

    let both = matching_entities(&state, &vec![POSITION, VELOCITY]);
    assert_eq!(both.len(), 1);
    assert_eq!(both[0], with_both);

    let pos_only = matching_entities(&state, &vec![POSITION]);
    assert_eq!(pos_only.len(), 2);

    let everyone = matching_entities(&state, &vec![]);
    assert_eq!(everyone.len(), 3);
}

#[test]
fn one_physics_tick_moves_every_matched_entity_by_its_velocity() {
    let mut state: SceneState<DemoComponent> = SceneState::new();
    state.register_component(POSITION);
    state.register_component(VELOCITY);
    let mut manager: SystemManager<DemoSystem> = SystemManager::new();
    manager.register_system(MOVEMENT, &vec![POSITION, VELOCITY], DemoSystem::Movement);

    let mut entities = Vec::new();
    for _ in 0..10 {
        let e = state.create_entity().unwrap();
        state
            .add_component(&e, POSITION, DemoComponent::Position { x: 0, y: 0 })
            .unwrap();
        state
            .add_component(&e, VELOCITY, DemoComponent::Velocity { dx: 1, dy: 1 })
            .unwrap();
        entities.push(e);
    }

    manager.on_frame(&mut state, true, 16_000_000);

    for e in &entities {
        let pos = *state.get_component(e, POSITION).unwrap();
        assert_eq!(pos, DemoComponent::Position { x: 1, y: 1 });
    }
}

#[test]
fn a_frame_without_a_physics_tick_runs_no_physics_callback() {
    let mut state: SceneState<DemoComponent> = SceneState::new();
    state.register_component(POSITION);
    state.register_component(VELOCITY);
    let mut manager: SystemManager<DemoSystem> = SystemManager::new();
    manager.register_system(MOVEMENT, &vec![POSITION, VELOCITY], DemoSystem::Movement);

    let e = state.create_entity().unwrap();
    state
        .add_component(&e, POSITION, DemoComponent::Position { x: 0, y: 0 })
        .unwrap();
    state
        .add_component(&e, VELOCITY, DemoComponent::Velocity { dx: 1, dy: 1 })
        .unwrap();

    manager.on_frame(&mut state, false, 16_000_000);

    let pos = *state.get_component(&e, POSITION).unwrap();
    assert_eq!(pos, DemoComponent::Position { x: 0, y: 0 });
}

#[test]
fn an_entity_crossing_the_boundary_is_culled_and_its_id_reissued() {
    let mut state: SceneState<DemoComponent> = SceneState::new();
    state.register_component(POSITION);
    state.register_component(VELOCITY);
    let mut manager: SystemManager<DemoSystem> = SystemManager::new();
    manager.register_system(MOVEMENT, &vec![POSITION, VELOCITY], DemoSystem::Movement);

    let fast = state.create_entity().unwrap();
    let slow = state.create_entity().unwrap();
    let snapshot = state.get_living_entities();
    state
        .add_component(&fast, POSITION, DemoComponent::Position { x: 0, y: 0 })
        .unwrap();
    state
        .add_component(&fast, VELOCITY, DemoComponent::Velocity { dx: 2, dy: 0 })
        .unwrap();
    state
        .add_component(&slow, POSITION, DemoComponent::Position { x: 0, y: 0 })
        .unwrap();
    state
        .add_component(&slow, VELOCITY, DemoComponent::Velocity { dx: 1, dy: 0 })
        .unwrap();

    // after 61 physics ticks the fast entity reaches x == 122 > 120 and
    // marks itself for destruction; the slow one is at x == 61
    for _ in 0..61 {
        manager.on_frame(&mut state, true, 16_000_000);
    }
    assert_eq!(state.get_living_entities().len(), 2);

    state.cull_entities().unwrap();
    assert_eq!(state.get_living_entities().len(), 1);

    // the culled id is reissued on the next create
    let reissued = state.create_entity().unwrap();
    assert_eq!(reissued, snapshot[0]);
}
