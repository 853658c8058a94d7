use engine::{Engine, ErrorKind, SceneState, System, PHYSICS_TICK_NANOS};

#[derive(Clone, Copy, PartialEq, Eq, Debug)]
enum DemoComponent {
    Counter(u32),
}

const COUNTER: u64 = 1;
const COUNT_SYSTEM: u64 = 100;

/// Increments each matched entity's counter once per physics tick.
enum DemoSystem {
    Count,
}

impl System<DemoComponent> for DemoSystem {
    fn on_physics_frame(&mut self, state: &mut SceneState<DemoComponent>, entity: engine::Entity) {
        match self {
            DemoSystem::Count => {
                let DemoComponent::Counter(n) = *state.get_component(&entity, COUNTER).unwrap();
                state.add_component(&entity, COUNTER, DemoComponent::Counter(n + 1)).unwrap();
            },
        }
    }
}

#[test]
fn the_physics_timer_fires_at_sixty_ticks_per_second() {
    let mut engine: Engine<DemoComponent, DemoSystem> = Engine::new();
    engine.reset_physics_timer(0);
    assert!(engine.physics_tick(0));
    assert!(!engine.physics_tick(PHYSICS_TICK_NANOS - 1));
    assert!(engine.physics_tick(PHYSICS_TICK_NANOS));
    assert!(!engine.physics_tick(2 * PHYSICS_TICK_NANOS - 1));
    assert!(engine.physics_tick(2 * PHYSICS_TICK_NANOS));
}

#[test]
fn one_engine_iteration_runs_the_physics_pass_and_the_cull() {
    let mut engine: Engine<DemoComponent, DemoSystem> = Engine::new();
    let scene = engine.create_scene().unwrap();

    {
        let state = engine.scenes().get_scene(&scene).unwrap();
        state.register_component(COUNTER);
        let e = state.create_entity().unwrap();
        state.add_component(&e, COUNTER, DemoComponent::Counter(0)).unwrap();
    }
    {
        let systems = engine.scenes().get_scene_systems(&scene).unwrap();
        systems.register_system(COUNT_SYSTEM, &vec![COUNTER], DemoSystem::Count);
    }

    engine.scenes().set_current_scene(&scene).unwrap();
    engine.reset_physics_timer(0);

    // one frame: swap the scene in, decide the physics tick, run the
    // frame pass, cull
    engine.scenes().swap_scenes();
    let is_physics = engine.physics_tick(0);
    assert!(is_physics);
    engine.scenes().on_frame_current(is_physics, 1_000_000).unwrap();
    engine.scenes().cull_current().unwrap();

    let state = engine.scenes().get_scene(&scene).unwrap();
    let living = state.get_living_entities();
    assert_eq!(living.len(), 1);
    let value = *state.get_component(&living[0], COUNTER).unwrap();
    assert_eq!(value, DemoComponent::Counter(1));
}

#[test]
fn frame_and_cull_require_a_current_scene() {
    let mut engine: Engine<DemoComponent, DemoSystem> = Engine::new();
    engine.create_scene().unwrap();

    let err = engine.scenes().on_frame_current(false, 0).unwrap_err();
    assert_eq!(err.kind(), ErrorKind::NoCurrentScene);
    let err = engine.scenes().cull_current().unwrap_err();
    assert_eq!(err.kind(), ErrorKind::NoCurrentScene);
}
