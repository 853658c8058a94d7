use engine::{Error, ErrorKind, Timer};

#[test]
fn the_first_tick_always_fires() {
    let mut timer = Timer::new(10);
    assert!(timer.tick(1_000));
}

#[test]
fn a_tick_within_the_interval_does_not_fire() {
    let mut timer = Timer::new(10);
    assert!(timer.tick(0));
    assert!(!timer.tick(5));
    assert!(!timer.tick(9));
    assert!(timer.tick(10));
}

#[test]
fn a_late_tick_rolls_the_overshoot_into_the_next_interval() {
    let mut timer = Timer::new(10);
    assert!(timer.tick(0));
    // 25 is 15 past the deadline: the reference point becomes 10, so the
    // next firing is already due at 20
    assert!(timer.tick(25));
    assert!(timer.tick(25));
    assert!(!timer.tick(29));
    assert!(timer.tick(30));
}

#[test]
fn reset_makes_the_next_tick_fire() {
    let mut timer = Timer::new(100);
    assert!(timer.tick(0));
    assert!(!timer.tick(50));
    timer.reset(50);
    assert!(timer.tick(55));
}

#[test]
fn error_kinds_carry_their_message_text() {
    assert_eq!(ErrorKind::EntityMaxReached.as_str(), "max entity count reached");
    assert_eq!(ErrorKind::EntityDoesNotExist.as_str(), "entity doesn't exist in the scene");
    assert_eq!(
        ErrorKind::EntityDoesNotOwnComponent.as_str(),
        "entity doesn't have requested component"
    );
    assert_eq!(ErrorKind::ComponentNotRegistered.as_str(), "unregistered component used");
    assert_eq!(
        ErrorKind::ComponentArrayDowncastFailure.as_str(),
        "failed to downcast component array"
    );
    assert_eq!(ErrorKind::SceneMaxReached.as_str(), "max scene count reached");
    assert_eq!(ErrorKind::SceneDoesNotExist.as_str(), "scene doesn't exist");
    assert_eq!(ErrorKind::NoCurrentScene.as_str(), "there is no current scene");
}

#[test]
fn an_error_keeps_the_kind_it_was_built_from() {
    let err = Error::from(ErrorKind::ComponentNotRegistered);
    assert_eq!(err.kind(), ErrorKind::ComponentNotRegistered);
    assert_eq!(err.as_str(), "unregistered component used");
}
