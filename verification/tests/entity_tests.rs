use engine::EntityManager;

#[test]
fn creates_sequential_ids_when_no_ids_were_freed() {
    let mut em = EntityManager::new();
    let a = em.create_entity().unwrap();
    let b = em.create_entity().unwrap();
    let c = em.create_entity().unwrap();
    assert_ne!(a, b);
    assert_ne!(a, c);
    assert_ne!(b, c);
    assert!(em.does_entity_exist(&a));
    assert!(em.does_entity_exist(&b));
    assert!(em.does_entity_exist(&c));
    assert_eq!(em.get_living_entities().len(), 3);
}

#[test]
fn freed_ids_are_reissued_before_new_ids_in_fifo_order() {
    let mut em = EntityManager::new();
    let a = em.create_entity().unwrap();
    let b = em.create_entity().unwrap();
    let _c = em.create_entity().unwrap();
    let snapshot = em.get_living_entities();

    em.destroy_entity(a);
    em.destroy_entity(b);
    assert_eq!(em.get_living_entities().len(), 1);

    let r1 = em.create_entity().unwrap();
    let r2 = em.create_entity().unwrap();
    let r3 = em.create_entity().unwrap();

    // the two freed ids come back first, in the order they were freed
    assert_eq!(r1, snapshot[0]);
    assert_eq!(r2, snapshot[1]);
    // only then is a brand-new id allocated
    assert_ne!(r3, snapshot[0]);
    assert_ne!(r3, snapshot[1]);
    assert_ne!(r3, snapshot[2]);
    assert_eq!(em.get_living_entities().len(), 4);
}

#[test]
fn destroying_a_dead_entity_is_a_silent_no_op() {
    let mut em = EntityManager::new();
    let a = em.create_entity().unwrap();
    let snapshot = em.get_living_entities();

    em.destroy_entity(a);
    assert_eq!(em.get_living_entities().len(), 0);

    // a second handle to the same id: destroying it again changes nothing
    let duplicate = snapshot.into_iter().next().unwrap();
    em.destroy_entity(duplicate);

    // the freed id is handed out exactly once
    let r1 = em.create_entity().unwrap();
    let r2 = em.create_entity().unwrap();
    assert_ne!(r1, r2);
    assert_eq!(em.get_living_entities().len(), 2);
}

#[test]
fn does_entity_exist_tracks_destruction() {
    let mut em = EntityManager::new();
    let a = em.create_entity().unwrap();
    let snapshot = em.get_living_entities();
    assert!(em.does_entity_exist(&snapshot[0]));
    em.destroy_entity(a);
    assert!(!em.does_entity_exist(&snapshot[0]));
}

#[test]
fn living_entities_excludes_freed_ids() {
    let mut em = EntityManager::new();
    for _ in 0..5 {
        em.create_entity().unwrap();
    }
    let all = em.get_living_entities();
    assert_eq!(all.len(), 5);
    let mut all = all.into_iter();
    let e0 = all.next().unwrap();
    let _e1 = all.next().unwrap();
    let e2 = all.next().unwrap();
    em.destroy_entity(e0);
    em.destroy_entity(e2);
    let living = em.get_living_entities();
    assert_eq!(living.len(), 3);
}
