use meridian::ecs::{ArchetypeIndex, InsertOutcome, Location, RemoveOutcome};
use meridian::engine::Entity;

const POSITION: u64 = 10;
const VELOCITY: u64 = 20;

fn entity(index: u32) -> Entity {
    Entity { index, generation: 0 }
}

fn components(index: &ArchetypeIndex, e: Entity) -> Vec<u64> {
    let l = index.location_of(e).unwrap();
    index.signature_of(l.archetype).clone()
}

#[test]
fn spawn_creates_alive_entity() {
    let mut index = ArchetypeIndex::new();
    let e = entity(0);
    let l = index.spawn(e);
    assert!(index.is_alive(e));
    assert_eq!(l, Location { archetype: 0, row: 0 });
    assert!(components(&index, e).is_empty());
}

#[test]
fn despawn_kills_entity() {
    let mut index = ArchetypeIndex::new();
    let e = entity(0);
    index.spawn(e);
    assert_eq!(index.despawn(e), Some(Location { archetype: 0, row: 0 }));
    assert!(!index.is_alive(e));
    assert_eq!(index.despawn(e), None, "double despawn must return None, not panic");
}

#[test]
fn insert_on_existing_component_overwrites_in_place() {
    let mut index = ArchetypeIndex::new();
    let e = entity(0);
    index.spawn(e);
    let first = index.insert(e, POSITION);
    assert_eq!(
        first,
        InsertOutcome::Moved {
            from: Location { archetype: 0, row: 0 },
            to: Location { archetype: 1, row: 0 },
            created: true
        }
    );
    let second = index.insert(e, POSITION);
    assert_eq!(second, InsertOutcome::InPlace(Location { archetype: 1, row: 0 }));
    assert_eq!(index.num_archetypes(), 2);
}

#[test]
fn insert_moves_entity_across_archetypes_preserving_existing_components() {
    let mut index = ArchetypeIndex::new();
    let e = entity(0);
    index.spawn(e);
    index.insert(e, VELOCITY);
    index.insert(e, POSITION);
    assert_eq!(components(&index, e), vec![POSITION, VELOCITY]);
}

#[test]
fn remove_takes_value_out_and_entity_survives() {
    let mut index = ArchetypeIndex::new();
    let e = entity(0);
    index.spawn(e);
    index.insert(e, POSITION);
    index.insert(e, VELOCITY);
    let r = index.remove(e, VELOCITY);
    assert_eq!(
        r,
        RemoveOutcome::Moved {
            from: Location { archetype: 2, row: 0 },
            to: Location { archetype: 1, row: 0 },
            created: false
        }
    );
    assert!(index.is_alive(e));
    assert_eq!(components(&index, e), vec![POSITION], "removing Velocity must not disturb Position");
}

#[test]
fn remove_missing_component_returns_none() {
    let mut index = ArchetypeIndex::new();
    let e = entity(0);
    index.spawn(e);
    index.insert(e, POSITION);
    assert_eq!(index.remove(e, VELOCITY), RemoveOutcome::Absent);
    assert_eq!(components(&index, e), vec![POSITION]);
}

#[test]
fn get_on_dead_or_unknown_entity_returns_none_not_panic() {
    let mut index = ArchetypeIndex::new();
    let fake = Entity { index: 999, generation: 0 };
    assert_eq!(index.location_of(fake), None);
    assert_eq!(index.insert(fake, POSITION), InsertOutcome::Dead);
    assert_eq!(index.remove(fake, POSITION), RemoveOutcome::Dead);
}

#[test]
fn despawn_swap_remove_fixes_up_displaced_entity_location() {
    let mut index = ArchetypeIndex::new();
    let a = entity(0);
    let b = entity(1);
    let c = entity(2);
    index.spawn(a);
    index.insert(a, POSITION);
    index.spawn(b);
    index.insert(b, POSITION);
    index.spawn(c);
    index.insert(c, POSITION);
    assert_eq!(index.entities_of(1), &vec![a, b, c]);

    // Despawning `a` (row 0) moves the last row (c) into its place.
    assert_eq!(index.despawn(a), Some(Location { archetype: 1, row: 0 }));
    assert_eq!(index.entities_of(1), &vec![c, b]);
    assert_eq!(index.location_of(b), Some(Location { archetype: 1, row: 1 }));
    assert_eq!(index.location_of(c), Some(Location { archetype: 1, row: 0 }));
}

#[test]
fn query_spans_every_archetype_containing_the_component() {
    let mut index = ArchetypeIndex::new();
    let a = entity(0);
    index.spawn(a);
    index.insert(a, POSITION);
    let b = entity(1);
    index.spawn(b);
    index.insert(b, POSITION);
    index.insert(b, VELOCITY);

    let archetypes = index.archetypes_with(POSITION);
    assert_eq!(archetypes, vec![1, 2]);
    let mut seen: Vec<Entity> = Vec::new();
    for arch in archetypes {
        seen.extend(index.entities_of(arch).iter().copied());
    }
    assert_eq!(seen, vec![a, b]);
    assert_eq!(index.archetypes_with(VELOCITY), vec![2]);
}

#[test]
fn generation_tells_reused_slots_apart() {
    let mut index = ArchetypeIndex::new();
    let old = Entity { index: 3, generation: 0 };
    let new = Entity { index: 3, generation: 1 };
    index.spawn(old);
    index.despawn(old);
    index.spawn(new);
    assert!(!index.is_alive(old));
    assert!(index.is_alive(new));
}

#[test]
fn archetypes_are_shared_by_equal_component_sets() {
    let mut index = ArchetypeIndex::new();
    let a = entity(0);
    let b = entity(1);
    index.spawn(a);
    index.spawn(b);
    index.insert(a, POSITION);
    index.insert(a, VELOCITY);
    index.insert(b, VELOCITY);
    let r = index.insert(b, POSITION);
    assert_eq!(
        r,
        InsertOutcome::Moved {
            from: Location { archetype: 3, row: 0 },
            to: Location { archetype: 2, row: 1 },
            created: false
        }
    );
    assert_eq!(index.num_archetypes(), 4);
    assert_eq!(index.signature_of(2), &vec![POSITION, VELOCITY]);
}

#[test]
fn gaining_and_losing_a_component_restores_the_archetype() {
    let mut index = ArchetypeIndex::new();
    let e = entity(0);
    index.spawn(e);
    index.insert(e, VELOCITY);
    let before = components(&index, e);
    index.insert(e, POSITION);
    let r = index.remove(e, POSITION);
    assert_eq!(
        r,
        RemoveOutcome::Moved {
            from: Location { archetype: 2, row: 0 },
            to: Location { archetype: 1, row: 0 },
            created: false
        }
    );
    assert_eq!(components(&index, e), before);
}
