use ecs::entity::{EntitiesHandler, EntitiesStorage, Entity};
use ecs::error::EcsError;

fn ids(found: &Vec<Entity>) -> Vec<usize> {
    let mut out = Vec::new();
    for e in found.iter() {
        out.push(e.id());
    }
    out
}

#[test]
fn entity_keeps_its_id() {
    let e = Entity::new(17);
    assert_eq!(e.id(), 17);
    assert_eq!(e.id, 17);
    let copy = e;
    assert_eq!(copy, e);
    assert_ne!(Entity::new(1), Entity::new(2));
}

#[test]
fn new_table_knows_no_entity() {
    let table = EntitiesStorage::<8>::new();
    assert_eq!(table.len(), 0);
    assert_eq!(table.get_bitmask(&Entity::new(0)), Err(EcsError::UnknownEntity));
    assert_eq!(table.get_bitmask(&Entity::new(1000)), Err(EcsError::UnknownEntity));
    assert!(table.query_by_bitmask(0).is_empty());
    assert!(table.query_by_bitmask(1).is_empty());
}

#[test]
fn register_then_get_bitmask() {
    let mut table = EntitiesStorage::<8>::new();
    table.register_bitmask(&Entity::new(3), &0b101);
    assert_eq!(table.get_bitmask(&Entity::new(3)), Ok(0b101));
    assert_eq!(table.get_bitmask(&Entity::new(2)), Err(EcsError::UnknownEntity));
    assert_eq!(table.get_bitmask(&Entity::new(4)), Err(EcsError::UnknownEntity));
    assert_eq!(table.len(), 4);
    table.register_bitmask(&Entity::new(3), &0b10);
    assert_eq!(table.get_bitmask(&Entity::new(3)), Ok(0b10));
    table.register_bitmask(&Entity::new(20), &0b1);
    assert_eq!(table.get_bitmask(&Entity::new(20)), Ok(0b1));
    assert_eq!(table.get_bitmask(&Entity::new(3)), Ok(0b10));
    assert_eq!(table.len(), 21);
}

#[test]
fn reset_writes_zero() {
    let mut table = EntitiesStorage::<8>::new();
    table.register_bitmask(&Entity::new(1), &0b11);
    table.register_bitmask(&Entity::new(2), &0b01);
    table.reset_bitmask(&Entity::new(1));
    assert_eq!(table.get_bitmask(&Entity::new(1)), Ok(0));
    assert_eq!(table.get_bitmask(&Entity::new(2)), Ok(0b01));
    table.reset_bitmask(&Entity::new(30));
    assert_eq!(table.get_bitmask(&Entity::new(30)), Ok(0));
}

#[test]
fn query_is_ascending_and_passes_the_filter() {
    let mut table = EntitiesStorage::<4>::new();
    table.register_bitmask(&Entity::new(9), &0b111);
    table.register_bitmask(&Entity::new(0), &0b001);
    table.register_bitmask(&Entity::new(5), &0b011);
    table.register_bitmask(&Entity::new(2), &0b110);
    table.register_bitmask(&Entity::new(7), &0b010);

    assert_eq!(ids(&table.query_by_bitmask(0b001)), vec![0, 5, 9]);
    assert_eq!(ids(&table.query_by_bitmask(0b010)), vec![2, 5, 7, 9]);
    assert_eq!(ids(&table.query_by_bitmask(0b011)), vec![5, 9]);
    assert_eq!(ids(&table.query_by_bitmask(0b110)), vec![2, 9]);
    assert_eq!(ids(&table.query_by_bitmask(0b111)), vec![9]);
    assert_eq!(ids(&table.query_by_bitmask(0b1000)), Vec::<usize>::new());

    let masks = [0b001u64, 0b010, 0b011, 0b100, 0b101, 0b110, 0b111];
    for filter in masks.iter() {
        let found = table.query_by_bitmask(*filter);
        for pair in found.windows(2) {
            assert!(pair[0].id() < pair[1].id());
        }
        for e in found.iter() {
            let mask = table.get_bitmask(e).unwrap();
            assert_eq!(mask & *filter, *filter);
        }
    }
}

#[test]
fn empty_filter_takes_every_written_entry() {
    let mut table = EntitiesStorage::<4>::new();
    table.register_bitmask(&Entity::new(1), &0b1);
    table.register_bitmask(&Entity::new(3), &0b10);
    table.register_bitmask(&Entity::new(6), &0b1);
    table.reset_bitmask(&Entity::new(3));
    assert_eq!(ids(&table.query_by_bitmask(0)), vec![1, 3, 6]);
    assert_eq!(ids(&table.query_by_bitmask(0b10)), Vec::<usize>::new());
    assert_eq!(ids(&table.query_by_bitmask(0b1)), vec![1, 6]);
}
