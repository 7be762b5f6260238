use ecs::access::AccessIterator;
use ecs::component::ComponentsHandler;
use ecs::entity::{EntitiesHandler, Entity};
use ecs::error::EcsError;
use ecs::query::{count_items, Searchable};
use ecs::system::{AccessKind, AccessRequest, Plan};
use ecs::world::{ComponentHandler, EntityHandler, SystemHandler, World};
use std::sync::Arc;

const HEALTH: u64 = 100;
const IS_PLAYER: u64 = 200;
const COUNTER: u64 = 300;
const A: u64 = 400;
const CLOCK: u64 = 500;

#[derive(Clone, Debug, PartialEq)]
enum Value {
    Health(u32),
    IsPlayer,
}

fn ids(plan: &Plan) -> Vec<usize> {
    let mut out = Vec::new();
    for e in plan.entities.iter() {
        out.push(e.id());
    }
    out
}

fn small_world() -> (World<Value>, Entity, Entity, Entity) {
    let mut world = World::new();
    world.register(HEALTH);
    world.register(IS_PLAYER);
    let a = world.add_entity(vec![(HEALTH, Value::Health(10))]).unwrap();
    let b = world
        .add_entity(vec![(HEALTH, Value::Health(20)), (IS_PLAYER, Value::IsPlayer)])
        .unwrap();
    let c = world.add_entity((IS_PLAYER, Value::IsPlayer)).unwrap();
    (world, a, b, c)
}

#[test]
fn new_world_is_empty() {
    let world = World::<u32>::new();
    assert_eq!(world.number_of_entities(), 0);
    let plan = world.plan(&vec![]).unwrap();
    assert_eq!(plan.filter, 0);
    assert!(plan.entities.is_empty());
    assert_eq!(world.components().bitmask(HEALTH), Err(EcsError::UnregisteredComponent));
}

#[test]
fn single_component_iteration() {
    let (world, _, _, _) = small_world();
    let plan = world.plan(&vec![AccessRequest::new(AccessKind::Read, HEALTH)]).unwrap();
    let view = world.read(HEALTH, plan.entities.clone()).unwrap();
    let mut it = view.iter();
    let mut sum = 0;
    let mut readers = 0;
    while let Some(item) = it.next() {
        let reader = item.unwrap();
        match reader.read().get() {
            Value::Health(h) => sum += *h,
            Value::IsPlayer => panic!("a player mark in the health column"),
        }
        readers += 1;
    }
    assert_eq!(sum, 30);
    assert_eq!(readers, 2);
}

#[test]
fn filtered_intersection() {
    let (world, _, b, _) = small_world();
    let plan = world
        .plan(&vec![
            AccessRequest::new(AccessKind::Read, HEALTH),
            AccessRequest::new(AccessKind::Read, IS_PLAYER),
        ])
        .unwrap();
    assert_eq!(plan.filter, 0b11);
    assert_eq!(ids(&plan), vec![b.id()]);
    let health = world.read(HEALTH, plan.entities.clone()).unwrap();
    let player = world.read(IS_PLAYER, plan.entities.clone()).unwrap();
    let mut pairs = (health.iter(), player.iter()).query();
    let mut seen = Vec::new();
    while let Some((h, p)) = pairs.next() {
        seen.push((h.unwrap().read().get().clone(), p.unwrap().read().get().clone()));
    }
    assert_eq!(seen, vec![(Value::Health(20), Value::IsPlayer)]);
}

#[test]
fn write_then_read() {
    let mut world = World::<u32>::new();
    world.register(COUNTER);
    for _ in 0..100 {
        world.add_entity((COUNTER, 0u32)).unwrap();
    }
    let plan = world.plan(&vec![AccessRequest::new(AccessKind::Write, COUNTER)]).unwrap();
    assert_eq!(plan.entities.len(), 100);
    {
        let mut view = world.write(COUNTER, plan.entities.clone()).unwrap();
        assert_eq!(view.len(), 100);
        let mut it = view.iter();
        while let Some(item) = it.next() {
            let mut writer = item.unwrap();
            *writer.write() = 42;
        }
    }
    let plan = world.plan(&vec![AccessRequest::new(AccessKind::Read, COUNTER)]).unwrap();
    let view = world.read(COUNTER, plan.entities.clone()).unwrap();
    let mut it = view.iter();
    let mut sum = 0;
    while let Some(item) = it.next() {
        sum += *item.unwrap().read().get();
    }
    assert_eq!(sum, 4200);
}

#[test]
fn removal_hides_entity() {
    let mut world = World::<u32>::new();
    world.register(A);
    let e1 = world.add_entity((A, 1u32)).unwrap();
    let e2 = world.add_entity((A, 2u32)).unwrap();
    let e3 = world.add_entity((A, 3u32)).unwrap();
    world.remove_entity(e2);

    let requests = vec![AccessRequest::new(AccessKind::Read, A)];
    let plan = world.plan(&requests).unwrap();
    assert_eq!(ids(&plan), vec![e1.id(), e3.id()]);
    let view = world.read(A, plan.entities.clone()).unwrap();
    let mut it = view.iter();
    let mut values = Vec::new();
    while let Some(item) = it.next() {
        values.push(*item.unwrap().read().get());
    }
    assert_eq!(values, vec![1, 3]);

    let e4 = world.add_entity((A, 4u32)).unwrap();
    assert_eq!(e4.id(), e2.id());
    let plan = world.plan(&requests).unwrap();
    assert_eq!(plan.entities.len(), 3);
    assert_eq!(ids(&plan), vec![0, 1, 2]);
    let view = world.read(A, plan.entities.clone()).unwrap();
    let mut it = view.iter();
    assert_eq!(count_items(&mut it), 3);
}

#[test]
fn unique_read_write() {
    let mut world = World::<u32>::new();
    world.register_unique(CLOCK, 0);
    let plan = world.plan(&vec![AccessRequest::new(AccessKind::UniqueWrite, CLOCK)]).unwrap();
    assert_eq!(plan.filter, 0);
    {
        let mut clock = world.unique_write(CLOCK).unwrap();
        *clock.write() = 5;
    }
    world.plan(&vec![AccessRequest::new(AccessKind::UniqueRead, CLOCK)]).unwrap();
    let clock = world.unique_read(CLOCK).unwrap();
    assert_eq!(*clock.read().get(), 5);
}

#[test]
fn recycled_id_round_trip() {
    let mut world = World::<u32>::new();
    world.register(HEALTH);
    world.register(A);
    let e = world.add_entity(vec![(HEALTH, 1u32), (A, 2u32)]).unwrap();
    let other = world.add_entity((HEALTH, 3u32)).unwrap();
    world.remove_entity(e);
    assert_eq!(world.entities().get_bitmask(&e), Ok(0));
    let again = world.add_entity((A, 9u32)).unwrap();
    assert_eq!(again.id(), e.id());
    assert_eq!(world.entities().get_bitmask(&again), world.components().bitmask(A));
    assert_eq!(world.entities().get_bitmask(&again), Ok(0b10));
    assert_eq!(world.entities().get_bitmask(&other), Ok(0b01));
    assert_eq!(world.number_of_entities(), 2);
    let fresh = world.add_entity((A, 1u32)).unwrap();
    assert_eq!(fresh.id(), 2);
    assert_eq!(world.number_of_entities(), 3);
}

#[test]
fn free_ids_leave_in_the_order_of_removal() {
    let mut world = World::<u32>::new();
    world.register(A);
    let mut all = Vec::new();
    for k in 0..5u32 {
        all.push(world.add_entity((A, k)).unwrap());
    }
    world.remove_entity(all[3]);
    world.remove_entity(all[1]);
    world.remove_entity(all[4]);
    assert_eq!(world.add_entity((A, 0u32)).unwrap().id(), 3);
    assert_eq!(world.add_entity((A, 0u32)).unwrap().id(), 1);
    assert_eq!(world.add_entity((A, 0u32)).unwrap().id(), 4);
    assert_eq!(world.add_entity((A, 0u32)).unwrap().id(), 5);
}

#[test]
fn removing_an_entity_that_is_not_alive_does_nothing() {
    let mut world = World::<u32>::new();
    world.register(A);
    let e = world.add_entity((A, 1u32)).unwrap();
    world.remove_entity(Entity::new(77));
    world.remove_entity(e);
    world.remove_entity(e);
    assert_eq!(world.add_entity((A, 2u32)).unwrap().id(), 0);
    assert_eq!(world.add_entity((A, 3u32)).unwrap().id(), 1);
    assert_eq!(world.entities().get_bitmask(&Entity::new(77)), Err(EcsError::UnknownEntity));
}

#[test]
fn add_entity_with_unregistered_type_fails_and_changes_nothing() {
    let mut world = World::<u32>::new();
    world.register(A);
    let e = world.add_entity((A, 1u32)).unwrap();
    world.remove_entity(e);
    let r = world.add_entity(vec![(A, 1u32), (HEALTH, 2u32)]);
    assert_eq!(r, Err(EcsError::UnregisteredComponent));
    assert_eq!(world.number_of_entities(), 1);
    assert_eq!(world.add_entity((A, 5u32)).unwrap().id(), 0);
}

#[test]
fn plan_reports_unregistered_before_missing_unique() {
    let mut world = World::<u32>::new();
    world.register(A);
    let both = vec![
        AccessRequest::new(AccessKind::UniqueRead, CLOCK),
        AccessRequest::new(AccessKind::Write, HEALTH),
    ];
    assert_eq!(world.plan(&both).err(), Some(EcsError::UnregisteredComponent));
    let unique_only = vec![
        AccessRequest::new(AccessKind::Read, A),
        AccessRequest::new(AccessKind::UniqueWrite, CLOCK),
    ];
    assert_eq!(world.plan(&unique_only).err(), Some(EcsError::MissingUnique));
    world.register_unique(CLOCK, 1);
    assert!(world.plan(&unique_only).is_ok());
    assert_eq!(world.read(HEALTH, Arc::new(Vec::new())).err(), Some(EcsError::UnregisteredComponent));
    assert_eq!(world.write(HEALTH, Arc::new(Vec::new())).err(), Some(EcsError::UnregisteredComponent));
    assert_eq!(world.unique_read(A).err(), Some(EcsError::MissingUnique));
    assert_eq!(world.unique_write(A).err(), Some(EcsError::MissingUnique));
}

#[test]
fn a_unique_type_with_a_column_type_of_the_same_id_stay_apart() {
    let mut world = World::<u32>::new();
    world.register(A);
    world.register_unique(A, 50);
    let e = world.add_entity((A, 1u32)).unwrap();
    let plan = world
        .plan(&vec![
            AccessRequest::new(AccessKind::UniqueRead, A),
            AccessRequest::new(AccessKind::Read, A),
        ])
        .unwrap();
    assert_eq!(plan.filter, 0b1);
    assert_eq!(ids(&plan), vec![e.id()]);
    assert_eq!(*world.unique_read(A).unwrap().read().get(), 50);
}

#[test]
fn cells_follow_the_bitmask_and_columns_stay_in_step() {
    let mut world = World::<u32>::new();
    let types = [HEALTH, IS_PLAYER, COUNTER];
    for t in types.iter() {
        world.register(*t);
    }
    let mut alive = Vec::new();
    for k in 0..900usize {
        let mut bundle = Vec::new();
        for (n, t) in types.iter().enumerate() {
            if (k >> n) & 1 == 1 || n == k % 3 {
                bundle.push((*t, k as u32));
            }
        }
        alive.push(world.add_entity(bundle).unwrap());
        if k % 7 == 3 {
            let gone = alive.remove(k % alive.len());
            world.remove_entity(gone);
        }
        let pages = world.components().component_buffer(&HEALTH).unwrap().blocks_len();
        for t in types.iter() {
            assert_eq!(world.components().component_buffer(t).unwrap().blocks_len(), pages);
        }
    }
    for id in 0..world.number_of_entities() {
        let mask = world.entities().get_bitmask(&Entity::new(id)).unwrap();
        for t in types.iter() {
            let bit = world.components().bitmask(*t).unwrap();
            let cell = world.components().component_buffer(t).unwrap().get(id);
            let installed = matches!(cell, Some(Some(_)));
            assert_eq!(installed, mask & bit != 0);
        }
    }
    for filter in 0..8u64 {
        let mut requests = Vec::new();
        for (n, t) in types.iter().enumerate() {
            if (filter >> n) & 1 == 1 {
                requests.push(AccessRequest::new(AccessKind::Read, *t));
            }
        }
        let plan = world.plan(&requests).unwrap();
        assert_eq!(plan.filter, filter);
        for pair in plan.entities.windows(2) {
            assert!(pair[0].id() < pair[1].id());
        }
        for e in plan.entities.iter() {
            assert_eq!(world.entities().get_bitmask(e).unwrap() & filter, filter);
        }
        if requests.len() == 3 {
            let a = world.read(HEALTH, plan.entities.clone()).unwrap();
            let b = world.read(IS_PLAYER, plan.entities.clone()).unwrap();
            let c = world.read(COUNTER, plan.entities.clone()).unwrap();
            let mut zipped = ((a.iter(), b.iter()).query(), c.iter()).query();
            let mut tuples = 0;
            while let Some(((x, y), z)) = zipped.next() {
                assert!(x.is_ok() && y.is_ok() && z.is_ok());
                tuples += 1;
            }
            assert_eq!(tuples, plan.entities.len());
        }
    }
}

#[test]
fn registering_after_entities_keeps_them() {
    let mut world = World::<u32>::new();
    assert_eq!(world.register(HEALTH), 0);
    let e = world.add_entity((HEALTH, 8u32)).unwrap();
    assert_eq!(world.register(A), 1);
    assert_eq!(world.entities().get_bitmask(&e), Ok(0b1));
    let f = world.add_entity(vec![(A, 1u32), (HEALTH, 2u32)]).unwrap();
    assert_eq!(world.entities().get_bitmask(&f), Ok(0b11));
    let plan = world.plan(&vec![AccessRequest::new(AccessKind::Read, A)]).unwrap();
    assert_eq!(ids(&plan), vec![f.id()]);
}

#[test]
fn many_entities_get_distinct_ids_and_keep_their_bundles() {
    let batches = 8usize;
    let each = 250usize;
    let mut world = World::<u64>::new();
    world.register(A);
    let mut all = Vec::new();
    for t in 0..batches {
        for k in 0..each {
            let value = (t * each + k) as u64;
            let e = world.add_entity((A, value)).unwrap();
            all.push((e.id(), value));
        }
    }
    assert_eq!(all.len(), batches * each);
    assert_eq!(world.number_of_entities(), batches * each);
    let mut seen = vec![false; batches * each];
    for (id, value) in all.iter() {
        assert!(!seen[*id]);
        seen[*id] = true;
        let column = world.components().component_buffer(&A).unwrap();
        assert_eq!(column.get(*id).as_ref().unwrap().as_ref().unwrap().get(), value);
        assert_eq!(world.entities().get_bitmask(&Entity::new(*id)), Ok(1));
    }
    let plan = world.plan(&vec![AccessRequest::new(AccessKind::Read, A)]).unwrap();
    assert_eq!(plan.entities.len(), batches * each);
}

#[test]
fn system_runs_on_the_calling_thread_with_its_datum() {
    let (world, _, _, _) = small_world();
    let mut sum = 0;
    let requests = vec![AccessRequest::new(AccessKind::Read, HEALTH)];
    let r = world.run_sync_with_data(
        &requests,
        |factor: u32, world: &World<Value>, plan: Plan| {
            let view = world.read(HEALTH, plan.entities.clone()).unwrap();
            let mut it = view.iter();
            while let Some(item) = it.next() {
                if let Value::Health(h) = item.unwrap().read().get() {
                    sum += factor * *h;
                }
            }
        },
        2,
    );
    assert_eq!(r, Ok(()));
    assert_eq!(sum, 60);
}

#[test]
fn system_that_cannot_be_answered_does_not_run() {
    let (world, _, _, _) = small_world();
    let mut ran = false;
    let r = world.run_sync_with_data(
        &vec![AccessRequest::new(AccessKind::Read, COUNTER)],
        |_: (), _: &World<Value>, _: Plan| ran = true,
        (),
    );
    assert_eq!(r, Err(EcsError::UnregisteredComponent));
    let r = world.run_sync_with_data(
        &vec![AccessRequest::new(AccessKind::UniqueRead, CLOCK)],
        |_: (), _: &World<Value>, _: Plan| ran = true,
        (),
    );
    assert_eq!(r, Err(EcsError::MissingUnique));
    assert!(!ran);
}
