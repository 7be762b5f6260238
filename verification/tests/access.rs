use ecs::access::{
    AccessIterator, Accessible, Read, Reader, UniqueRead, UniqueWrite, Write, Writter,
};
use ecs::component::BufferBlockVec;
use ecs::entity::Entity;
use ecs::error::EcsError;
use ecs::query::{count_items, Searchable, TupleAccessIterator};
use ecs::storage::Storage;
use std::sync::Arc;

fn column(values: &[(usize, u32)]) -> BufferBlockVec<u32> {
    let mut column = BufferBlockVec::new();
    for (id, value) in values.iter() {
        column.set(Some(Storage::new(*value)), *id);
    }
    column
}

fn entities(ids: &[usize]) -> Arc<Vec<Entity>> {
    let mut list = Vec::new();
    for id in ids.iter() {
        list.push(Entity::new(*id));
    }
    Arc::new(list)
}

#[test]
fn handles_say_whether_they_are_unique() {
    assert!(!<Read<'static, u32> as Accessible>::is_unique());
    assert!(!<Write<'static, u32> as Accessible>::is_unique());
    assert!(<UniqueRead<'static, u32> as Accessible>::is_unique());
    assert!(<UniqueWrite<'static, u32> as Accessible>::is_unique());
}

#[test]
fn reader_reads_its_component() {
    let holder = Storage::new(31u32);
    let reader = Reader::new(&holder);
    assert_eq!(*reader.read().get(), 31);
}

#[test]
fn writer_changes_its_component() {
    let mut holder = Storage::new(1u32);
    {
        let mut writer = Writter::new(&mut holder);
        assert_eq!(*writer.write(), 1);
        *writer.write() = 2;
        *writer.write() += 5;
    }
    assert_eq!(*holder.get(), 7);
}

#[test]
fn read_view_walks_its_entities_in_order() {
    let column = column(&[(0, 10), (2, 30), (5, 60)]);
    let view = Read::new(&column, entities(&[5, 0, 2]));
    assert_eq!(view.len(), 3);
    let mut it = view.iter();
    let mut seen = Vec::new();
    while let Some(item) = it.next() {
        seen.push(*item.unwrap().read().get());
    }
    assert_eq!(seen, vec![60, 10, 30]);
    assert!(it.next().is_none());
    assert!(it.next().is_none());
    let mut again = view.iter();
    assert_eq!(count_items(&mut again), 3);
}

#[test]
fn read_view_reports_a_missing_cell_and_moves_on() {
    let mut column = column(&[(0, 10), (2, 30)]);
    column.set(None, 1);
    let view = Read::new(&column, entities(&[0, 1, 3, 9000, 2]));
    let mut it = view.iter();
    assert_eq!(*it.next().unwrap().unwrap().read().get(), 10);
    assert_eq!(it.next().unwrap().err(), Some(EcsError::MissingExpectedCell));
    assert_eq!(it.next().unwrap().err(), Some(EcsError::MissingExpectedCell));
    assert_eq!(it.next().unwrap().err(), Some(EcsError::MissingExpectedCell));
    assert_eq!(*it.next().unwrap().unwrap().read().get(), 30);
    assert!(it.next().is_none());
}

#[test]
fn write_view_changes_only_the_cells_it_visits() {
    let mut column = column(&[(0, 1), (1, 2), (2, 3), (3, 4)]);
    {
        let mut view = Write::new(&mut column, entities(&[1, 3]));
        assert_eq!(view.len(), 2);
        let mut it = view.iter();
        while let Some(item) = it.next() {
            let mut writer = item.unwrap();
            *writer.write() *= 10;
        }
    }
    let view = Read::new(&column, entities(&[0, 1, 2, 3]));
    let mut it = view.iter();
    let mut seen = Vec::new();
    while let Some(item) = it.next() {
        seen.push(*item.unwrap().read().get());
    }
    assert_eq!(seen, vec![1, 20, 3, 40]);
    assert_eq!(column.blocks_len(), 1);
}

#[test]
fn write_view_reports_a_missing_cell_and_moves_on() {
    let mut column = column(&[(4, 1)]);
    column.set(None, 2);
    let mut view = Write::new(&mut column, entities(&[2, 7, 800, 4]));
    let mut it = view.iter();
    assert_eq!(it.next().unwrap().err(), Some(EcsError::MissingExpectedCell));
    assert_eq!(it.next().unwrap().err(), Some(EcsError::MissingExpectedCell));
    assert_eq!(it.next().unwrap().err(), Some(EcsError::MissingExpectedCell));
    {
        let mut writer = it.next().unwrap().unwrap();
        *writer.write() = 9;
    }
    assert!(it.next().is_none());
    assert_eq!(column.get(4).as_ref().unwrap().as_ref().unwrap().get(), &9);
    assert_eq!(column.blocks_len(), 1);
}

#[test]
fn unique_views_read_and_write() {
    let mut holder = Storage::new(0u32);
    {
        let mut view = UniqueWrite::unique_new(&mut holder);
        *view.write() = 5;
    }
    let view = UniqueRead::unique_new(&holder);
    assert_eq!(*view.read().get(), 5);
}

#[test]
fn zip_ends_with_the_shorter_walk() {
    let a = column(&[(0, 1), (1, 2), (2, 3)]);
    let b = column(&[(0, 10), (1, 20), (2, 30)]);
    let long = Read::new(&a, entities(&[0, 1, 2]));
    let short = Read::new(&b, entities(&[2, 0]));
    let mut zipped = (long.iter(), short.iter()).query();
    let mut seen = Vec::new();
    while let Some((x, y)) = zipped.next() {
        seen.push((*x.unwrap().read().get(), *y.unwrap().read().get()));
    }
    assert_eq!(seen, vec![(1, 30), (2, 10)]);
    let mut other = TupleAccessIterator(short.iter(), long.iter());
    assert_eq!(count_items(&mut other), 2);
    let same = Read::new(&b, entities(&[0, 1, 2]));
    let mut both = (long.iter(), same.iter()).query();
    assert_eq!(count_items(&mut both), 3);
}
