use ecs::block_vec::{sync_mem_to_biggest, BlockVec, OutOfBounds};

#[test]
fn creation() {
    let vec = BlockVec::<i32, 100>::new();
    assert_eq!(vec.blocks_len(), 1);
    assert_eq!(vec.len(), 0);
}

#[test]
fn set_get_element() {
    let mut vec = BlockVec::<String, 100>::new();
    vec.set("A".to_string(), 50);
    vec.set("B".to_string(), 3);
    vec.set("C".to_string(), 5);

    if let Some(value) = vec.get(50) {
        assert_eq!(value, &"A".to_string());
    }

    if let Some(value) = vec.get(3) {
        assert_eq!(value, &"B".to_string());
    }

    if let Some(value) = vec.get(5) {
        assert_eq!(value, &"C".to_string());
    }

    vec.set("Replaced".to_string(), 50);

    if let Some(value) = vec.get(50) {
        assert_eq!(value, &"Replaced".to_string());
    }
}

#[test]
fn check_blocks() {
    let mut vec = BlockVec::<String, 5>::new();
    vec.set("A".to_string(), 50);
    vec.set("B".to_string(), 3);
    vec.set("C".to_string(), 5);
    vec.set("A".to_string(), 20);
    vec.set("B".to_string(), 30);
    vec.set("C".to_string(), 50);

    assert_eq!(vec.blocks_len(), 11);
}

#[test]
fn sync_mem() {
    let mut vec1 = BlockVec::<String, 10>::new();
    let mut vec2 = BlockVec::<String, 10>::new();
    let mut vec3 = BlockVec::<String, 10>::new();

    vec1.set("A".to_string(), 100);
    vec2.set("B".to_string(), 4);

    sync_mem_to_biggest(vec![&mut vec1, &mut vec2, &mut vec3]);

    assert_eq!(vec1.blocks_len(), vec1.blocks_len());
    assert_eq!(vec1.blocks_len(), vec3.blocks_len());
}

#[test]
fn set_reports_growth_and_pages() {
    let mut vec = BlockVec::<u32, 4>::new();
    assert!(!vec.set(7, 3));
    assert_eq!(vec.blocks_len(), 1);
    assert!(vec.set(8, 4));
    assert_eq!(vec.blocks_len(), 2);
    assert!(vec.set(9, 20));
    assert_eq!(vec.blocks_len(), 7);
    assert!(!vec.set(10, 27));
    assert_eq!(vec.blocks_len(), 7);
    assert_eq!(vec.len(), 28);
    assert_eq!(vec.get(3), &Some(7));
    assert_eq!(vec.get(4), &Some(8));
    assert_eq!(vec.get(20), &Some(9));
    assert_eq!(vec.get(27), &Some(10));
    assert_eq!(vec.get(5), &None);
}

#[test]
fn get_beyond_pages_is_empty() {
    let vec = BlockVec::<u32, 4>::new();
    assert_eq!(vec.get(4), &None);
    assert_eq!(vec.get(1_000_000), &None);
    assert_eq!(vec.get(usize::MAX), &None);
}

#[test]
fn get_in_bounds_tells_missing_from_empty() {
    let mut vec = BlockVec::<u32, 4>::new();
    assert_eq!(vec.get_in_bounds(3), Ok(&None));
    assert_eq!(vec.get_in_bounds(4), Err(OutOfBounds));
    vec.set(1, 2);
    assert_eq!(vec.get_in_bounds(2), Ok(&Some(1)));
    vec.append_empty_blocks(1);
    assert_eq!(vec.get_in_bounds(4), Ok(&None));
    assert_eq!(vec.get_in_bounds(8), Err(OutOfBounds));
}

#[test]
fn append_empty_blocks_keeps_cells() {
    let mut vec = BlockVec::<u32, 3>::new();
    vec.set(5, 1);
    vec.append_empty_blocks(4);
    assert_eq!(vec.blocks_len(), 5);
    assert_eq!(vec.len(), 2);
    assert_eq!(vec.get(1), &Some(5));
    assert_eq!(vec.get(14), &None);
    vec.append_empty_blocks(0);
    assert_eq!(vec.blocks_len(), 5);
}

#[test]
fn page_and_offset_of_an_index() {
    assert_eq!(BlockVec::<u8, 400>::block_for_index(0), 0);
    assert_eq!(BlockVec::<u8, 400>::block_for_index(399), 0);
    assert_eq!(BlockVec::<u8, 400>::block_for_index(400), 1);
    assert_eq!(BlockVec::<u8, 400>::block_for_index(1234), 3);
    assert_eq!(BlockVec::<u8, 400>::corrected_index(1234), 34);
    assert_eq!(BlockVec::<u8, 400>::corrected_index(400), 0);
}

#[test]
fn sync_pads_to_the_largest_and_keeps_cells() {
    let mut a = BlockVec::<u32, 2>::new();
    let mut b = BlockVec::<u32, 2>::new();
    let mut c = BlockVec::<u32, 2>::new();
    a.set(1, 0);
    b.set(2, 9);
    c.set(3, 3);
    assert_eq!(b.blocks_len(), 5);
    assert_eq!(c.blocks_len(), 2);
    sync_mem_to_biggest(vec![&mut a, &mut b, &mut c]);
    assert_eq!(a.blocks_len(), 5);
    assert_eq!(b.blocks_len(), 5);
    assert_eq!(c.blocks_len(), 5);
    assert_eq!(a.get(0), &Some(1));
    assert_eq!(b.get(9), &Some(2));
    assert_eq!(c.get(3), &Some(3));
    assert_eq!(a.len(), 1);
    assert_eq!(b.len(), 10);
    assert_eq!(c.len(), 4);
    sync_mem_to_biggest(Vec::<&mut BlockVec<u32, 2>>::new());
}
