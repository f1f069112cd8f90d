use fun_with_vm::garbage_collector::{collect_from_roots, mark_oops_from_roots};
use fun_with_vm::memory_space::MemorySpace;
use fun_with_vm::oop_builder::OopBuilder;
use fun_with_vm::oop_common::OopCommonState;

#[test]
fn test_mark_roots() {
    let mut space = MemorySpace::for_bit_size(240);
    let builder = OopBuilder::new();
    let mut roots: Vec<usize> = Vec::new();
    roots.push(builder.build(&mut space).unwrap());

    mark_oops_from_roots(roots, &mut space);

    assert_eq!(space.first_oop().get_header().marked_bit(), 1);
}

#[test]
fn test_mark_slot_of_root() {
    let mut space = MemorySpace::for_bit_size(240);
    let mut builder = OopBuilder::new();
    let mut roots: Vec<usize> = Vec::new();
    builder.set_number_of_slots(1);
    roots.push(builder.build(&mut space).unwrap());
    builder.reset();
    let second_oop = builder.build(&mut space).unwrap();
    let first_oop = space.first_oop();
    first_oop.slot_at_index_put(1, second_oop as u64, &mut space);

    mark_oops_from_roots(roots, &mut space);

    let mut iter = space.iter();
    iter.next(&space);

    assert_eq!(iter.next(&space).unwrap().get_header().marked_bit(), 1);
}

#[test]
fn test_sweep_clears_marked_bit() {
    let mut space = MemorySpace::for_bit_size(240);
    let builder = OopBuilder::new();
    let mut roots: Vec<usize> = Vec::new();
    roots.push(builder.build(&mut space).unwrap());

    collect_from_roots(roots, &mut space);

    let mut iter = space.iter();

    assert_eq!(iter.next(&space).unwrap().get_header().marked_bit(), 0);
}

#[test]
fn test_garbage_collection_creates_hole() {
    let mut space = MemorySpace::for_bit_size(240);
    let builder = OopBuilder::new();
    let mut roots: Vec<usize> = Vec::new();
    builder.build(&mut space).unwrap();
    roots.push(builder.build(&mut space).unwrap());

    collect_from_roots(roots, &mut space);

    assert!(space.first_oop().is_free_oop());
}

#[test]
fn test_garbage_collection_does_not_reclaim_roots() {
    let mut space = MemorySpace::for_bit_size(240);
    let builder = OopBuilder::new();
    let mut roots: Vec<usize> = Vec::new();
    roots.push(builder.build(&mut space).unwrap());

    collect_from_roots(roots, &mut space);

    assert!(!space.first_oop().is_free_oop());
}

#[test]
fn test_garbage_collection_does_not_reclaim_slot_of_root() {
    let mut space = MemorySpace::for_bit_size(240);
    let mut builder = OopBuilder::new();
    let mut roots: Vec<usize> = Vec::new();
    builder.set_number_of_slots(1);
    roots.push(builder.build(&mut space).unwrap());
    builder.reset();
    let second_oop = builder.build(&mut space).unwrap();
    let first_oop = space.first_oop();
    first_oop.slot_at_index_put(1, second_oop as u64, &mut space);

    collect_from_roots(roots, &mut space);

    let mut iter = space.iter();
    iter.next(&space);
    assert!(!iter.next(&space).unwrap().is_free_oop());
}

#[test]
fn test_garbage_collection_reclaims_all_objects_without_roots() {
    let mut space = MemorySpace::for_bit_size(240);
    let builder = OopBuilder::new();
    let roots: Vec<usize> = Vec::new();
    builder.build(&mut space).unwrap();

    collect_from_roots(roots, &mut space);

    assert!(space.first_oop().is_free_oop());
}

#[test]
fn test_garbage_collection_compacts_free_oop_reclaimed_after_a_free_oop() {
    let mut space = MemorySpace::for_bit_size(240);
    let builder = OopBuilder::new();
    let roots: Vec<usize> = Vec::new();
    builder.build(&mut space).unwrap();
    builder.build(&mut space).unwrap();
    let mut first = space.first_oop();
    first.become_free_oop(&mut space);

    collect_from_roots(roots, &mut space);

    assert_eq!(space.first_oop().number_of_slots(), 239);
}

#[test]
fn test_garbage_collection_compacts_free_oop_reclaimed_before_a_free_oop() {
    let mut space = MemorySpace::for_bit_size(240);
    let builder = OopBuilder::new();
    let roots: Vec<usize> = Vec::new();
    builder.build(&mut space).unwrap();
    let mut first = space.first_oop();
    first.become_free_oop(&mut space);

    collect_from_roots(roots, &mut space);

    assert_eq!(space.first_oop().number_of_slots(), 239);
}
