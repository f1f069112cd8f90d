use fun_with_vm::memory_space::MemorySpace;
use fun_with_vm::oop_builder::OopBuilder;
use fun_with_vm::oop_common::{OopCommonState, OopNavigation};

#[test]
fn test_allocate_first_object() {
    let mut space = MemorySpace::for_bit_size(240);
    let builder = OopBuilder::new();
    builder.build(&mut space).unwrap();

    assert!(!space.iter().next(&space).unwrap().is_free_oop());
}

#[test]
fn test_allocate_object_that_fit_in_hole() {
    let mut space = MemorySpace::for_bit_size(240);
    let builder = OopBuilder::new();
    builder.build(&mut space).unwrap();
    builder.build(&mut space).unwrap();
    let mut first = space.first_oop();
    first.become_free_oop(&mut space);
    let new_object = builder.build(&mut space).unwrap();

    assert_eq!(new_object, space.get_start_index());
}

#[test]
fn test_allocate_big_object_fills_the_space() {
    let mut space = MemorySpace::for_bit_size(240);
    let mut builder = OopBuilder::new();
    builder.set_number_of_slots(239);
    builder.build(&mut space).unwrap();

    assert!(space.first_oop().next_oop_index() > space.get_end_index());
}

#[test]
fn test_allocate_two_objects_first_object_is_not_overriden() {
    let mut space = MemorySpace::for_bit_size(240);
    let mut builder = OopBuilder::new();
    builder.set_number_of_slots(1);
    builder.build(&mut space).unwrap();
    builder.reset();
    builder.set_number_of_slots(2);
    builder.build(&mut space).unwrap();

    assert_eq!(space.first_oop().get_header().number_of_slots_bits(), 1);
}

#[test]
fn test_allocate_two_objects_has_two_objects() {
    let mut space = MemorySpace::for_bit_size(240);
    let mut builder = OopBuilder::new();
    builder.set_number_of_slots(1);
    builder.build(&mut space).unwrap();
    builder.reset();
    builder.set_number_of_slots(2);
    builder.build(&mut space).unwrap();

    let mut iter = space.iter();
    iter.next(&space);
    iter.next(&space);
    assert!(iter.next(&space).unwrap().is_free_oop());
}

#[test]
fn test_allocate_two_objects_second_object_has_correct_number_of_slots() {
    let mut space = MemorySpace::for_bit_size(240);
    let mut builder = OopBuilder::new();
    builder.set_number_of_slots(1);
    builder.build(&mut space).unwrap();
    builder.reset();
    builder.set_number_of_slots(2);
    builder.build(&mut space).unwrap();

    let mut iter = space.iter();
    iter.next(&space);

    assert_eq!(
        iter.next(&space).unwrap().get_header().number_of_slots_bits(),
        2
    );
}

#[test]
fn test_allocate_two_objects_second_object_is_not_free() {
    let mut space = MemorySpace::for_bit_size(240);
    let mut builder = OopBuilder::new();
    builder.set_number_of_slots(1);
    builder.build(&mut space).unwrap();
    builder.reset();
    builder.set_number_of_slots(2);
    builder.build(&mut space).unwrap();

    let mut iter = space.iter();
    iter.next(&space);

    assert!(!iter.next(&space).unwrap().is_free_oop());
}

#[test]
fn test_moved_free_object_has_less_slots() {
    let mut space = MemorySpace::for_bit_size(240);
    let mut builder = OopBuilder::new();
    builder.set_number_of_slots(1);
    builder.build(&mut space).unwrap();

    let mut iter = space.iter();
    iter.next(&space);

    assert_eq!(
        iter.next(&space).unwrap().get_header().number_of_slots_bits(),
        237
    ); // 2 == oop (header + slot) & 0 based
}

#[test]
fn test_moved_free_object_is_after_first() {
    let mut space = MemorySpace::for_bit_size(240);
    let mut builder = OopBuilder::new();
    builder.set_number_of_slots(1);
    builder.build(&mut space).unwrap();

    let mut iter = space.iter();
    iter.next(&space);

    assert!(iter.next(&space).unwrap().is_free_oop());
}
