use fun_with_vm::memory_space::MemorySpace;
use fun_with_vm::oop_builder::OopBuilder;
use fun_with_vm::oop_common::OopCommonState;
use fun_with_vm::oop_slice::OopSlice;

#[test]
fn oop_become_free_oop_is_free_oop() {
    let mut space = MemorySpace::for_bit_size(240);
    let builder = OopBuilder::new();
    let oop_index = builder.build(&mut space).unwrap();
    let mut new_object = space.get_oop_at(oop_index);

    new_object.become_free_oop(&mut space);
    assert!(new_object.is_free_oop());
}

#[test]
fn oop_test_slot_at_index_returns_value() {
    let mut space = MemorySpace::for_bit_size(240);
    let mut builder = OopBuilder::new();
    builder.set_number_of_slots(1);
    let oop_index: usize = builder.build(&mut space).unwrap();
    let slot_index: usize = 1;
    let slot_value: u64 = 3;
    space.word_at_put(oop_index + slot_index, slot_value);

    let oop: OopSlice = space.first_oop();
    assert_eq!(oop.slot_at_index(slot_index, &space), slot_value);
}

#[test]
fn oop_test_slot_at_put_sets_value() {
    let mut space = MemorySpace::for_bit_size(240);
    let mut builder = OopBuilder::new();
    builder.set_number_of_slots(1);
    builder.build(&mut space).unwrap();
    let slot_index: usize = 1;
    let slot_value: u64 = 3;

    let oop: OopSlice = space.first_oop();
    oop.slot_at_index_put(slot_index, slot_value, &mut space);
    assert_eq!(oop.slot_at_index(slot_index, &space), slot_value);
}

#[test]
fn oop_slice_become_free_oop_is_free_oop() {
    let mut space = MemorySpace::for_bit_size(240);
    let builder = OopBuilder::new();
    let oop_index = builder.build(&mut space).unwrap();
    let mut new_object = space.get_oop_at(oop_index);

    new_object.become_free_oop(&mut space);
    assert!(new_object.is_free_oop());
}

#[test]
fn oop_slice_test_slot_at_index_returns_value() {
    let mut space = MemorySpace::for_bit_size(240);
    let mut builder = OopBuilder::new();
    builder.set_number_of_slots(1);
    let oop_index: usize = builder.build(&mut space).unwrap();
    let slot_index: usize = 1;
    let slot_value: u64 = 3;
    space.word_at_put(oop_index + slot_index, slot_value);

    let oop: OopSlice = space.first_oop();
    assert_eq!(oop.slot_at_index(slot_index, &space), slot_value);
}

#[test]
fn test_slot_at_index_put_sets_value() {
    let mut space = MemorySpace::for_bit_size(240);
    let mut builder = OopBuilder::new();
    builder.set_number_of_slots(1);
    let oop: OopSlice = space.first_oop();
    let slot_index: usize = 1;
    let slot_value: u64 = 3;
    oop.slot_at_index_put(slot_index, slot_value, &mut space);

    assert_eq!(oop.slot_at_index(slot_index, &space), slot_value);
}

#[test]
fn test_big_oop_slot_at_index_returns_value() {
    let mut space = MemorySpace::for_bit_size(1000);
    let mut builder = OopBuilder::new();
    builder.set_number_of_slots(500);
    let oop: OopSlice = space.first_oop();
    let slot_index: usize = 250;
    let slot_value: u64 = 42;
    oop.slot_at_index_put(slot_index, slot_value, &mut space);

    assert!(oop.get_header().has_extra_slot_header());
    assert_eq!(oop.slot_at_index(slot_index, &space), slot_value);
}
