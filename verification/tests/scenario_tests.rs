use fun_with_vm::allocator::where_to_allocate;
use fun_with_vm::garbage_collector::{collect_from_roots, mark_oops_from_roots, merge_free_oops, sweep_oops};
use fun_with_vm::header::Header;
use fun_with_vm::memory_space::MemorySpace;
use fun_with_vm::memory_space_access::first_oop_header;
use fun_with_vm::oop_builder::OopBuilder;
use fun_with_vm::oop_common::{how_many_headers_for, OopCommonState, OopNavigation};
use fun_with_vm::slot_content::SlotContent;
use fun_with_vm::special_class_index::FREE_OBJECT_CLASS_INDEX;

/// Walks the whole space region by region and returns the sum of the
/// region sizes, headers included.
fn sum_of_region_sizes(space: &MemorySpace) -> usize {
    let mut total: usize = 0;
    let mut iter = space.iter();
    while let Some(oop) = iter.next(space) {
        total += oop.oop_size();
    }
    total
}

#[test]
fn test_partition_covers_capacity_after_builds() {
    let mut space = MemorySpace::for_bit_size(240);
    let mut builder = OopBuilder::new();
    builder.set_number_of_slots(1);
    builder.build(&mut space).unwrap();
    builder.reset();
    builder.set_number_of_slots(7);
    builder.build(&mut space).unwrap();
    assert_eq!(sum_of_region_sizes(&space), 240);
}

#[test]
fn test_partition_covers_capacity_after_collection() {
    let mut space = MemorySpace::for_bit_size(240);
    let mut builder = OopBuilder::new();
    builder.set_number_of_slots(3);
    builder.build(&mut space).unwrap();
    builder.reset();
    let root = builder.build(&mut space).unwrap();
    collect_from_roots(vec![root], &mut space);
    assert_eq!(sum_of_region_sizes(&space), 240);
}

#[test]
fn test_one_slot_object_leaves_a_237_slot_remainder() {
    // capacity 240 minus 1 object header, 1 slot and the remainder's own
    // header
    let mut space = MemorySpace::for_bit_size(240);
    let mut builder = OopBuilder::new();
    builder.set_number_of_slots(1);
    let index = builder.build(&mut space).unwrap();
    assert_eq!(index, 0);
    let object = space.get_oop_at(0);
    assert_eq!(object.number_of_slots(), 1);
    let remainder = object.next_oop(&space);
    assert!(remainder.is_free_oop());
    assert_eq!(remainder.number_of_slots(), 237);
}

#[test]
fn test_two_objects_keep_their_slot_counts_and_a_free_region_follows() {
    let mut space = MemorySpace::for_bit_size(240);
    let mut builder = OopBuilder::new();
    builder.set_number_of_slots(1);
    let first = builder.build(&mut space).unwrap();
    builder.reset();
    builder.set_number_of_slots(2);
    let second = builder.build(&mut space).unwrap();

    assert_eq!(space.get_oop_at(first).number_of_slots(), 1);
    assert_eq!(space.get_oop_at(second).number_of_slots(), 2);
    let third = space.get_oop_at(second).next_oop(&space);
    assert!(third.is_free_oop());
}

#[test]
fn test_mark_terminates_on_a_cycle_and_marks_both_objects() {
    let mut space = MemorySpace::for_bit_size(240);
    let mut builder = OopBuilder::new();
    builder.set_number_of_slots(1);
    let first = builder.build(&mut space).unwrap();
    let second = builder.build(&mut space).unwrap();
    space.get_oop_at(first).slot_at_index_put(1, second as u64, &mut space);
    space.get_oop_at(second).slot_at_index_put(1, first as u64, &mut space);

    mark_oops_from_roots(vec![first], &mut space);

    assert_eq!(space.get_oop_at(first).get_header().marked_bit(), 1);
    assert_eq!(space.get_oop_at(second).get_header().marked_bit(), 1);
}

#[test]
fn test_collection_keeps_the_slot_contents_of_a_reachable_object() {
    let mut space = MemorySpace::for_bit_size(240);
    let mut builder = OopBuilder::new();
    builder.set_number_of_slots(1);
    let root = builder.build(&mut space).unwrap();
    let child = builder.build(&mut space).unwrap();
    space.get_oop_at(root).slot_at_index_put(1, child as u64, &mut space);
    // The child points back at the root: a value the collector must keep.
    space.get_oop_at(child).slot_at_index_put(1, root as u64, &mut space);

    collect_from_roots(vec![root], &mut space);

    assert!(!space.get_oop_at(child).is_free_oop());
    assert_eq!(space.get_oop_at(child).slot_at_index(1, &space), root as u64);
}

#[test]
fn test_merge_coalesces_three_adjacent_free_regions_in_one_pass() {
    let mut space = MemorySpace::for_bit_size(240);
    let mut builder = OopBuilder::new();
    builder.set_number_of_slots(2);
    let first = builder.build(&mut space).unwrap();
    builder.reset();
    builder.set_number_of_slots(3);
    let second = builder.build(&mut space).unwrap();
    builder.reset();
    builder.set_number_of_slots(4);
    let third = builder.build(&mut space).unwrap();
    builder.reset();
    // A live object bounds the run of free regions on the right.
    let fourth = builder.build(&mut space).unwrap();

    space.get_oop_at(first).become_free_oop(&mut space);
    space.get_oop_at(second).become_free_oop(&mut space);
    space.get_oop_at(third).become_free_oop(&mut space);

    merge_free_oops(&mut space);

    // sizes 3 + 4 + 5, headers included
    let merged = space.first_oop();
    assert!(merged.is_free_oop());
    assert_eq!(merged.oop_size(), 12);
    assert_eq!(merged.next_oop_index(), fourth);
    assert!(!space.get_oop_at(fourth).is_free_oop());
}

#[test]
fn test_become_free_reports_free_and_the_reserved_class_index() {
    let mut space = MemorySpace::for_bit_size(240);
    let mut builder = OopBuilder::new();
    builder.set_class_index(7);
    builder.set_number_of_slots(4);
    let index = builder.build(&mut space).unwrap();
    assert!(!space.get_oop_at(index).is_free_oop());

    space.get_oop_at(index).become_free_oop(&mut space);

    let reread = space.get_oop_at(index);
    assert!(reread.is_free_oop());
    assert_eq!(reread.get_header().class_index_bits(), FREE_OBJECT_CLASS_INDEX);
    assert_eq!(reread.number_of_slots(), 4);
}

#[test]
fn test_build_reports_out_of_memory_and_leaves_the_space_alone() {
    let mut space = MemorySpace::for_bit_size(10);
    let mut builder = OopBuilder::new();
    builder.set_number_of_slots(20);
    assert!(builder.build(&mut space).is_none());
    let untouched = space.first_oop();
    assert!(untouched.is_free_oop());
    assert_eq!(untouched.number_of_slots(), 9);
}

#[test]
fn test_where_to_allocate_finds_the_first_fitting_free_region() {
    let mut space = MemorySpace::for_bit_size(240);
    let builder = OopBuilder::new();
    builder.build(&mut space).unwrap();
    assert_eq!(where_to_allocate(5, &space), Some(1));
    assert_eq!(where_to_allocate(500, &space), None);
}

#[test]
fn test_big_object_uses_the_overflow_header() {
    let mut space = MemorySpace::for_bit_size(1000);
    let mut builder = OopBuilder::new();
    builder.set_number_of_slots(300);
    let index = builder.build(&mut space).unwrap();
    let object = space.get_oop_at(index);
    assert!(object.get_header().has_extra_slot_header());
    assert_eq!(object.number_of_slots(), 300);
    assert_eq!(object.oop_size(), 302);
    // the leftover free region: 698 words, again in the overflow form
    let remainder = object.next_oop(&space);
    assert!(remainder.is_free_oop());
    assert_eq!(remainder.oop_size(), 698);
    assert_eq!(remainder.number_of_slots(), 696);
    assert_eq!(sum_of_region_sizes(&space), 1000);
}

#[test]
fn test_carving_a_256_word_leftover_keeps_the_partition_exact() {
    // A leftover of 256 words can only be encoded with the overflow form
    // carrying a count the single-word form could also hold.
    let mut space = MemorySpace::for_bit_size(300);
    let mut builder = OopBuilder::new();
    builder.set_number_of_slots(43);
    let index = builder.build(&mut space).unwrap();
    let leftover = space.get_oop_at(index).next_oop(&space);
    assert!(leftover.is_free_oop());
    assert_eq!(leftover.oop_size(), 256);
    assert_eq!(leftover.number_of_slots(), 254);
    assert!(leftover.get_header().has_extra_slot_header());
    assert_eq!(sum_of_region_sizes(&space), 300);
}

#[test]
fn test_sweep_then_merge_reclaims_an_unreachable_object() {
    let mut space = MemorySpace::for_bit_size(240);
    let mut builder = OopBuilder::new();
    builder.set_number_of_slots(5);
    builder.build(&mut space).unwrap();

    sweep_oops(&mut space);
    merge_free_oops(&mut space);

    let whole = first_oop_header(&space);
    assert!(whole.is_free_oop());
    assert_eq!(whole.oop_size(), 240);
}

#[test]
fn test_slot_content_classifies_every_word_as_a_pointer() {
    let content = SlotContent::new(42);
    assert_eq!(content.get_content(), 42);
    assert!(content.is_slot_oop());
    assert!(!content.is_slot_immediate());
}

#[test]
fn test_header_width_rule() {
    assert_eq!(how_many_headers_for(10), 1);
    assert_eq!(how_many_headers_for(253), 1);
    assert_eq!(how_many_headers_for(254), 2);
    assert_eq!(how_many_headers_for(300), 2);
}

#[test]
fn test_fresh_header_is_all_zero() {
    let header = Header::new();
    assert_eq!(header.get_value(), 0);
    assert_eq!(header.header_size(), 1);
    assert!(!header.is_free_oop());
}
