use fun_with_vm::header::Header;
use fun_with_vm::memory_space::MemorySpace;
use fun_with_vm::oop_common::{OopCommonState, OopNavigation};

#[test]
fn test_unfilled_space_first_oop_is_free() {
    let space = MemorySpace::for_bit_size(240);
    assert!(space.first_oop().is_free_oop());
}

#[test]
fn test_unfilled_space_first_oop_is_the_only_oop_in_space() {
    // The next index will be right after the end of the space
    let space = MemorySpace::for_bit_size(240);
    assert_eq!(
        space.first_oop().next_oop_index() - 1,
        space.get_end_index()
    );
}

#[test]
fn test_bigger_space_allocate() {
    // The next index will be right after the end of the space
    let space = MemorySpace::for_bit_size(1000);
    assert_eq!(
        space.first_oop().next_oop_index() - 1,
        space.get_end_index()
    );
}

// In the following test cases the initial free region has to go to the
// extra header; its width formula then leaves one slot spare.
#[test]
fn test_allocate_lower_bound_edge_case() {
    let space = MemorySpace::for_bit_size(Header::MAX_NUMBER_OF_SLOTS - 1);
    assert_eq!(
        space.first_oop().oop_size(),
        Header::MAX_NUMBER_OF_SLOTS - 1
    );
}

#[test]
fn test_allocate_exact_bound_edge_case() {
    let space = MemorySpace::for_bit_size(Header::MAX_NUMBER_OF_SLOTS);
    assert_eq!(
        space.first_oop().oop_size(),
        Header::MAX_NUMBER_OF_SLOTS - 1
    );
}

#[test]
fn test_allocate_middle_bound_edge_case() {
    let space = MemorySpace::for_bit_size(Header::MAX_NUMBER_OF_SLOTS + 1);
    assert_eq!(space.first_oop().oop_size(), Header::MAX_NUMBER_OF_SLOTS);
}

#[test]
fn test_allocate_lower_bound_edge_case_end_index() {
    let space = MemorySpace::for_bit_size(Header::MAX_NUMBER_OF_SLOTS - 1);
    assert_eq!(space.get_end_index(), Header::MAX_NUMBER_OF_SLOTS - 2);
}

#[test]
fn test_allocate_exact_bound_edge_case_end_index() {
    let space = MemorySpace::for_bit_size(Header::MAX_NUMBER_OF_SLOTS);
    assert_eq!(space.get_end_index(), Header::MAX_NUMBER_OF_SLOTS - 1);
}

#[test]
fn test_allocate_middle_bound_edge_case_end_index() {
    let space = MemorySpace::for_bit_size(Header::MAX_NUMBER_OF_SLOTS + 1);
    assert_eq!(space.get_end_index(), Header::MAX_NUMBER_OF_SLOTS);
}
