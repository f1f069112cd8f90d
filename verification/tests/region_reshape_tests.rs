use fun_with_vm::garbage_collector::{collect_from_roots, mark_oops_from_roots};
use fun_with_vm::memory_space::MemorySpace;
use fun_with_vm::oop_builder::OopBuilder;
use fun_with_vm::oop_common::{how_many_headers_for, OopCommonState};
use fun_with_vm::oop_headers::OopHeaders;

#[test]
fn test_merge_with_around_the_single_word_limit() {
    for nb_slots in [2usize, 254, 255, 256, 257] {
        let mut space = MemorySpace::for_bit_size(1000);
        let mut builder = OopBuilder::new();
        builder.set_number_of_slots(nb_slots);
        let mut oop1 = OopHeaders::new(builder.build(&mut space).unwrap(), &space);
        oop1.become_free_oop(&mut space);
        let mut oop2 = OopHeaders::new(builder.build(&mut space).unwrap(), &space);
        oop2.become_free_oop(&mut space);

        let resulting_size = oop1.oop_size() + oop2.oop_size();

        oop1.merge_with(oop2, &mut space);

        assert!(oop1.is_free_oop());
        assert_eq!(oop1.oop_size(), resulting_size);
    }
}

#[test]
fn test_carve_out_around_the_single_word_limit() {
    for memory_size in [25usize, 254, 255, 256, 257, 300] {
        let mut space = MemorySpace::for_bit_size(1000);
        let mut builder = OopBuilder::new();
        builder.set_number_of_slots(memory_size);
        let mut oop = OopHeaders::new(builder.build(&mut space).unwrap(), &space);
        oop.become_free_oop(&mut space);

        let carved_size: usize = 20;
        let carved_oop = oop.carve_out(carved_size);

        assert_eq!(carved_oop.oop_size() + carved_size, oop.oop_size());
    }
}

#[test]
fn test_mark_roots_in_a_bigger_space() {
    let mut space = MemorySpace::for_bit_size(1000);
    let builder = OopBuilder::new();
    let mut roots: Vec<usize> = Vec::new();
    roots.push(builder.build(&mut space).unwrap());

    mark_oops_from_roots(roots, &mut space);

    assert_eq!(space.first_oop().get_header().marked_bit(), 1);
}

#[test]
fn test_garbage_collection_compacts_a_bigger_space() {
    let mut space = MemorySpace::for_bit_size(1000);
    let builder = OopBuilder::new();
    let roots: Vec<usize> = Vec::new();
    builder.build(&mut space).unwrap();
    builder.build(&mut space).unwrap();
    let mut first = space.first_oop();
    first.become_free_oop(&mut space);

    collect_from_roots(roots, &mut space);

    assert_eq!(
        space.first_oop().number_of_slots(),
        1000 - how_many_headers_for(1000)
    );
}
