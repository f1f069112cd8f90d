use fun_with_vm::header::Header;

#[test]
fn header_test_class_index() {
    let header = Header {
        header_value: 0xFFFFFC0000000000,
    };
    assert_eq!(header.class_index_bits(), 0x3FFFFF);
}

#[test]
fn header_test_format() {
    let header = Header {
        header_value: 0xF800000000,
    };
    assert_eq!(header.format_bits(), 0x1F);
}

#[test]
fn header_test_grey_bit() {
    let header = Header {
        header_value: 0x100000000,
    };
    assert_eq!(header.grey_bit(), 1);
}

#[test]
fn header_test_hash() {
    let header = Header {
        header_value: 0xFFFFFC00,
    };
    assert_eq!(header.hash_bits(), 0x3FFFFF);
}

#[test]
fn header_test_immutable_bit() {
    let header = Header {
        header_value: 0x10000000000,
    };
    assert_eq!(header.immutable_bit(), 1);
}

#[test]
fn header_test_marked_bit() {
    let header = Header {
        header_value: 0xF1FF,
    };
    assert_eq!(header.marked_bit(), 1);
}

#[test]
fn header_test_not_class_index() {
    let header = Header {
        header_value: 0x3FFFFFFFFFF,
    };
    assert_eq!(header.class_index_bits(), 0);
}

#[test]
fn header_test_not_format() {
    let header = Header {
        header_value: 0xFFFFFF07FFFFFFFF,
    };
    assert_eq!(header.format_bits(), 0);
}

#[test]
fn header_test_not_grey_bit() {
    let header = Header {
        header_value: 0xFFFFFF8FFFFFFFF,
    };
    assert_eq!(header.grey_bit(), 0);
}

#[test]
fn header_test_not_hash() {
    let header = Header {
        header_value: 0xFFFFFFFF000003FF,
    };
    assert_eq!(header.hash_bits(), 0);
}

#[test]
fn header_test_not_immutable_bit() {
    let header = Header {
        header_value: 0xFFFFFEFFFFFFFFFF,
    };
    assert_eq!(header.immutable_bit(), 0);
}

#[test]
fn header_test_not_marked_bit() {
    let header = Header {
        header_value: 0xFFFFFFFFFFFFFEFF,
    };
    assert_eq!(header.marked_bit(), 0);
}

#[test]
fn header_test_not_number_of_slots() {
    let header = Header {
        header_value: 0xFFFFFFFFFFFFFF00,
    };
    assert_eq!(header.number_of_slots_bits(), 0);
}

#[test]
fn header_test_not_pinned_bit() {
    let header = Header {
        header_value: 0xFFFFFFFDFFFFFFFF,
    };
    assert_eq!(header.pinned_bit(), 0);
}

#[test]
fn header_test_not_remembered_bit() {
    let header = Header {
        header_value: 0xFFFFFEFFFFFFFFFF,
    };
    assert_eq!(header.remembered_bit(), 0);
}

#[test]
fn header_test_number_of_slots() {
    let header = Header { header_value: 0xFF };
    assert_eq!(header.number_of_slots_bits(), 0xFF);
}

#[test]
fn header_test_pinned_bit() {
    let header = Header {
        header_value: 0x200000000,
    };
    assert_eq!(header.pinned_bit(), 1);
}

#[test]
fn header_test_remembered_bit() {
    let header = Header {
        header_value: 0x10000000000,
    };
    assert_eq!(header.remembered_bit(), 1);
}

#[test]
fn header_test_set_class_index() {
    let class_index: u64 = 4;
    let mut header = Header::new();
    header.set_class_index_bits(class_index);
    assert_eq!(header.class_index_bits(), class_index);
}

#[test]
fn header_test_set_format() {
    let format: u64 = 4;
    let mut header = Header::new();
    header.set_format_bits(format);
    assert_eq!(header.format_bits(), format);
}

#[test]
fn header_test_set_grey_bit() {
    let mut header = Header::new();
    header.set_grey_bit();
    assert_eq!(header.grey_bit(), 1);
}

#[test]
fn header_test_set_hash() {
    let hash: u64 = 549;
    let mut header = Header::new();
    header.set_hash_bits(hash);
    assert_eq!(header.hash_bits(), hash);
}

#[test]
fn header_test_set_immutable_bit() {
    let mut header = Header::new();
    header.set_immutable_bit();
    assert_eq!(header.immutable_bit(), 1);
}

#[test]
fn header_test_set_marked_bit() {
    let mut header = Header::new();
    header.set_marked_bit();
    assert_eq!(header.marked_bit(), 1);
}

#[test]
fn header_test_set_number_of_slots() {
    let number_of_slots: usize = 5;
    let mut header = Header::new();
    header.set_number_of_slots_bits(number_of_slots);
    assert_eq!(header.number_of_slots_bits(), number_of_slots as u64);
}

#[test]
fn header_test_set_pinned_bit() {
    let mut header = Header::new();
    header.set_pinned_bit();
    assert_eq!(header.pinned_bit(), 1);
}

#[test]
fn header_test_set_remembered_bit() {
    let mut header = Header::new();
    header.set_remembered_bit();
    assert_eq!(header.remembered_bit(), 1);
}

#[test]
fn test_set_remembered_bit_after_number_of_slots_keeps_slots() {
    let mut header = Header::new();
    header.set_number_of_slots_bits(42);
    header.set_remembered_bit();
    assert_eq!(header.number_of_slots_bits(), 42);
}

#[test]
fn test_unset_remembered_bit_after_number_of_slots_keeps_slots() {
    let mut header = Header::new();
    header.set_number_of_slots_bits(42);
    header.unset_remembered_bit();
    assert_eq!(header.number_of_slots_bits(), 42);
}

#[test]
fn test_set_marked_bit_after_number_of_slots_keeps_slots() {
    let mut header = Header::new();
    header.set_number_of_slots_bits(42);
    header.set_marked_bit();
    assert_eq!(header.number_of_slots_bits(), 42);
}

#[test]
fn test_unset_marked_bit_after_number_of_slots_keeps_slots() {
    let mut header = Header::new();
    header.set_number_of_slots_bits(42);
    header.unset_marked_bit();
    assert_eq!(header.number_of_slots_bits(), 42);
}

#[test]
fn test_set_class_index_after_number_of_slots_keeps_slots() {
    let mut header = Header::new();
    header.set_number_of_slots_bits(42);
    header.set_class_index_bits(3);
    assert_eq!(header.number_of_slots_bits(), 42);
}

#[test]
fn test_set_format_after_number_of_slots_keeps_slots() {
    let mut header = Header::new();
    header.set_number_of_slots_bits(42);
    header.set_format_bits(3);
    assert_eq!(header.number_of_slots_bits(), 42);
}

#[test]
fn test_set_hash_after_number_of_slots_keeps_slots() {
    let mut header = Header::new();
    header.set_number_of_slots_bits(42);
    header.set_hash_bits(3);
    assert_eq!(header.number_of_slots_bits(), 42);
}

#[test]
fn test_set_number_of_slots_after_hash_keep_hash() {
    let mut header = Header::new();
    header.set_hash_bits(3);
    header.set_number_of_slots_bits(42);
    assert_eq!(header.number_of_slots_bits(), 42);
}

#[test]
fn test_small_oop_does_not_have_extra_header() {
    let mut header = Header::new();
    header.set_number_of_slots_bits(42);
    assert!(!header.has_extra_slot_header());
}

#[test]
fn test_big_oop_has_extra_header() {
    let mut header = Header::new();
    header.set_number_of_slots_to_max();
    assert!(header.has_extra_slot_header());
}
