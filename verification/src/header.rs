//! The packed header codec. Every object region starts with one header word
//! whose disjoint bit fields are laid out as follows:
//!
//! | field         | bits    | meaning                                        |
//! |---------------|---------|------------------------------------------------|
//! | slot count    | 0 - 7   | payload words; 255 means "see overflow word"   |
//! | mark          | 8       | garbage-collector live flag                    |
//! | identity hash | 10 - 31 | opaque identity hash                           |
//! | grey          | 32      | grey-set flag (provisioned, unused here)       |
//! | pinned        | 33      | pin flag (provisioned, unused here)            |
//! | format        | 35 - 39 | shape tag, opaque to this crate                |
//! | immutable     | 40      | one shared bit, also read as "remembered"      |
//! | class index   | 42 - 63 | class table index; one value marks Free        |
//!
//! The "immutable" and "remembered" accessors deliberately address the same
//! bit: the two names denote one shared flag.
//!
//! Every setter is a read-modify-write on the full word and leaves all other
//! fields untouched; that is the central contract of this module and each
//! setter's `ensures` spells it out field by field.

use vstd::prelude::*;

use crate::special_class_index::FREE_OBJECT_CLASS_INDEX;

verus! {

/// The slot-count field: bits 0-7.
pub open spec fn slots_field(w: u64) -> u64 {
    w & 0xFF
}

/// The mark bit, as the 0-or-1 value of bit 8.
pub open spec fn mark_field(w: u64) -> u64 {
    (w & 0x1FF) >> 8
}

/// The identity-hash field: bits 10-31.
pub open spec fn hash_field(w: u64) -> u64 {
    (w & 0xFFFFFC00) >> 10
}

/// The grey bit, as the 0-or-1 value of bit 32.
pub open spec fn grey_field(w: u64) -> u64 {
    (w & 0x100000000) >> 32
}

/// The pinned bit, as the 0-or-1 value of bit 33.
pub open spec fn pinned_field(w: u64) -> u64 {
    (w & 0x200000000) >> 33
}

/// The format field: bits 35-39.
pub open spec fn format_field(w: u64) -> u64 {
    (w & 0xFE00000000) >> 35
}

/// The shared immutable/remembered bit, as the 0-or-1 value of bit 40.
pub open spec fn immutable_field(w: u64) -> u64 {
    (w & 0x10000000000) >> 40
}

/// The class-index field: bits 42-63.
pub open spec fn class_field(w: u64) -> u64 {
    (w & 0xFFFFFC0000000000) >> 42
}

/// A header word whose slot-count field holds the sentinel 255 announces an
/// overflow word carrying the true slot count.
pub open spec fn has_extra_header(w: u64) -> bool {
    slots_field(w) == 0xFF
}

/// Number of header words: 2 with the overflow word, 1 without.
pub open spec fn header_words(w: u64) -> int {
    if has_extra_header(w) {
        2
    } else {
        1
    }
}

/// A region is free when its class-index field holds the reserved value.
pub open spec fn is_free_word(w: u64) -> bool {
    class_field(w) == FREE_OBJECT_CLASS_INDEX
}

/// The slot count encoded by a header word and its (possible) overflow word.
pub open spec fn encoded_slot_count(w: u64, extra: u64) -> int {
    if has_extra_header(w) {
        extra as int
    } else {
        slots_field(w) as int
    }
}

/// Total region size in words: header word(s) plus payload slots.
pub open spec fn encoded_size(w: u64, extra: u64) -> int {
    header_words(w) + encoded_slot_count(w, extra)
}

/// All fields of two header words agree except possibly the class index.
pub open spec fn same_fields_except_class(w1: u64, w2: u64) -> bool {
    &&& slots_field(w2) == slots_field(w1)
    &&& mark_field(w2) == mark_field(w1)
    &&& hash_field(w2) == hash_field(w1)
    &&& grey_field(w2) == grey_field(w1)
    &&& pinned_field(w2) == pinned_field(w1)
    &&& format_field(w2) == format_field(w1)
    &&& immutable_field(w2) == immutable_field(w1)
}

/// All fields of two header words agree except possibly the slot count.
pub open spec fn same_fields_except_slots(w1: u64, w2: u64) -> bool {
    &&& mark_field(w2) == mark_field(w1)
    &&& hash_field(w2) == hash_field(w1)
    &&& grey_field(w2) == grey_field(w1)
    &&& pinned_field(w2) == pinned_field(w1)
    &&& format_field(w2) == format_field(w1)
    &&& immutable_field(w2) == immutable_field(w1)
    &&& class_field(w2) == class_field(w1)
}

/// All fields of two header words agree except possibly the mark bit.
pub open spec fn same_fields_except_mark(w1: u64, w2: u64) -> bool {
    &&& slots_field(w2) == slots_field(w1)
    &&& hash_field(w2) == hash_field(w1)
    &&& grey_field(w2) == grey_field(w1)
    &&& pinned_field(w2) == pinned_field(w1)
    &&& format_field(w2) == format_field(w1)
    &&& immutable_field(w2) == immutable_field(w1)
    &&& class_field(w2) == class_field(w1)
}

/// The slot-count field occupies eight bits, so it never exceeds the
/// sentinel value.
pub proof fn lemma_slots_field_bound(w: u64)
    ensures
        slots_field(w) <= 0xFF,
{
    assert(w & 0xFF <= 0xFF) by (bit_vector);
}

/// Every field of the all-zero header word is zero.
pub proof fn lemma_zero_word_fields()
    ensures
        slots_field(0) == 0,
        mark_field(0) == 0,
        hash_field(0) == 0,
        grey_field(0) == 0,
        pinned_field(0) == 0,
        format_field(0) == 0,
        immutable_field(0) == 0,
        class_field(0) == 0,
        !has_extra_header(0),
{
    assert(0u64 & 0xFF == 0 && (0u64 & 0x1FF) >> 8 == 0 && (0u64 & 0xFFFFFC00) >> 10 == 0 && (0u64
        & 0x100000000) >> 32 == 0 && (0u64 & 0x200000000) >> 33 == 0 && (0u64 & 0xFE00000000) >> 35
        == 0 && (0u64 & 0x10000000000) >> 40 == 0 && (0u64 & 0xFFFFFC0000000000) >> 42 == 0)
        by (bit_vector);
}

/// An in-memory copy of one header word, decoded and re-encoded through the
/// accessors below. A `Header` is a plain value: writing it back to the heap
/// is the caller's explicit step.
#[derive(Debug)]
pub struct Header {
    pub header_value: u64,
}

impl Header {
    /// The largest slot count the single-word encoding can carry.
    pub const MAX_NUMBER_OF_SLOTS: usize = 254;

    /// The slot-count sentinel announcing the overflow word.
    const EXTRA_SLOT_HEADER: u64 = 0xFF;

    pub fn new() -> (r: Self)
        ensures
            r.header_value == 0,
    {
        Self { header_value: 0 }
    }

    pub fn get_value(&self) -> (r: u64)
        ensures
            r == self.header_value,
    {
        self.header_value
    }

    // Multiple-bit fields

    pub fn number_of_slots_bits(&self) -> (r: u64)
        ensures
            r == slots_field(self.header_value),
    {
        self.header_value & 0xFF
    }

    pub fn set_number_of_slots_bits(&mut self, number_of_slots: usize)
        requires
            number_of_slots <= Header::MAX_NUMBER_OF_SLOTS,
        ensures
            slots_field(final(self).header_value) == number_of_slots,
            mark_field(final(self).header_value) == mark_field(old(self).header_value),
            hash_field(final(self).header_value) == hash_field(old(self).header_value),
            grey_field(final(self).header_value) == grey_field(old(self).header_value),
            pinned_field(final(self).header_value) == pinned_field(old(self).header_value),
            format_field(final(self).header_value) == format_field(old(self).header_value),
            immutable_field(final(self).header_value) == immutable_field(old(self).header_value),
            class_field(final(self).header_value) == class_field(old(self).header_value),
    {
        let w = self.header_value;
        let n = number_of_slots as u64;
        self.header_value = (w & 0xFFFFFFFFFFFFFF00) | n;
        proof {
            let w2 = self.header_value;
            assert(w2 & 0xFF == n && (w2 & 0x1FF) >> 8 == (w & 0x1FF) >> 8
                && (w2 & 0xFFFFFC00) >> 10 == (w & 0xFFFFFC00) >> 10
                && (w2 & 0x100000000) >> 32 == (w & 0x100000000) >> 32
                && (w2 & 0x200000000) >> 33 == (w & 0x200000000) >> 33
                && (w2 & 0xFE00000000) >> 35 == (w & 0xFE00000000) >> 35
                && (w2 & 0x10000000000) >> 40 == (w & 0x10000000000) >> 40
                && (w2 & 0xFFFFFC0000000000) >> 42 == (w & 0xFFFFFC0000000000) >> 42)
                by (bit_vector)
                requires
                    w2 == (w & 0xFFFFFFFFFFFFFF00) | n,
                    n <= 254,
            ;
        }
    }

    pub fn set_number_of_slots_to_max(&mut self)
        ensures
            slots_field(final(self).header_value) == 0xFF,
            has_extra_header(final(self).header_value),
            mark_field(final(self).header_value) == mark_field(old(self).header_value),
            hash_field(final(self).header_value) == hash_field(old(self).header_value),
            grey_field(final(self).header_value) == grey_field(old(self).header_value),
            pinned_field(final(self).header_value) == pinned_field(old(self).header_value),
            format_field(final(self).header_value) == format_field(old(self).header_value),
            immutable_field(final(self).header_value) == immutable_field(old(self).header_value),
            class_field(final(self).header_value) == class_field(old(self).header_value),
    {
        let w = self.header_value;
        self.header_value = (w & 0xFFFFFFFFFFFFFF00) | Header::EXTRA_SLOT_HEADER;
        proof {
            let w2 = self.header_value;
            assert(w2 & 0xFF == 0xFF && (w2 & 0x1FF) >> 8 == (w & 0x1FF) >> 8
                && (w2 & 0xFFFFFC00) >> 10 == (w & 0xFFFFFC00) >> 10
                && (w2 & 0x100000000) >> 32 == (w & 0x100000000) >> 32
                && (w2 & 0x200000000) >> 33 == (w & 0x200000000) >> 33
                && (w2 & 0xFE00000000) >> 35 == (w & 0xFE00000000) >> 35
                && (w2 & 0x10000000000) >> 40 == (w & 0x10000000000) >> 40
                && (w2 & 0xFFFFFC0000000000) >> 42 == (w & 0xFFFFFC0000000000) >> 42)
                by (bit_vector)
                requires
                    w2 == (w & 0xFFFFFFFFFFFFFF00) | 0xFFu64,
            ;
        }
    }

    pub fn hash_bits(&self) -> (r: u64)
        ensures
            r == hash_field(self.header_value),
    {
        (self.header_value & 0xFFFFFC00) >> 10
    }

    pub fn set_hash_bits(&mut self, hash: u64)
        requires
            hash <= 0x3FFFFF,
        ensures
            hash_field(final(self).header_value) == hash,
            slots_field(final(self).header_value) == slots_field(old(self).header_value),
            mark_field(final(self).header_value) == mark_field(old(self).header_value),
            grey_field(final(self).header_value) == grey_field(old(self).header_value),
            pinned_field(final(self).header_value) == pinned_field(old(self).header_value),
            format_field(final(self).header_value) == format_field(old(self).header_value),
            immutable_field(final(self).header_value) == immutable_field(old(self).header_value),
            class_field(final(self).header_value) == class_field(old(self).header_value),
    {
        let w = self.header_value;
        self.header_value = (w & 0xFFFFFFFF000003FF) | (hash << 10);
        proof {
            let w2 = self.header_value;
            assert((w2 & 0xFFFFFC00) >> 10 == hash && w2 & 0xFF == w & 0xFF
                && (w2 & 0x1FF) >> 8 == (w & 0x1FF) >> 8
                && (w2 & 0x100000000) >> 32 == (w & 0x100000000) >> 32
                && (w2 & 0x200000000) >> 33 == (w & 0x200000000) >> 33
                && (w2 & 0xFE00000000) >> 35 == (w & 0xFE00000000) >> 35
                && (w2 & 0x10000000000) >> 40 == (w & 0x10000000000) >> 40
                && (w2 & 0xFFFFFC0000000000) >> 42 == (w & 0xFFFFFC0000000000) >> 42)
                by (bit_vector)
                requires
                    w2 == (w & 0xFFFFFFFF000003FF) | (hash << 10),
                    hash <= 0x3FFFFFu64,
            ;
        }
    }

    pub fn format_bits(&self) -> (r: u64)
        ensures
            r == format_field(self.header_value),
    {
        (self.header_value & 0xFE00000000) >> 35
    }

    pub fn set_format_bits(&mut self, format: u64)
        requires
            format <= 0x1F,
        ensures
            format_field(final(self).header_value) == format,
            slots_field(final(self).header_value) == slots_field(old(self).header_value),
            mark_field(final(self).header_value) == mark_field(old(self).header_value),
            hash_field(final(self).header_value) == hash_field(old(self).header_value),
            grey_field(final(self).header_value) == grey_field(old(self).header_value),
            pinned_field(final(self).header_value) == pinned_field(old(self).header_value),
            immutable_field(final(self).header_value) == immutable_field(old(self).header_value),
            class_field(final(self).header_value) == class_field(old(self).header_value),
    {
        let w = self.header_value;
        self.header_value = (w & 0xFFFFFF07FFFFFFFF) | (format << 35);
        proof {
            let w2 = self.header_value;
            assert((w2 & 0xFE00000000) >> 35 == format && w2 & 0xFF == w & 0xFF
                && (w2 & 0x1FF) >> 8 == (w & 0x1FF) >> 8
                && (w2 & 0xFFFFFC00) >> 10 == (w & 0xFFFFFC00) >> 10
                && (w2 & 0x100000000) >> 32 == (w & 0x100000000) >> 32
                && (w2 & 0x200000000) >> 33 == (w & 0x200000000) >> 33
                && (w2 & 0x10000000000) >> 40 == (w & 0x10000000000) >> 40
                && (w2 & 0xFFFFFC0000000000) >> 42 == (w & 0xFFFFFC0000000000) >> 42)
                by (bit_vector)
                requires
                    w2 == (w & 0xFFFFFF07FFFFFFFF) | (format << 35),
                    format <= 0x1Fu64,
            ;
        }
    }

    pub fn class_index_bits(&self) -> (r: u64)
        ensures
            r == class_field(self.header_value),
    {
        (self.header_value & 0xFFFFFC0000000000) >> 42
    }

    pub fn set_class_index_bits(&mut self, class_index: u64)
        requires
            class_index <= 0x3FFFFF,
        ensures
            class_field(final(self).header_value) == class_index,
            slots_field(final(self).header_value) == slots_field(old(self).header_value),
            mark_field(final(self).header_value) == mark_field(old(self).header_value),
            hash_field(final(self).header_value) == hash_field(old(self).header_value),
            grey_field(final(self).header_value) == grey_field(old(self).header_value),
            pinned_field(final(self).header_value) == pinned_field(old(self).header_value),
            format_field(final(self).header_value) == format_field(old(self).header_value),
            immutable_field(final(self).header_value) == immutable_field(old(self).header_value),
    {
        let w = self.header_value;
        self.header_value = (w & 0x000003FFFFFFFFFF) | (class_index << 42);
        proof {
            let w2 = self.header_value;
            assert((w2 & 0xFFFFFC0000000000) >> 42 == class_index && w2 & 0xFF == w & 0xFF
                && (w2 & 0x1FF) >> 8 == (w & 0x1FF) >> 8
                && (w2 & 0xFFFFFC00) >> 10 == (w & 0xFFFFFC00) >> 10
                && (w2 & 0x100000000) >> 32 == (w & 0x100000000) >> 32
                && (w2 & 0x200000000) >> 33 == (w & 0x200000000) >> 33
                && (w2 & 0xFE00000000) >> 35 == (w & 0xFE00000000) >> 35
                && (w2 & 0x10000000000) >> 40 == (w & 0x10000000000) >> 40)
                by (bit_vector)
                requires
                    w2 == (w & 0x000003FFFFFFFFFF) | (class_index << 42),
                    class_index <= 0x3FFFFFu64,
            ;
        }
    }

    // Individual bits

    pub fn immutable_bit(&self) -> (r: u64)
        ensures
            r == immutable_field(self.header_value),
    {
        (self.header_value & 0x10000000000) >> 40
    }

    pub fn set_immutable_bit(&mut self)
        ensures
            immutable_field(final(self).header_value) == 1,
            slots_field(final(self).header_value) == slots_field(old(self).header_value),
            mark_field(final(self).header_value) == mark_field(old(self).header_value),
            hash_field(final(self).header_value) == hash_field(old(self).header_value),
            grey_field(final(self).header_value) == grey_field(old(self).header_value),
            pinned_field(final(self).header_value) == pinned_field(old(self).header_value),
            format_field(final(self).header_value) == format_field(old(self).header_value),
            class_field(final(self).header_value) == class_field(old(self).header_value),
    {
        let w = self.header_value;
        self.header_value = w | 0x10000000000;
        proof {
            let w2 = self.header_value;
            assert((w2 & 0x10000000000) >> 40 == 1 && w2 & 0xFF == w & 0xFF
                && (w2 & 0x1FF) >> 8 == (w & 0x1FF) >> 8
                && (w2 & 0xFFFFFC00) >> 10 == (w & 0xFFFFFC00) >> 10
                && (w2 & 0x100000000) >> 32 == (w & 0x100000000) >> 32
                && (w2 & 0x200000000) >> 33 == (w & 0x200000000) >> 33
                && (w2 & 0xFE00000000) >> 35 == (w & 0xFE00000000) >> 35
                && (w2 & 0xFFFFFC0000000000) >> 42 == (w & 0xFFFFFC0000000000) >> 42)
                by (bit_vector)
                requires
                    w2 == w | 0x10000000000u64,
            ;
        }
    }

    pub fn marked_bit(&self) -> (r: u64)
        ensures
            r == mark_field(self.header_value),
    {
        (self.header_value & 0x1FF) >> 8
    }

    pub fn set_marked_bit(&mut self)
        ensures
            mark_field(final(self).header_value) == 1,
            same_fields_except_mark(old(self).header_value, final(self).header_value),
    {
        let w = self.header_value;
        self.header_value = w | 0x100;
        proof {
            let w2 = self.header_value;
            assert((w2 & 0x1FF) >> 8 == 1 && w2 & 0xFF == w & 0xFF
                && (w2 & 0xFFFFFC00) >> 10 == (w & 0xFFFFFC00) >> 10
                && (w2 & 0x100000000) >> 32 == (w & 0x100000000) >> 32
                && (w2 & 0x200000000) >> 33 == (w & 0x200000000) >> 33
                && (w2 & 0xFE00000000) >> 35 == (w & 0xFE00000000) >> 35
                && (w2 & 0x10000000000) >> 40 == (w & 0x10000000000) >> 40
                && (w2 & 0xFFFFFC0000000000) >> 42 == (w & 0xFFFFFC0000000000) >> 42)
                by (bit_vector)
                requires
                    w2 == w | 0x100u64,
            ;
        }
    }

    pub fn unset_marked_bit(&mut self)
        ensures
            mark_field(final(self).header_value) == 0,
            same_fields_except_mark(old(self).header_value, final(self).header_value),
    {
        let w = self.header_value;
        self.header_value = w & 0xFFFFFFFFFFFFFEFF;
        proof {
            let w2 = self.header_value;
            assert((w2 & 0x1FF) >> 8 == 0 && w2 & 0xFF == w & 0xFF
                && (w2 & 0xFFFFFC00) >> 10 == (w & 0xFFFFFC00) >> 10
                && (w2 & 0x100000000) >> 32 == (w & 0x100000000) >> 32
                && (w2 & 0x200000000) >> 33 == (w & 0x200000000) >> 33
                && (w2 & 0xFE00000000) >> 35 == (w & 0xFE00000000) >> 35
                && (w2 & 0x10000000000) >> 40 == (w & 0x10000000000) >> 40
                && (w2 & 0xFFFFFC0000000000) >> 42 == (w & 0xFFFFFC0000000000) >> 42)
                by (bit_vector)
                requires
                    w2 == w & 0xFFFFFFFFFFFFFEFFu64,
            ;
        }
    }

    pub fn pinned_bit(&self) -> (r: u64)
        ensures
            r == pinned_field(self.header_value),
    {
        (self.header_value & 0x200000000) >> 33
    }

    pub fn set_pinned_bit(&mut self)
        ensures
            pinned_field(final(self).header_value) == 1,
            slots_field(final(self).header_value) == slots_field(old(self).header_value),
            mark_field(final(self).header_value) == mark_field(old(self).header_value),
            hash_field(final(self).header_value) == hash_field(old(self).header_value),
            grey_field(final(self).header_value) == grey_field(old(self).header_value),
            format_field(final(self).header_value) == format_field(old(self).header_value),
            immutable_field(final(self).header_value) == immutable_field(old(self).header_value),
            class_field(final(self).header_value) == class_field(old(self).header_value),
    {
        let w = self.header_value;
        self.header_value = w | 0x200000000;
        proof {
            let w2 = self.header_value;
            assert((w2 & 0x200000000) >> 33 == 1 && w2 & 0xFF == w & 0xFF
                && (w2 & 0x1FF) >> 8 == (w & 0x1FF) >> 8
                && (w2 & 0xFFFFFC00) >> 10 == (w & 0xFFFFFC00) >> 10
                && (w2 & 0x100000000) >> 32 == (w & 0x100000000) >> 32
                && (w2 & 0xFE00000000) >> 35 == (w & 0xFE00000000) >> 35
                && (w2 & 0x10000000000) >> 40 == (w & 0x10000000000) >> 40
                && (w2 & 0xFFFFFC0000000000) >> 42 == (w & 0xFFFFFC0000000000) >> 42)
                by (bit_vector)
                requires
                    w2 == w | 0x200000000u64,
            ;
        }
    }

    pub fn grey_bit(&self) -> (r: u64)
        ensures
            r == grey_field(self.header_value),
    {
        (self.header_value & 0x100000000) >> 32
    }

    pub fn set_grey_bit(&mut self)
        ensures
            grey_field(final(self).header_value) == 1,
            slots_field(final(self).header_value) == slots_field(old(self).header_value),
            mark_field(final(self).header_value) == mark_field(old(self).header_value),
            hash_field(final(self).header_value) == hash_field(old(self).header_value),
            pinned_field(final(self).header_value) == pinned_field(old(self).header_value),
            format_field(final(self).header_value) == format_field(old(self).header_value),
            immutable_field(final(self).header_value) == immutable_field(old(self).header_value),
            class_field(final(self).header_value) == class_field(old(self).header_value),
    {
        let w = self.header_value;
        self.header_value = w | 0x100000000;
        proof {
            let w2 = self.header_value;
            assert((w2 & 0x100000000) >> 32 == 1 && w2 & 0xFF == w & 0xFF
                && (w2 & 0x1FF) >> 8 == (w & 0x1FF) >> 8
                && (w2 & 0xFFFFFC00) >> 10 == (w & 0xFFFFFC00) >> 10
                && (w2 & 0x200000000) >> 33 == (w & 0x200000000) >> 33
                && (w2 & 0xFE00000000) >> 35 == (w & 0xFE00000000) >> 35
                && (w2 & 0x10000000000) >> 40 == (w & 0x10000000000) >> 40
                && (w2 & 0xFFFFFC0000000000) >> 42 == (w & 0xFFFFFC0000000000) >> 42)
                by (bit_vector)
                requires
                    w2 == w | 0x100000000u64,
            ;
        }
    }

    /// Reads the same bit as `immutable_bit`: the two names share one flag.
    pub fn remembered_bit(&self) -> (r: u64)
        ensures
            r == immutable_field(self.header_value),
    {
        (self.header_value & 0x10000000000) >> 40
    }

    /// Sets the same bit as `set_immutable_bit`: the two names share one flag.
    pub fn set_remembered_bit(&mut self)
        ensures
            immutable_field(final(self).header_value) == 1,
            slots_field(final(self).header_value) == slots_field(old(self).header_value),
            mark_field(final(self).header_value) == mark_field(old(self).header_value),
            hash_field(final(self).header_value) == hash_field(old(self).header_value),
            grey_field(final(self).header_value) == grey_field(old(self).header_value),
            pinned_field(final(self).header_value) == pinned_field(old(self).header_value),
            format_field(final(self).header_value) == format_field(old(self).header_value),
            class_field(final(self).header_value) == class_field(old(self).header_value),
    {
        self.set_immutable_bit();
    }

    pub fn unset_remembered_bit(&mut self)
        ensures
            immutable_field(final(self).header_value) == 0,
            slots_field(final(self).header_value) == slots_field(old(self).header_value),
            mark_field(final(self).header_value) == mark_field(old(self).header_value),
            hash_field(final(self).header_value) == hash_field(old(self).header_value),
            grey_field(final(self).header_value) == grey_field(old(self).header_value),
            pinned_field(final(self).header_value) == pinned_field(old(self).header_value),
            format_field(final(self).header_value) == format_field(old(self).header_value),
            class_field(final(self).header_value) == class_field(old(self).header_value),
    {
        let w = self.header_value;
        self.header_value = w & 0xFFFFFEFFFFFFFFFF;
        proof {
            let w2 = self.header_value;
            assert((w2 & 0x10000000000) >> 40 == 0 && w2 & 0xFF == w & 0xFF
                && (w2 & 0x1FF) >> 8 == (w & 0x1FF) >> 8
                && (w2 & 0xFFFFFC00) >> 10 == (w & 0xFFFFFC00) >> 10
                && (w2 & 0x100000000) >> 32 == (w & 0x100000000) >> 32
                && (w2 & 0x200000000) >> 33 == (w & 0x200000000) >> 33
                && (w2 & 0xFE00000000) >> 35 == (w & 0xFE00000000) >> 35
                && (w2 & 0xFFFFFC0000000000) >> 42 == (w & 0xFFFFFC0000000000) >> 42)
                by (bit_vector)
                requires
                    w2 == w & 0xFFFFFEFFFFFFFFFFu64,
            ;
        }
    }

    // Testing

    pub fn has_extra_slot_header(&self) -> (r: bool)
        ensures
            r == has_extra_header(self.header_value),
    {
        self.number_of_slots_bits() == Header::EXTRA_SLOT_HEADER
    }

    pub fn is_free_oop(&self) -> (r: bool)
        ensures
            r == is_free_word(self.header_value),
    {
        self.class_index_bits() == FREE_OBJECT_CLASS_INDEX
    }

    // Reclaiming

    pub fn become_free_oop(&mut self)
        ensures
            is_free_word(final(self).header_value),
            class_field(final(self).header_value) == FREE_OBJECT_CLASS_INDEX,
            slots_field(final(self).header_value) == slots_field(old(self).header_value),
            mark_field(final(self).header_value) == mark_field(old(self).header_value),
            hash_field(final(self).header_value) == hash_field(old(self).header_value),
            grey_field(final(self).header_value) == grey_field(old(self).header_value),
            pinned_field(final(self).header_value) == pinned_field(old(self).header_value),
            format_field(final(self).header_value) == format_field(old(self).header_value),
            immutable_field(final(self).header_value) == immutable_field(old(self).header_value),
    {
        self.set_class_index_bits(FREE_OBJECT_CLASS_INDEX);
    }

    pub fn header_size(&self) -> (r: usize)
        ensures
            r as int == header_words(self.header_value),
    {
        if self.has_extra_slot_header() {
            1 + 1
        } else {
            1
        }
    }
}

impl Default for Header {
    fn default() -> (r: Self)
        ensures
            r.header_value == 0,
    {
        Self::new()
    }
}

} // verus!
