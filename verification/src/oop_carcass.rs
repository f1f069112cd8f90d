//! A detached region header: a header word and overflow count not (yet)
//! tied to a place in the buffer. The builder prepares new objects in a
//! carcass and stamps it onto the heap in one write-back.

use vstd::prelude::*;

use crate::header::{encoded_size, has_extra_header, same_fields_except_slots, Header};
use crate::memory_space::MemorySpace;
use crate::oop_common::OopCommonState;

verus! {

pub struct OopCarcass {
    header: Header,
    extra_header: usize,
}

impl OopCommonState for OopCarcass {
    closed spec fn header_word(&self) -> u64 {
        self.header.header_value
    }

    closed spec fn extra_count(&self) -> usize {
        self.extra_header
    }

    fn get_header(&self) -> (h: &Header) {
        &self.header
    }

    fn get_header_mut(&mut self) -> (h: &mut Header) {
        &mut self.header
    }

    fn get_extra_header(&self) -> (r: usize) {
        self.extra_header
    }

    fn set_extra_header(&mut self, new_value: usize) {
        self.extra_header = new_value;
    }

    fn is_free_oop(&self) -> (r: bool) {
        self.header.is_free_oop()
    }

    fn header_value(&self) -> (r: u64) {
        self.header.get_value()
    }

    fn oop_size(&self) -> (r: usize) {
        self.header.header_size() + self.number_of_slots()
    }

    fn number_of_slots(&self) -> (r: usize) {
        if self.header.has_extra_slot_header() {
            self.extra_header
        } else {
            proof {
                crate::header::lemma_slots_field_bound(self.header.header_value);
            }
            self.header.number_of_slots_bits() as usize
        }
    }

    fn set_number_of_slots(&mut self, number_of_slots: usize) {
        if number_of_slots > Header::MAX_NUMBER_OF_SLOTS {
            self.header.set_number_of_slots_to_max();
            self.extra_header = number_of_slots;
        } else {
            self.header.set_number_of_slots_bits(number_of_slots);
        }
    }
}

impl Default for OopCarcass {
    fn default() -> (r: Self)
        ensures
            r.header_word() == 0,
            r.extra_count() == 0,
    {
        Self { header: Header::new(), extra_header: 0 }
    }
}

impl OopCarcass {
    /// Copies the header state of any projection into a fresh carcass.
    pub fn new_from<T: OopCommonState>(oop: &T) -> (r: Self)
        ensures
            r.header_word() == oop.header_word(),
            r.extra_count() == oop.extra_count(),
    {
        Self { header: Header { header_value: oop.header_value() }, extra_header: oop.get_extra_header() }
    }

    /// Chooses the header arrangement whose own width makes the region
    /// occupy exactly `total` words: one header word up to 255 total words,
    /// the overflow form from 256 on.
    pub fn encode_region_size(&mut self, total: usize)
        requires
            total >= 1,
        ensures
            encoded_size(final(self).header_word(), final(self).extra_count() as u64)
                == total as int,
            has_extra_header(final(self).header_word()) == (total >= 256),
            same_fields_except_slots(old(self).header_word(), final(self).header_word()),
    {
        if total <= Header::MAX_NUMBER_OF_SLOTS + 1 {
            self.set_number_of_slots(total - 1);
        } else if total == 256 {
            // Two header words with a slot count the single-word form could
            // also carry: only the overflow form makes the size come out
            // exactly.
            self.header.set_number_of_slots_to_max();
            self.extra_header = 254;
        } else {
            self.set_number_of_slots(total - 2);
        }
    }

    /// Writes the carcass's header word (and overflow word, if present) at
    /// `index`. Whether the surrounding partition stays intact is the
    /// caller's business.
    pub fn apply_at_index_on_space(&self, index: usize, space: &mut MemorySpace)
        requires
            index < old(space)@.len(),
            has_extra_header(self.header_word()) ==> index as int + 1 < old(space)@.len(),
        ensures
            final(space)@ == if has_extra_header(self.header_word()) {
                old(space)@.update(index as int, self.header_word()).update(
                    index as int + 1,
                    self.extra_count() as u64,
                )
            } else {
                old(space)@.update(index as int, self.header_word())
            },
    {
        proof {
            space.lemma_len_bound();
        }
        space.word_at_put(index, self.header.get_value());
        if self.header.has_extra_slot_header() {
            space.word_at_put(index + 1, self.get_extra_header() as u64);
        }
    }
}

} // verus!
