//! The full projection of one region: its place in the buffer, its decoded
//! header, and 1-based access to its payload slots. A projection is a
//! snapshot, not a live reference: header changes reach the buffer only
//! through an explicit write-back.

use vstd::prelude::*;

use crate::header::{
    class_field, encoded_size, encoded_slot_count, has_extra_header, header_words,
    same_fields_except_class, Header,
};
use crate::heap_layout::{
    is_region_start, lemma_region_start_fits, region_is_free, region_size, region_slot_count,
    region_slot_index, region_slot_value, wf,
};
use crate::heap_updates::{lemma_header_rewrite, lemma_slot_write};
use crate::memory_space::MemorySpace;
use crate::oop_common::{projection_matches, OopCommonState, OopNavigation, NO_EXTRA_HEADER_VALUE};
use crate::special_class_index::FREE_OBJECT_CLASS_INDEX;

verus! {

pub struct OopSlice {
    index: usize,
    header: Header,
    extra_header: usize,
}

/// The full projection of a region together with payload access: another
/// name the same type answers to.
pub type OopWithContents = OopSlice;

impl OopCommonState for OopSlice {
    closed spec fn header_word(&self) -> u64 {
        self.header.header_value
    }

    closed spec fn extra_count(&self) -> usize {
        self.extra_header
    }

    fn get_header(&self) -> (h: &Header) {
        &self.header
    }

    fn get_header_mut(&mut self) -> (h: &mut Header)
        ensures
            final(self).position() == old(self).position(),
    {
        &mut self.header
    }

    fn get_extra_header(&self) -> (r: usize) {
        self.extra_header
    }

    fn set_extra_header(&mut self, new_value: usize)
        ensures
            final(self).position() == old(self).position(),
    {
        self.extra_header = new_value;
    }

    fn is_free_oop(&self) -> (r: bool) {
        self.header.is_free_oop()
    }

    fn header_value(&self) -> (r: u64) {
        self.header.get_value()
    }

    fn oop_size(&self) -> (r: usize) {
        self.header.header_size() + self.number_of_slots()
    }

    fn number_of_slots(&self) -> (r: usize) {
        if self.header.has_extra_slot_header() {
            self.extra_header
        } else {
            proof {
                crate::header::lemma_slots_field_bound(self.header.header_value);
            }
            self.header.number_of_slots_bits() as usize
        }
    }

    fn set_number_of_slots(&mut self, number_of_slots: usize)
        ensures
            final(self).position() == old(self).position(),
    {
        if number_of_slots > Header::MAX_NUMBER_OF_SLOTS {
            self.header.set_number_of_slots_to_max();
            self.extra_header = number_of_slots;
        } else {
            self.header.set_number_of_slots_bits(number_of_slots);
        }
    }
}

impl OopNavigation for OopSlice {
    closed spec fn position(&self) -> int {
        self.index as int
    }

    fn get_index(&self) -> (r: usize) {
        self.index
    }

    fn next_oop_index(&self) -> (r: usize) {
        self.index + self.oop_size()
    }

}

impl OopSlice {
    /// The full projection of the region that follows this one.
    pub fn next_oop(&self, space: &MemorySpace) -> (r: OopSlice)
        requires
            wf(space@),
            projection_matches(space@, self.position(), self.header_word(), self.extra_count()),
            is_region_start(space@, self.position()),
            is_region_start(
                space@,
                self.position() + encoded_size(self.header_word(), self.extra_count() as u64),
            ),
        ensures
            r.position() == self.position() + encoded_size(
                self.header_word(),
                self.extra_count() as u64,
            ),
            projection_matches(space@, r.position(), r.header_word(), r.extra_count()),
            region_size(space@, r.position()) == encoded_size(
                r.header_word(),
                r.extra_count() as u64,
            ),
    {
        proof {
            space.lemma_len_bound();
            lemma_region_start_fits(
                space@,
                self.position() + encoded_size(self.header_word(), self.extra_count() as u64),
            );
            lemma_region_start_fits(space@, self.position());
        }
        space.get_oop_at(self.next_oop_index())
    }

    /// Reads the region at `index` into a fresh projection.
    pub fn new(index: usize, space: &MemorySpace) -> (r: Self)
        requires
            index < space@.len(),
            has_extra_header(space@[index as int]) ==> index as int + 1 < space@.len()
                && space@[index as int + 1] <= usize::MAX as u64,
        ensures
            r.position() == index as int,
            r.header_word() == space@[index as int],
            projection_matches(space@, index as int, r.header_word(), r.extra_count()),
            !has_extra_header(r.header_word()) ==> r.extra_count() == NO_EXTRA_HEADER_VALUE,
            encoded_size(r.header_word(), r.extra_count() as u64) == region_size(
                space@,
                index as int,
            ),
    {
        proof {
            space.lemma_len_bound();
        }
        let header = Header { header_value: space.word_at(index) };
        let extra_header = if header.has_extra_slot_header() {
            space.word_at(index + 1) as usize
        } else {
            NO_EXTRA_HEADER_VALUE
        };
        Self { index, header, extra_header }
    }

    /// Stamps the projection's free class index into the buffer. Slot
    /// contents are untouched, so stale payload words stay behind in the
    /// freed region.
    pub fn become_free_oop(&mut self, space: &mut MemorySpace)
        requires
            wf(old(space)@),
            is_region_start(old(space)@, old(self).position()),
            projection_matches(
                old(space)@,
                old(self).position(),
                old(self).header_word(),
                old(self).extra_count(),
            ),
        ensures
            final(self).position() == old(self).position(),
            final(self).extra_count() == old(self).extra_count(),
            class_field(final(self).header_word()) == FREE_OBJECT_CLASS_INDEX,
            same_fields_except_class(old(self).header_word(), final(self).header_word()),
            wf(final(space)@),
            final(space)@ == old(space)@.update(old(self).position(), final(self).header_word()),
            region_is_free(final(space)@, old(self).position()),
            projection_matches(
                final(space)@,
                old(self).position(),
                final(self).header_word(),
                final(self).extra_count(),
            ),
            forall|j: int|
                #[trigger] is_region_start(final(space)@, j) == is_region_start(old(space)@, j),
            forall|j: int|
                #[trigger] is_region_start(old(space)@, j) ==> region_size(final(space)@, j)
                    == region_size(old(space)@, j) && region_slot_count(final(space)@, j)
                    == region_slot_count(old(space)@, j),
            forall|j: int|
                #[trigger] is_region_start(old(space)@, j) && j != old(self).position() ==> final(space)@[j] == old(space)@[j],
    {
        let ghost mem0 = space@;
        let ghost pos = self.position();
        self.header.become_free_oop();
        self.apply_header(space);
        proof {
            if has_extra_header(self.header_word()) {
                assert(space@ =~= mem0.update(pos, self.header_word()));
            }
            lemma_header_rewrite(mem0, pos, self.header_word());
        }
    }

    /// Writes the in-memory header (and overflow word, if present) back to
    /// the buffer. Whether the surrounding partition stays intact is the
    /// caller's business.
    pub fn apply_header(&self, space: &mut MemorySpace)
        requires
            0 <= self.position() < old(space)@.len(),
            has_extra_header(self.header_word()) ==> self.position() + 1 < old(space)@.len(),
        ensures
            final(space)@ == if has_extra_header(self.header_word()) {
                old(space)@.update(self.position(), self.header_word()).update(
                    self.position() + 1,
                    self.extra_count() as u64,
                )
            } else {
                old(space)@.update(self.position(), self.header_word())
            },
    {
        proof {
            space.lemma_len_bound();
        }
        space.word_at_put(self.index, self.header.get_value());
        if self.header.has_extra_slot_header() {
            space.word_at_put(self.index + 1, self.extra_header as u64);
        }
    }

    /// Overwrites 1-based slot `an_index`, under the name the operation
    /// carries on `OopWithContents`; the contract is that of
    /// `slot_at_index_put`.
    pub fn slot_at_put(&self, an_index: usize, an_oop_address: u64, space: &mut MemorySpace)
        requires
            wf(old(space)@),
            is_region_start(old(space)@, self.position()),
            projection_matches(
                old(space)@,
                self.position(),
                self.header_word(),
                self.extra_count(),
            ),
            1 <= an_index,
            an_index as int <= encoded_slot_count(self.header_word(), self.extra_count() as u64),
        ensures
            final(space)@ == old(space)@.update(
                region_slot_index(old(space)@, self.position(), an_index as int),
                an_oop_address,
            ),
            wf(final(space)@),
            region_slot_value(final(space)@, self.position(), an_index as int) == an_oop_address,
            forall|j: int|
                #[trigger] is_region_start(final(space)@, j) == is_region_start(old(space)@, j),
    {
        self.slot_at_index_put(an_index, an_oop_address, space);
    }

    /// The buffer offset of 1-based slot `an_index`, relative to the
    /// region's start: right after however many header words are present.
    fn compute_slot_index(&self, an_index: usize) -> (r: usize)
        requires
            1 <= an_index,
            an_index as int + 1 <= usize::MAX as int,
        ensures
            r as int == header_words(self.header_word()) - 1 + an_index,
    {
        if self.header.has_extra_slot_header() {
            crate::oop_common::EXTRA_HEADER_INDEX + an_index
        } else {
            an_index
        }
    }

    /// Reads 1-based slot `an_index`.
    pub fn slot_at_index(&self, an_index: usize, space: &MemorySpace) -> (r: u64)
        requires
            wf(space@),
            is_region_start(space@, self.position()),
            projection_matches(space@, self.position(), self.header_word(), self.extra_count()),
            1 <= an_index,
            an_index as int <= encoded_slot_count(self.header_word(), self.extra_count() as u64),
        ensures
            r == region_slot_value(space@, self.position(), an_index as int),
    {
        proof {
            space.lemma_len_bound();
            lemma_region_start_fits(space@, self.position());
            assert(region_size(space@, self.position()) == encoded_size(
                self.header_word(),
                self.extra_count() as u64,
            ));
            assert(self.position() + header_words(self.header_word()) - 1 + an_index
                < space@.len());
        }
        let slot_offset = self.compute_slot_index(an_index);
        space.word_at(self.index + slot_offset)
    }

    /// Overwrites 1-based slot `an_index`. Every region boundary, every
    /// header and every other slot of the heap is untouched.
    pub fn slot_at_index_put(&self, an_index: usize, an_oop_address: u64, space: &mut MemorySpace)
        requires
            wf(old(space)@),
            is_region_start(old(space)@, self.position()),
            projection_matches(
                old(space)@,
                self.position(),
                self.header_word(),
                self.extra_count(),
            ),
            1 <= an_index,
            an_index as int <= encoded_slot_count(self.header_word(), self.extra_count() as u64),
        ensures
            final(space)@ == old(space)@.update(
                region_slot_index(old(space)@, self.position(), an_index as int),
                an_oop_address,
            ),
            wf(final(space)@),
            region_slot_value(final(space)@, self.position(), an_index as int) == an_oop_address,
            projection_matches(
                final(space)@,
                self.position(),
                self.header_word(),
                self.extra_count(),
            ),
            forall|j: int|
                #[trigger] is_region_start(final(space)@, j) == is_region_start(old(space)@, j),
            forall|j: int|
                #[trigger] is_region_start(old(space)@, j) ==> region_size(final(space)@, j)
                    == region_size(old(space)@, j) && region_slot_count(final(space)@, j)
                    == region_slot_count(old(space)@, j) && final(space)@[j] == old(space)@[j],
    {
        proof {
            space.lemma_len_bound();
            lemma_region_start_fits(old(space)@, self.position());
            assert(region_size(old(space)@, self.position()) == encoded_size(
                self.header_word(),
                self.extra_count() as u64,
            ));
            assert(self.position() + header_words(self.header_word()) - 1 + an_index < old(
                space,
            )@.len());
        }
        let slot_offset = self.compute_slot_index(an_index);
        let ghost mem0 = space@;
        space.word_at_put(self.index + slot_offset, an_oop_address);
        proof {
            lemma_slot_write(
                mem0,
                self.position(),
                self.position() + header_words(self.header_word()) - 1 + an_index,
                an_oop_address,
            );
        }
    }
}

} // verus!
