//! The headers-only projection of one region: its place in the buffer and
//! its decoded header, without payload access. Cheap to materialize, it is
//! what scanning passes (sweep, merge) work with; it also carries the two
//! region-reshaping operations, merging with the right neighbour and
//! carving off a leftover.

use vstd::prelude::*;

use crate::header::{
    class_field, encoded_size, has_extra_header, same_fields_except_class,
    same_fields_except_slots, Header,
};
use crate::heap_layout::{
    is_region_start, lemma_reaches_trans, lemma_region_start_fits, reaches, region_is_free,
    region_size, region_slot_count, wf,
};
use crate::heap_updates::{lemma_header_rewrite, lemma_merge_regions};
use crate::memory_space::MemorySpace;
use crate::oop_carcass::OopCarcass;
use crate::oop_common::{projection_matches, OopCommonState, OopNavigation, NO_EXTRA_HEADER_VALUE};
use crate::oop_slice::OopSlice;
use crate::special_class_index::FREE_OBJECT_CLASS_INDEX;

verus! {

pub struct OopHeaders {
    index: usize,
    header: Header,
    extra_header: usize,
}

impl OopCommonState for OopHeaders {
    closed spec fn header_word(&self) -> u64 {
        self.header.header_value
    }

    closed spec fn extra_count(&self) -> usize {
        self.extra_header
    }

    fn get_header(&self) -> (h: &Header) {
        &self.header
    }

    fn get_header_mut(&mut self) -> (h: &mut Header)
        ensures
            final(self).position() == old(self).position(),
    {
        &mut self.header
    }

    fn get_extra_header(&self) -> (r: usize) {
        self.extra_header
    }

    fn set_extra_header(&mut self, new_value: usize)
        ensures
            final(self).position() == old(self).position(),
    {
        self.extra_header = new_value;
    }

    fn is_free_oop(&self) -> (r: bool) {
        self.header.is_free_oop()
    }

    fn header_value(&self) -> (r: u64) {
        self.header.get_value()
    }

    fn oop_size(&self) -> (r: usize) {
        self.header.header_size() + self.number_of_slots()
    }

    fn number_of_slots(&self) -> (r: usize) {
        if self.header.has_extra_slot_header() {
            self.extra_header
        } else {
            proof {
                crate::header::lemma_slots_field_bound(self.header.header_value);
            }
            self.header.number_of_slots_bits() as usize
        }
    }

    fn set_number_of_slots(&mut self, number_of_slots: usize)
        ensures
            final(self).position() == old(self).position(),
    {
        if number_of_slots > Header::MAX_NUMBER_OF_SLOTS {
            self.header.set_number_of_slots_to_max();
            self.extra_header = number_of_slots;
        } else {
            self.header.set_number_of_slots_bits(number_of_slots);
        }
    }
}

impl OopNavigation for OopHeaders {
    closed spec fn position(&self) -> int {
        self.index as int
    }

    fn get_index(&self) -> (r: usize) {
        self.index
    }

    fn next_oop_index(&self) -> (r: usize) {
        self.index + self.oop_size()
    }

}

impl OopHeaders {
    /// The full projection of the region that follows this one.
    pub fn next_oop(&self, space: &MemorySpace) -> (r: OopSlice)
        requires
            wf(space@),
            projection_matches(space@, self.position(), self.header_word(), self.extra_count()),
            is_region_start(space@, self.position()),
            is_region_start(
                space@,
                self.position() + encoded_size(self.header_word(), self.extra_count() as u64),
            ),
        ensures
            r.position() == self.position() + encoded_size(
                self.header_word(),
                self.extra_count() as u64,
            ),
            projection_matches(space@, r.position(), r.header_word(), r.extra_count()),
            region_size(space@, r.position()) == encoded_size(
                r.header_word(),
                r.extra_count() as u64,
            ),
    {
        proof {
            space.lemma_len_bound();
            lemma_region_start_fits(
                space@,
                self.position() + encoded_size(self.header_word(), self.extra_count() as u64),
            );
            lemma_region_start_fits(space@, self.position());
        }
        space.get_oop_at(self.next_oop_index())
    }

    /// Reads the header word(s) of the region at `index` into a fresh
    /// headers-only projection.
    pub fn new(index: usize, space: &MemorySpace) -> (r: Self)
        requires
            index < space@.len(),
            has_extra_header(space@[index as int]) ==> index as int + 1 < space@.len()
                && space@[index as int + 1] <= usize::MAX as u64,
        ensures
            r.position() == index as int,
            r.header_word() == space@[index as int],
            projection_matches(space@, index as int, r.header_word(), r.extra_count()),
            !has_extra_header(r.header_word()) ==> r.extra_count() == NO_EXTRA_HEADER_VALUE,
            encoded_size(r.header_word(), r.extra_count() as u64) == region_size(
                space@,
                index as int,
            ),
    {
        proof {
            space.lemma_len_bound();
        }
        let header = Header { header_value: space.word_at(index) };
        let extra_header = if header.has_extra_slot_header() {
            space.word_at(index + 1) as usize
        } else {
            NO_EXTRA_HEADER_VALUE
        };
        Self { index, header, extra_header }
    }

    /// Stamps the projection's free class index into the buffer. Slot
    /// contents are untouched.
    pub fn become_free_oop(&mut self, space: &mut MemorySpace)
        requires
            wf(old(space)@),
            is_region_start(old(space)@, old(self).position()),
            projection_matches(
                old(space)@,
                old(self).position(),
                old(self).header_word(),
                old(self).extra_count(),
            ),
        ensures
            final(self).position() == old(self).position(),
            final(self).extra_count() == old(self).extra_count(),
            class_field(final(self).header_word()) == FREE_OBJECT_CLASS_INDEX,
            same_fields_except_class(old(self).header_word(), final(self).header_word()),
            wf(final(space)@),
            final(space)@ == old(space)@.update(old(self).position(), final(self).header_word()),
            region_is_free(final(space)@, old(self).position()),
            projection_matches(
                final(space)@,
                old(self).position(),
                final(self).header_word(),
                final(self).extra_count(),
            ),
            forall|j: int|
                #[trigger] is_region_start(final(space)@, j) == is_region_start(old(space)@, j),
            forall|j: int|
                #[trigger] is_region_start(old(space)@, j) ==> region_size(final(space)@, j)
                    == region_size(old(space)@, j) && region_slot_count(final(space)@, j)
                    == region_slot_count(old(space)@, j),
            forall|j: int|
                #[trigger] is_region_start(old(space)@, j) && j != old(self).position() ==> final(space)@[j] == old(space)@[j],
    {
        let ghost mem0 = space@;
        let ghost pos = self.position();
        self.header.become_free_oop();
        self.apply_header(space);
        proof {
            if has_extra_header(self.header_word()) {
                assert(space@ =~= mem0.update(pos, self.header_word()));
            }
            lemma_header_rewrite(mem0, pos, self.header_word());
        }
    }

    /// Absorbs the region immediately to the right into this one: this
    /// projection's slot count grows so that one region spans both, and the
    /// combined header is written back. Both regions are expected to be
    /// free; only header words change, so the absorbed region's words
    /// linger as payload of the survivor.
    pub fn merge_with(&mut self, oop: OopHeaders, space: &mut MemorySpace)
        requires
            wf(old(space)@),
            is_region_start(old(space)@, old(self).position()),
            projection_matches(
                old(space)@,
                old(self).position(),
                old(self).header_word(),
                old(self).extra_count(),
            ),
            oop.position() == old(self).position() + encoded_size(
                old(self).header_word(),
                old(self).extra_count() as u64,
            ),
            oop.position() < old(space)@.len(),
            projection_matches(old(space)@, oop.position(), oop.header_word(), oop.extra_count()),
        ensures
            final(self).position() == old(self).position(),
            same_fields_except_slots(old(self).header_word(), final(self).header_word()),
            wf(final(space)@),
            final(space)@.len() == old(space)@.len(),
            encoded_size(final(self).header_word(), final(self).extra_count() as u64)
                == region_size(old(space)@, old(self).position()) + region_size(
                old(space)@,
                oop.position(),
            ),
            region_size(final(space)@, old(self).position()) == region_size(
                old(space)@,
                old(self).position(),
            ) + region_size(old(space)@, oop.position()),
            projection_matches(
                final(space)@,
                old(self).position(),
                final(self).header_word(),
                final(self).extra_count(),
            ),
            forall|j: int|
                #[trigger] is_region_start(final(space)@, j) == (is_region_start(old(space)@, j)
                    && j != oop.position()),
            forall|j: int|
                #[trigger] is_region_start(old(space)@, j) && j != old(self).position() && j
                    != oop.position() ==> final(space)@[j] == old(space)@[j] && region_size(
                    final(space)@,
                    j,
                ) == region_size(old(space)@, j) && region_slot_count(final(space)@, j)
                    == region_slot_count(old(space)@, j),
            forall|k: int|
                0 <= k < old(space)@.len() && !(old(self).position() <= k < old(self).position()
                    + region_size(old(space)@, old(self).position()) + region_size(
                    old(space)@,
                    oop.position(),
                )) ==> final(space)@[k] == old(space)@[k],
            forall|k: int|
                0 <= k < old(space)@.len() && k != old(self).position() && k != old(self).position()
                    + 1 ==> final(space)@[k] == old(space)@[k],
    {
        let ghost mem0 = space@;
        let ghost pos = self.position();
        let ghost q = oop.position();
        proof {
            space.lemma_len_bound();
            lemma_region_start_fits(mem0, pos);
            assert(reaches(mem0, q, q));
            assert(reaches(mem0, pos, q));
            lemma_reaches_trans(mem0, 0, pos, q);
            assert(is_region_start(mem0, q));
            lemma_region_start_fits(mem0, q);
            assert(region_size(mem0, pos) == encoded_size(
                self.header_word(),
                self.extra_count() as u64,
            ));
            assert(region_size(mem0, q) == encoded_size(
                oop.header_word(),
                oop.extra_count() as u64,
            ));
        }
        let total_size = self.oop_size() + oop.oop_size();
        self.encode_region_size(total_size);
        self.apply_header(space);
        proof {
            assert(region_size(space@, pos) == total_size);
            lemma_merge_regions(mem0, space@, pos);
        }
    }

    /// Prepares the leftover of this region after `size` words are taken
    /// from its front: a carcass whose header arrangement makes it occupy
    /// exactly the remaining words, keeping this region's class and flags.
    pub fn carve_out(&self, size: usize) -> (r: OopCarcass)
        requires
            encoded_size(self.header_word(), self.extra_count() as u64) <= usize::MAX as int,
            size as int + 1 <= encoded_size(self.header_word(), self.extra_count() as u64),
        ensures
            encoded_size(r.header_word(), r.extra_count() as u64) == encoded_size(
                self.header_word(),
                self.extra_count() as u64,
            ) - size,
            same_fields_except_slots(self.header_word(), r.header_word()),
    {
        let mut new_free_oop = OopCarcass::new_from(self);
        let new_resulting_size = self.oop_size() - size;
        new_free_oop.encode_region_size(new_resulting_size);
        new_free_oop
    }

    /// Chooses the header arrangement whose own width makes this region
    /// occupy exactly `total` words: one header word up to 255 total words,
    /// the overflow form from 256 on.
    pub fn encode_region_size(&mut self, total: usize)
        requires
            total >= 1,
        ensures
            final(self).position() == old(self).position(),
            encoded_size(final(self).header_word(), final(self).extra_count() as u64)
                == total as int,
            has_extra_header(final(self).header_word()) == (total >= 256),
            same_fields_except_slots(old(self).header_word(), final(self).header_word()),
    {
        if total <= Header::MAX_NUMBER_OF_SLOTS + 1 {
            self.set_number_of_slots(total - 1);
        } else if total == 256 {
            // Two header words with a slot count the single-word form could
            // also carry: only the overflow form makes the size come out
            // exactly.
            self.header.set_number_of_slots_to_max();
            self.extra_header = 254;
        } else {
            self.set_number_of_slots(total - 2);
        }
    }

    /// Writes the in-memory header (and overflow word, if present) back to
    /// the buffer. Whether the surrounding partition stays intact is the
    /// caller's business.
    pub fn apply_header(&self, space: &mut MemorySpace)
        requires
            0 <= self.position() < old(space)@.len(),
            has_extra_header(self.header_word()) ==> self.position() + 1 < old(space)@.len(),
        ensures
            final(space)@ == if has_extra_header(self.header_word()) {
                old(space)@.update(self.position(), self.header_word()).update(
                    self.position() + 1,
                    self.extra_count() as u64,
                )
            } else {
                old(space)@.update(self.position(), self.header_word())
            },
    {
        proof {
            space.lemma_len_bound();
        }
        space.word_at_put(self.index, self.header.get_value());
        if self.header.has_extra_slot_header() {
            space.word_at_put(self.index + 1, self.extra_header as u64);
        }
    }
}

} // verus!
