//! The object builder: collects a requested slot count and class index,
//! asks the allocator for a free region, carves off any leftover space as a
//! new free region, and writes the new object's header.

use vstd::prelude::*;

use crate::allocator::{fits_request, where_to_allocate};
use crate::header::{
    class_field, format_field, grey_field, has_extra_header, hash_field, immutable_field,
    mark_field, Header,
};
use crate::heap_layout::{
    is_region_start, lemma_region_start_fits, reaches, region_is_free, region_size,
    region_slot_count, wf,
};
use crate::heap_updates::{lemma_carve_region, lemma_rewrite_region};
use crate::memory_space::MemorySpace;
use crate::memory_space_access::oop_header_at_index;
use crate::oop_carcass::OopCarcass;
use crate::oop_common::OopCommonState;

verus! {

pub struct OopBuilder {
    number_of_slots: usize,
    class_index: u64,
}

/// Total words a fresh object with `slots` payload slots occupies: its
/// header width plus the slots themselves.
pub open spec fn spec_object_size(slots: usize) -> int {
    (if slots > Header::MAX_NUMBER_OF_SLOTS {
        2int
    } else {
        1int
    }) + slots
}

impl OopBuilder {
    /// The slot count the next build will use.
    pub closed spec fn slot_count(&self) -> usize {
        self.number_of_slots
    }

    /// The class index the next build will use.
    pub closed spec fn class(&self) -> u64 {
        self.class_index
    }

    pub fn new() -> (r: OopBuilder)
        ensures
            r.slot_count() == 0,
            r.class() == 2,
    {
        Self { class_index: 2, number_of_slots: 0 }
    }

    pub fn initialize(&mut self)
        ensures
            final(self).slot_count() == 0,
            final(self).class() == 2,
    {
        // The default class index is distinct from the reserved free value.
        self.class_index = 2;
        self.number_of_slots = 0;
    }

    pub fn reset(&mut self)
        ensures
            final(self).slot_count() == 0,
            final(self).class() == 2,
    {
        self.initialize();
    }

    pub fn set_number_of_slots(&mut self, new_number_of_slots: usize)
        ensures
            final(self).slot_count() == new_number_of_slots,
            final(self).class() == old(self).class(),
    {
        self.number_of_slots = new_number_of_slots;
    }

    pub fn set_class_index(&mut self, new_class_index: u64)
        ensures
            final(self).class() == new_class_index,
            final(self).slot_count() == old(self).slot_count(),
    {
        self.class_index = new_class_index;
    }

    /// Builds an object with the collected slot count and class index:
    /// asks the allocator for the first free region that can hold it, and
    /// if the region is larger than the object, carves the leftover into a
    /// new free region placed right behind the object. Reports nothing
    /// exactly when no free region is large enough; the heap is then
    /// untouched.
    pub fn build(&self, space: &mut MemorySpace) -> (r: Option<usize>)
        requires
            wf(old(space)@),
            old(space)@.len() >= 1,
            self.class() <= 0x3FFFFF,
            self.slot_count() as int + 2 <= usize::MAX as int,
        ensures
            (r is Some <==> exists|j: int|
                is_region_start(old(space)@, j) && #[trigger] fits_request(
                    old(space)@,
                    j,
                    spec_object_size(self.slot_count()),
                )),
            r is None ==> final(space)@ == old(space)@,
            r is Some ==> ({
                let idx = r->0 as int;
                let need = spec_object_size(self.slot_count());
                let carved = region_size(old(space)@, idx) > need;
                &&& is_region_start(old(space)@, idx)
                &&& fits_request(old(space)@, idx, need)
                &&& (forall|j: int|
                    #[trigger] is_region_start(old(space)@, j) && j < idx ==> !fits_request(
                        old(space)@,
                        j,
                        need,
                    ))
                &&& wf(final(space)@)
                &&& final(space)@.len() == old(space)@.len()
                &&& is_region_start(final(space)@, idx)
                &&& region_size(final(space)@, idx) == need
                &&& region_slot_count(final(space)@, idx) == self.slot_count()
                &&& class_field(final(space)@[idx]) == self.class()
                &&& mark_field(final(space)@[idx]) == 0
                &&& hash_field(final(space)@[idx]) == 0
                &&& grey_field(final(space)@[idx]) == 0
                &&& format_field(final(space)@[idx]) == 0
                &&& immutable_field(final(space)@[idx]) == 0
                &&& (carved ==> is_region_start(final(space)@, idx + need) && region_is_free(
                    final(space)@,
                    idx + need,
                ) && region_size(final(space)@, idx + need) == region_size(old(space)@, idx)
                    - need && has_extra_header(final(space)@[idx + need]) == (region_size(
                    old(space)@,
                    idx,
                ) - need >= 256))
                &&& (forall|j: int|
                    #[trigger] is_region_start(final(space)@, j) == (is_region_start(
                        old(space)@,
                        j,
                    ) || (region_size(old(space)@, idx) > need && j == idx + need)))
                &&& (forall|j: int|
                    #[trigger] is_region_start(old(space)@, j) && j != idx ==> final(space)@[j]
                        == old(space)@[j] && region_size(final(space)@, j) == region_size(
                        old(space)@,
                        j,
                    ) && region_slot_count(final(space)@, j) == region_slot_count(old(space)@, j))
                &&& (forall|k: int|
                    0 <= k < old(space)@.len() && !(idx <= k < idx + region_size(old(space)@, idx))
                        ==> final(space)@[k] == old(space)@[k])
            }),
    {
        let ghost mem0 = space@;
        let mut new_oop_carcass = OopCarcass::default();
        new_oop_carcass.set_number_of_slots(self.number_of_slots);
        let new_oop_size = new_oop_carcass.oop_size();
        let allocated = where_to_allocate(new_oop_size, space);
        match allocated {
            None => None,
            Some(allocated_index) => {
                let ghost idx = allocated_index as int;
                let ghost need = spec_object_size(self.slot_count());
                proof {
                    space.lemma_len_bound();
                    lemma_region_start_fits(mem0, idx);
                }
                let free_header = oop_header_at_index(allocated_index, space);
                let free_oop_size = free_header.oop_size();
                let ghost s = region_size(mem0, idx);

                if free_oop_size != new_oop_size {
                    // Carve: the leftover, sized to fill the rest of the
                    // free region exactly, keeps the free header's class.
                    let mut new_free_oop = OopCarcass::new_from(&free_header);
                    new_free_oop.encode_region_size(free_oop_size - new_oop_size);
                    let new_free_oop_index: usize = allocated_index + new_oop_size;
                    new_free_oop.apply_at_index_on_space(new_free_oop_index, space);
                }
                self.build_oop_at(allocated_index, space);
                proof {
                    if s == need {
                        lemma_rewrite_region(mem0, space@, idx);
                    } else {
                        assert(region_size(space@, idx + need) == s - need);
                        lemma_carve_region(mem0, space@, idx, need);
                    }
                }
                Some(allocated_index)
            },
        }
    }

    /// In a space holding a single region — free, as a fresh space does —
    /// that region spans the whole capacity, and the first-fit search for
    /// any request that capacity can hold lands on index 0. Together with
    /// the contract of `build` this pins allocation in an empty space:
    /// the object is placed at index 0 with the requested slot count, and
    /// whatever capacity is left over becomes a free region right after it.
    pub proof fn lemma_build_in_single_free_region(mem: Seq<u64>, n: usize)
        requires
            wf(mem),
            mem.len() >= 1,
            forall|j: int| #[trigger] is_region_start(mem, j) ==> j == 0,
            region_is_free(mem, 0),
            spec_object_size(n) <= mem.len(),
        ensures
            region_size(mem, 0) == mem.len(),
            fits_request(mem, 0, spec_object_size(n)),
            exists|j: int|
                is_region_start(mem, j) && #[trigger] fits_request(mem, j, spec_object_size(n)),
    {
        assert(is_region_start(mem, 0));
        lemma_region_start_fits(mem, 0);
        let nxt = region_size(mem, 0);
        if nxt < mem.len() {
            assert(reaches(mem, nxt, nxt));
            assert(reaches(mem, 0, nxt));
            assert(is_region_start(mem, nxt));
            assert(false);
        }
        assert(fits_request(mem, 0, spec_object_size(n)));
    }

    /// Writes a fresh object header straight at `index`, bypassing the
    /// allocator. Useful when setting up the space itself; whether the
    /// partition stays intact is the caller's business.
    pub fn build_oop_at(&self, index: usize, space: &mut MemorySpace)
        requires
            self.class() <= 0x3FFFFF,
            index < old(space)@.len(),
            self.slot_count() > Header::MAX_NUMBER_OF_SLOTS ==> index as int + 1 < old(
                space,
            )@.len(),
        ensures
            final(space)@.len() == old(space)@.len(),
            forall|k: int|
                0 <= k < old(space)@.len() && k != index as int && !(self.slot_count()
                    > Header::MAX_NUMBER_OF_SLOTS && k == index as int + 1) ==> final(space)@[k]
                    == old(space)@[k],
            has_extra_header(final(space)@[index as int]) == (self.slot_count()
                > Header::MAX_NUMBER_OF_SLOTS),
            region_slot_count(final(space)@, index as int) == self.slot_count(),
            region_size(final(space)@, index as int) == (if self.slot_count()
                > Header::MAX_NUMBER_OF_SLOTS {
                2int
            } else {
                1int
            }) + self.slot_count(),
            class_field(final(space)@[index as int]) == self.class(),
            mark_field(final(space)@[index as int]) == 0,
            hash_field(final(space)@[index as int]) == 0,
            grey_field(final(space)@[index as int]) == 0,
            format_field(final(space)@[index as int]) == 0,
            immutable_field(final(space)@[index as int]) == 0,
    {
        let mut new_oop_carcass = OopCarcass::default();
        new_oop_carcass.set_number_of_slots(self.number_of_slots);
        new_oop_carcass.get_header_mut().set_class_index_bits(self.class_index);
        proof {
            crate::header::lemma_zero_word_fields();
        }
        new_oop_carcass.apply_at_index_on_space(index, space);
    }
}

} // verus!
