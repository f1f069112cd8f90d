//! The heap buffer: one owned, fixed-capacity array of words, the sole
//! storage for every object. It is created once, initialized to a single
//! free region, and only ever changed word by word through the operations
//! of this crate.

use vstd::prelude::*;

use crate::header::{
    class_field, format_field, grey_field, hash_field, immutable_field, mark_field,
};
use crate::heap_layout::{
    is_region_start, lemma_zero_suffix_reaches_end, reaches, region_is_free, region_size,
    region_slot_count, wf,
};
use crate::memory_space_access;
use crate::memory_space_access::MemorySpaceIterator;
use crate::oop_builder::OopBuilder;
use crate::oop_common::{how_many_headers_for, spec_how_many_headers_for, OopCommonState, OopNavigation};
use crate::oop_slice::OopSlice;
use crate::special_class_index::FREE_OBJECT_CLASS_INDEX;

verus! {

pub struct MemorySpace {
    memory_vector: Vec<u64>,
}

impl View for MemorySpace {
    type V = Seq<u64>;

    closed spec fn view(&self) -> Seq<u64> {
        self.memory_vector@
    }
}

impl MemorySpace {
    /// Creates a space of `memory_space_size` words holding one free region.
    ///
    /// The initial free region's header width comes from
    /// `how_many_headers_for`, which switches to the two-word form already
    /// at the single-word slot maximum itself; for the three capacities
    /// where the chosen width and the stored slot count disagree, the free
    /// region ends one word short and the spare word reads as a one-word
    /// region of class 0, so the partition invariant holds for every
    /// capacity.
    pub fn for_bit_size(memory_space_size: usize) -> (r: Self)
        requires
            memory_space_size >= 1,
        ensures
            r@.len() == memory_space_size,
            wf(r@),
            is_region_start(r@, 0),
            region_is_free(r@, 0),
            region_slot_count(r@, 0) == memory_space_size - spec_how_many_headers_for(
                memory_space_size,
            ),
            mark_field(r@[0]) == 0,
            hash_field(r@[0]) == 0,
            grey_field(r@[0]) == 0,
            format_field(r@[0]) == 0,
            immutable_field(r@[0]) == 0,
            class_field(r@[0]) == FREE_OBJECT_CLASS_INDEX,
            forall|k: int|
                spec_how_many_headers_for(memory_space_size) <= k < memory_space_size ==> r@[k]
                    == 0,
            (memory_space_size < 254 || memory_space_size > 256) ==> region_size(r@, 0)
                == memory_space_size,
            (memory_space_size < 254 || memory_space_size > 256) ==> forall|j: int|
                #[trigger] is_region_start(r@, j) ==> j == 0,
    {
        let mut memory_vector: Vec<u64> = Vec::new();
        let mut i: usize = 0;
        while i < memory_space_size
            invariant
                i <= memory_space_size,
                memory_vector@.len() == i,
                forall|k: int| 0 <= k < i ==> memory_vector@[k] == 0,
            decreases memory_space_size - i,
        {
            memory_vector.push(0);
            i = i + 1;
        }
        let mut res: Self = Self { memory_vector };

        // Set the first region to be free and hold all the slots the header
        // width leaves room for.
        let mut builder = OopBuilder::new();
        builder.set_class_index(FREE_OBJECT_CLASS_INDEX);
        builder.set_number_of_slots(memory_space_size - how_many_headers_for(memory_space_size));
        builder.build_oop_at(0, &mut res);

        proof {
            let mem = res@;
            let n = memory_space_size as int;
            let h = spec_how_many_headers_for(memory_space_size) as int;
            let written = region_size(mem, 0);
            assert(written == (if n - h > 254 {
                2int
            } else {
                1int
            }) + (n - h));
            assert forall|k: int| written <= k < n implies mem[k] == 0 by {}
            lemma_zero_suffix_reaches_end(mem, written);
            assert(wf(mem));
            if n < 254 || n > 256 {
                assert(region_size(mem, 0) == n);
                assert forall|j: int| #[trigger] is_region_start(mem, j) implies j == 0 by {
                    if j != 0 {
                        crate::heap_layout::lemma_reaches_between(mem, 0, 0, j);
                        assert(reaches(mem, n, j));
                        crate::heap_layout::lemma_reaches_at_least(mem, n, j);
                    }
                }
            }
        }
        res
    }

    /// A buffer held in a vector never has more words than `usize` counts.
    pub proof fn lemma_len_bound(&self)
        ensures
            self@.len() <= usize::MAX as int,
    {
        vstd::std_specs::vec::axiom_spec_len(&self.memory_vector);
    }

    pub fn get_start_index(&self) -> (r: usize)
        ensures
            r == 0,
    {
        0
    }

    /// The last valid word index of the space.
    pub fn get_end_index(&self) -> (r: usize)
        requires
            self@.len() >= 1,
        ensures
            r as int == self@.len() - 1,
    {
        self.memory_vector.len() - 1
    }

    /// Reads one word. The raw counterpart of the object views.
    pub fn word_at(&self, index: usize) -> (r: u64)
        requires
            index < self@.len(),
        ensures
            r == self@[index as int],
    {
        self.memory_vector[index]
    }

    /// Overwrites one word. The raw counterpart of the object views; the
    /// partition invariant is the caller's business.
    pub fn word_at_put(&mut self, index: usize, value: u64)
        requires
            index < old(self)@.len(),
        ensures
            final(self)@ == old(self)@.update(index as int, value),
    {
        self.memory_vector[index] = value;
    }

    /// The projection of the region at the start of the space.
    pub fn first_oop(&self) -> (r: OopSlice)
        requires
            wf(self@),
            self@.len() >= 1,
        ensures
            r.position() == 0,
            crate::oop_common::projection_matches(self@, 0, r.header_word(), r.extra_count()),
            region_size(self@, 0) == crate::header::encoded_size(
                r.header_word(),
                r.extra_count() as u64,
            ),
    {
        memory_space_access::first_oop(self)
    }

    /// The projection of the region starting at `index`.
    pub fn get_oop_at(&self, index: usize) -> (r: OopSlice)
        requires
            wf(self@),
            is_region_start(self@, index as int),
        ensures
            r.position() == index as int,
            crate::oop_common::projection_matches(
                self@,
                index as int,
                r.header_word(),
                r.extra_count(),
            ),
            region_size(self@, index as int) == crate::header::encoded_size(
                r.header_word(),
                r.extra_count() as u64,
            ),
    {
        memory_space_access::oop_at_index(index, self)
    }

    /// A cursor over the regions of the space, in address order.
    pub fn iter(&self) -> (r: MemorySpaceIterator)
        ensures
            r.current() == 0,
    {
        MemorySpaceIterator::new()
    }
}

} // verus!
