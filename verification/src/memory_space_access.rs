//! The heap iterator: a cursor that starts at the first region and follows
//! each region's computed size, yielding one projection per step in
//! address order, until it passes the end of the space.

use vstd::prelude::*;

use crate::header::encoded_size;
use crate::heap_layout::{
    is_region_start, lemma_region_start_fits, reaches, region_size, wf,
};
use crate::memory_space::MemorySpace;
use crate::oop_common::{projection_matches, OopCommonState, OopNavigation};
use crate::oop_headers::OopHeaders;
use crate::oop_slice::OopSlice;

verus! {

pub struct MemorySpaceIterator {
    current_index: usize,
}

impl MemorySpaceIterator {
    /// The index the cursor stands on: a region start, or the end of the
    /// space once the walk is done.
    pub closed spec fn current(&self) -> int {
        self.current_index as int
    }

    pub fn new() -> (r: Self)
        ensures
            r.current() == 0,
    {
        Self { current_index: 0 }
    }

    /// Yields the full projection of the region under the cursor and moves
    /// past it, or reports the end of the space.
    pub fn next(&mut self, space: &MemorySpace) -> (r: Option<OopSlice>)
        requires
            wf(space@),
            space@.len() >= 1,
            reaches(space@, 0, old(self).current()),
            old(self).current() <= space@.len(),
        ensures
            r is Some <==> old(self).current() < space@.len(),
            r is None ==> final(self).current() == old(self).current(),
            r is Some ==> is_region_start(space@, old(self).current()) && r->0.position() == old(
                self,
            ).current() && projection_matches(
                space@,
                r->0.position(),
                r->0.header_word(),
                r->0.extra_count(),
            ) && encoded_size(r->0.header_word(), r->0.extra_count() as u64) == region_size(
                space@,
                old(self).current(),
            ) && final(self).current() == old(self).current() + region_size(
                space@,
                old(self).current(),
            ) && reaches(space@, 0, final(self).current()) && final(self).current() <= space@.len(),
    {
        if self.current_index > space.get_end_index() {
            return None;
        }
        let res = oop_at_index(self.current_index, space);
        proof {
            space.lemma_len_bound();
            lemma_region_start_fits(space@, self.current() as int);
            let nxt = self.current() + region_size(space@, self.current());
            assert(reaches(space@, nxt, nxt));
            assert(reaches(space@, self.current(), nxt));
            crate::heap_layout::lemma_reaches_trans(space@, 0, self.current(), nxt);
        }
        self.current_index = res.next_oop_index();
        Some(res)
    }

    /// Moves the cursor past the region it stands on without materializing
    /// a projection.
    pub fn go_to_next(&mut self, space: &MemorySpace)
        requires
            wf(space@),
            reaches(space@, 0, old(self).current()),
            old(self).current() < space@.len(),
        ensures
            final(self).current() == old(self).current() + region_size(
                space@,
                old(self).current(),
            ),
            reaches(space@, 0, final(self).current()),
            final(self).current() <= space@.len(),
    {
        let res = oop_header_at_index(self.current_index, space);
        proof {
            space.lemma_len_bound();
            lemma_region_start_fits(space@, self.current() as int);
            let nxt = self.current() + region_size(space@, self.current());
            assert(reaches(space@, nxt, nxt));
            assert(reaches(space@, self.current(), nxt));
            crate::heap_layout::lemma_reaches_trans(space@, 0, self.current(), nxt);
        }
        self.current_index = res.next_oop_index();
    }

    /// The headers-only projection of the region under the cursor, without
    /// moving, or the end of the space.
    pub fn peak_next_headers(&self, space: &MemorySpace) -> (r: Option<OopHeaders>)
        requires
            wf(space@),
            space@.len() >= 1,
            reaches(space@, 0, self.current()),
            self.current() <= space@.len(),
        ensures
            r is Some <==> self.current() < space@.len(),
            r is Some ==> is_region_start(space@, self.current()) && r->0.position()
                == self.current() && projection_matches(
                space@,
                r->0.position(),
                r->0.header_word(),
                r->0.extra_count(),
            ) && encoded_size(r->0.header_word(), r->0.extra_count() as u64) == region_size(
                space@,
                self.current(),
            ),
    {
        if self.current_index > space.get_end_index() {
            return None;
        }
        Some(oop_header_at_index(self.current_index, space))
    }

    /// Yields the headers-only projection of the region under the cursor
    /// and moves past it, or reports the end of the space.
    pub fn next_headers(&mut self, space: &MemorySpace) -> (r: Option<OopHeaders>)
        requires
            wf(space@),
            space@.len() >= 1,
            reaches(space@, 0, old(self).current()),
            old(self).current() <= space@.len(),
        ensures
            r is Some <==> old(self).current() < space@.len(),
            r is None ==> final(self).current() == old(self).current(),
            r is Some ==> is_region_start(space@, old(self).current()) && r->0.position() == old(
                self,
            ).current() && projection_matches(
                space@,
                r->0.position(),
                r->0.header_word(),
                r->0.extra_count(),
            ) && encoded_size(r->0.header_word(), r->0.extra_count() as u64) == region_size(
                space@,
                old(self).current(),
            ) && final(self).current() == old(self).current() + region_size(
                space@,
                old(self).current(),
            ) && reaches(space@, 0, final(self).current()) && final(self).current() <= space@.len(),
    {
        if self.current_index > space.get_end_index() {
            return None;
        }
        let res = oop_header_at_index(self.current_index, space);
        proof {
            space.lemma_len_bound();
            lemma_region_start_fits(space@, self.current() as int);
            let nxt = self.current() + region_size(space@, self.current());
            assert(reaches(space@, nxt, nxt));
            assert(reaches(space@, self.current(), nxt));
            crate::heap_layout::lemma_reaches_trans(space@, 0, self.current(), nxt);
        }
        self.current_index = res.next_oop_index();
        Some(res)
    }
}

impl Default for MemorySpaceIterator {
    fn default() -> (r: Self)
        ensures
            r.current() == 0,
    {
        Self::new()
    }
}

/// The headers-only projection of the region starting at `index`.
pub fn oop_header_at_index(index: usize, space: &MemorySpace) -> (r: OopHeaders)
    requires
        wf(space@),
        is_region_start(space@, index as int),
    ensures
        r.position() == index as int,
        projection_matches(space@, index as int, r.header_word(), r.extra_count()),
        encoded_size(r.header_word(), r.extra_count() as u64) == region_size(space@, index as int),
{
    proof {
        space.lemma_len_bound();
        lemma_region_start_fits(space@, index as int);
        if crate::header::has_extra_header(space@[index as int]) {
            assert(region_size(space@, index as int) == 2 + space@[index as int + 1]);
        }
    }
    OopHeaders::new(index, space)
}

/// The headers-only projection of the first region.
pub fn first_oop_header(space: &MemorySpace) -> (r: OopHeaders)
    requires
        wf(space@),
        space@.len() >= 1,
    ensures
        r.position() == 0,
        projection_matches(space@, 0, r.header_word(), r.extra_count()),
        encoded_size(r.header_word(), r.extra_count() as u64) == region_size(space@, 0),
{
    oop_header_at_index(0, space)
}

/// The full projection of the region starting at `index`.
pub fn oop_at_index(index: usize, space: &MemorySpace) -> (r: OopSlice)
    requires
        wf(space@),
        is_region_start(space@, index as int),
    ensures
        r.position() == index as int,
        projection_matches(space@, index as int, r.header_word(), r.extra_count()),
        encoded_size(r.header_word(), r.extra_count() as u64) == region_size(space@, index as int),
{
    proof {
        space.lemma_len_bound();
        lemma_region_start_fits(space@, index as int);
        if crate::header::has_extra_header(space@[index as int]) {
            assert(region_size(space@, index as int) == 2 + space@[index as int + 1]);
        }
    }
    OopSlice::new(index, space)
}

/// The full projection of the first region.
pub fn first_oop(space: &MemorySpace) -> (r: OopSlice)
    requires
        wf(space@),
        space@.len() >= 1,
    ensures
        r.position() == 0,
        projection_matches(space@, 0, r.header_word(), r.extra_count()),
        encoded_size(r.header_word(), r.extra_count() as u64) == region_size(space@, 0),
{
    oop_at_index(0, space)
}

} // verus!
