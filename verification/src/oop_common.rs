//! The capability contract shared by every projection of a region: a
//! decoded header word, the optional overflow count, and the size and
//! free-state questions answered from them. Two further navigation
//! operations locate a projection inside the heap buffer.

use vstd::prelude::*;

use crate::header::{encoded_size, encoded_slot_count, has_extra_header, is_free_word, Header};

verus! {

/// Offset of the header word within a region.
pub const HEADER_INDEX: usize = 0;

/// Offset of the overflow slot-count word within a region, when present.
pub const EXTRA_HEADER_INDEX: usize = 1;

/// The overflow count a projection carries when its header has none.
pub const NO_EXTRA_HEADER_VALUE: usize = 0;

/// Header words used when a free region of `some_memory_size` total words
/// is set up: one header word below the single-word slot maximum, two from
/// there on.
pub open spec fn spec_how_many_headers_for(some_memory_size: usize) -> usize {
    if some_memory_size < Header::MAX_NUMBER_OF_SLOTS {
        1
    } else {
        2
    }
}

pub fn how_many_headers_for(some_memory_size: usize) -> (r: usize)
    ensures
        r == spec_how_many_headers_for(some_memory_size),
{
    if some_memory_size < Header::MAX_NUMBER_OF_SLOTS {
        1
    } else {
        2
    }
}

/// The projection with header word `w` and overflow count `extra` is a
/// faithful snapshot of the words at `pos`.
pub open spec fn projection_matches(mem: Seq<u64>, pos: int, w: u64, extra: usize) -> bool {
    &&& 0 <= pos < mem.len()
    &&& mem[pos] == w
    &&& (has_extra_header(w) ==> pos + 1 < mem.len() && mem[pos + 1] == extra as u64)
}

/// What every projection of a region offers: its decoded header, its
/// overflow count, and the derived size and free-state answers.
pub trait OopCommonState: Sized {
    /// The header word this projection carries.
    spec fn header_word(&self) -> u64;

    /// The overflow slot count this projection carries.
    spec fn extra_count(&self) -> usize;

    fn get_header(&self) -> (h: &Header)
        ensures
            h.header_value == self.header_word(),
    ;

    /// Mutable access to the carried header copy; the overflow count is
    /// untouched, and the projection's header follows whatever the caller
    /// does with the borrow.
    fn get_header_mut(&mut self) -> (h: &mut Header)
        ensures
            h.header_value == old(self).header_word(),
            final(self).header_word() == final(h).header_value,
            final(self).extra_count() == old(self).extra_count(),
    ;

    fn get_extra_header(&self) -> (r: usize)
        ensures
            r == self.extra_count(),
    ;

    fn set_extra_header(&mut self, new_value: usize)
        ensures
            final(self).extra_count() == new_value,
            final(self).header_word() == old(self).header_word(),
    ;

    fn is_free_oop(&self) -> (r: bool)
        ensures
            r == is_free_word(self.header_word()),
    ;

    fn header_value(&self) -> (r: u64)
        ensures
            r == self.header_word(),
    ;

    fn oop_size(&self) -> (r: usize)
        requires
            encoded_size(self.header_word(), self.extra_count() as u64) <= usize::MAX as int,
        ensures
            r as int == encoded_size(self.header_word(), self.extra_count() as u64),
    ;

    fn number_of_slots(&self) -> (r: usize)
        ensures
            r as int == encoded_slot_count(self.header_word(), self.extra_count() as u64),
    ;

    /// Encodes `number_of_slots` into the projection: directly in the
    /// header below the single-word maximum, else as the sentinel plus the
    /// overflow count. All header fields other than the slot count keep
    /// their values.
    fn set_number_of_slots(&mut self, number_of_slots: usize)
        ensures
            encoded_slot_count(final(self).header_word(), final(self).extra_count() as u64)
                == number_of_slots as int,
            has_extra_header(final(self).header_word()) == (number_of_slots
                > Header::MAX_NUMBER_OF_SLOTS),
            crate::header::same_fields_except_slots(
                old(self).header_word(),
                final(self).header_word(),
            ),
    ;
}

/// Projections that know where in the buffer they were read from.
pub trait OopNavigation: OopCommonState {
    /// The buffer index this projection was read from.
    spec fn position(&self) -> int;

    fn get_index(&self) -> (r: usize)
        ensures
            r as int == self.position(),
    ;

    fn next_oop_index(&self) -> (r: usize)
        requires
            self.position() + encoded_size(self.header_word(), self.extra_count() as u64)
                <= usize::MAX as int,
            0 <= self.position(),
        ensures
            r as int == self.position() + encoded_size(
                self.header_word(),
                self.extra_count() as u64,
            ),
    ;
}

} // verus!
