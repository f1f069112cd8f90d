//! First-fit placement: scan the regions in address order and hand back the
//! first free region large enough for the request. The allocator never
//! touches the buffer; running out of memory is reported to the caller, who
//! may collect garbage and retry.

use vstd::prelude::*;

use crate::heap_layout::{is_region_start, reaches, region_is_free, region_size, wf};
use crate::memory_space::MemorySpace;
use crate::oop_common::{OopCommonState, OopNavigation};

verus! {

/// The region starting at `j` can take a request for `n` words.
pub open spec fn fits_request(mem: Seq<u64>, j: int, n: int) -> bool {
    region_is_free(mem, j) && region_size(mem, j) >= n
}

/// The index of the first free region of at least `number_of_words` words,
/// in address order, or nothing when no free region is large enough.
pub fn where_to_allocate(number_of_words: usize, space: &MemorySpace) -> (r: Option<usize>)
    requires
        wf(space@),
        space@.len() >= 1,
    ensures
        r is Some ==> is_region_start(space@, r->0 as int) && fits_request(
            space@,
            r->0 as int,
            number_of_words as int,
        ) && (forall|j: int|
            #[trigger] is_region_start(space@, j) && j < r->0 as int ==> !fits_request(
                space@,
                j,
                number_of_words as int,
            )),
        r is None ==> forall|j: int|
            #[trigger] is_region_start(space@, j) ==> !fits_request(
                space@,
                j,
                number_of_words as int,
            ),
{
    let mut iter = space.iter();
    loop
        invariant
            wf(space@),
            space@.len() >= 1,
            reaches(space@, 0, iter.current()),
            iter.current() <= space@.len(),
            forall|j: int|
                #[trigger] is_region_start(space@, j) && j < iter.current() ==> !fits_request(
                    space@,
                    j,
                    number_of_words as int,
                ),
        decreases space@.len() - iter.current(),
    {
        let ghost at = iter.current();
        match iter.next(space) {
            None => {
                return None;
            },
            Some(oop) => {
                proof {
                    space.lemma_len_bound();
                }
                if oop.is_free_oop() && oop.oop_size() >= number_of_words {
                    return Some(oop.get_index());
                }
                proof {
                    assert forall|j: int|
                        #[trigger] is_region_start(space@, j) && j < iter.current()
                            implies !fits_request(space@, j, number_of_words as int) by {
                        if j > at {
                            crate::heap_layout::lemma_reaches_between(space@, 0, at, j);
                            assert(reaches(space@, at + region_size(space@, at), j));
                            crate::heap_layout::lemma_reaches_at_least(
                                space@,
                                at + region_size(space@, at),
                                j,
                            );
                            assert(false);
                        }
                    }
                }
            },
        }
    }
}

} // verus!
