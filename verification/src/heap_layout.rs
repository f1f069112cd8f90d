//! The mathematical model of the heap buffer: a sequence of words carved
//! into consecutive, self-describing regions.
//!
//! A region starts at an index whose word decodes as a header; its size is
//! the header word count plus the encoded slot count. `reaches(mem, i, j)`
//! says that hopping from region start to region start, beginning at `i`,
//! lands exactly on `j`. The central partition invariant `wf(mem)` says the
//! walk from index 0 lands exactly on `mem.len()`: the regions tile the
//! whole buffer with no gap, no overlap and no overrun.
//!
//! The lemmas below are the frame rules of the crate: which writes keep the
//! walk intact (slot writes, header rewrites that keep the slot-count
//! field), and how the walk changes when a window of whole regions is
//! rewritten (carving a free region in two, merging two neighbours).

use vstd::prelude::*;

use crate::header::{
    has_extra_header, header_words, is_free_word, mark_field, slots_field,
};

verus! {

/// The slot count of the region starting at `i`: from the overflow word when
/// the sentinel is set, else from the header's slot-count field.
pub open spec fn region_slot_count(mem: Seq<u64>, i: int) -> int {
    if has_extra_header(mem[i]) {
        mem[i + 1] as int
    } else {
        slots_field(mem[i]) as int
    }
}

/// Total size in words of the region starting at `i`.
pub open spec fn region_size(mem: Seq<u64>, i: int) -> int {
    header_words(mem[i]) + region_slot_count(mem, i)
}

/// The walk from `i` lands exactly on `j`, hopping region by region.
pub open spec fn reaches(mem: Seq<u64>, i: int, j: int) -> bool
    decreases mem.len() - i,
    when 0 <= i <= mem.len()
{
    i == j || (i < mem.len() && i + region_size(mem, i) <= mem.len() && reaches(
        mem,
        i + region_size(mem, i),
        j,
    ))
}

/// The partition invariant: the region walk from index 0 covers the buffer
/// exactly.
pub open spec fn wf(mem: Seq<u64>) -> bool {
    reaches(mem, 0, mem.len() as int)
}

/// `j` is the starting index of a region of the partition.
pub open spec fn is_region_start(mem: Seq<u64>, j: int) -> bool {
    0 <= j < mem.len() && reaches(mem, 0, j)
}

/// The region starting at `i` is a free region.
pub open spec fn region_is_free(mem: Seq<u64>, i: int) -> bool {
    is_free_word(mem[i])
}

/// The region starting at `i` carries the garbage-collector mark bit.
pub open spec fn region_is_marked(mem: Seq<u64>, i: int) -> bool {
    mark_field(mem[i]) == 1
}

/// The buffer index of 1-based slot `k` of the region starting at `r`.
pub open spec fn region_slot_index(mem: Seq<u64>, r: int, k: int) -> int {
    r + header_words(mem[r]) - 1 + k
}

/// The word held by 1-based slot `k` of the region starting at `r`.
pub open spec fn region_slot_value(mem: Seq<u64>, r: int, k: int) -> u64 {
    mem[region_slot_index(mem, r, k)]
}

/// Sum of the sizes of the regions the walk meets from `i` on.
pub open spec fn sum_of_region_sizes_from(mem: Seq<u64>, i: int) -> int
    decreases mem.len() - i,
    when 0 <= i <= mem.len()
{
    if i == mem.len() {
        0
    } else if i < mem.len() && i + region_size(mem, i) <= mem.len() {
        region_size(mem, i) + sum_of_region_sizes_from(mem, i + region_size(mem, i))
    } else {
        0
    }
}

/// Every slot of every region holds the index of some region: the heap's
/// object graph stays inside the heap. The collector's mark phase demands
/// this, since the stand-in slot classifier takes every word for a pointer.
pub open spec fn all_pointers_valid(mem: Seq<u64>) -> bool {
    forall|j: int, k: int|
        is_region_start(mem, j) && 1 <= k <= region_slot_count(mem, j) ==> is_region_start(
            mem,
            #[trigger] region_slot_value(mem, j, k) as int,
        )
}

/// No region carries the mark bit.
pub open spec fn all_regions_unmarked(mem: Seq<u64>) -> bool {
    forall|j: int| #[trigger] is_region_start(mem, j) ==> !region_is_marked(mem, j)
}

/// The first index at or after `j` where the run of free regions starting
/// at `j` ends: `j` itself when the region there is not free.
pub open spec fn free_run_end(mem: Seq<u64>, j: int) -> int
    decreases mem.len() - j,
    when 0 <= j <= mem.len()
{
    if j < mem.len() && region_is_free(mem, j) && j + region_size(mem, j) <= mem.len() {
        free_run_end(mem, j + region_size(mem, j))
    } else {
        j
    }
}

/// How many regions the walk meets from `i` on whose mark bit is clear.
pub open spec fn unmarked_region_count(mem: Seq<u64>, i: int) -> nat
    decreases mem.len() - i,
    when 0 <= i <= mem.len()
{
    if i < mem.len() && i + region_size(mem, i) <= mem.len() {
        (if region_is_marked(mem, i) {
            0nat
        } else {
            1nat
        }) + unmarked_region_count(mem, i + region_size(mem, i))
    } else {
        0
    }
}

/// Every region a walk can land on lies at or beyond the walk's origin.
pub proof fn lemma_reaches_at_least(mem: Seq<u64>, i: int, j: int)
    requires
        0 <= i <= mem.len(),
        reaches(mem, i, j),
    ensures
        i <= j,
    decreases mem.len() - i,
{
    if i != j {
        lemma_reaches_at_least(mem, i + region_size(mem, i), j);
    }
}

/// Chaining two walks.
pub proof fn lemma_reaches_trans(mem: Seq<u64>, i: int, j: int, k: int)
    requires
        0 <= i <= mem.len(),
        reaches(mem, i, j),
        reaches(mem, j, k),
    ensures
        reaches(mem, i, k),
    decreases mem.len() - i,
{
    if i != j {
        lemma_reaches_at_least(mem, i + region_size(mem, i), j);
        lemma_reaches_trans(mem, i + region_size(mem, i), j, k);
    }
}

/// Two targets of one walk are themselves connected, in address order.
pub proof fn lemma_reaches_between(mem: Seq<u64>, i: int, j: int, k: int)
    requires
        0 <= i <= mem.len(),
        reaches(mem, i, j),
        reaches(mem, i, k),
        j <= k,
    ensures
        reaches(mem, j, k),
    decreases mem.len() - i,
{
    if i != j {
        lemma_reaches_at_least(mem, i + region_size(mem, i), j);
        if i == k {
            lemma_reaches_at_least(mem, i, j);
        } else {
            lemma_reaches_between(mem, i + region_size(mem, i), j, k);
        }
    } else {
    }
}

/// Distinct regions of one partition occupy disjoint index ranges.
pub proof fn lemma_region_starts_disjoint(mem: Seq<u64>, a: int, b: int)
    requires
        is_region_start(mem, a),
        is_region_start(mem, b),
        a < b,
    ensures
        a + region_size(mem, a) <= b,
{
    lemma_reaches_between(mem, 0, a, b);
    lemma_reaches_at_least(mem, a + region_size(mem, a), b);
}

/// Under the partition invariant a region never overruns the buffer.
pub proof fn lemma_region_start_fits(mem: Seq<u64>, a: int)
    requires
        wf(mem),
        is_region_start(mem, a),
    ensures
        a + region_size(mem, a) <= mem.len(),
        reaches(mem, a, mem.len() as int),
        reaches(mem, a + region_size(mem, a), mem.len() as int),
        region_size(mem, a) >= 1,
    decreases mem.len() - a,
{
    lemma_reaches_between(mem, 0, a, mem.len() as int);
}

/// A walk's verdict depends only on the words it can read: those between
/// its origin and its target.
pub proof fn lemma_reaches_depends_on_window(mem: Seq<u64>, m2: Seq<u64>, i: int, j: int)
    requires
        m2.len() == mem.len(),
        0 <= i <= mem.len(),
        j <= mem.len(),
        reaches(mem, i, j),
        forall|k: int| i <= k < j ==> mem[k] == m2[k],
    ensures
        reaches(m2, i, j),
    decreases mem.len() - i,
{
    if i != j {
        lemma_reaches_at_least(mem, i + region_size(mem, i), j);
        assert(m2[i] == mem[i]);
        if has_extra_header(mem[i]) {
            assert(m2[i + 1] == mem[i + 1]);
        }
        assert(region_size(m2, i) == region_size(mem, i));
        lemma_reaches_depends_on_window(mem, m2, i + region_size(mem, i), j);
    }
}

/// Two buffers that agree from `i` to the end give every walk from `i` the
/// same verdict.
pub proof fn lemma_reaches_agree_from(mem: Seq<u64>, m2: Seq<u64>, i: int, j: int)
    requires
        m2.len() == mem.len(),
        0 <= i <= mem.len(),
        forall|k: int| i <= k < mem.len() ==> mem[k] == m2[k],
    ensures
        reaches(mem, i, j) == reaches(m2, i, j),
    decreases mem.len() - i,
{
    if i < mem.len() {
        assert(m2[i] == mem[i]);
        if has_extra_header(mem[i]) {
            if i + 1 < mem.len() {
                assert(m2[i + 1] == mem[i + 1]);
                assert(region_size(m2, i) == region_size(mem, i));
            } else {
                // Both regions claim at least two words where only one is
                // left, so both walks stop here.
                assert(i + region_size(mem, i) > mem.len());
                assert(i + region_size(m2, i) > m2.len());
            }
        } else {
            assert(region_size(m2, i) == region_size(mem, i));
        }
        if i + region_size(mem, i) <= mem.len() {
            lemma_reaches_agree_from(mem, m2, i + region_size(mem, i), j);
        }
    }
}

/// The region sizes met by a complete walk sum to exactly the distance to
/// the end of the buffer: nothing is lost and nothing is counted twice.
pub proof fn lemma_sum_of_region_sizes(mem: Seq<u64>, i: int)
    requires
        0 <= i <= mem.len(),
        reaches(mem, i, mem.len() as int),
    ensures
        sum_of_region_sizes_from(mem, i) == mem.len() - i,
    decreases mem.len() - i,
{
    if i != mem.len() {
        lemma_sum_of_region_sizes(mem, i + region_size(mem, i));
    }
}

/// Under the partition invariant the region sizes, headers included, sum
/// to exactly the buffer's capacity: carving, merging and reclaiming move
/// words between regions but never lose or duplicate one.
pub proof fn lemma_partition_sums_to_capacity(mem: Seq<u64>)
    requires
        wf(mem),
    ensures
        sum_of_region_sizes_from(mem, 0) == mem.len(),
{
    lemma_sum_of_region_sizes(mem, 0);
}

/// Where a free run ends, no further free region fits: the end of the
/// buffer, or a region that is not free, or one that overruns.
pub proof fn lemma_free_run_end_stops(mem: Seq<u64>, j: int)
    requires
        0 <= j <= mem.len(),
    ensures
        j <= free_run_end(mem, j) <= mem.len(),
        !(free_run_end(mem, j) < mem.len() && region_is_free(mem, free_run_end(mem, j))
            && free_run_end(mem, j) + region_size(mem, free_run_end(mem, j)) <= mem.len()),
    decreases mem.len() - j,
{
    if j < mem.len() && region_is_free(mem, j) && j + region_size(mem, j) <= mem.len() {
        lemma_free_run_end_stops(mem, j + region_size(mem, j));
    }
}

/// When every region of the partition is free, the free run from any
/// region start runs to the end of the buffer.
pub proof fn lemma_free_run_covers_all(mem: Seq<u64>, i: int)
    requires
        wf(mem),
        0 <= i <= mem.len(),
        reaches(mem, 0, i),
        forall|j: int| #[trigger] is_region_start(mem, j) ==> region_is_free(mem, j),
    ensures
        free_run_end(mem, i) == mem.len(),
    decreases mem.len() - i,
{
    if i < mem.len() {
        assert(is_region_start(mem, i));
        lemma_region_start_fits(mem, i);
        let i2 = i + region_size(mem, i);
        assert(reaches(mem, i2, i2));
        assert(reaches(mem, i, i2));
        lemma_reaches_trans(mem, 0, i, i2);
        lemma_free_run_covers_all(mem, i2);
    }
}

/// Setting the mark bit of one unmarked region lowers the number of
/// unmarked regions by exactly one, as long as region boundaries and all
/// other regions' marks are kept.
pub proof fn lemma_unmarked_count_after_mark(mem: Seq<u64>, m2: Seq<u64>, r: int, i: int)
    requires
        wf(mem),
        m2.len() == mem.len(),
        is_region_start(mem, r),
        forall|j: int| #[trigger] is_region_start(m2, j) == is_region_start(mem, j),
        forall|j: int|
            #[trigger] is_region_start(mem, j) ==> region_size(m2, j) == region_size(mem, j),
        forall|j: int|
            #[trigger] is_region_start(mem, j) && j != r ==> region_is_marked(m2, j)
                == region_is_marked(mem, j),
        !region_is_marked(mem, r),
        region_is_marked(m2, r),
        0 <= i <= mem.len(),
        reaches(mem, 0, i),
    ensures
        unmarked_region_count(m2, i) as int == unmarked_region_count(mem, i) as int - (if reaches(
            mem,
            i,
            r,
        ) {
            1int
        } else {
            0int
        }),
    decreases mem.len() - i,
{
    if i < mem.len() {
        assert(is_region_start(mem, i));
        lemma_region_start_fits(mem, i);
        let i2 = i + region_size(mem, i);
        assert(region_size(m2, i) == region_size(mem, i));
        assert(reaches(mem, i2, i2));
        assert(reaches(mem, i, i2));
        lemma_reaches_trans(mem, 0, i, i2);
        lemma_unmarked_count_after_mark(mem, m2, r, i2);
        if i == r {
            assert(reaches(mem, i, r));
            if reaches(mem, i2, r) {
                lemma_reaches_at_least(mem, i2, r);
                assert(false);
            }
        } else {
            assert(region_is_marked(m2, i) == region_is_marked(mem, i));
            assert(reaches(mem, i, r) == reaches(mem, i2, r));
        }
    } else {
        assert(!reaches(mem, i, r));
    }
}

/// A buffer that is all zero words from `i` on walks to the end: a zero
/// word is a one-word region with no slots.
pub proof fn lemma_zero_suffix_reaches_end(mem: Seq<u64>, i: int)
    requires
        0 <= i <= mem.len(),
        forall|k: int| i <= k < mem.len() ==> mem[k] == 0,
    ensures
        reaches(mem, i, mem.len() as int),
    decreases mem.len() - i,
{
    if i < mem.len() {
        assert(mem[i] == 0);
        assert(slots_field(0) == 0 && (0u64 & 0xFFFFFC0000000000) >> 42 == 0 && (0u64 & 0x1FF)
            >> 8 == 0) by (bit_vector);
        assert(region_size(mem, i) == 1);
        lemma_zero_suffix_reaches_end(mem, i + 1);
    }
}

} // verus!
