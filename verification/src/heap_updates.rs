//! Frame rules: how single-word writes and whole-window rewrites affect the
//! region walk of `heap_layout`.
//!
//! A write is harmless to the walk when every region the walk meets still
//! reads the same size afterwards: either the written position is no header
//! word of a met region, or it is a region's first header word rewritten
//! with the slot-count field kept. Carving and merging rewrite a window of
//! whole regions; the walk outside the window is untouched.

use vstd::prelude::*;

use crate::header::{has_extra_header, header_words, slots_field};
use crate::heap_layout::{
    is_region_start, lemma_reaches_at_least, lemma_reaches_between, lemma_reaches_depends_on_window,
    lemma_reaches_trans, lemma_region_start_fits, lemma_region_starts_disjoint, reaches,
    region_size, region_slot_count, wf,
};

verus! {

/// A single write that no met region reads a different size from keeps
/// every walk verdict and every met region's size.
proof fn lemma_reaches_update_harmless(mem: Seq<u64>, pos: int, v: u64, i: int, j: int)
    requires
        0 <= i <= mem.len(),
        0 <= pos < mem.len(),
        forall|t: int|
            (#[trigger] reaches(mem, i, t) && t < mem.len()) ==> ((pos == t ==> slots_field(v)
                == slots_field(mem[t])) && (has_extra_header(mem[t]) ==> pos != t + 1)),
    ensures
        reaches(mem.update(pos, v), i, j) == reaches(mem, i, j),
        forall|t: int|
            (#[trigger] reaches(mem, i, t) && t < mem.len() && t + region_size(mem, t)
                <= mem.len()) ==> region_size(mem.update(pos, v), t) == region_size(mem, t),
    decreases mem.len() - i,
{
    let m2 = mem.update(pos, v);
    if i < mem.len() {
        assert(reaches(mem, i, i));
        // The reads of the region at i are unchanged, or changed only in
        // fields its size does not depend on.
        if pos == i {
            assert(slots_field(m2[i]) == slots_field(mem[i]));
        } else {
            assert(m2[i] == mem[i]);
        }
        assert(has_extra_header(m2[i]) == has_extra_header(mem[i]));
        if i + region_size(mem, i) <= mem.len() {
            if has_extra_header(mem[i]) {
                assert(pos != i + 1);
                assert(i + 1 < mem.len());
                assert(m2[i + 1] == mem[i + 1]);
            }
            assert(region_size(m2, i) == region_size(mem, i));
            let i2 = i + region_size(mem, i);
            assert forall|t: int| #[trigger] reaches(mem, i2, t) && t < mem.len() implies ((pos == t
                ==> slots_field(v) == slots_field(mem[t])) && (has_extra_header(mem[t]) ==> pos != t
                + 1)) by {
                assert(reaches(mem, i, t));
            }
            lemma_reaches_update_harmless(mem, pos, v, i2, j);
            assert forall|t: int|
                (#[trigger] reaches(mem, i, t) && t < mem.len() && t + region_size(mem, t)
                    <= mem.len()) implies region_size(m2, t) == region_size(mem, t) by {
                if t != i {
                    assert(reaches(mem, i2, t));
                }
            }
        } else {
            // The region at i overruns the buffer in both heaps: each walk
            // stops here with the same verdict.
            if has_extra_header(mem[i]) {
                if i + 1 < mem.len() {
                    assert(pos != i + 1);
                    assert(m2[i + 1] == mem[i + 1]);
                    assert(region_size(m2, i) == region_size(mem, i));
                } else {
                    assert(i + region_size(m2, i) > mem.len());
                }
            } else {
                assert(region_size(m2, i) == region_size(mem, i));
            }
            assert(!reaches(mem, i, j) == !(i == j));
            assert(reaches(m2, i, j) == (i == j));
        }
    }
}

/// Writing a payload slot of one region leaves the partition, every region
/// boundary and every header word as it was.
pub proof fn lemma_slot_write(mem: Seq<u64>, r: int, pos: int, v: u64)
    requires
        wf(mem),
        is_region_start(mem, r),
        r + header_words(mem[r]) <= pos < r + region_size(mem, r),
    ensures
        wf(mem.update(pos, v)),
        forall|j: int|
            #[trigger] reaches(mem.update(pos, v), 0, j) == #[trigger] reaches(mem, 0, j),
        forall|j: int| #[trigger] is_region_start(mem.update(pos, v), j) == is_region_start(mem, j),
        forall|j: int|
            #[trigger] is_region_start(mem, j) ==> region_size(mem.update(pos, v), j)
                == region_size(mem, j) && mem.update(pos, v)[j] == mem[j] && region_slot_count(
                mem.update(pos, v),
                j,
            ) == region_slot_count(mem, j),
    {
    let m2 = mem.update(pos, v);
    lemma_region_start_fits(mem, r);
    assert forall|t: int| #[trigger] reaches(mem, 0, t) && t < mem.len() implies ((pos == t
        ==> slots_field(v) == slots_field(mem[t])) && (has_extra_header(mem[t]) ==> pos != t
        + 1)) by {
        // t is a region start; pos lies strictly inside the payload of the
        // region at r, so it is neither t nor the overflow word of t.
        lemma_reaches_at_least(mem, 0, t);
        if t < r {
            lemma_region_starts_disjoint(mem, t, r);
        } else if t > r {
            lemma_region_starts_disjoint(mem, r, t);
        }
        if has_extra_header(mem[t]) && pos == t + 1 {
            lemma_region_start_fits(mem, t);
            assert(region_size(mem, t) >= 2);
            assert(false);
        }
    }
    lemma_reaches_update_harmless(mem, pos, v, 0, mem.len() as int);
    assert forall|j: int| #[trigger] reaches(m2, 0, j) == #[trigger] reaches(mem, 0, j) by {
        lemma_reaches_update_harmless(mem, pos, v, 0, j);
    }
    assert forall|j: int| #[trigger] is_region_start(mem, j) implies region_size(m2, j)
        == region_size(mem, j) && m2[j] == mem[j] && region_slot_count(m2, j) == region_slot_count(
        mem,
        j,
    ) by {
        lemma_region_start_fits(mem, j);
        if j < r {
            lemma_region_starts_disjoint(mem, j, r);
        } else if j > r {
            lemma_region_starts_disjoint(mem, r, j);
        }
        assert(m2[j] == mem[j]);
        if has_extra_header(mem[j]) {
            assert(m2[j + 1] == mem[j + 1]);
        }
    }
}

/// Rewriting a region's first header word without touching the slot-count
/// field keeps the partition and every region boundary; only that one word
/// changes.
pub proof fn lemma_header_rewrite(mem: Seq<u64>, r: int, v: u64)
    requires
        wf(mem),
        is_region_start(mem, r),
        slots_field(v) == slots_field(mem[r]),
    ensures
        wf(mem.update(r, v)),
        forall|j: int|
            #[trigger] reaches(mem.update(r, v), 0, j) == #[trigger] reaches(mem, 0, j),
        forall|j: int| #[trigger] is_region_start(mem.update(r, v), j) == is_region_start(mem, j),
        forall|j: int|
            #[trigger] is_region_start(mem, j) ==> region_size(mem.update(r, v), j)
                == region_size(mem, j) && region_slot_count(mem.update(r, v), j)
                == region_slot_count(mem, j),
        forall|j: int|
            #[trigger] is_region_start(mem, j) && j != r ==> mem.update(r, v)[j] == mem[j],
    {
    let m2 = mem.update(r, v);
    lemma_region_start_fits(mem, r);
    assert forall|t: int| #[trigger] reaches(mem, 0, t) && t < mem.len() implies ((r == t
        ==> slots_field(v) == slots_field(mem[t])) && (has_extra_header(mem[t]) ==> r != t
        + 1)) by {
        lemma_reaches_at_least(mem, 0, t);
        if t != r {
            if t < r {
                lemma_region_starts_disjoint(mem, t, r);
            } else {
                lemma_region_starts_disjoint(mem, r, t);
            }
            if has_extra_header(mem[t]) && r == t + 1 {
                lemma_region_start_fits(mem, t);
                assert(region_size(mem, t) >= 2);
                assert(false);
            }
        }
    }
    lemma_reaches_update_harmless(mem, r, v, 0, mem.len() as int);
    assert forall|j: int| #[trigger] reaches(m2, 0, j) == #[trigger] reaches(mem, 0, j) by {
        lemma_reaches_update_harmless(mem, r, v, 0, j);
    }
    assert forall|j: int| #[trigger] is_region_start(mem, j) implies region_size(m2, j)
        == region_size(mem, j) && region_slot_count(m2, j) == region_slot_count(mem, j) by {
        lemma_region_start_fits(mem, j);
        if j != r {
            if j < r {
                lemma_region_starts_disjoint(mem, j, r);
            } else {
                lemma_region_starts_disjoint(mem, r, j);
            }
            assert(m2[j] == mem[j]);
        }
        if has_extra_header(mem[j]) {
            assert(m2[j + 1] == mem[j + 1]);
        }
    }
}

/// Rewriting a window of whole regions: outside the window every walk
/// verdict is kept, provided the new window again walks from its left edge
/// to its right edge.
pub proof fn lemma_replace_window(mem: Seq<u64>, m2: Seq<u64>, a: int, b: int)
    requires
        wf(mem),
        0 <= a <= b <= mem.len(),
        reaches(mem, 0, a),
        reaches(mem, a, b),
        m2.len() == mem.len(),
        forall|k: int| 0 <= k < mem.len() && !(a <= k < b) ==> m2[k] == mem[k],
        reaches(m2, a, b),
    ensures
        wf(m2),
        reaches(m2, 0, a),
        forall|j: int| j <= a ==> (#[trigger] reaches(m2, 0, j) == reaches(mem, 0, j)),
        forall|j: int| j >= b ==> (#[trigger] reaches(m2, 0, j) == reaches(mem, 0, j)),
        forall|j: int| j >= b ==> (#[trigger] reaches(m2, b, j) == reaches(mem, b, j)),
    {
    // The walk up to a reads only words below a, which are unchanged.
    lemma_reaches_depends_on_window(mem, m2, 0, a);
    // The walk beyond b reads only words from b on, which are unchanged.
    assert forall|j: int| j >= b implies (#[trigger] reaches(m2, b, j) == reaches(mem, b, j)) by {
        crate::heap_layout::lemma_reaches_agree_from(mem, m2, b, j);
    }
    lemma_reaches_between(mem, 0, a, mem.len() as int);
    lemma_reaches_between(mem, a, b, mem.len() as int);
    crate::heap_layout::lemma_reaches_agree_from(mem, m2, b, mem.len() as int);
    lemma_reaches_trans(m2, a, b, mem.len() as int);
    lemma_reaches_trans(m2, 0, a, mem.len() as int);
    assert(wf(m2));
    assert forall|j: int| j <= a implies (#[trigger] reaches(m2, 0, j) == reaches(mem, 0, j)) by {
        if reaches(mem, 0, j) {
            lemma_reaches_depends_on_window(mem, m2, 0, j);
        }
        if reaches(m2, 0, j) {
            lemma_reaches_at_least(m2, 0, j);
            if j < a {
                lemma_reaches_depends_on_window(m2, mem, 0, j);
            }
        }
    }
    assert forall|j: int| j >= b implies (#[trigger] reaches(m2, 0, j) == reaches(mem, 0, j)) by {
        lemma_reaches_trans(mem, 0, a, b);
        lemma_reaches_trans(m2, 0, a, b);
        if reaches(mem, 0, j) {
            lemma_reaches_between(mem, 0, b, j);
            lemma_reaches_trans(m2, 0, b, j);
        }
        if reaches(m2, 0, j) {
            lemma_reaches_between(m2, 0, b, j);
            lemma_reaches_trans(mem, 0, b, j);
        }
    }
}

/// Rewriting one region in place, any words of it, as long as its size
/// comes out unchanged: the partition and every region boundary stay, and
/// no other region's words change.
pub proof fn lemma_rewrite_region(mem: Seq<u64>, m2: Seq<u64>, r: int)
    requires
        wf(mem),
        is_region_start(mem, r),
        m2.len() == mem.len(),
        forall|k: int|
            0 <= k < mem.len() && !(r <= k < r + region_size(mem, r)) ==> m2[k] == mem[k],
        region_size(m2, r) == region_size(mem, r),
    ensures
        wf(m2),
        is_region_start(m2, r),
        forall|j: int| #[trigger] is_region_start(m2, j) == is_region_start(mem, j),
        forall|j: int|
            #[trigger] is_region_start(mem, j) && j != r ==> m2[j] == mem[j] && region_size(m2, j)
                == region_size(mem, j) && region_slot_count(m2, j) == region_slot_count(mem, j),
    {
    let s = region_size(mem, r);
    let b = r + s;
    lemma_region_start_fits(mem, r);
    assert(reaches(mem, b, b));
    assert(reaches(mem, r, b));
    assert(reaches(m2, b, b));
    assert(reaches(m2, r, b));
    lemma_replace_window(mem, m2, r, b);
    assert forall|j: int| #[trigger] is_region_start(m2, j) == is_region_start(mem, j) by {
        if r < j < b {
            if is_region_start(mem, j) {
                lemma_region_starts_disjoint(mem, r, j);
            }
            if is_region_start(m2, j) {
                lemma_reaches_between(m2, 0, r, j);
                assert(reaches(m2, r, j));
                assert(reaches(m2, b, j));
                lemma_reaches_at_least(m2, b, j);
                assert(false);
            }
        }
    }
    assert forall|j: int| #[trigger] is_region_start(mem, j) && j != r implies m2[j] == mem[j]
        && region_size(m2, j) == region_size(mem, j) && region_slot_count(m2, j)
        == region_slot_count(mem, j) by {
        lemma_region_start_fits(mem, j);
        if j < r {
            lemma_region_starts_disjoint(mem, j, r);
        } else {
            lemma_region_starts_disjoint(mem, r, j);
        }
        assert(m2[j] == mem[j]);
        if has_extra_header(mem[j]) {
            assert(m2[j + 1] == mem[j + 1]);
        }
    }
}

/// Carving a region in two: after writing a header of size `n` at `r` and a
/// header of the leftover size at `r + n`, the partition holds again with
/// exactly one new region boundary at `r + n`; no other region moves.
pub proof fn lemma_carve_region(mem: Seq<u64>, m2: Seq<u64>, r: int, n: int)
    requires
        wf(mem),
        is_region_start(mem, r),
        1 <= n < region_size(mem, r),
        m2.len() == mem.len(),
        forall|k: int|
            0 <= k < mem.len() && !(r <= k < r + region_size(mem, r)) ==> m2[k] == mem[k],
        region_size(m2, r) == n,
        region_size(m2, r + n) == region_size(mem, r) - n,
    ensures
        wf(m2),
        is_region_start(m2, r),
        is_region_start(m2, r + n),
        forall|j: int|
            #[trigger] is_region_start(m2, j) == (is_region_start(mem, j) || j == r + n),
        forall|j: int|
            #[trigger] is_region_start(mem, j) && j != r ==> m2[j] == mem[j] && region_size(m2, j)
                == region_size(mem, j) && region_slot_count(m2, j) == region_slot_count(mem, j),
    {
    let s = region_size(mem, r);
    let b = r + s;
    lemma_region_start_fits(mem, r);
    assert(reaches(mem, b, b));
    assert(reaches(mem, r, b));
    assert(reaches(m2, b, b));
    assert(reaches(m2, r + n, b));
    assert(reaches(m2, r, b));
    lemma_replace_window(mem, m2, r, b);
    assert(is_region_start(m2, r));
    assert(reaches(m2, r + n, r + n));
    assert(reaches(m2, r, r + n));
    lemma_reaches_trans(m2, 0, r, r + n);
    assert(is_region_start(m2, r + n));
    assert forall|j: int|
        #[trigger] is_region_start(m2, j) == (is_region_start(mem, j) || j == r + n) by {
        if r < j < b {
            if is_region_start(mem, j) {
                lemma_region_starts_disjoint(mem, r, j);
            }
            if j != r + n && is_region_start(m2, j) {
                lemma_reaches_between(m2, 0, r, j);
                assert(reaches(m2, r, j));
                assert(reaches(m2, r + n, j));
                assert(reaches(m2, b, j));
                lemma_reaches_at_least(m2, b, j);
                assert(false);
            }
        }
    }
    assert forall|j: int| #[trigger] is_region_start(mem, j) && j != r implies m2[j] == mem[j]
        && region_size(m2, j) == region_size(mem, j) && region_slot_count(m2, j)
        == region_slot_count(mem, j) by {
        lemma_region_start_fits(mem, j);
        if j < r {
            lemma_region_starts_disjoint(mem, j, r);
        } else {
            lemma_region_starts_disjoint(mem, r, j);
        }
        assert(m2[j] == mem[j]);
        if has_extra_header(mem[j]) {
            assert(m2[j + 1] == mem[j + 1]);
        }
    }
}

/// Merging a region with its right neighbour: after writing at `r` a header
/// spanning both, the boundary between them disappears and no other region
/// moves.
pub proof fn lemma_merge_regions(mem: Seq<u64>, m2: Seq<u64>, r: int)
    requires
        wf(mem),
        is_region_start(mem, r),
        r + region_size(mem, r) < mem.len(),
        m2.len() == mem.len(),
        forall|k: int|
            0 <= k < mem.len() && !(r <= k < r + region_size(mem, r) + region_size(
                mem,
                r + region_size(mem, r),
            )) ==> m2[k] == mem[k],
        region_size(m2, r) == region_size(mem, r) + region_size(mem, r + region_size(mem, r)),
    ensures
        wf(m2),
        is_region_start(m2, r),
        forall|j: int|
            #[trigger] is_region_start(m2, j) == (is_region_start(mem, j) && j != r
                + region_size(mem, r)),
        forall|j: int|
            #[trigger] is_region_start(mem, j) && j != r && j != r + region_size(mem, r) ==> m2[j]
                == mem[j] && region_size(m2, j) == region_size(mem, j) && region_slot_count(m2, j)
                == region_slot_count(mem, j),
    {
    let q = r + region_size(mem, r);
    lemma_region_start_fits(mem, r);
    assert(reaches(mem, q, q));
    assert(reaches(mem, r, q));
    lemma_reaches_trans(mem, 0, r, q);
    assert(is_region_start(mem, q));
    lemma_region_start_fits(mem, q);
    let b = q + region_size(mem, q);
    assert(reaches(mem, b, b));
    assert(reaches(mem, q, b));
    assert(reaches(mem, r, b));
    assert(reaches(m2, b, b));
    assert(reaches(m2, r, b));
    lemma_replace_window(mem, m2, r, b);
    assert(is_region_start(m2, r));
    assert forall|j: int|
        #[trigger] is_region_start(m2, j) == (is_region_start(mem, j) && j != q) by {
        if r < j < b {
            if is_region_start(mem, j) && j != q {
                if j < q {
                    lemma_region_starts_disjoint(mem, r, j);
                } else {
                    lemma_region_starts_disjoint(mem, q, j);
                }
                assert(false);
            }
            if is_region_start(m2, j) {
                lemma_reaches_between(m2, 0, r, j);
                assert(reaches(m2, r, j));
                assert(reaches(m2, b, j));
                lemma_reaches_at_least(m2, b, j);
                assert(false);
            }
        }
    }
    assert forall|j: int| #[trigger] is_region_start(mem, j) && j != r && j != q implies m2[j]
        == mem[j] && region_size(m2, j) == region_size(mem, j) && region_slot_count(m2, j)
        == region_slot_count(mem, j) by {
        lemma_region_start_fits(mem, j);
        if j < r {
            lemma_region_starts_disjoint(mem, j, r);
        } else if j < q {
            lemma_region_starts_disjoint(mem, r, j);
            assert(false);
        } else {
            lemma_region_starts_disjoint(mem, q, j);
        }
        assert(m2[j] == mem[j]);
        if has_extra_header(mem[j]) {
            assert(m2[j + 1] == mem[j + 1]);
        }
    }
}

} // verus!
