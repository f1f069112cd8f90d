//! The mark-sweep-coalesce collector. One collection cycle runs three
//! passes in a fixed order: mark walks the object graph from the root set
//! and sets the mark bit of every region it can reach; sweep turns every
//! unmarked region into a free region and clears the marks of the
//! survivors; merge coalesces neighbouring free regions into one. No pass
//! ever moves a live object: surviving addresses are stable.

use vstd::prelude::*;

use crate::header::{mark_field, same_fields_except_class, same_fields_except_mark};
use crate::heap_layout::{
    all_pointers_valid, free_run_end, is_region_start, lemma_reaches_at_least,
    lemma_reaches_between, lemma_region_start_fits, lemma_region_starts_disjoint,
    lemma_unmarked_count_after_mark, reaches, region_is_free, region_is_marked, region_size,
    region_slot_count, region_slot_value, unmarked_region_count, wf,
};
use crate::heap_updates::lemma_header_rewrite;
use crate::memory_space::MemorySpace;
use crate::oop_common::{OopCommonState, OopNavigation};
use crate::oop_slice::OopSlice;
use crate::slot_content::SlotContent;

verus! {

/// The object graph has an edge from the region at `a` to the index `b`:
/// some slot of `a` holds `b`.
pub open spec fn slot_path_step(mem: Seq<u64>, a: int, b: int) -> bool {
    &&& is_region_start(mem, a)
    &&& (exists|k: int|
        1 <= k <= region_slot_count(mem, a) && b == (#[trigger] region_slot_value(
            mem,
            a,
            k,
        )) as int)
}

/// `path` is a walk through the object graph: it begins at one of the
/// roots, and each later entry is the value of some slot of the region the
/// previous entry names.
pub open spec fn is_slot_path(mem: Seq<u64>, roots: Seq<usize>, path: Seq<int>) -> bool {
    &&& path.len() > 0
    &&& (exists|r: int| 0 <= r < roots.len() && path[0] == roots[r] as int)
    &&& (forall|i: int|
        #![trigger path[i]]
        0 < i < path.len() ==> slot_path_step(mem, path[i - 1], path[i]))
}

/// The index `t` can be reached from the root set by following slot words.
pub open spec fn reachable_from(mem: Seq<u64>, roots: Seq<usize>, t: int) -> bool {
    exists|path: Seq<int>| is_slot_path(mem, roots, path) && path.last() == t
}

/// A region of the original heap that comes through a collection intact:
/// still a region at the same index, not reclaimed, with its size, header
/// fields and payload words as they were, and its mark bit clear.
pub open spec fn region_survives(mem0: Seq<u64>, mem1: Seq<u64>, j: int) -> bool {
    &&& is_region_start(mem1, j)
    &&& !region_is_free(mem1, j)
    &&& region_size(mem1, j) == region_size(mem0, j)
    &&& region_slot_count(mem1, j) == region_slot_count(mem0, j)
    &&& same_fields_except_mark(mem0[j], mem1[j])
    &&& !region_is_marked(mem1, j)
    &&& forall|k: int|
        1 <= k <= region_slot_count(mem0, j) ==> #[trigger] region_slot_value(mem1, j, k)
            == region_slot_value(mem0, j, k)
}

/// One full collection cycle: mark from the roots, sweep, merge, in that
/// fixed order. Live objects never move. On a heap with no stray mark
/// bits: every root that is a live object survives untouched, and so,
/// transitively, does everything a surviving object's slots point to;
/// with no roots at all the whole heap collapses into one free region.
#[verifier::loop_isolation(false)]
pub fn collect_from_roots(roots: Vec<usize>, space: &mut MemorySpace)
    requires
        wf(old(space)@),
        old(space)@.len() >= 1,
        all_pointers_valid(old(space)@),
        forall|r: int|
            0 <= r < roots@.len() ==> is_region_start(old(space)@, #[trigger] roots@[r] as int),
    ensures
        wf(final(space)@),
        final(space)@.len() == old(space)@.len(),
        forall|j: int|
            #[trigger] is_region_start(final(space)@, j) ==> is_region_start(old(space)@, j),
        forall|j: int|
            #[trigger] is_region_start(final(space)@, j) ==> !region_is_marked(final(space)@, j),
        forall|j: int|
            #[trigger] is_region_start(final(space)@, j) && region_is_free(final(space)@, j) && j
                + region_size(final(space)@, j) < final(space)@.len() ==> !region_is_free(
                final(space)@,
                j + region_size(final(space)@, j),
            ),
        crate::heap_layout::all_regions_unmarked(old(space)@) ==> forall|r: int|
            0 <= r < roots@.len() && !region_is_free(old(space)@, #[trigger] roots@[r] as int)
                ==> region_survives(old(space)@, final(space)@, roots@[r] as int),
        crate::heap_layout::all_regions_unmarked(old(space)@) ==> forall|j: int, k: int|
            is_region_start(old(space)@, j) && region_survives(old(space)@, final(space)@, j) && 1
                <= k <= region_slot_count(old(space)@, j) && !region_is_free(
                old(space)@,
                #[trigger] region_slot_value(old(space)@, j, k) as int,
            ) ==> region_survives(
                old(space)@,
                final(space)@,
                region_slot_value(old(space)@, j, k) as int,
            ),
        crate::heap_layout::all_regions_unmarked(old(space)@) ==> forall|j: int|
            #[trigger] is_region_start(old(space)@, j) && !reachable_from(old(space)@, roots@, j)
                && is_region_start(final(space)@, j) ==> region_is_free(final(space)@, j),
        (crate::heap_layout::all_regions_unmarked(old(space)@) && roots@.len() == 0)
            ==> is_region_start(final(space)@, 0) && region_is_free(final(space)@, 0)
            && region_size(final(space)@, 0) == final(space)@.len(),
    {
    let ghost mem0 = old(space)@;
    mark_oops_from_roots(roots, space);
    let ghost m1 = space@;
    sweep_oops(space);
    let ghost m2 = space@;
    merge_free_oops(space);
    let ghost m3 = space@;
    proof {
        space.lemma_len_bound();
        // Any region the mark pass left marked and that was live to begin
        // with comes through sweep and merge untouched.
        assert forall|j: int|
            is_region_start(mem0, j) && #[trigger] region_is_marked(m1, j) && !region_is_free(
                mem0,
                j,
            ) implies region_survives(mem0, m3, j) by {
            assert(is_region_start(m1, j) && is_region_start(m2, j));
            assert(same_fields_except_mark(mem0[j], m1[j]));
            assert(same_fields_except_mark(m1[j], m2[j]));
            assert(!region_is_free(m2, j));
            assert(is_region_start(m3, j) && m3[j] == m2[j]);
            assert(!region_is_marked(m3, j));
            assert forall|k: int|
                1 <= k <= region_slot_count(mem0, j) implies #[trigger] region_slot_value(
                m3,
                j,
                k,
            ) == region_slot_value(mem0, j, k) by {
                let p = crate::heap_layout::region_slot_index(mem0, j, k);
                lemma_region_start_fits(mem0, j);
                assert(j < p < j + region_size(mem0, j));
                if is_region_start(mem0, p) {
                    lemma_region_starts_disjoint(mem0, j, p);
                    assert(false);
                }
                assert(m1[p] == mem0[p]);
                assert(m2[p] == m1[p]);
                if is_region_start(m2, p - 1) {
                    assert(is_region_start(mem0, p - 1));
                    if p - 1 != j {
                        lemma_region_starts_disjoint(mem0, j, p - 1);
                        assert(false);
                    }
                    assert(!region_is_free(m2, j));
                }
                assert(m3[p] == m2[p]);
                assert(crate::header::header_words(m3[j]) == crate::header::header_words(mem0[j]));
            }
        }
        if crate::heap_layout::all_regions_unmarked(mem0) {
            assert forall|r: int|
                0 <= r < roots@.len() && !region_is_free(mem0, #[trigger] roots@[r] as int)
                    implies region_survives(mem0, m3, roots@[r] as int) by {
                assert(region_is_marked(m1, roots@[r] as int));
            }
            assert forall|j: int, k: int|
                is_region_start(mem0, j) && region_survives(mem0, m3, j) && 1 <= k
                    <= region_slot_count(mem0, j) && !region_is_free(
                    mem0,
                    #[trigger] region_slot_value(mem0, j, k) as int,
                ) implies region_survives(mem0, m3, region_slot_value(mem0, j, k) as int) by {
                // A survivor must have been marked: otherwise sweep would
                // have freed it.
                assert(is_region_start(m3, j));
                assert(!region_is_free(m3, j));
                assert(region_is_free(m3, j) == region_is_free(m2, j));
                if !region_is_marked(m1, j) {
                    assert(region_is_free(m2, j));
                    assert(false);
                }
                assert(!region_is_marked(mem0, j));
                assert(region_is_marked(m1, region_slot_value(mem0, j, k) as int));
            }
            assert forall|j: int|
                #[trigger] is_region_start(mem0, j) && !reachable_from(mem0, roots@, j)
                    && is_region_start(m3, j) implies region_is_free(m3, j) by {
                if region_is_marked(m1, j) {
                    assert(region_is_marked(mem0, j) || reachable_from(mem0, roots@, j));
                    assert(false);
                }
                assert(region_is_free(m2, j));
            }
            if roots@.len() == 0 {
                assert(m1 == mem0);
                assert forall|j: int| #[trigger] is_region_start(m2, j) implies region_is_free(
                    m2,
                    j,
                ) by {
                    assert(is_region_start(mem0, j));
                    assert(!region_is_marked(mem0, j));
                }
                assert(is_region_start(m3, 0));
                assert(region_is_free(m3, 0) == region_is_free(m2, 0));
                assert(is_region_start(m2, 0));
                crate::heap_layout::lemma_free_run_covers_all(m2, 0);
                assert(region_size(m3, 0) == free_run_end(m2, 0) - 0);
            }
        }
    }
}

/// Marks every region the object graph reaches from the given roots: a
/// depth-first walk over an explicit worklist, never recursing, with the
/// mark bit doubling as the visited set — which is what makes the walk
/// terminate on cyclic graphs, since no region is expanded twice. Only
/// mark bits change; sizes, classes and payload words stay. Every root
/// ends up marked, and every slot target of a newly marked region is
/// marked too.
#[verifier::loop_isolation(false)]
#[verifier::rlimit(60)]
pub fn mark_oops_from_roots(roots: Vec<usize>, space: &mut MemorySpace)
    requires
        wf(old(space)@),
        old(space)@.len() >= 1,
        all_pointers_valid(old(space)@),
        forall|r: int|
            0 <= r < roots@.len() ==> is_region_start(old(space)@, #[trigger] roots@[r] as int),
    ensures
        wf(final(space)@),
        final(space)@.len() == old(space)@.len(),
        forall|j: int|
            #[trigger] is_region_start(final(space)@, j) == is_region_start(old(space)@, j),
        forall|j: int|
            #[trigger] is_region_start(old(space)@, j) ==> region_size(final(space)@, j)
                == region_size(old(space)@, j) && region_slot_count(final(space)@, j)
                == region_slot_count(old(space)@, j),
        forall|k: int|
            0 <= k < old(space)@.len() && !is_region_start(old(space)@, k) ==> final(space)@[k]
                == old(space)@[k],
        forall|j: int|
            #[trigger] is_region_start(old(space)@, j) ==> same_fields_except_mark(
                old(space)@[j],
                final(space)@[j],
            ),
        forall|j: int|
            #[trigger] is_region_start(old(space)@, j) && region_is_marked(old(space)@, j)
                ==> region_is_marked(final(space)@, j),
        forall|r: int|
            0 <= r < roots@.len() ==> region_is_marked(final(space)@, #[trigger] roots@[r] as int),
        forall|j: int, k: int|
            is_region_start(old(space)@, j) && region_is_marked(final(space)@, j)
                && !region_is_marked(old(space)@, j) && 1 <= k <= region_slot_count(old(space)@, j)
                ==> region_is_marked(
                final(space)@,
                #[trigger] region_slot_value(old(space)@, j, k) as int,
            ),
        forall|j: int|
            #[trigger] is_region_start(old(space)@, j) && region_is_marked(final(space)@, j)
                ==> region_is_marked(old(space)@, j) || reachable_from(old(space)@, roots@, j),
        roots@.len() == 0 ==> final(space)@ == old(space)@,
    {
    let ghost mem0 = old(space)@;
    let mut oop_to_mark: Vec<usize> = roots.clone();
    proof {
        assert(oop_to_mark@ =~= roots@);
        assert forall|i: int| 0 <= i < oop_to_mark@.len() implies reachable_from(
            mem0,
            roots@,
            #[trigger] oop_to_mark@[i] as int,
        ) by {
            let path = seq![oop_to_mark@[i] as int];
            assert(path[0] == roots@[i] as int);
            assert(is_slot_path(mem0, roots@, path));
            assert(path.last() == oop_to_mark@[i] as int);
        }
    }
    loop
        invariant
            wf(space@),
            space@.len() == mem0.len(),
            forall|j: int| #[trigger] is_region_start(space@, j) == is_region_start(mem0, j),
            forall|j: int|
                #[trigger] is_region_start(mem0, j) ==> region_size(space@, j) == region_size(
                    mem0,
                    j,
                ) && region_slot_count(space@, j) == region_slot_count(mem0, j),
            forall|k: int|
                0 <= k < mem0.len() && !is_region_start(mem0, k) ==> space@[k] == mem0[k],
            forall|j: int|
                #[trigger] is_region_start(mem0, j) ==> same_fields_except_mark(
                    mem0[j],
                    space@[j],
                ),
            forall|j: int|
                #[trigger] is_region_start(mem0, j) && region_is_marked(mem0, j)
                    ==> region_is_marked(space@, j),
            forall|i: int|
                0 <= i < oop_to_mark@.len() ==> is_region_start(
                    mem0,
                    #[trigger] oop_to_mark@[i] as int,
                ),
            forall|i: int|
                0 <= i < oop_to_mark@.len() ==> reachable_from(
                    mem0,
                    roots@,
                    #[trigger] oop_to_mark@[i] as int,
                ),
            forall|j: int|
                #[trigger] is_region_start(mem0, j) && region_is_marked(space@, j)
                    && !region_is_marked(mem0, j) ==> reachable_from(mem0, roots@, j),
            forall|r: int|
                0 <= r < roots@.len() ==> region_is_marked(space@, #[trigger] roots@[r] as int)
                    || oop_to_mark@.contains(roots@[r]),
            forall|j: int, k: int|
                is_region_start(mem0, j) && region_is_marked(space@, j) && !region_is_marked(
                    mem0,
                    j,
                ) && 1 <= k <= region_slot_count(mem0, j) ==> region_is_marked(
                    space@,
                    region_slot_value(mem0, j, k) as int,
                ) || oop_to_mark@.contains((#[trigger] region_slot_value(mem0, j, k)) as usize),
            roots@.len() == 0 ==> space@ == mem0 && oop_to_mark@.len() == 0,
        decreases unmarked_region_count(space@, 0), oop_to_mark@.len(),
    {
        let ghost wl_pre = oop_to_mark@;
        let popped = oop_to_mark.pop();
        match popped {
            None => {
                break ;
            },
            Some(an_oop_index) => {
                let ghost mem_pre = space@;
                let ghost idx = an_oop_index as int;
                proof {
                    assert(wl_pre[wl_pre.len() - 1] == an_oop_index);
                    assert(is_region_start(mem0, idx));
                    assert(is_region_start(space@, idx));
                }
                let mut an_oop: OopSlice = space.get_oop_at(an_oop_index);
                if an_oop.get_header().marked_bit() != 1 {
                    an_oop.get_header_mut().set_marked_bit();
                    an_oop.apply_header(space);
                    proof {
                        if crate::header::has_extra_header(an_oop.header_word()) {
                            assert(space@ =~= mem_pre.update(idx, an_oop.header_word()));
                        }
                        lemma_header_rewrite(mem_pre, idx, an_oop.header_word());
                        lemma_unmarked_count_after_mark(mem_pre, space@, idx, 0);
                        assert(unmarked_region_count(space@, 0) < unmarked_region_count(
                            mem_pre,
                            0,
                        ));
                        assert forall|j: int| #[trigger] is_region_start(mem0, j)
                            implies region_size(space@, j) == region_size(mem0, j)
                            && region_slot_count(space@, j) == region_slot_count(mem0, j)
                            && same_fields_except_mark(mem0[j], space@[j]) by {
                            assert(is_region_start(mem_pre, j));
                            if j != idx {
                                assert(space@[j] == mem_pre[j]);
                            }
                        }
                        assert forall|k: int|
                            0 <= k < mem0.len() && !is_region_start(mem0, k) implies space@[k]
                            == mem0[k] by {
                            assert(!is_region_start(mem_pre, k));
                            assert(space@[k] == mem_pre[k]);
                        }
                    }
                    let number_of_slots = an_oop.number_of_slots();
                    let ghost mem_marked = space@;
                    let ghost wl_popped = oop_to_mark@;
                    let mut index: usize = 1;
                    while index <= number_of_slots
                        invariant
                            space@ == mem_marked,
                            1 <= index,
                            index as int <= number_of_slots as int + 1,
                            oop_to_mark@.len() >= wl_popped.len(),
                            forall|v: usize| wl_popped.contains(v) ==> oop_to_mark@.contains(v),
                            forall|i: int|
                                0 <= i < oop_to_mark@.len() ==> is_region_start(
                                    mem0,
                                    #[trigger] oop_to_mark@[i] as int,
                                ),
                            forall|i: int|
                                0 <= i < oop_to_mark@.len() ==> reachable_from(
                                    mem0,
                                    roots@,
                                    #[trigger] oop_to_mark@[i] as int,
                                ),
                            forall|k: int|
                                1 <= k < index ==> region_is_marked(
                                    space@,
                                    region_slot_value(mem0, idx, k) as int,
                                ) || oop_to_mark@.contains(
                                    (#[trigger] region_slot_value(mem0, idx, k)) as usize,
                                ),
                        decreases number_of_slots + 1 - index,
                    {
                        let ghost wl_in = oop_to_mark@;
                        let slot_content = SlotContent::new(an_oop.slot_at_index(index, space));
                        proof {
                            // The slot word lies strictly inside the region
                            // at idx, so it is no region's header word and
                            // still holds its original value.
                            let p = crate::heap_layout::region_slot_index(mem0, idx, index as int);
                            lemma_region_start_fits(mem0, idx);
                            assert(idx < p < idx + region_size(mem0, idx));
                            if is_region_start(mem0, p) {
                                lemma_region_starts_disjoint(mem0, idx, p);
                                assert(false);
                            }
                            assert(space@[p] == mem0[p]);
                            assert(slot_content.content_word() == region_slot_value(
                                mem0,
                                idx,
                                index as int,
                            ));
                            assert(is_region_start(
                                mem0,
                                region_slot_value(mem0, idx, index as int) as int,
                            ));
                            space.lemma_len_bound();
                        }
                        if slot_content.is_slot_oop() {
                            oop_to_mark.push(slot_content.get_content() as usize);
                            proof {
                                assert forall|v: usize| wl_in.contains(v)
                                    implies oop_to_mark@.contains(v) by {
                                    let i = choose|i: int|
                                        0 <= i < wl_in.len() && wl_in[i] == v;
                                    assert(oop_to_mark@[i] == v);
                                }
                                assert(oop_to_mark@[oop_to_mark@.len() - 1] == (region_slot_value(
                                    mem0,
                                    idx,
                                    index as int,
                                )) as usize);
                                let t = region_slot_value(mem0, idx, index as int) as int;
                                let p = choose|p: Seq<int>|
                                    is_slot_path(mem0, roots@, p) && p.last() == idx;
                                let p2 = p.push(t);
                                assert forall|i: int|
                                    #![trigger p2[i]]
                                    0 < i < p2.len() implies slot_path_step(
                                    mem0,
                                    p2[i - 1],
                                    p2[i],
                                ) by {
                                    if i < p.len() {
                                        assert(p2[i - 1] == p[i - 1] && p2[i] == p[i]);
                                        assert(slot_path_step(mem0, p[i - 1], p[i]));
                                    } else {
                                        assert(p2[i - 1] == p.last() && p2[i] == t);
                                        assert(1 <= index as int <= region_slot_count(mem0, idx)
                                            && t == (region_slot_value(
                                            mem0,
                                            idx,
                                            index as int,
                                        )) as int);
                                        assert(slot_path_step(mem0, idx, t));
                                    }
                                }
                                assert(is_slot_path(mem0, roots@, p2));
                                assert(p2.last() == t);
                                assert(reachable_from(mem0, roots@, t));
                            }
                        }
                        index = index + 1;
                    }
                    proof {
                        space.lemma_len_bound();
                        assert(reachable_from(mem0, roots@, idx));
                        assert forall|j: int|
                            #[trigger] is_region_start(mem0, j) && region_is_marked(space@, j)
                                && !region_is_marked(mem0, j) implies reachable_from(
                            mem0,
                            roots@,
                            j,
                        ) by {
                            if j != idx {
                                assert(is_region_start(mem_pre, j));
                                assert(space@[j] == mem_pre[j]);
                            }
                        }
                        assert forall|v: usize| wl_pre.contains(v) && v != an_oop_index
                            implies oop_to_mark@.contains(v) by {
                            let i = choose|i: int| 0 <= i < wl_pre.len() && wl_pre[i] == v;
                            assert(i < wl_pre.len() - 1);
                            assert(wl_popped[i] == v);
                            assert(wl_popped.contains(v));
                        }
                        assert forall|j: int| #[trigger] is_region_start(mem0, j) && j != idx
                            implies region_is_marked(space@, j) == region_is_marked(
                            mem_pre,
                            j,
                        ) by {
                            assert(is_region_start(mem_pre, j));
                            assert(space@[j] == mem_pre[j]);
                        }
                        assert forall|r: int|
                            0 <= r < roots@.len() implies region_is_marked(
                            space@,
                            #[trigger] roots@[r] as int,
                        ) || oop_to_mark@.contains(roots@[r]) by {
                            let v = roots@[r];
                            if !region_is_marked(space@, v as int) {
                                assert(v as int != idx);
                                assert(!region_is_marked(mem_pre, v as int));
                                assert(wl_pre.contains(v));
                                assert(v != an_oop_index);
                            }
                        }
                        assert forall|j: int, k: int|
                            is_region_start(mem0, j) && region_is_marked(space@, j)
                                && !region_is_marked(mem0, j) && 1 <= k <= region_slot_count(
                                mem0,
                                j,
                            ) implies region_is_marked(
                            space@,
                            region_slot_value(mem0, j, k) as int,
                        ) || oop_to_mark@.contains(
                            (#[trigger] region_slot_value(mem0, j, k)) as usize,
                        ) by {
                            let t = region_slot_value(mem0, j, k);
                            if j == idx {
                                assert(region_slot_count(mem0, idx) == number_of_slots);
                            } else {
                                assert(region_is_marked(mem_pre, j));
                                if !region_is_marked(space@, t as int) {
                                    assert(t as int != idx);
                                    assert(wl_pre.contains(t as usize));
                                    assert(t as usize != an_oop_index);
                                }
                            }
                        }
                    }
                } else {
                    proof {
                        assert forall|r: int|
                            0 <= r < roots@.len() implies region_is_marked(
                            space@,
                            #[trigger] roots@[r] as int,
                        ) || oop_to_mark@.contains(roots@[r]) by {
                            let v = roots@[r];
                            if !region_is_marked(space@, v as int) && wl_pre.contains(v) {
                                let i = choose|i: int| 0 <= i < wl_pre.len() && wl_pre[i] == v;
                                assert(v != an_oop_index);
                                assert(i < wl_pre.len() - 1);
                                assert(oop_to_mark@[i] == v);
                            }
                        }
                        assert forall|j: int, k: int|
                            is_region_start(mem0, j) && region_is_marked(space@, j)
                                && !region_is_marked(mem0, j) && 1 <= k <= region_slot_count(
                                mem0,
                                j,
                            ) implies region_is_marked(
                            space@,
                            region_slot_value(mem0, j, k) as int,
                        ) || oop_to_mark@.contains(
                            (#[trigger] region_slot_value(mem0, j, k)) as usize,
                        ) by {
                            let t = region_slot_value(mem0, j, k);
                            assert(is_region_start(mem0, t as int));
                            space.lemma_len_bound();
                            let v = t as usize;
                            assert(v as int == t as int);
                            if !region_is_marked(space@, t as int) {
                                assert(wl_pre.contains(v));
                                assert(v != an_oop_index);
                                let i = choose|i: int| 0 <= i < wl_pre.len() && wl_pre[i] == v;
                                assert(i < wl_pre.len() - 1);
                                assert(oop_to_mark@[i] == v);
                            }
                        }
                    }
                }
            },
        }
    }
}

/// Sweeps the whole space: every region whose mark bit is set survives
/// with the bit cleared; every other region becomes free. Region
/// boundaries and payload words are untouched, so afterwards the regions
/// are the same, none is marked, and a region is free exactly when it was
/// free before or went into the sweep unmarked.
#[verifier::loop_isolation(false)]
pub fn sweep_oops(space: &mut MemorySpace)
    requires
        wf(old(space)@),
        old(space)@.len() >= 1,
    ensures
        wf(final(space)@),
        final(space)@.len() == old(space)@.len(),
        forall|j: int|
            #[trigger] is_region_start(final(space)@, j) == is_region_start(old(space)@, j),
        forall|j: int|
            #[trigger] is_region_start(old(space)@, j) ==> region_size(final(space)@, j)
                == region_size(old(space)@, j) && region_slot_count(final(space)@, j)
                == region_slot_count(old(space)@, j),
        forall|k: int|
            0 <= k < old(space)@.len() && !is_region_start(old(space)@, k) ==> final(space)@[k]
                == old(space)@[k],
        forall|j: int|
            #[trigger] is_region_start(old(space)@, j) && region_is_marked(old(space)@, j)
                ==> same_fields_except_mark(old(space)@[j], final(space)@[j]),
        forall|j: int|
            #[trigger] is_region_start(old(space)@, j) && !region_is_marked(old(space)@, j)
                ==> same_fields_except_class(old(space)@[j], final(space)@[j]) && region_is_free(
                final(space)@,
                j,
            ),
        forall|j: int| #[trigger] is_region_start(old(space)@, j) ==> !region_is_marked(
            final(space)@,
            j,
        ),
    {
    let ghost mem0 = old(space)@;
    let mut iter = space.iter();
    loop
        invariant
            wf(space@),
            space@.len() == mem0.len(),
            reaches(space@, 0, iter.current()),
            iter.current() <= space@.len(),
            forall|j: int| #[trigger] is_region_start(space@, j) == is_region_start(mem0, j),
            forall|j: int|
                #[trigger] is_region_start(mem0, j) ==> region_size(space@, j) == region_size(
                    mem0,
                    j,
                ) && region_slot_count(space@, j) == region_slot_count(mem0, j),
            forall|k: int|
                0 <= k < mem0.len() && !is_region_start(mem0, k) ==> space@[k] == mem0[k],
            forall|j: int|
                #[trigger] is_region_start(mem0, j) && j >= iter.current() ==> space@[j] == mem0[j],
            forall|j: int|
                #[trigger] is_region_start(mem0, j) && j < iter.current() && region_is_marked(
                    mem0,
                    j,
                ) ==> same_fields_except_mark(mem0[j], space@[j]),
            forall|j: int|
                #[trigger] is_region_start(mem0, j) && j < iter.current() && !region_is_marked(
                    mem0,
                    j,
                ) ==> same_fields_except_class(mem0[j], space@[j]) && region_is_free(space@, j),
            forall|j: int|
                #[trigger] is_region_start(mem0, j) && j < iter.current() ==> !region_is_marked(
                    space@,
                    j,
                ),
        decreases space@.len() - iter.current(),
    {
        let ghost mem_pre = space@;
        let ghost at = iter.current();
        let r = iter.next_headers(space);
        match r {
            None => {
                break ;
            },
            Some(mut current_oop) => {
                if current_oop.get_header().marked_bit() == 1 {
                    current_oop.get_header_mut().unset_marked_bit();
                    current_oop.apply_header(space);
                    proof {
                        if crate::header::has_extra_header(current_oop.header_word()) {
                            assert(space@ =~= mem_pre.update(at, current_oop.header_word()));
                        }
                        lemma_header_rewrite(mem_pre, at, current_oop.header_word());
                    }
                } else {
                    current_oop.become_free_oop(space);
                }
                proof {
                    assert forall|j: int| #[trigger] is_region_start(mem0, j) implies region_size(
                        space@,
                        j,
                    ) == region_size(mem0, j) && region_slot_count(space@, j) == region_slot_count(
                        mem0,
                        j,
                    ) by {
                        assert(is_region_start(mem_pre, j));
                    }
                    assert forall|k: int|
                        0 <= k < mem0.len() && !is_region_start(mem0, k) implies space@[k]
                        == mem0[k] by {
                        assert(!is_region_start(mem_pre, k));
                        assert(space@[k] == mem_pre[k]);
                    }
                    assert forall|j: int|
                        #[trigger] is_region_start(mem0, j) && j >= iter.current()
                            implies space@[j] == mem0[j] by {
                        assert(is_region_start(mem_pre, j));
                        assert(j != at);
                        assert(space@[j] == mem_pre[j]);
                    }
                    assert forall|j: int|
                        #[trigger] is_region_start(mem0, j) && j < iter.current()
                            && region_is_marked(mem0, j) implies same_fields_except_mark(
                        mem0[j],
                        space@[j],
                    ) by {
                        assert(is_region_start(mem_pre, j));
                        if j > at {
                            lemma_region_starts_disjoint(mem_pre, at, j);
                            assert(false);
                        } else if j != at {
                            assert(space@[j] == mem_pre[j]);
                        } else {
                            assert(mem_pre[at] == mem0[at]);
                        }
                    }
                    assert forall|j: int|
                        #[trigger] is_region_start(mem0, j) && j < iter.current()
                            && !region_is_marked(mem0, j) implies same_fields_except_class(
                        mem0[j],
                        space@[j],
                    ) && region_is_free(space@, j) by {
                        assert(is_region_start(mem_pre, j));
                        if j > at {
                            lemma_region_starts_disjoint(mem_pre, at, j);
                            assert(false);
                        } else if j != at {
                            assert(space@[j] == mem_pre[j]);
                        } else {
                            assert(mem_pre[at] == mem0[at]);
                        }
                    }
                    if iter.current() < space@.len() {
                        assert(is_region_start(mem_pre, iter.current()));
                        assert(is_region_start(space@, iter.current()));
                    } else {
                        assert(reaches(space@, 0, iter.current()));
                    }
                    assert forall|j: int|
                        #[trigger] is_region_start(mem0, j) && j < iter.current()
                            implies !region_is_marked(space@, j) by {
                        assert(is_region_start(mem_pre, j));
                        if j > at {
                            lemma_region_starts_disjoint(mem_pre, at, j);
                            assert(false);
                        } else if j != at {
                            assert(space@[j] == mem_pre[j]);
                        } else {
                            assert(mem_pre[at] == mem0[at]);
                        }
                    }
                }
            },
        }
    }
}

/// One left-to-right pass coalescing neighbouring free regions. Afterwards
/// every free region spans exactly the maximal run of free regions that
/// began at its index, so no two free regions are neighbours any more.
/// Regions that were not free keep their place, header and payload.
#[verifier::loop_isolation(false)]
pub fn merge_free_oops(space: &mut MemorySpace)
    requires
        wf(old(space)@),
        old(space)@.len() >= 1,
    ensures
        wf(final(space)@),
        final(space)@.len() == old(space)@.len(),
        forall|j: int|
            #[trigger] is_region_start(final(space)@, j) ==> is_region_start(old(space)@, j),
        forall|j: int|
            #[trigger] is_region_start(old(space)@, j) && !region_is_free(old(space)@, j)
                ==> is_region_start(final(space)@, j) && final(space)@[j] == old(space)@[j]
                && region_size(final(space)@, j) == region_size(old(space)@, j)
                && region_slot_count(final(space)@, j) == region_slot_count(old(space)@, j),
        forall|j: int|
            #[trigger] is_region_start(final(space)@, j) ==> region_is_free(final(space)@, j)
                == region_is_free(old(space)@, j),
        forall|k: int|
            0 <= k < old(space)@.len() && !(is_region_start(old(space)@, k) && region_is_free(
                old(space)@,
                k,
            )) && !(is_region_start(old(space)@, k - 1) && region_is_free(old(space)@, k - 1))
                ==> final(space)@[k] == old(space)@[k],
        forall|j: int|
            #[trigger] is_region_start(final(space)@, j) ==> mark_field(final(space)@[j])
                == mark_field(old(space)@[j]),
        forall|j: int|
            #[trigger] is_region_start(final(space)@, j) && region_is_free(final(space)@, j)
                ==> region_size(final(space)@, j) == free_run_end(old(space)@, j) - j,
        forall|j: int|
            #[trigger] is_region_start(final(space)@, j) && region_is_free(final(space)@, j) && j
                + region_size(final(space)@, j) < final(space)@.len() ==> !region_is_free(
                final(space)@,
                j + region_size(final(space)@, j),
            ),
    {
    let ghost mem0 = old(space)@;
    let mut iter = space.iter();
    let mut current_oop_headers = iter.next_headers(space).unwrap();
    proof {
        lemma_region_start_fits(mem0, 0);
    }
    loop
        invariant
            wf(space@),
            space@.len() == mem0.len(),
            is_region_start(space@, current_oop_headers.position()),
            crate::oop_common::projection_matches(
                space@,
                current_oop_headers.position(),
                current_oop_headers.header_word(),
                current_oop_headers.extra_count(),
            ),
            iter.current() == current_oop_headers.position() + region_size(
                space@,
                current_oop_headers.position(),
            ),
            iter.current() <= space@.len(),
            reaches(space@, 0, iter.current()),
            forall|j: int|
                #[trigger] is_region_start(space@, j) ==> is_region_start(mem0, j),
            forall|j: int|
                #[trigger] is_region_start(mem0, j) && !region_is_free(mem0, j)
                    ==> is_region_start(space@, j) && space@[j] == mem0[j] && region_size(space@, j)
                    == region_size(mem0, j) && region_slot_count(space@, j) == region_slot_count(
                    mem0,
                    j,
                ),
            forall|j: int|
                #[trigger] is_region_start(space@, j) ==> region_is_free(space@, j)
                    == region_is_free(mem0, j),
            forall|j: int|
                #[trigger] is_region_start(space@, j) ==> mark_field(space@[j]) == mark_field(
                    mem0[j],
                ),
            forall|k: int|
                0 <= k < mem0.len() && !(is_region_start(mem0, k) && region_is_free(mem0, k)) && !(
                is_region_start(mem0, k - 1) && region_is_free(mem0, k - 1)) ==> space@[k]
                    == mem0[k],
            forall|k: int| iter.current() <= k < mem0.len() ==> space@[k] == mem0[k],
            forall|j: int|
                #[trigger] is_region_start(space@, j) && region_is_free(space@, j) && j
                    < current_oop_headers.position() ==> region_size(space@, j) == free_run_end(
                    mem0,
                    j,
                ) - j,
            region_is_free(space@, current_oop_headers.position()) ==> free_run_end(
                mem0,
                current_oop_headers.position(),
            ) == free_run_end(mem0, iter.current()),
        decreases space@.len() - iter.current(),
    {
        let ghost mem_pre = space@;
        let ghost cur = current_oop_headers.position();
        let ghost itc = iter.current();
        let nxt = iter.peak_next_headers(space);
        match nxt {
            None => {
                break ;
            },
            Some(next_oop_headers) => {
                let ghost q = itc;
                proof {
                    // The region under the cursor is untouched so far, so
                    // its size and free state agree with the original heap.
                    assert(is_region_start(mem_pre, q));
                    lemma_region_start_fits(mem_pre, q);
                    assert(is_region_start(mem0, q));
                    lemma_region_start_fits(mem0, q);
                    assert(space@[q] == mem0[q]);
                    if crate::header::has_extra_header(mem0[q]) {
                        assert(space@[q + 1] == mem0[q + 1]);
                    }
                    assert(region_size(mem_pre, q) == region_size(mem0, q));
                    assert(region_is_free(mem_pre, q) == region_is_free(mem0, q));
                }
                iter.go_to_next(space);
                if current_oop_headers.is_free_oop() && next_oop_headers.is_free_oop() {
                    current_oop_headers.merge_with(next_oop_headers, space);
                    proof {
                        assert(free_run_end(mem0, q) == free_run_end(
                            mem0,
                            q + region_size(mem0, q),
                        ));
                        assert(is_region_start(space@, cur));
                        assert(reaches(space@, iter.current(), iter.current()));
                        assert(reaches(space@, cur, iter.current()));
                        crate::heap_layout::lemma_reaches_trans(space@, 0, cur, iter.current());
                        assert forall|j: int| #[trigger] is_region_start(mem0, j)
                            && !region_is_free(mem0, j) implies is_region_start(space@, j)
                            && space@[j] == mem0[j] && region_size(space@, j) == region_size(
                            mem0,
                            j,
                        ) && region_slot_count(space@, j) == region_slot_count(mem0, j) by {
                            assert(j != cur && j != q);
                            assert(is_region_start(mem_pre, j));
                        }
                        assert forall|k: int|
                            0 <= k < mem0.len() && !(is_region_start(mem0, k) && region_is_free(
                                mem0,
                                k,
                            )) && !(is_region_start(mem0, k - 1) && region_is_free(mem0, k - 1))
                            implies space@[k] == mem0[k] by {
                            assert(is_region_start(mem0, cur) && region_is_free(mem0, cur));
                            assert(k != cur && k != cur + 1);
                            assert(space@[k] == mem_pre[k]);
                        }
                        assert forall|k: int|
                            iter.current() <= k < mem0.len() implies space@[k] == mem0[k] by {
                            assert(k != cur && k != cur + 1);
                            assert(space@[k] == mem_pre[k]);
                        }
                        assert forall|j: int|
                            #[trigger] is_region_start(space@, j) && region_is_free(space@, j) && j
                                < current_oop_headers.position() implies region_size(space@, j)
                            == free_run_end(mem0, j) - j by {
                            assert(is_region_start(mem_pre, j));
                            assert(j != cur && j != q);
                            assert(space@[j] == mem_pre[j]);
                        }
                        assert forall|j: int|
                            #[trigger] is_region_start(space@, j) implies mark_field(space@[j])
                            == mark_field(mem0[j]) by {
                            assert(is_region_start(mem_pre, j));
                            if j != cur {
                                assert(space@[j] == mem_pre[j]);
                            }
                        }
                    }
                } else {
                    proof {
                        // Close the finished region: when it is free, the
                        // free run from it ends right here, at a region
                        // that is not free.
                        if region_is_free(mem_pre, cur) {
                            assert(!region_is_free(mem_pre, q));
                            assert(!region_is_free(mem0, q));
                            assert(free_run_end(mem0, q) == q);
                        }
                        if region_is_free(mem_pre, q) {
                            assert(free_run_end(mem0, q) == free_run_end(
                                mem0,
                                q + region_size(mem0, q),
                            ));
                        }
                        assert forall|j: int|
                            #[trigger] is_region_start(space@, j) && region_is_free(space@, j) && j
                                < q implies region_size(space@, j) == free_run_end(mem0, j)
                            - j by {
                            if j == cur {
                                assert(region_size(space@, cur) == q - cur);
                            } else if j > cur {
                                lemma_region_starts_disjoint(space@, cur, j);
                                assert(false);
                            }
                        }
                    }
                    current_oop_headers = next_oop_headers;
                }
            },
        }
    }
    proof {
        let cur = current_oop_headers.position();
        assert(iter.current() == space@.len());
        assert(free_run_end(mem0, space@.len() as int) == space@.len());
        assert forall|j: int|
            #[trigger] is_region_start(space@, j) && region_is_free(space@, j)
                implies region_size(space@, j) == free_run_end(mem0, j) - j by {
            if j > cur {
                lemma_reaches_between(space@, 0, cur, j);
                assert(reaches(space@, cur, j));
                assert(reaches(space@, iter.current(), j));
                lemma_reaches_at_least(space@, iter.current(), j);
                assert(false);
            }
        }
        assert forall|j: int|
            #[trigger] is_region_start(space@, j) && region_is_free(space@, j) && j + region_size(
                space@,
                j,
            ) < space@.len() implies !region_is_free(space@, j + region_size(space@, j)) by {
            let nx = j + region_size(space@, j);
            lemma_region_start_fits(space@, j);
            assert(reaches(space@, nx, nx));
            assert(reaches(space@, j, nx));
            crate::heap_layout::lemma_reaches_trans(space@, 0, j, nx);
            assert(is_region_start(space@, nx));
            assert(is_region_start(mem0, nx));
            lemma_region_start_fits(mem0, nx);
            assert(nx == free_run_end(mem0, j));
            crate::heap_layout::lemma_free_run_end_stops(mem0, j);
            assert(!region_is_free(mem0, nx));
        }
    }
}

} // verus!
