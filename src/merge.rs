//! The three-way merge of ref targets, specified step by step by `merged`.

use vstd::prelude::*;
use crate::commit::CommitId;
use crate::index::AncestryIndex;
use crate::merge_laws::{lemma_merged_shape, mentions, size};
use crate::ref_target::{append_ids, canonical, clone_target, ids, sort_ids, model, model_wf, owned_model, same_target, RefTarget, TargetModel};

verus! {

/// The position of the first commit at or after `j` in `removes` equal to `x`.
pub open spec fn first_equal(removes: Seq<Seq<u8>>, x: Seq<u8>, j: int) -> Option<int>
    decreases removes.len() - j,
{
    if 0 <= j < removes.len() {
        if removes[j] == x {
            Some(j)
        } else {
            first_equal(removes, x, j + 1)
        }
    } else {
        None
    }
}

/// The first (add, remove) pair of equal commits, scanning adds from `i`.
pub open spec fn find_cancel(adds: Seq<Seq<u8>>, removes: Seq<Seq<u8>>, i: int) -> Option<(int, int)>
    decreases adds.len() - i,
{
    if 0 <= i < adds.len() {
        match first_equal(removes, adds[i], 0) {
            Some(j) => Some((i, j)),
            None => find_cancel(adds, removes, i + 1),
        }
    } else {
        None
    }
}

/// Which of two adds leaves: `Some(true)` for the first, as the ancestor of
/// the second; `Some(false)` for the second, as the ancestor of the first
/// or, of two equal adds, the later one; `None` when they are incomparable.
pub open spec fn first_is_ancestor<I: AncestryIndex>(idx: &I, a1: Seq<u8>, a2: Seq<u8>) -> Option<bool> {
    if a1 == a2 {
        Some(false)
    } else if idx.ancestor(a1, a2) {
        Some(true)
    } else if idx.ancestor(a2, a1) {
        Some(false)
    } else {
        None
    }
}

/// The position of the first remove at or after `j` that is an ancestor of `x`.
pub open spec fn first_ancestor_of<I: AncestryIndex>(
    idx: &I,
    removes: Seq<Seq<u8>>,
    x: Seq<u8>,
    j: int,
) -> Option<int>
    decreases removes.len() - j,
{
    if 0 <= j < removes.len() {
        if idx.ancestor(removes[j], x) {
            Some(j)
        } else {
            first_ancestor_of(idx, removes, x, j + 1)
        }
    } else {
        None
    }
}

/// The first pair of adds, from the pair `(i, k)` on, in which one add
/// supersedes the other: the add to drop, with the remove to drop beside it
/// (none when there are no removes at all).
pub open spec fn find_supersede<I: AncestryIndex>(
    idx: &I,
    adds: Seq<Seq<u8>>,
    removes: Seq<Seq<u8>>,
    i: int,
    k: int,
) -> Option<(Option<int>, int)>
    decreases adds.len() - i, adds.len() - k,
{
    if 0 <= i < adds.len() {
        if k < adds.len() {
            match first_is_ancestor(idx, adds[i], adds[k]) {
                None => find_supersede(idx, adds, removes, i, k + 1),
                Some(first) => {
                    let anc = if first { i } else { k };
                    if removes.len() == 0 {
                        Some((None, anc))
                    } else {
                        match first_ancestor_of(idx, removes, adds[anc], 0) {
                            Some(j) => Some((Some(j), anc)),
                            None => find_supersede(idx, adds, removes, i, k + 1),
                        }
                    }
                },
            }
        } else {
            find_supersede(idx, adds, removes, i + 1, i + 2)
        }
    } else {
        None
    }
}

/// The next simplification step: an exact cancellation if there is one,
/// else an ancestor superseded by a descendant.
///
/// Steps are searched adds by position, then removes by position. A merge
/// first puts the adds and the removes in byte order, so that what it
/// returns depends on them as multisets alone.
pub open spec fn find_pair<I: AncestryIndex>(idx: &I, adds: Seq<Seq<u8>>, removes: Seq<Seq<u8>>) -> Option<(Option<int>, int)> {
    match find_cancel(adds, removes, 0) {
        Some((i, j)) => Some((Some(j), i)),
        None => find_supersede(idx, adds, removes, 0, 1),
    }
}

/// The step names positions that exist.
pub open spec fn step_in_range(step: (Option<int>, int), adds: Seq<Seq<u8>>, removes: Seq<Seq<u8>>) -> bool {
    &&& 0 <= step.1 < adds.len()
    &&& step.0 matches Some(j) ==> 0 <= j < removes.len()
}

/// Removes what a step names.
pub open spec fn apply_step(step: (Option<int>, int), adds: Seq<Seq<u8>>, removes: Seq<Seq<u8>>) -> (Seq<Seq<u8>>, Seq<Seq<u8>>) {
    (
        adds.remove(step.1),
        match step.0 {
            Some(j) => removes.remove(j),
            None => removes,
        },
    )
}

/// Adds and removes after applying simplification steps until none applies.
pub open spec fn simplify<I: AncestryIndex>(idx: &I, adds: Seq<Seq<u8>>, removes: Seq<Seq<u8>>) -> (Seq<Seq<u8>>, Seq<Seq<u8>>)
    decreases adds.len(),
{
    match find_pair(idx, adds, removes) {
        Some(step) => if step_in_range(step, adds, removes) {
            simplify(idx, apply_step(step, adds, removes).0, apply_step(step, adds, removes).1)
        } else {
            (adds, removes)
        },
        None => (adds, removes),
    }
}

/// The target that simplified adds and removes stand for.
pub open spec fn project(adds: Seq<Seq<u8>>, removes: Seq<Seq<u8>>) -> Option<TargetModel> {
    if adds.len() == 0 {
        None
    } else if adds.len() == 1 && removes.len() == 0 {
        Some(TargetModel::Normal(adds[0]))
    } else {
        Some(TargetModel::Conflict { adds: adds.to_multiset(), removes: removes.to_multiset() })
    }
}

/// Added commits of an optional target, in stored order.
pub open spec fn opt_adds(t: Option<&RefTarget>) -> Seq<Seq<u8>> {
    match t {
        Some(t) => t.adds_ids(),
        None => Seq::empty(),
    }
}

/// Removed commits of an optional target, in stored order.
pub open spec fn opt_removes(t: Option<&RefTarget>) -> Seq<Seq<u8>> {
    match t {
        Some(t) => t.removes_ids(),
        None => Seq::empty(),
    }
}

/// Each side's adds, with the base's removes counted as adds.
pub open spec fn combined_adds(left: Option<&RefTarget>, base: Option<&RefTarget>, right: Option<&RefTarget>) -> Seq<Seq<u8>> {
    opt_adds(left) + opt_removes(base) + opt_adds(right)
}

/// Each side's removes, with the base's adds counted as removes.
pub open spec fn combined_removes(left: Option<&RefTarget>, base: Option<&RefTarget>, right: Option<&RefTarget>) -> Seq<Seq<u8>> {
    opt_removes(left) + opt_adds(base) + opt_removes(right)
}

/// The three-way merge of `left` and `right` over `base`.
pub open spec fn merged<I: AncestryIndex>(
    idx: &I,
    left: Option<&RefTarget>,
    base: Option<&RefTarget>,
    right: Option<&RefTarget>,
) -> Option<TargetModel> {
    if model(left) == model(base) || model(left) == model(right) {
        model(right)
    } else if model(base) == model(right) {
        model(left)
    } else {
        let s = simplify(
            idx,
            canonical(combined_adds(left, base, right)),
            canonical(combined_removes(left, base, right)),
        );
        project(s.0, s.1)
    }
}

/// Widens an optional index to a mathematical integer.
pub open spec fn opt_int(o: Option<usize>) -> Option<int> {
    match o {
        Some(j) => Some(j as int),
        None => None,
    }
}

/// Finds the next simplification step on `adds` and `removes`.
pub fn find_pair_to_remove<I: AncestryIndex>(
    index: &I,
    adds: &Vec<CommitId>,
    removes: &Vec<CommitId>,
) -> (r: Option<(Option<usize>, usize)>)
    ensures
        match r {
            Some((mr, a)) => {
                &&& find_pair(index, ids(adds@), ids(removes@)) == Some((opt_int(mr), a as int))
                &&& step_in_range((opt_int(mr), a as int), ids(adds@), ids(removes@))
            },
            None => find_pair(index, ids(adds@), ids(removes@)) is None,
        },
{
    let ghost av = ids(adds@);
    let ghost rv = ids(removes@);
    // Exact cancellation of an add against an equal remove.
    let mut i: usize = 0;
    while i < adds.len()
        invariant
            i <= adds@.len(),
            av == ids(adds@),
            rv == ids(removes@),
            find_cancel(av, rv, 0) == find_cancel(av, rv, i as int),
        decreases adds@.len() - i,
    {
        let mut j: usize = 0;
        while j < removes.len()
            invariant
                i < adds@.len(),
                j <= removes@.len(),
                av == ids(adds@),
                rv == ids(removes@),
                find_cancel(av, rv, 0) == find_cancel(av, rv, i as int),
                first_equal(rv, av[i as int], 0) == first_equal(rv, av[i as int], j as int),
            decreases removes@.len() - j,
        {
            if adds[i] == removes[j] {
                return Some((Some(j), i));
            }
            j = j + 1;
        }
        i = i + 1;
    }
    // An ancestor among the adds that a descendant supersedes. With no
    // removes left there is no history to account for, so the ancestor is
    // dropped on its own.
    let mut i1: usize = 0;
    while i1 < adds.len()
        invariant
            i1 <= adds@.len(),
            av == ids(adds@),
            rv == ids(removes@),
            find_cancel(av, rv, 0) is None,
            find_supersede(index, av, rv, 0, 1) == find_supersede(index, av, rv, i1 as int, i1 + 1),
        decreases adds@.len() - i1,
    {
        let mut i2: usize = i1 + 1;
        while i2 < adds.len()
            invariant
                i1 < adds@.len(),
                i1 < i2 <= adds@.len(),
                av == ids(adds@),
                rv == ids(removes@),
                find_cancel(av, rv, 0) is None,
                find_supersede(index, av, rv, 0, 1) == find_supersede(index, av, rv, i1 as int, i2 as int),
            decreases adds@.len() - i2,
        {
            let add1 = &adds[i1];
            let add2 = &adds[i2];
            let first_add_is_ancestor: bool;
            // Of two equal adds the later one leaves.
            if *add1 == *add2 {
                first_add_is_ancestor = false;
            } else if index.is_ancestor(add1, add2) {
                first_add_is_ancestor = true;
            } else if index.is_ancestor(add2, add1) {
                first_add_is_ancestor = false;
            } else {
                i2 = i2 + 1;
                continue;
            }
            let anc: usize = if first_add_is_ancestor { i1 } else { i2 };
            if removes.len() == 0 {
                return Some((None, anc));
            }
            let mut j: usize = 0;
            while j < removes.len()
                invariant
                    i1 < i2 < adds@.len(),
                    anc == i1 || anc == i2,
                    first_is_ancestor(index, av[i1 as int], av[i2 as int]) == Some(anc == i1),
                    j <= removes@.len(),
                    av == ids(adds@),
                    rv == ids(removes@),
                    find_cancel(av, rv, 0) is None,
                    find_supersede(index, av, rv, 0, 1) == find_supersede(index, av, rv, i1 as int, i2 as int),
                    first_ancestor_of(index, rv, av[anc as int], 0) == first_ancestor_of(index, rv, av[anc as int], j as int),
                decreases removes@.len() - j,
            {
                if index.is_ancestor(&removes[j], &adds[anc]) {
                    return Some((Some(j), anc));
                }
                j = j + 1;
            }
            i2 = i2 + 1;
        }
        i1 = i1 + 1;
    }
    None
}

/// Merges the ref targets `left` and `right`, two descendants of `base`;
/// any of the three may be absent.
///
/// When one side equals the base, or both sides agree, the other side is the
/// result. Otherwise each side's adds and removes are collected, the base's
/// with their roles swapped, and simplified: an add equal to a remove
/// cancels it, and an add that is an ancestor of another add is dropped
/// together with a remove that is its ancestor (alone when nothing is left
/// to remove).
pub fn merge_ref_targets<I: AncestryIndex>(
    index: &I,
    left: Option<&RefTarget>,
    base: Option<&RefTarget>,
    right: Option<&RefTarget>,
) -> (r: Option<RefTarget>)
    ensures
        owned_model(r) == merged(index, left, base, right),
        model_wf(model(left)) && model_wf(model(base)) && model_wf(model(right)) ==> model_wf(
            owned_model(r),
        ),
        forall|c: Seq<u8>| #[trigger]
            mentions(owned_model(r), c) ==> mentions(model(left), c) || mentions(model(base), c)
                || mentions(model(right), c),
        size(owned_model(r)) <= size(model(left)) + size(model(base)) + size(model(right)),
{
    proof {
        lemma_merged_shape(index, left, base, right);
    }
    if same_target(left, base) || same_target(left, right) {
        clone_target(right)
    } else if same_target(base, right) {
        clone_target(left)
    } else {
        let mut all_adds: Vec<CommitId> = Vec::new();
        let mut all_removes: Vec<CommitId> = Vec::new();
        if let Some(left) = left {
            append_ids(&mut all_adds, &left.adds());
            append_ids(&mut all_removes, &left.removes());
        }
        // The base is subtracted: its removes count as adds, its adds as removes.
        if let Some(base) = base {
            append_ids(&mut all_adds, &base.removes());
            append_ids(&mut all_removes, &base.adds());
        }
        if let Some(right) = right {
            append_ids(&mut all_adds, &right.adds());
            append_ids(&mut all_removes, &right.removes());
        }
        assert(ids(all_adds@) =~= combined_adds(left, base, right));
        assert(ids(all_removes@) =~= combined_removes(left, base, right));
        // Byte order makes the outcome independent of how the inputs list
        // their commits and of which side is which.
        let mut adds = sort_ids(&all_adds);
        let mut removes = sort_ids(&all_removes);
        let ghost goal = simplify(index, ids(adds@), ids(removes@));
        let mut step = find_pair_to_remove(index, &adds, &removes);
        while step.is_some()
            invariant
                simplify(index, ids(adds@), ids(removes@)) == goal,
                match step {
                    Some((mr, a)) => {
                        &&& find_pair(index, ids(adds@), ids(removes@)) == Some((opt_int(mr), a as int))
                        &&& step_in_range((opt_int(mr), a as int), ids(adds@), ids(removes@))
                    },
                    None => find_pair(index, ids(adds@), ids(removes@)) is None,
                },
            decreases adds@.len(),
        {
            if let Some((maybe_remove_index, add_index)) = step {
                let ghost st = (opt_int(maybe_remove_index), add_index as int);
                let ghost next = apply_step(st, ids(adds@), ids(removes@));
                if let Some(remove_index) = maybe_remove_index {
                    removes.remove(remove_index);
                }
                adds.remove(add_index);
                assert(ids(adds@) =~= next.0);
                assert(ids(removes@) =~= next.1);
                step = find_pair_to_remove(index, &adds, &removes);
            }
        }
        if adds.len() == 0 {
            None
        } else if adds.len() == 1 && removes.len() == 0 {
            Some(RefTarget::Normal(adds[0].clone()))
        } else {
            Some(RefTarget::Conflict { removes, adds })
        }
    }
}

} // verus!
