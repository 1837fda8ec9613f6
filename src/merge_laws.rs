//! Laws of the three-way merge, proved over its specification `merged`:
//! the shape of its result, its shortcuts, the symmetry of its sides, and
//! its independence from the order in which targets list their commits.
//! The simplification has two rules: exact cancellation of an add against an
//! equal remove, and an ancestor among the adds superseded by a descendant.

use vstd::prelude::*;
use vstd::multiset::Multiset;
use vstd::seq_lib::*;
use crate::commit::{id_order, lemma_id_order_total};
use crate::index::AncestryIndex;
use crate::merge::{
    apply_step, combined_adds, combined_removes, find_cancel, find_pair, first_equal, merged, opt_adds,
    opt_removes, simplify, step_in_range,
};
use crate::ref_target::{canonical, model, model_adds, model_removes, model_wf, RefTarget, TargetModel};

verus! {

broadcast use group_to_multiset_ensures, vstd::multiset::group_multiset_axioms;

/// The commit `c` is among the adds or the removes of `m`.
pub open spec fn mentions(m: Option<TargetModel>, c: Seq<u8>) -> bool {
    model_adds(m).contains(c) || model_removes(m).contains(c)
}

/// How many adds and removes `m` holds, duplicates counted.
pub open spec fn size(m: Option<TargetModel>) -> nat {
    model_adds(m).len() + model_removes(m).len()
}

proof fn lemma_first_equal(rv: Seq<Seq<u8>>, x: Seq<u8>, j: int)
    requires
        0 <= j,
    ensures
        first_equal(rv, x, j) matches Some(m) ==> j <= m < rv.len() && rv[m] == x,
        first_equal(rv, x, j) is None ==> forall|k: int| j <= k < rv.len() ==> rv[k] != x,
    decreases rv.len() - j,
{
    if j < rv.len() && rv[j] != x {
        lemma_first_equal(rv, x, j + 1);
    }
}

proof fn lemma_find_cancel(av: Seq<Seq<u8>>, rv: Seq<Seq<u8>>, i: int)
    requires
        0 <= i,
    ensures
        find_cancel(av, rv, i) matches Some(p) ==> i <= p.0 < av.len() && 0 <= p.1 < rv.len()
            && av[p.0] == rv[p.1],
        find_cancel(av, rv, i) is None ==> forall|a: int, k: int|
            i <= a < av.len() && 0 <= k < rv.len() ==> av[a] != rv[k],
    decreases av.len() - i,
{
    if i < av.len() {
        lemma_first_equal(rv, av[i], 0);
        lemma_find_cancel(av, rv, i + 1);
    }
}

/// Simplification only takes commits away, and leaves no commit both added
/// and removed.
proof fn lemma_simplify<I: AncestryIndex>(idx: &I, av: Seq<Seq<u8>>, rv: Seq<Seq<u8>>)
    ensures
        simplify(idx, av, rv).0.to_multiset().subset_of(av.to_multiset()),
        simplify(idx, av, rv).1.to_multiset().subset_of(rv.to_multiset()),
        simplify(idx, av, rv).0.len() <= av.len(),
        simplify(idx, av, rv).1.len() <= rv.len(),
        forall|a: int, k: int|
            0 <= a < simplify(idx, av, rv).0.len() && 0 <= k < simplify(idx, av, rv).1.len()
                ==> simplify(idx, av, rv).0[a] != simplify(idx, av, rv).1[k],
    decreases av.len(),
{
    lemma_find_cancel(av, rv, 0);
    match find_pair(idx, av, rv) {
        Some(step) => {
            if step_in_range(step, av, rv) {
                let next = apply_step(step, av, rv);
                lemma_simplify(idx, next.0, next.1);
                assert(next.0.to_multiset().subset_of(av.to_multiset()));
                assert(next.1.to_multiset().subset_of(rv.to_multiset()));
            }
        },
        None => {},
    }
}

proof fn lemma_sides(t: Option<&RefTarget>)
    ensures
        opt_adds(t).to_multiset() == model_adds(model(t)),
        opt_removes(t).to_multiset() == model_removes(model(t)),
{
    match t {
        Some(RefTarget::Normal(c)) => {
            assert(opt_adds(t) =~= Seq::<Seq<u8>>::empty().push(c@));
            assert(opt_adds(t).to_multiset() =~= Multiset::singleton(c@));
            assert(opt_removes(t).to_multiset() =~= Multiset::empty());
        },
        Some(RefTarget::Conflict { .. }) => {},
        None => {
            assert(opt_adds(t).to_multiset() =~= Multiset::empty());
            assert(opt_removes(t).to_multiset() =~= Multiset::empty());
        },
    }
}

/// What the three inputs of a merge bring together, as multisets.
proof fn lemma_combined(left: Option<&RefTarget>, base: Option<&RefTarget>, right: Option<&RefTarget>)
    ensures
        combined_adds(left, base, right).to_multiset() == model_adds(model(left)).add(
            model_removes(model(base)),
        ).add(model_adds(model(right))),
        combined_removes(left, base, right).to_multiset() == model_removes(model(left)).add(
            model_adds(model(base)),
        ).add(model_removes(model(right))),
{
    lemma_sides(left);
    lemma_sides(base);
    lemma_sides(right);
    lemma_multiset_commutative(opt_adds(left), opt_removes(base));
    lemma_multiset_commutative(opt_adds(left) + opt_removes(base), opt_adds(right));
    lemma_multiset_commutative(opt_removes(left), opt_adds(base));
    lemma_multiset_commutative(opt_removes(left) + opt_adds(base), opt_removes(right));
}

/// Byte order keeps the commits of a sequence, and two sequences holding
/// the same commits come out the same.
proof fn lemma_canonical(s1: Seq<Seq<u8>>, s2: Seq<Seq<u8>>)
    ensures
        canonical(s1).to_multiset() == s1.to_multiset(),
        canonical(s1).len() == s1.len(),
        s1.to_multiset() == s2.to_multiset() ==> canonical(s1) == canonical(s2),
{
    lemma_id_order_total();
    s1.lemma_sort_by_ensures(id_order());
    s2.lemma_sort_by_ensures(id_order());
    assert(canonical(s1).to_multiset().len() == canonical(s1).len());
    if s1.to_multiset() == s2.to_multiset() {
        lemma_sorted_unique(canonical(s1), canonical(s2), id_order());
    }
}

/// A merge of inputs in normal form is in normal form; it names no commit
/// that none of its inputs names; and it holds no more adds and removes
/// than its inputs together. Where no side equals the base and the sides
/// differ, its adds are among the sides' adds and the base's removes, and
/// its removes among the sides' removes and the base's adds.
pub proof fn lemma_merged_shape<I: AncestryIndex>(
    idx: &I,
    left: Option<&RefTarget>,
    base: Option<&RefTarget>,
    right: Option<&RefTarget>,
)
    ensures
        model_wf(model(left)) && model_wf(model(base)) && model_wf(model(right))
            ==> model_wf(merged(idx, left, base, right)),
        forall|c: Seq<u8>| #[trigger]
            mentions(merged(idx, left, base, right), c) ==> mentions(model(left), c) || mentions(
                model(base),
                c,
            ) || mentions(model(right), c),
        size(merged(idx, left, base, right)) <= size(model(left)) + size(model(base)) + size(
            model(right),
        ),
        !(model(left) == model(base) || model(left) == model(right) || model(base) == model(right))
            ==> {
            &&& model_adds(merged(idx, left, base, right)).subset_of(
                model_adds(model(left)).add(model_removes(model(base))).add(model_adds(model(right))),
            )
            &&& model_removes(merged(idx, left, base, right)).subset_of(
                model_removes(model(left)).add(model_adds(model(base))).add(model_removes(model(right))),
            )
        },
{
    let m = merged(idx, left, base, right);
    if model(left) == model(base) || model(left) == model(right) || model(base) == model(right) {
    } else {
        let av0 = combined_adds(left, base, right);
        let rv0 = combined_removes(left, base, right);
        lemma_canonical(av0, av0);
        lemma_canonical(rv0, rv0);
        let av = canonical(av0);
        let rv = canonical(rv0);
        let s = simplify(idx, av, rv);
        lemma_simplify(idx, av, rv);
        lemma_combined(left, base, right);
        assert(model_adds(m).subset_of(av.to_multiset()) && model_removes(m).subset_of(rv.to_multiset())) by {
            if s.0.len() == 1 && s.1.len() == 0 {
                assert(s.0.to_multiset().count(s.0[0]) > 0);
                assert(model_adds(m) =~= Multiset::singleton(s.0[0]));
            } else if s.0.len() == 0 {
                assert(model_adds(m) =~= Multiset::empty());
            }
        }
        assert(size(m) <= av.len() + rv.len()) by {
            if s.0.len() == 0 {
            } else if s.0.len() == 1 && s.1.len() == 0 {
            } else {
            }
        }
        assert forall|c: Seq<u8>| #[trigger] mentions(m, c) implies mentions(model(left), c)
            || mentions(model(base), c) || mentions(model(right), c) by {
            if model_adds(m).contains(c) {
                assert(av.to_multiset().count(c) > 0);
            } else {
                assert(rv.to_multiset().count(c) > 0);
            }
        }
        assert forall|c: Seq<u8>| !(#[trigger] s.0.to_multiset().contains(c) && s.1.to_multiset().contains(c)) by {
            if s.0.to_multiset().contains(c) && s.1.to_multiset().contains(c) {
                assert(s.0.contains(c));
                assert(s.1.contains(c));
            }
        }
    }
}

/// Merging a side with itself, or with the base, gives that side back.
pub proof fn lemma_merge_unchanged_side<I: AncestryIndex>(
    idx: &I,
    left: Option<&RefTarget>,
    base: Option<&RefTarget>,
)
    ensures
        merged(idx, left, base, left) == model(left),
        merged(idx, left, base, base) == model(left),
{
}

/// Merging the result of a merge with itself, over the same base, gives
/// that result back.
pub proof fn lemma_remerge_result<I: AncestryIndex>(
    idx: &I,
    left: Option<&RefTarget>,
    base: Option<&RefTarget>,
    right: Option<&RefTarget>,
    result: Option<&RefTarget>,
)
    requires
        model(result) == merged(idx, left, base, right),
    ensures
        merged(idx, result, base, result) == model(result),
{
}

/// Merges of inputs that mean the same give results that mean the same:
/// the order in which a target lists its adds or removes does not matter.
pub proof fn lemma_merge_by_meaning<I: AncestryIndex>(
    idx: &I,
    left1: Option<&RefTarget>,
    base1: Option<&RefTarget>,
    right1: Option<&RefTarget>,
    left2: Option<&RefTarget>,
    base2: Option<&RefTarget>,
    right2: Option<&RefTarget>,
)
    requires
        model(left1) == model(left2),
        model(base1) == model(base2),
        model(right1) == model(right2),
    ensures
        merged(idx, left1, base1, right1) == merged(idx, left2, base2, right2),
{
    lemma_combined(left1, base1, right1);
    lemma_combined(left2, base2, right2);
    lemma_canonical(combined_adds(left1, base1, right1), combined_adds(left2, base2, right2));
    lemma_canonical(combined_removes(left1, base1, right1), combined_removes(left2, base2, right2));
}

/// Merging is symmetric in its two sides.
pub proof fn lemma_merge_commutes<I: AncestryIndex>(
    idx: &I,
    a: Option<&RefTarget>,
    base: Option<&RefTarget>,
    b: Option<&RefTarget>,
)
    ensures
        merged(idx, a, base, b) == merged(idx, b, base, a),
{
    lemma_combined(a, base, b);
    lemma_combined(b, base, a);
    let ma = model_adds(model(a));
    let mb = model_adds(model(b));
    let ra = model_removes(model(a));
    let rb = model_removes(model(b));
    assert(ma.add(model_removes(model(base))).add(mb) =~= mb.add(model_removes(model(base))).add(ma));
    assert(ra.add(model_adds(model(base))).add(rb) =~= rb.add(model_adds(model(base))).add(ra));
    lemma_canonical(combined_adds(a, base, b), combined_adds(b, base, a));
    lemma_canonical(combined_removes(a, base, b), combined_removes(b, base, a));
}

} // verus!
