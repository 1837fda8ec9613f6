//! Ref targets and what they mean as multisets of commits.

use vstd::prelude::*;
use vstd::multiset::Multiset;
use vstd::seq_lib::*;
use vstd::relations::{sorted_by, total_ordering};
use crate::commit::{bytes_le, id_order, lemma_id_order_total, CommitId};

verus! {

broadcast use group_to_multiset_ensures, vstd::multiset::group_multiset_axioms;

/// The identifiers of a sequence of commits, as byte strings.
pub open spec fn ids(s: Seq<CommitId>) -> Seq<Seq<u8>> {
    s.map_values(|c: CommitId| c@)
}

/// The commits of `s` in byte order: the one order that depends on the
/// multiset of `s` alone.
pub open spec fn canonical(s: Seq<Seq<u8>>) -> Seq<Seq<u8>> {
    s.sort_by(id_order())
}

/// What a ref target means: one commit, or a conflict whose added and
/// removed commits carry no order.
pub enum TargetModel {
    Normal(Seq<u8>),
    Conflict { adds: Multiset<Seq<u8>>, removes: Multiset<Seq<u8>> },
}

/// The value of a named reference: a single commit, or an unresolved
/// conflict of added and removed commits.
#[derive(Debug)]
pub enum RefTarget {
    Normal(CommitId),
    Conflict { removes: Vec<CommitId>, adds: Vec<CommitId> },
}

impl View for RefTarget {
    type V = TargetModel;

    open spec fn view(&self) -> TargetModel {
        match self {
            RefTarget::Normal(c) => TargetModel::Normal(c@),
            RefTarget::Conflict { removes, adds } => TargetModel::Conflict {
                adds: ids(adds@).to_multiset(),
                removes: ids(removes@).to_multiset(),
            },
        }
    }
}

/// The meaning of an optional ref target (`None` is an absent ref).
pub open spec fn model(t: Option<&RefTarget>) -> Option<TargetModel> {
    match t {
        Some(t) => Some(t@),
        None => None,
    }
}

/// The meaning of an optional owned ref target.
pub open spec fn owned_model(t: Option<RefTarget>) -> Option<TargetModel> {
    match t {
        Some(t) => Some(t@),
        None => None,
    }
}

/// The added commits of a ref target model, as a multiset.
pub open spec fn model_adds(m: Option<TargetModel>) -> Multiset<Seq<u8>> {
    match m {
        Some(TargetModel::Normal(c)) => Multiset::singleton(c),
        Some(TargetModel::Conflict { adds, removes }) => adds,
        None => Multiset::empty(),
    }
}

/// The removed commits of a ref target model, as a multiset.
pub open spec fn model_removes(m: Option<TargetModel>) -> Multiset<Seq<u8>> {
    match m {
        Some(TargetModel::Conflict { adds, removes }) => removes,
        _ => Multiset::empty(),
    }
}

/// Normal form of a model: a conflict holds at least two adds or at least
/// one remove, and no commit is both added and removed.
pub open spec fn model_wf(m: Option<TargetModel>) -> bool {
    match m {
        Some(TargetModel::Conflict { adds, removes }) => {
            &&& (adds.len() >= 2 || removes.len() >= 1)
            &&& forall|c: Seq<u8>| !(#[trigger] adds.contains(c) && removes.contains(c))
        },
        _ => true,
    }
}

impl RefTarget {
    /// The added commits in their stored order.
    pub open spec fn adds_ids(&self) -> Seq<Seq<u8>> {
        match self {
            RefTarget::Normal(c) => seq![c@],
            RefTarget::Conflict { removes, adds } => ids(adds@),
        }
    }

    /// The removed commits in their stored order.
    pub open spec fn removes_ids(&self) -> Seq<Seq<u8>> {
        match self {
            RefTarget::Normal(c) => Seq::empty(),
            RefTarget::Conflict { removes, adds } => ids(removes@),
        }
    }

    /// The added commits: the commit itself for a normal target.
    pub fn adds(&self) -> (r: Vec<CommitId>)
        ensures
            ids(r@) == self.adds_ids(),
            ids(r@).to_multiset() == model_adds(Some(self@)),
    {
        let mut r: Vec<CommitId> = Vec::new();
        match self {
            RefTarget::Normal(c) => {
                r.push(c.clone());
                assert(ids(r@) =~= seq![c@]);
                assert(seq![c@] =~= Seq::<Seq<u8>>::empty().push(c@));
            },
            RefTarget::Conflict { removes, adds } => {
                append_ids(&mut r, adds);
                assert(ids(r@) =~= ids(adds@));
            },
        }
        r
    }

    /// The removed commits: none for a normal target.
    pub fn removes(&self) -> (r: Vec<CommitId>)
        ensures
            ids(r@) == self.removes_ids(),
            ids(r@).to_multiset() == model_removes(Some(self@)),
    {
        let mut r: Vec<CommitId> = Vec::new();
        match self {
            RefTarget::Normal(c) => {
                assert(ids(r@) =~= Seq::<Seq<u8>>::empty());
            },
            RefTarget::Conflict { removes, adds } => {
                append_ids(&mut r, removes);
                assert(ids(r@) =~= ids(removes@));
            },
        }
        r
    }
}

/// Appends copies of `src` to `dst`.
pub fn append_ids(dst: &mut Vec<CommitId>, src: &Vec<CommitId>)
    ensures
        ids(final(dst)@) == ids(old(dst)@) + ids(src@),
{
    let mut i: usize = 0;
    while i < src.len()
        invariant
            i <= src@.len(),
            ids(dst@) =~= ids(old(dst)@) + ids(src@).subrange(0, i as int),
        decreases src@.len() - i,
    {
        let c = src[i].clone();
        let ghost before = dst@;
        dst.push(c);
        assert(ids(dst@) =~= ids(before).push(src@[i as int]@));
        assert(ids(src@).subrange(0, i + 1) =~= ids(src@).subrange(0, i as int).push(src@[i as int]@));
        i = i + 1;
        assert(ids(dst@) =~= ids(old(dst)@) + ids(src@).subrange(0, i as int));
    }
    assert(ids(src@).subrange(0, i as int) =~= ids(src@));
}

/// The commits of `v` in byte order.
pub fn sort_ids(v: &Vec<CommitId>) -> (r: Vec<CommitId>)
    ensures
        ids(r@) == canonical(ids(v@)),
{
    proof {
        lemma_id_order_total();
    }
    let ghost leq = id_order();
    let mut r: Vec<CommitId> = Vec::new();
    let mut i: usize = 0;
    assert(ids(r@).to_multiset() =~= ids(v@).subrange(0, 0).to_multiset());
    while i < v.len()
        invariant
            i <= v@.len(),
            leq == id_order(),
            total_ordering(leq),
            sorted_by(ids(r@), leq),
            ids(r@).to_multiset() == ids(v@).subrange(0, i as int).to_multiset(),
        decreases v@.len() - i,
    {
        let mut p: usize = 0;
        while p < r.len() && r[p].is_at_most(&v[i])
            invariant
                i < v@.len(),
                p <= r@.len(),
                forall|k: int| 0 <= k < p ==> bytes_le(#[trigger] ids(r@)[k], v@[i as int]@),
            decreases r@.len() - p,
        {
            p = p + 1;
        }
        let ghost old_r = ids(r@);
        let ghost x = v@[i as int]@;
        let c = v[i].clone();
        r.insert(p, c);
        assert(ids(r@) =~= old_r.insert(p as int, x));
        assert(p < old_r.len() ==> bytes_le(x, old_r[p as int])) by {
            if p < old_r.len() {
                assert(!bytes_le(old_r[p as int], x));
                assert(leq(old_r[p as int], x) || leq(x, old_r[p as int]));
            }
        }
        assert(sorted_by(ids(r@), leq)) by {
            let n = ids(r@);
            assert forall|a: int, b: int| 0 <= a < b < n.len() implies leq(n[a], n[b]) by {
                if b < p {
                    assert(leq(old_r[a], old_r[b]));
                } else if b == p {
                    assert(bytes_le(old_r[a], x));
                } else if a == p {
                    assert(leq(x, old_r[p as int]));
                    if b - 1 > p {
                        assert(leq(old_r[p as int], old_r[b - 1]));
                    }
                } else if a < p {
                    assert(leq(old_r[a], old_r[b - 1]));
                } else {
                    assert(leq(old_r[a - 1], old_r[b - 1]));
                }
            }
        }
        assert(ids(v@).subrange(0, i + 1) =~= ids(v@).subrange(0, i as int).push(x));
        i = i + 1;
    }
    assert(ids(v@).subrange(0, i as int) =~= ids(v@));
    proof {
        ids(v@).lemma_sort_by_ensures(leq);
        lemma_sorted_unique(ids(r@), canonical(ids(v@)), leq);
    }
    r
}

/// Tells whether two sequences of commits hold the same commits the same
/// number of times, in any order.
pub fn same_multiset(a: &Vec<CommitId>, b: &Vec<CommitId>) -> (r: bool)
    ensures
        r == (ids(a@).to_multiset() == ids(b@).to_multiset()),
{
    let mut rest: Vec<CommitId> = Vec::new();
    append_ids(&mut rest, b);
    assert(ids(rest@) =~= ids(b@));
    let mut i: usize = 0;
    while i < a.len()
        invariant
            i <= a@.len(),
            ids(a@).subrange(0, i as int).to_multiset().add(ids(rest@).to_multiset())
                == ids(b@).to_multiset(),
        decreases a@.len() - i,
    {
        let mut j: usize = 0;
        let mut found = false;
        while j < rest.len() && !found
            invariant
                i < a@.len(),
                j <= rest@.len(),
                found ==> j < rest@.len() && rest@[j as int]@ == a@[i as int]@,
                forall|k: int| 0 <= k < j ==> rest@[k]@ != a@[i as int]@,
            decreases rest@.len() - j + (if found { 0int } else { 1int }),
        {
            if rest[j] == a[i] {
                found = true;
            } else {
                j = j + 1;
            }
        }
        let ghost x = a@[i as int]@;
        let ghost pre = ids(a@).subrange(0, i as int);
        let ghost pre1 = ids(a@).subrange(0, i + 1);
        assert(pre1 =~= pre.push(x));
        if !found {
            assert(!ids(rest@).contains(x));
            assert(ids(rest@).to_multiset().count(x) == 0);
            assert(ids(a@) =~= pre1 + ids(a@).subrange(i + 1, a@.len() as int));
            proof {
                lemma_multiset_commutative(pre1, ids(a@).subrange(i + 1, a@.len() as int));
            }
            assert(ids(a@).to_multiset().count(x) > ids(b@).to_multiset().count(x));
            return false;
        }
        let ghost before = rest@;
        rest.remove(j);
        assert(ids(rest@) =~= ids(before).remove(j as int));
        assert(ids(before)[j as int] == x);
        i = i + 1;
        assert(pre1.to_multiset().add(ids(rest@).to_multiset()) =~= ids(b@).to_multiset());
    }
    assert(ids(a@).subrange(0, i as int) =~= ids(a@));
    if rest.len() == 0 {
        assert(ids(rest@) =~= Seq::<Seq<u8>>::empty());
        assert(ids(a@).to_multiset().add(ids(rest@).to_multiset()) =~= ids(a@).to_multiset());
        true
    } else {
        assert(ids(rest@).to_multiset().len() > 0);
        assert(ids(b@).to_multiset().len() > ids(a@).to_multiset().len());
        false
    }
}

impl RefTarget {
    /// Builds a target from added and removed commits in normal form: no
    /// commit at all is an absent ref, and one added commit alone is a
    /// normal target.
    pub fn from_adds_and_removes(adds: Vec<CommitId>, removes: Vec<CommitId>) -> (r: Option<RefTarget>)
        ensures
            adds@.len() == 0 && removes@.len() == 0 ==> r is None,
            adds@.len() == 1 && removes@.len() == 0 ==> owned_model(r) == Some(TargetModel::Normal(adds@[0]@)),
            !(adds@.len() == 0 && removes@.len() == 0) && !(adds@.len() == 1 && removes@.len() == 0)
                ==> owned_model(r) == Some(TargetModel::Conflict {
                    adds: ids(adds@).to_multiset(),
                    removes: ids(removes@).to_multiset(),
                }),
    {
        if adds.len() == 0 && removes.len() == 0 {
            None
        } else if adds.len() == 1 && removes.len() == 0 {
            Some(RefTarget::Normal(adds[0].clone()))
        } else {
            Some(RefTarget::Conflict { removes, adds })
        }
    }
}

impl Clone for RefTarget {
    fn clone(&self) -> (r: RefTarget)
        ensures
            r@ == self@,
            r.adds_ids() == self.adds_ids(),
            r.removes_ids() == self.removes_ids(),
    {
        match self {
            RefTarget::Normal(c) => RefTarget::Normal(c.clone()),
            RefTarget::Conflict { removes, adds } => {
                let mut r_adds: Vec<CommitId> = Vec::new();
                append_ids(&mut r_adds, adds);
                let mut r_removes: Vec<CommitId> = Vec::new();
                append_ids(&mut r_removes, removes);
                assert(ids(r_adds@) =~= ids(adds@));
                assert(ids(r_removes@) =~= ids(removes@));
                RefTarget::Conflict { removes: r_removes, adds: r_adds }
            },
        }
    }
}

impl PartialEq for RefTarget {
    fn eq(&self, other: &RefTarget) -> (r: bool)
        ensures
            r == (self@ == other@),
    {
        match (self, other) {
            (RefTarget::Normal(c), RefTarget::Normal(d)) => c == d,
            (
                RefTarget::Conflict { removes: r1, adds: a1 },
                RefTarget::Conflict { removes: r2, adds: a2 },
            ) => same_multiset(a1, a2) && same_multiset(r1, r2),
            _ => false,
        }
    }
}

impl vstd::std_specs::cmp::PartialEqSpecImpl for RefTarget {
    open spec fn obeys_eq_spec() -> bool {
        true
    }

    open spec fn eq_spec(&self, other: &RefTarget) -> bool {
        self@ == other@
    }
}

impl Eq for RefTarget {

}

/// Tells whether two optional targets mean the same: both absent, or both
/// present and equal up to the order of adds and removes.
pub fn same_target(a: Option<&RefTarget>, b: Option<&RefTarget>) -> (r: bool)
    ensures
        r == (model(a) == model(b)),
{
    match (a, b) {
        (None, None) => true,
        (Some(x), Some(y)) => x == y,
        _ => false,
    }
}

/// Copies an optional target.
pub fn clone_target(t: Option<&RefTarget>) -> (r: Option<RefTarget>)
    ensures
        owned_model(r) == model(t),
{
    match t {
        Some(x) => Some(x.clone()),
        None => None,
    }
}

} // verus!
