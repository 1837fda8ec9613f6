//! The ancestry oracle that a merge consults.

use vstd::prelude::*;
use crate::commit::CommitId;

verus! {

/// Read-only ancestry queries over commits, supplied by the caller of a
/// merge.
pub trait AncestryIndex {
    /// Whether commit `a` is an ancestor of commit `b`.
    spec fn ancestor(&self, a: Seq<u8>, b: Seq<u8>) -> bool;

    /// Answers whether `a` is an ancestor of `b`.
    fn is_ancestor(&self, a: &CommitId, b: &CommitId) -> (r: bool)
        ensures
            r == self.ancestor(a@, b@),
    ;
}

/// An ancestry relation listed as explicit (ancestor, descendant) pairs.
#[derive(Debug)]
pub struct AncestorPairs {
    pairs: Vec<(CommitId, CommitId)>,
}

impl AncestorPairs {
    /// The listed pairs, as byte strings.
    pub closed spec fn pair_ids(&self) -> Seq<(Seq<u8>, Seq<u8>)> {
        self.pairs@.map_values(|p: (CommitId, CommitId)| (p.0@, p.1@))
    }

    /// A relation with no pairs.
    pub fn new() -> (r: AncestorPairs)
        ensures
            r.pair_ids() == Seq::<(Seq<u8>, Seq<u8>)>::empty(),
    {
        let r = AncestorPairs { pairs: Vec::new() };
        assert(r.pair_ids() =~= Seq::<(Seq<u8>, Seq<u8>)>::empty());
        r
    }

    /// Records that `ancestor` is an ancestor of `descendant`.
    pub fn add(&mut self, ancestor: CommitId, descendant: CommitId)
        ensures
            final(self).pair_ids() == old(self).pair_ids().push((ancestor@, descendant@)),
    {
        let ghost before = self.pairs@;
        self.pairs.push((ancestor, descendant));
        assert(self.pair_ids() =~= before.map_values(|p: (CommitId, CommitId)| (p.0@, p.1@)).push(
            (ancestor@, descendant@),
        ));
    }
}

impl AncestryIndex for AncestorPairs {
    open spec fn ancestor(&self, a: Seq<u8>, b: Seq<u8>) -> bool {
        self.pair_ids().contains((a, b))
    }

    fn is_ancestor(&self, a: &CommitId, b: &CommitId) -> (r: bool) {
        let mut i: usize = 0;
        while i < self.pairs.len()
            invariant
                i <= self.pairs@.len(),
                forall|k: int| 0 <= k < i ==> #[trigger] self.pair_ids()[k] != (a@, b@),
            decreases self.pairs@.len() - i,
        {
            if self.pairs[i].0 == *a && self.pairs[i].1 == *b {
                assert(self.pair_ids()[i as int] == (a@, b@));
                return true;
            }
            i = i + 1;
        }
        false
    }
}

} // verus!
