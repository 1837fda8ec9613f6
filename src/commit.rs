//! Commit identifiers.

use vstd::prelude::*;
use vstd::relations::total_ordering;

verus! {

/// Byte order: `a` comes no later than `b` in lexicographic order of bytes.
pub open spec fn bytes_le(a: Seq<u8>, b: Seq<u8>) -> bool
    decreases a.len(),
{
    if a.len() == 0 {
        true
    } else if b.len() == 0 {
        false
    } else if a[0] != b[0] {
        a[0] < b[0]
    } else {
        bytes_le(a.drop_first(), b.drop_first())
    }
}

/// Byte order as a relation.
pub open spec fn id_order() -> spec_fn(Seq<u8>, Seq<u8>) -> bool {
    |a: Seq<u8>, b: Seq<u8>| bytes_le(a, b)
}

proof fn lemma_bytes_le_refl(a: Seq<u8>)
    ensures
        bytes_le(a, a),
    decreases a.len(),
{
    if a.len() > 0 {
        lemma_bytes_le_refl(a.drop_first());
    }
}

proof fn lemma_bytes_le_antisym(a: Seq<u8>, b: Seq<u8>)
    requires
        bytes_le(a, b),
        bytes_le(b, a),
    ensures
        a == b,
    decreases a.len(),
{
    if a.len() > 0 && b.len() > 0 {
        assert(a[0] == b[0]);
        lemma_bytes_le_antisym(a.drop_first(), b.drop_first());
        assert(a.drop_first().len() == b.drop_first().len());
        assert(a.len() == b.len());
        assert(a =~= b) by {
            assert forall|i: int| 0 <= i < a.len() implies a[i] == b[i] by {
                if i > 0 {
                    assert(a[i] == a.drop_first()[i - 1]);
                    assert(b[i] == b.drop_first()[i - 1]);
                }
            }
        }
    } else {
        assert(a =~= b);
    }
}

proof fn lemma_bytes_le_trans(a: Seq<u8>, b: Seq<u8>, c: Seq<u8>)
    requires
        bytes_le(a, b),
        bytes_le(b, c),
    ensures
        bytes_le(a, c),
    decreases a.len(),
{
    if a.len() > 0 && b.len() > 0 && c.len() > 0 && a[0] == b[0] && b[0] == c[0] {
        lemma_bytes_le_trans(a.drop_first(), b.drop_first(), c.drop_first());
    }
}

proof fn lemma_bytes_le_total(a: Seq<u8>, b: Seq<u8>)
    ensures
        bytes_le(a, b) || bytes_le(b, a),
    decreases a.len(),
{
    if a.len() > 0 && b.len() > 0 && a[0] == b[0] {
        lemma_bytes_le_total(a.drop_first(), b.drop_first());
    }
}

/// Byte order is a total order.
pub proof fn lemma_id_order_total()
    ensures
        total_ordering(id_order()),
{
    assert forall|a: Seq<u8>| #[trigger] (id_order())(a, a) by {
        lemma_bytes_le_refl(a);
    }
    assert forall|a: Seq<u8>, b: Seq<u8>| #[trigger] (id_order())(a, b) && #[trigger] (id_order())(b, a) implies a == b by {
        lemma_bytes_le_antisym(a, b);
    }
    assert forall|a: Seq<u8>, b: Seq<u8>, c: Seq<u8>| #[trigger] (id_order())(a, b) && #[trigger] (id_order())(b, c) implies (id_order())(a, c) by {
        lemma_bytes_le_trans(a, b, c);
    }
    assert forall|a: Seq<u8>, b: Seq<u8>| #[trigger] (id_order())(a, b) || #[trigger] (id_order())(b, a) by {
        lemma_bytes_le_total(a, b);
    }
}

/// An opaque commit identifier: a string of bytes, compared by value.
#[derive(Debug)]
pub struct CommitId {
    bytes: Vec<u8>,
}

impl View for CommitId {
    type V = Seq<u8>;

    closed spec fn view(&self) -> Seq<u8> {
        self.bytes@
    }
}

impl CommitId {
    /// Wraps the given bytes as a commit identifier.
    pub fn new(bytes: Vec<u8>) -> (r: CommitId)
        ensures
            r@ == bytes@,
    {
        CommitId { bytes }
    }

    /// Tells whether this identifier comes no later than `other` in byte order.
    pub fn is_at_most(&self, other: &CommitId) -> (r: bool)
        ensures
            r == bytes_le(self@, other@),
    {
        let mut i: usize = 0;
        assert(self@.skip(0) =~= self@);
        assert(other@.skip(0) =~= other@);
        while i < self.bytes.len() && i < other.bytes.len()
            invariant
                i <= self.bytes@.len(),
                i <= other.bytes@.len(),
                bytes_le(self@, other@) == bytes_le(self@.skip(i as int), other@.skip(i as int)),
            decreases self.bytes@.len() - i,
        {
            let x = self.bytes[i];
            let y = other.bytes[i];
            assert(self@.skip(i as int)[0] == x && other@.skip(i as int)[0] == y);
            if x != y {
                return x < y;
            }
            assert(self@.skip(i as int).drop_first() =~= self@.skip(i + 1));
            assert(other@.skip(i as int).drop_first() =~= other@.skip(i + 1));
            i = i + 1;
        }
        i == self.bytes.len()
    }

    /// The bytes of the identifier.
    pub fn as_bytes(&self) -> (r: &[u8])
        ensures
            r@ == self@,
    {
        self.bytes.as_slice()
    }
}

impl Clone for CommitId {
    fn clone(&self) -> (r: CommitId)
        ensures
            r@ == self@,
    {
        let mut bytes: Vec<u8> = Vec::with_capacity(self.bytes.len());
        let mut i: usize = 0;
        while i < self.bytes.len()
            invariant
                i <= self.bytes@.len(),
                bytes@ == self.bytes@.subrange(0, i as int),
            decreases self.bytes@.len() - i,
        {
            bytes.push(self.bytes[i]);
            i = i + 1;
        }
        assert(bytes@ =~= self.bytes@);
        CommitId { bytes }
    }
}

impl PartialEq for CommitId {
    fn eq(&self, other: &CommitId) -> (r: bool)
        ensures
            r == (self@ == other@),
    {
        if self.bytes.len() != other.bytes.len() {
            return false;
        }
        let mut i: usize = 0;
        while i < self.bytes.len()
            invariant
                self.bytes@.len() == other.bytes@.len(),
                i <= self.bytes@.len(),
                self.bytes@.subrange(0, i as int) =~= other.bytes@.subrange(0, i as int),
            decreases self.bytes@.len() - i,
        {
            if self.bytes[i] != other.bytes[i] {
                return false;
            }
            i = i + 1;
            assert(self.bytes@.subrange(0, i as int) =~= other.bytes@.subrange(0, i as int));
        }
        assert(self.bytes@ =~= self.bytes@.subrange(0, i as int));
        assert(other.bytes@ =~= other.bytes@.subrange(0, i as int));
        true
    }
}

impl vstd::std_specs::cmp::PartialEqSpecImpl for CommitId {
    open spec fn obeys_eq_spec() -> bool {
        true
    }

    open spec fn eq_spec(&self, other: &CommitId) -> bool {
        self@ == other@
    }
}

impl Eq for CommitId {

}

} // verus!
