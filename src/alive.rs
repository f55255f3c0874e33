//! The liveness set of a segment: which of its documents are not deleted.
use vstd::prelude::*;

use crate::docset::DocId;

verus! {

/// Marks, for each document of a segment, whether it is still alive.
pub struct AliveBitSet {
    alive: Vec<bool>,
}

impl AliveBitSet {
    /// One flag per document of the segment, `true` where it is alive.
    pub closed spec fn view(&self) -> Seq<bool> {
        self.alive@
    }

    /// Whether `doc` is alive: documents past the segment's end are not.
    pub open spec fn alive_spec(&self, doc: DocId) -> bool {
        doc < self.view().len() && self.view()[doc as int]
    }

    /// A segment of `max_doc` documents, all alive but those in `deleted`.
    pub fn from_deleted_docs(deleted: &[DocId], max_doc: u32) -> (r: AliveBitSet)
        ensures
            r.view().len() == max_doc,
            forall|d: DocId| d < max_doc ==> (#[trigger] r.alive_spec(d) <==> !deleted@.contains(d)),
    {
        let mut alive: Vec<bool> = Vec::new();
        let mut i: u32 = 0;
        while i < max_doc
            invariant
                i <= max_doc,
                alive@.len() == i,
                forall|j: int| 0 <= j < i ==> alive@[j],
            decreases max_doc - i,
        {
            alive.push(true);
            i = i + 1;
        }
        let mut k: usize = 0;
        while k < deleted.len()
            invariant
                k <= deleted@.len(),
                alive@.len() == max_doc,
                forall|d: DocId|
                    d < max_doc ==> (alive@[d as int] <==> !(#[trigger] deleted@.subrange(
                        0,
                        k as int,
                    ).contains(d))),
            decreases deleted@.len() - k,
        {
            let d = deleted[k];
            let ghost before = alive@;
            if d < max_doc {
                alive.set(d as usize, false);
            }
            let ghost seen = deleted@.subrange(0, k as int);
            assert(deleted@.subrange(0, k + 1) =~= seen.push(d));
            assert forall|e: DocId| e < max_doc implies (alive@[e as int] <==> !(
            #[trigger] deleted@.subrange(0, k + 1).contains(e))) by {
                let grown = seen.push(d);
                if grown.contains(e) {
                    let i = choose|i: int| 0 <= i < grown.len() && grown[i] == e;
                    if i < seen.len() {
                        assert(seen[i] == e);
                    }
                }
                if seen.contains(e) {
                    let i = choose|i: int| 0 <= i < seen.len() && seen[i] == e;
                    assert(grown[i] == e);
                }
                assert(grown[seen.len() as int] == d);
            }
            k = k + 1;
        }
        assert(deleted@.subrange(0, deleted@.len() as int) =~= deleted@);
        AliveBitSet { alive }
    }

    /// Whether `doc` is alive.
    pub fn is_alive(&self, doc: DocId) -> (r: bool)
        ensures
            r == self.alive_spec(doc),
    {
        (doc as usize) < self.alive.len() && self.alive[doc as usize]
    }

    /// Whether `doc` is deleted: the negation of [`AliveBitSet::is_alive`].
    pub fn is_deleted(&self, doc: DocId) -> (r: bool)
        ensures
            r == !self.alive_spec(doc),
    {
        !self.is_alive(doc)
    }
}

} // verus!
