//! A scoring cursor over matches held in memory.
use vstd::prelude::*;

use crate::docset::{entries_valid, DocId, DocSet, Entry, Scorer, TERMINATED};
use crate::score::Score;

verus! {

/// A scoring cursor over a list of documents and their scores.
pub struct VecScorer {
    entries: Vec<Entry>,
    cursor: usize,
}

impl VecScorer {
    /// A cursor over `docs`, each scored by the score at the same position,
    /// standing at the first of them. `None` when the two lists differ in
    /// length, or the documents are not strictly increasing and all below
    /// the sentinel.
    pub fn new(docs: Vec<DocId>, scores: Vec<Score>) -> (r: Option<VecScorer>)
        ensures
            r is Some <==> {
                &&& docs@.len() == scores@.len()
                &&& forall|i: int| 0 <= i < docs@.len() ==> #[trigger] docs@[i] < TERMINATED
                &&& forall|i: int| 0 <= i < docs@.len() - 1 ==> #[trigger] docs@[i] < docs@[i + 1]
            },
            r matches Some(s) ==> s.remaining().len() == docs@.len() && forall|i: int|
                0 <= i < docs@.len() ==> #[trigger] s.remaining()[i] == (docs@[i], scores@[i]),
    {
        if docs.len() != scores.len() {
            return None;
        }
        let mut entries: Vec<Entry> = Vec::new();
        let mut i: usize = 0;
        while i < docs.len()
            invariant
                docs@.len() == scores@.len(),
                i <= docs@.len(),
                entries@.len() == i,
                forall|k: int| 0 <= k < i ==> #[trigger] entries@[k] == (docs@[k], scores@[k]),
                forall|k: int| 0 <= k < i ==> #[trigger] docs@[k] < TERMINATED,
                forall|k: int| 0 <= k < i - 1 ==> #[trigger] docs@[k] < docs@[k + 1],
            decreases docs@.len() - i,
        {
            let d = docs[i];
            if d >= TERMINATED || (i > 0 && docs[i - 1] >= d) {
                return None;
            }
            entries.push((d, scores[i]));
            i = i + 1;
        }
        let r = VecScorer { entries, cursor: 0 };
        proof {
            assert(r.entries@.subrange(0, r.entries@.len() as int) =~= r.entries@);
        }
        Some(r)
    }
}

impl DocSet for VecScorer {
    closed spec fn remaining(&self) -> Seq<Entry> {
        if self.cursor < self.entries@.len() {
            self.entries@.subrange(self.cursor as int, self.entries@.len() as int)
        } else {
            Seq::empty()
        }
    }

    fn doc(&self) -> (r: DocId) {
        if self.cursor < self.entries.len() {
            self.entries[self.cursor].0
        } else {
            TERMINATED
        }
    }

    fn advance(&mut self) -> (r: DocId) {
        if self.cursor < self.entries.len() {
            self.cursor = self.cursor + 1;
        }
        let r = if self.cursor < self.entries.len() {
            self.entries[self.cursor].0
        } else {
            TERMINATED
        };
        proof {
            let before = old(self).remaining();
            if before.len() > 0 {
                assert(self.remaining() =~= before.drop_first());
                if self.remaining().len() > 0 {
                    assert(self.remaining()[0] == before[1]);
                }
            }
        }
        r
    }
}

impl Scorer for VecScorer {
    fn score(&mut self) -> (r: Score) {
        self.entries[self.cursor].1
    }
}

} // verus!
