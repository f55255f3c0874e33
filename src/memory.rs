//! An in-memory segment, and a weight that matches one of its posting lists
//! with a constant score.
use vstd::prelude::*;

use crate::alive::AliveBitSet;
use crate::docset::{
    current_doc, docs_of, entries_valid, lemma_step_valid, DocId, DocSet, Entry, TERMINATED,
};
use crate::explanation::Explanation;
use crate::score::Score;
use crate::vec_scorer::VecScorer;
use crate::weight::{is_read_error, matches_doc, unit_boost, SearchError, SegmentReader, Weight};

verus! {

/// A segment held in memory: posting lists of document identifiers, by
/// key, and the liveness set when the segment has deletions.
pub struct MemorySegment {
    postings: Vec<Vec<DocId>>,
    alive: Option<AliveBitSet>,
}

impl MemorySegment {
    /// The posting list under `key`; empty where there is none.
    pub closed spec fn postings_spec(&self, key: usize) -> Seq<DocId> {
        if key < self.postings@.len() {
            self.postings@[key as int]@
        } else {
            Seq::empty()
        }
    }

    pub fn new(postings: Vec<Vec<DocId>>, alive: Option<AliveBitSet>) -> (r: MemorySegment)
        ensures
            forall|k: usize| #[trigger] r.postings_spec(k) == if k < postings@.len() {
                postings@[k as int]@
            } else {
                Seq::empty()
            },
            r.alive_spec() == alive,
    {
        MemorySegment { postings, alive }
    }

    /// A copy of the posting list under `key`.
    pub fn postings(&self, key: usize) -> (r: Vec<DocId>)
        ensures
            r@ == self.postings_spec(key),
    {
        if key < self.postings.len() {
            self.postings[key].clone()
        } else {
            Vec::new()
        }
    }
}

impl SegmentReader for MemorySegment {
    closed spec fn alive_spec(&self) -> Option<AliveBitSet> {
        self.alive
    }

    fn alive_bitset(&self) -> (r: Option<&AliveBitSet>) {
        match &self.alive {
            Some(a) => Some(a),
            None => None,
        }
    }
}

/// Matches the documents of one posting list, each scored with the boost.
pub struct ConstScoreWeight {
    pub key: usize,
}

/// Whether a posting list is well formed: strictly increasing, below the
/// sentinel.
pub open spec fn postings_valid(list: Seq<DocId>) -> bool {
    &&& forall|k: int| 0 <= k < list.len() ==> #[trigger] list[k] < TERMINATED
    &&& forall|k: int| 0 <= k < list.len() - 1 ==> #[trigger] list[k] < list[k + 1]
}

/// Each document of `docs`, scored `score`.
pub open spec fn const_entries(docs: Seq<DocId>, score: Score) -> Seq<Entry> {
    docs.map_values(|d: DocId| (d, score))
}

impl Weight for ConstScoreWeight {
    type Segment = MemorySegment;

    type Cursor = VecScorer;

    open spec fn matches(&self, segment: &MemorySegment, boost: Score) -> Seq<Entry> {
        const_entries(segment.postings_spec(self.key), boost)
    }

    /// Readable when its posting list is well formed.
    open spec fn readable(&self, segment: &MemorySegment) -> bool {
        postings_valid(segment.postings_spec(self.key))
    }

    open spec fn read_error(&self, segment: &MemorySegment) -> Seq<char> {
        "posting list out of order"@
    }

    proof fn lemma_matches_consistent(&self, segment: &MemorySegment, boost: Score) {
        let list = segment.postings_spec(self.key);
        assert(docs_of(const_entries(list, boost)) =~= list);
        assert(docs_of(const_entries(list, unit_boost())) =~= list);
        lemma_const_entries_valid(list, boost);
    }

    fn scorer(&self, segment: &MemorySegment, boost: Score) -> (r: Result<VecScorer, SearchError>) {
        let docs = segment.postings(self.key);
        let ghost list = docs@;
        let mut scores: Vec<Score> = Vec::new();
        let mut i: usize = 0;
        while i < docs.len()
            invariant
                i <= docs@.len(),
                scores@.len() == i,
                forall|k: int| 0 <= k < i ==> #[trigger] scores@[k] == boost,
            decreases docs@.len() - i,
        {
            scores.push(boost);
            i = i + 1;
        }
        let ghost wanted = const_entries(list, boost);
        proof {
            lemma_const_entries_valid(list, boost);
        }
        match VecScorer::new(docs, scores) {
            Some(c) => {
                proof {
                    assert(c.remaining() =~= wanted);
                }
                Ok(c)
            },
            None => {
                let message = "posting list out of order".to_string();
                proof {
                    reveal_strlit("posting list out of order");
                }
                Err(SearchError::SegmentAccess(message))
            },
        }
    }

    fn explain(&self, segment: &MemorySegment, doc: DocId) -> (r: Result<Explanation, SearchError>) {
        let mut scorer = match self.scorer(segment, Score::one()) {
            Ok(c) => c,
            Err(e) => {
                return Err(e);
            },
        };
        let ghost start = scorer.remaining();
        let mut current = scorer.doc();
        while current < doc && current != TERMINATED
            invariant
                entries_valid(scorer.remaining()),
                current == current_doc(scorer.remaining()),
                docs_of(start).contains(doc) == docs_of(scorer.remaining()).contains(doc),
            decreases scorer.remaining().len(),
        {
            let ghost rest = scorer.remaining();
            proof {
                lemma_step_valid(rest);
                lemma_contains_after_first(rest, doc);
            }
            current = scorer.advance();
        }
        proof {
            let rest = scorer.remaining();
            if rest.len() > 0 {
                assert(docs_of(rest)[0] == current);
                if current != doc {
                    lemma_all_above(rest, doc);
                }
            } else {
                assert(docs_of(rest) =~= Seq::<DocId>::empty());
            }
        }
        if current == doc && current != TERMINATED {
            Ok(Explanation::new("constant score".to_string(), Score::one()))
        } else {
            Err(SearchError::NotMatched(doc))
        }
    }
}

/// Constant-score entries are valid exactly when their documents increase
/// from each to the next and stay below the sentinel.
proof fn lemma_const_entries_valid(list: Seq<DocId>, score: Score)
    ensures
        entries_valid(const_entries(list, score)) <==> {
            &&& forall|k: int| 0 <= k < list.len() ==> #[trigger] list[k] < TERMINATED
            &&& forall|k: int| 0 <= k < list.len() - 1 ==> #[trigger] list[k] < list[k + 1]
        },
{
    let wanted = const_entries(list, score);
    let sorted = forall|k: int| 0 <= k < list.len() - 1 ==> #[trigger] list[k] < list[k + 1];
    if sorted {
        assert forall|a: int, b: int| 0 <= a < b < wanted.len() implies #[trigger] wanted[a].0
            < #[trigger] wanted[b].0 by {
            lemma_sorted_pairs(list, a, b);
        }
    }
    if entries_valid(wanted) {
        assert forall|k: int| 0 <= k < list.len() - 1 implies #[trigger] list[k] < list[k + 1] by {
            assert(wanted[k].0 < wanted[k + 1].0);
        }
        assert forall|k: int| 0 <= k < list.len() implies #[trigger] list[k] < TERMINATED by {
            assert(wanted[k].0 < TERMINATED);
        }
    }
}

proof fn lemma_sorted_pairs(list: Seq<DocId>, a: int, b: int)
    requires
        forall|k: int| 0 <= k < list.len() - 1 ==> #[trigger] list[k] < list[k + 1],
        0 <= a < b < list.len(),
    ensures
        list[a] < list[b],
    decreases b - a,
{
    if b > a + 1 {
        lemma_sorted_pairs(list, a, b - 1);
        assert(list[b - 1] < list[b]);
    }
}

/// Dropping a first entry whose document is not `doc` keeps whether `doc`
/// is among the documents.
proof fn lemma_contains_after_first(entries: Seq<Entry>, doc: DocId)
    requires
        entries.len() > 0,
        entries[0].0 != doc,
    ensures
        docs_of(entries).contains(doc) == docs_of(entries.drop_first()).contains(doc),
{
    let all = docs_of(entries);
    let rest = docs_of(entries.drop_first());
    if all.contains(doc) {
        let i = choose|i: int| 0 <= i < all.len() && all[i] == doc;
        assert(rest[i - 1] == doc);
    }
    if rest.contains(doc) {
        let i = choose|i: int| 0 <= i < rest.len() && rest[i] == doc;
        assert(all[i + 1] == doc);
    }
}

/// Valid entries whose first document is above `doc` do not hold it.
proof fn lemma_all_above(entries: Seq<Entry>, doc: DocId)
    requires
        entries_valid(entries),
        entries.len() > 0,
        entries[0].0 > doc,
    ensures
        !docs_of(entries).contains(doc),
{
    let all = docs_of(entries);
    if all.contains(doc) {
        let i = choose|i: int| 0 <= i < all.len() && all[i] == doc;
        if i > 0 {
            assert(entries[0].0 < entries[i].0);
        }
    }
}

} // verus!
