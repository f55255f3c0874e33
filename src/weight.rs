//! The specialization of a query for the segments of an index: it builds
//! scoring cursors, and from them counts, explains and iterates matches.
use vstd::prelude::*;

use crate::alive::AliveBitSet;
use crate::docset::{count_alive, docs_of, entries_valid, DocId, DocSet, Entry, Scorer};
use crate::explanation::Explanation;
use crate::score::{Score, ONE_BITS};
use crate::traversal::{
    for_each_docset, for_each_pruning_scorer, for_each_scorer, pruning_trace, DocCallback,
    PruningCallback, ScoredCallback,
};

verus! {

/// Why a query could not be run on a segment.
#[derive(Clone, Debug, PartialEq, Eq)]
pub enum SearchError {
    /// The segment's data could not be read or decoded.
    SegmentAccess(String),
    /// The document does not match the query in that segment.
    NotMatched(DocId),
}

/// Read access to one segment of an index, as far as this core needs it.
pub trait SegmentReader {
    /// The segment's liveness set, if it has deleted documents.
    spec fn alive_spec(&self) -> Option<AliveBitSet>;

    fn alive_bitset(&self) -> (r: Option<&AliveBitSet>)
        ensures
            r is Some == self.alive_spec() is Some,
            r matches Some(a) ==> *a == self.alive_spec()->0,
    ;
}

/// The boost that leaves scores as they are.
pub open spec fn unit_boost() -> Score {
    Score { bits: ONE_BITS }
}

/// How many matches a count reports: those alive in `alive` when the segment
/// has deletions, else all of them.
pub open spec fn count_matches(entries: Seq<Entry>, alive: Option<AliveBitSet>) -> nat {
    match alive {
        Some(a) => count_alive(entries, a),
        None => entries.len(),
    }
}

/// Whether `doc` is among the documents of `entries`.
pub open spec fn matches_doc(entries: Seq<Entry>, doc: DocId) -> bool {
    docs_of(entries).contains(doc)
}

/// Whether `e` is the segment-access error with text `message`.
pub open spec fn is_read_error(e: SearchError, message: Seq<char>) -> bool {
    match e {
        SearchError::SegmentAccess(m) => m@ == message,
        _ => false,
    }
}

/// A query compiled for the segments of one index: immutable, and shared
/// across the threads that search different segments.
pub trait Weight: Send + Sync {
    /// The segments that this weight runs on.
    type Segment: SegmentReader;

    /// The scoring cursors it builds.
    type Cursor: Scorer;

    /// The matches of the query in `segment`, in document order, with their
    /// scores multiplied by `boost`.
    spec fn matches(&self, segment: &Self::Segment, boost: Score) -> Seq<Entry>;

    /// Whether the data of `segment` that this weight reads can be read and
    /// decoded.
    spec fn readable(&self, segment: &Self::Segment) -> bool;

    /// The text of the segment-access error when it cannot.
    spec fn read_error(&self, segment: &Self::Segment) -> Seq<char>;

    /// The boost changes scores only: every boost gives the same documents,
    /// valid whenever the segment is readable.
    proof fn lemma_matches_consistent(&self, segment: &Self::Segment, boost: Score)
        ensures
            docs_of(self.matches(segment, boost)) == docs_of(
                self.matches(segment, unit_boost()),
            ),
            self.readable(segment) ==> entries_valid(self.matches(segment, boost)),
    ;

    /// A cursor over the matches in `segment`, scored with `boost`; the
    /// segment-access error when the segment cannot be read.
    fn scorer(&self, segment: &Self::Segment, boost: Score) -> (r: Result<
        Self::Cursor,
        SearchError,
    >)
        ensures
            r is Ok <==> self.readable(segment),
            r matches Ok(c) ==> entries_valid(c.remaining()) && c.remaining() == self.matches(
                segment,
                boost,
            ),
            r matches Err(e) ==> is_read_error(e, self.read_error(segment)),
    ;

    /// How the score of `doc` comes about. A document that does not match
    /// gets an error, never an explanation: [`SearchError::NotMatched`]
    /// when the segment is readable, else the segment-access error.
    fn explain(&self, segment: &Self::Segment, doc: DocId) -> (r: Result<
        Explanation,
        SearchError,
    >)
        ensures
            r is Ok ==> matches_doc(self.matches(segment, unit_boost()), doc),
            self.readable(segment) ==> (r is Ok <==> matches_doc(
                self.matches(segment, unit_boost()),
                doc,
            )),
            self.readable(segment) && !matches_doc(self.matches(segment, unit_boost()), doc)
                ==> r == Err::<Explanation, SearchError>(SearchError::NotMatched(doc)),
            !self.readable(segment) ==> (r matches Err(e) && is_read_error(
                e,
                self.read_error(segment),
            )),
    ;

    /// Number of matches in `segment` that are not deleted.
    fn count(&self, segment: &Self::Segment) -> (r: Result<u32, SearchError>)
        ensures
            r is Ok <==> self.readable(segment),
            r is Ok ==> entries_valid(self.matches(segment, unit_boost())),
            r matches Err(e) ==> is_read_error(e, self.read_error(segment)),
            r matches Ok(n) ==> n == count_matches(
                self.matches(segment, unit_boost()),
                segment.alive_spec(),
            ),
    {
        match self.scorer(segment, Score::one()) {
            Ok(mut scorer) => match segment.alive_bitset() {
                Some(alive) => Ok(scorer.count(alive)),
                None => Ok(scorer.count_including_deleted()),
            },
            Err(e) => Err(e),
        }
    }

    /// Calls `callback` with every match in `segment` and its score, in
    /// document order. On error the callback is never called.
    fn for_each<C: ScoredCallback>(&self, segment: &Self::Segment, callback: &mut C) -> (r: Result<
        (),
        SearchError,
    >)
        ensures
            r is Ok <==> self.readable(segment),
            r is Ok ==> entries_valid(self.matches(segment, unit_boost())),
            r matches Err(e) ==> is_read_error(e, self.read_error(segment)),
            r is Ok ==> final(callback).received() == old(callback).received() + self.matches(
                segment,
                unit_boost(),
            ),
            r is Err ==> *final(callback) == *old(callback),
    {
        match self.scorer(segment, Score::one()) {
            Ok(mut scorer) => {
                for_each_scorer(&mut scorer, callback);
                Ok(())
            },
            Err(e) => Err(e),
        }
    }

    /// Calls `callback` with every matching document in `segment`, in
    /// order, without computing any score. On error the callback is never
    /// called.
    fn for_each_no_score<C: DocCallback>(&self, segment: &Self::Segment, callback: &mut C) -> (r:
        Result<(), SearchError>)
        ensures
            r is Ok <==> self.readable(segment),
            r is Ok ==> entries_valid(self.matches(segment, unit_boost())),
            r matches Err(e) ==> is_read_error(e, self.read_error(segment)),
            r is Ok ==> final(callback).received() == old(callback).received() + docs_of(
                self.matches(segment, unit_boost()),
            ),
            r is Err ==> *final(callback) == *old(callback),
    {
        match self.scorer(segment, Score::one()) {
            Ok(mut scorer) => {
                for_each_docset(&mut scorer, callback);
                Ok(())
            },
            Err(e) => Err(e),
        }
    }

    /// Calls `callback` with each match in `segment` whose score is greater
    /// than the threshold in force, which starts at `threshold` and is then
    /// the callback's last answer. On error the callback is never called.
    fn for_each_pruning<C: PruningCallback>(
        &self,
        threshold: Score,
        segment: &Self::Segment,
        callback: &mut C,
    ) -> (r: Result<(), SearchError>)
        ensures
            r is Ok <==> self.readable(segment),
            r is Ok ==> entries_valid(self.matches(segment, unit_boost())),
            r matches Err(e) ==> is_read_error(e, self.read_error(segment)),
            r is Ok ==> {
                &&& final(callback).received().len() >= old(callback).received().len()
                &&& final(callback).received().subrange(0, old(callback).received().len() as int)
                    == old(callback).received()
                &&& pruning_trace(
                    self.matches(segment, unit_boost()),
                    threshold,
                    final(callback).received().skip(old(callback).received().len() as int),
                )
            },
            r is Err ==> *final(callback) == *old(callback),
    {
        match self.scorer(segment, Score::one()) {
            Ok(mut scorer) => {
                for_each_pruning_scorer(&mut scorer, threshold, callback);
                Ok(())
            },
            Err(e) => Err(e),
        }
    }
}

} // verus!
