//! Callbacks that record what a traversal hands them.
use vstd::prelude::*;

use crate::docset::{DocId, Entry};
use crate::score::Score;
use crate::traversal::{DocCallback, PruningCall, PruningCallback, ScoredCallback};

verus! {

/// Records every document it receives.
pub struct DocCollector {
    docs: Vec<DocId>,
}

impl DocCollector {
    pub fn new() -> (r: DocCollector)
        ensures
            r.received().len() == 0,
    {
        DocCollector { docs: Vec::new() }
    }

    /// The documents received, oldest first.
    pub fn docs(&self) -> (r: &Vec<DocId>)
        ensures
            r@ == self.received(),
    {
        &self.docs
    }
}

impl DocCallback for DocCollector {
    closed spec fn received(&self) -> Seq<DocId> {
        self.docs@
    }

    fn call(&mut self, doc: DocId) {
        self.docs.push(doc);
    }
}

/// Records every match it receives, with its score.
pub struct ScoredCollector {
    entries: Vec<Entry>,
}

impl ScoredCollector {
    pub fn new() -> (r: ScoredCollector)
        ensures
            r.received().len() == 0,
    {
        ScoredCollector { entries: Vec::new() }
    }

    /// The matches received, oldest first.
    pub fn entries(&self) -> (r: &Vec<Entry>)
        ensures
            r@ == self.received(),
    {
        &self.entries
    }
}

impl ScoredCallback for ScoredCollector {
    closed spec fn received(&self) -> Seq<Entry> {
        self.entries@
    }

    fn call(&mut self, doc: DocId, score: Score) {
        self.entries.push((doc, score));
    }
}

/// The greater of two scores, `current` when neither is greater.
pub open spec fn raised(current: Score, score: Score) -> Score {
    if score.gt_spec(current) {
        score
    } else {
        current
    }
}

/// The threshold in force after `calls`, starting from `start`: the last
/// answer, or `start` before any call.
pub open spec fn last_answer(calls: Seq<PruningCall>, start: Score) -> Score {
    if calls.len() == 0 {
        start
    } else {
        calls.last().2
    }
}

/// Whether each answer in `calls` is the greater of the threshold in force
/// before it, starting from `start`, and the score of that call.
pub open spec fn answers_raise(calls: Seq<PruningCall>, start: Score) -> bool {
    forall|i: int|
        0 <= i < calls.len() ==> #[trigger] calls[i].2 == raised(
            last_answer(calls.take(i), start),
            calls[i].1,
        )
}

/// A pruning callback that keeps the best score so far as its threshold:
/// each call answers with the greater of the threshold and the score, and
/// is recorded with that answer.
pub struct MaxScoreCollector {
    start: Score,
    best: Score,
    calls: Vec<PruningCall>,
}

impl MaxScoreCollector {
    #[verifier::type_invariant]
    closed spec fn answers_follow_rule(&self) -> bool {
        &&& answers_raise(self.calls@, self.start)
        &&& self.best == last_answer(self.calls@, self.start)
    }

    /// The threshold it started from.
    pub closed spec fn start_spec(&self) -> Score {
        self.start
    }

    /// The threshold it answers with now.
    pub closed spec fn best_spec(&self) -> Score {
        self.best
    }

    /// A collector whose threshold starts at `threshold`.
    pub fn new(threshold: Score) -> (r: MaxScoreCollector)
        ensures
            r.received().len() == 0,
            r.start_spec() == threshold,
            r.best_spec() == threshold,
    {
        MaxScoreCollector { start: threshold, best: threshold, calls: Vec::new() }
    }

    /// The threshold it answers with now: the last answer, or the start
    /// before any call.
    pub fn best(&self) -> (r: Score)
        ensures
            r == self.best_spec(),
            r == last_answer(self.received(), self.start_spec()),
    {
        proof {
            use_type_invariant(self);
        }
        self.best
    }

    /// The calls received, oldest first, with the answers given: each
    /// answer is the greater of the threshold before it and the score of
    /// its call.
    pub fn calls(&self) -> (r: &Vec<PruningCall>)
        ensures
            r@ == self.received(),
            answers_raise(r@, self.start_spec()),
    {
        proof {
            use_type_invariant(self);
        }
        &self.calls
    }
}

impl PruningCallback for MaxScoreCollector {
    closed spec fn received(&self) -> Seq<PruningCall> {
        self.calls@
    }

    fn call(&mut self, doc: DocId, score: Score) -> (r: Score)
        ensures
            r == raised(old(self).best_spec(), score),
            final(self).best_spec() == r,
            final(self).start_spec() == old(self).start_spec(),
    {
        let mut taken = MaxScoreCollector::new(self.best);
        std::mem::swap(&mut taken, self);
        proof {
            use_type_invariant(&taken);
        }
        let start = taken.start;
        let best = if score.is_greater_than(&taken.best) {
            score
        } else {
            taken.best
        };
        let mut calls = taken.calls;
        let ghost before = calls@;
        calls.push((doc, score, best));
        proof {
            assert(calls@.take(before.len() as int) =~= before);
            assert forall|i: int| 0 <= i < calls@.len() implies #[trigger] calls@[i].2 == raised(
                last_answer(calls@.take(i), start),
                calls@[i].1,
            ) by {
                if i < before.len() {
                    assert(calls@.take(i) =~= before.take(i));
                    assert(calls@[i] == before[i]);
                }
            }
        }
        *self = MaxScoreCollector { start, best, calls };
        best
    }
}

} // verus!
