//! The three ways of draining a cursor into a callback: every match with its
//! score, every match without scoring, and matches above a moving threshold.
use vstd::prelude::*;

use crate::docset::{
    current_doc, docs_of, entries_valid, lemma_step_valid, step, DocId, DocSet, Entry, Scorer,
    TERMINATED,
};
use crate::score::Score;

verus! {

/// A call made by the pruning traversal: the document, its score, and the
/// threshold that the callback answered with.
pub type PruningCall = (DocId, Score, Score);

/// Receives each matching document.
pub trait DocCallback {
    /// The documents received so far, oldest first.
    spec fn received(&self) -> Seq<DocId>;

    fn call(&mut self, doc: DocId)
        ensures
            final(self).received() == old(self).received().push(doc),
    ;
}

/// Receives each matching document with its score.
pub trait ScoredCallback {
    /// The matches received so far, oldest first.
    spec fn received(&self) -> Seq<Entry>;

    fn call(&mut self, doc: DocId, score: Score)
        ensures
            final(self).received() == old(self).received().push((doc, score)),
    ;
}

/// Receives a match that beat the threshold and answers with the threshold
/// to use from then on.
pub trait PruningCallback {
    /// The calls received so far, oldest first, with the answers given.
    spec fn received(&self) -> Seq<PruningCall>;

    fn call(&mut self, doc: DocId, score: Score) -> (r: Score)
        ensures
            final(self).received() == old(self).received().push((doc, score, r)),
    ;
}

/// Whether `calls` is what the pruning traversal makes over `entries` when
/// it starts at `threshold`: an entry whose score is greater than the
/// threshold in force gives a call, whose answer becomes the threshold;
/// any other entry gives none.
pub open spec fn pruning_trace(entries: Seq<Entry>, threshold: Score, calls: Seq<PruningCall>) -> bool
    decreases entries.len(),
{
    if entries.len() == 0 {
        calls.len() == 0
    } else if entries[0].1.gt_spec(threshold) {
        &&& calls.len() > 0
        &&& calls[0].0 == entries[0].0
        &&& calls[0].1 == entries[0].1
        &&& pruning_trace(entries.drop_first(), calls[0].2, calls.drop_first())
    } else {
        pruning_trace(entries.drop_first(), threshold, calls)
    }
}

/// Calls `callback` with every remaining match of `scorer` and its score,
/// in order, and leaves the cursor at the sentinel.
pub fn for_each_scorer<S: Scorer, C: ScoredCallback>(scorer: &mut S, callback: &mut C)
    requires
        entries_valid(old(scorer).remaining()),
    ensures
        final(callback).received() == old(callback).received() + old(scorer).remaining(),
        final(scorer).remaining().len() == 0,
{
    let ghost start = scorer.remaining();
    let ghost before = callback.received();
    let mut doc = scorer.doc();
    while doc != TERMINATED
        invariant
            entries_valid(scorer.remaining()),
            doc == current_doc(scorer.remaining()),
            start == start.subrange(0, start.len() - scorer.remaining().len())
                + scorer.remaining(),
            callback.received() == before + start.subrange(
                0,
                start.len() - scorer.remaining().len(),
            ),
            scorer.remaining().len() <= start.len(),
        decreases scorer.remaining().len(),
    {
        let ghost rest = scorer.remaining();
        let ghost done = start.subrange(0, start.len() - rest.len());
        let score = scorer.score();
        callback.call(doc, score);
        proof {
            lemma_step_valid(rest);
            assert(start.subrange(0, start.len() - rest.len() + 1) =~= done.push(rest[0]));
            assert(start =~= done.push(rest[0]) + rest.drop_first());
        }
        doc = scorer.advance();
        proof {
            assert(before + done.push(rest[0]) =~= (before + done).push((rest[0].0, rest[0].1)));
        }
    }
    proof {
        assert(start.subrange(0, start.len() as int) =~= start);
    }
}

/// Calls `callback` with every remaining document of `docset`, in order,
/// and leaves the cursor at the sentinel. No score is ever asked for.
pub fn for_each_docset<D: DocSet, C: DocCallback>(docset: &mut D, callback: &mut C)
    requires
        entries_valid(old(docset).remaining()),
    ensures
        final(callback).received() == old(callback).received() + docs_of(old(docset).remaining()),
        final(docset).remaining().len() == 0,
{
    let ghost start = docset.remaining();
    let ghost before = callback.received();
    let mut doc = docset.doc();
    while doc != TERMINATED
        invariant
            entries_valid(docset.remaining()),
            doc == current_doc(docset.remaining()),
            start == start.subrange(0, start.len() - docset.remaining().len())
                + docset.remaining(),
            callback.received() == before + docs_of(
                start.subrange(0, start.len() - docset.remaining().len()),
            ),
            docset.remaining().len() <= start.len(),
        decreases docset.remaining().len(),
    {
        let ghost rest = docset.remaining();
        let ghost done = start.subrange(0, start.len() - rest.len());
        callback.call(doc);
        proof {
            lemma_step_valid(rest);
            assert(start.subrange(0, start.len() - rest.len() + 1) =~= done.push(rest[0]));
            assert(start =~= done.push(rest[0]) + rest.drop_first());
            assert(docs_of(done.push(rest[0])) =~= docs_of(done).push(rest[0].0));
            assert(before + docs_of(done).push(rest[0].0) =~= (before + docs_of(done)).push(
                rest[0].0,
            ));
        }
        doc = docset.advance();
    }
    proof {
        assert(start.subrange(0, start.len() as int) =~= start);
    }
}

/// Calls `callback` with each remaining match of `scorer` whose score is
/// greater than the threshold in force, which starts at `threshold` and is
/// then whatever the callback last answered. Every match is visited; the
/// cursor ends at the sentinel.
pub fn for_each_pruning_scorer<S: Scorer, C: PruningCallback>(
    scorer: &mut S,
    threshold: Score,
    callback: &mut C,
)
    requires
        entries_valid(old(scorer).remaining()),
    ensures
        final(callback).received().len() >= old(callback).received().len(),
        final(callback).received().subrange(0, old(callback).received().len() as int)
            == old(callback).received(),
        pruning_trace(
            old(scorer).remaining(),
            threshold,
            final(callback).received().skip(old(callback).received().len() as int),
        ),
        final(scorer).remaining().len() == 0,
{
    let ghost start = scorer.remaining();
    let ghost before = callback.received();
    let mut threshold = threshold;
    let ghost first_threshold = threshold;
    let mut doc = scorer.doc();
    while doc != TERMINATED
        invariant
            entries_valid(scorer.remaining()),
            doc == current_doc(scorer.remaining()),
            callback.received().len() >= before.len(),
            callback.received().subrange(0, before.len() as int) == before,
            forall|later: Seq<PruningCall>|
                pruning_trace(start, first_threshold, callback.received().skip(before.len() as int) + later)
                    == #[trigger] pruning_trace(scorer.remaining(), threshold, later),
        decreases scorer.remaining().len(),
    {
        let ghost rest = scorer.remaining();
        let ghost done = callback.received().skip(before.len() as int);
        let ghost old_threshold = threshold;
        let score = scorer.score();
        if score.is_greater_than(&threshold) {
            threshold = callback.call(doc, score);
            proof {
                let call = (doc, score, threshold);
                assert(callback.received().skip(before.len() as int) =~= done.push(call));
                assert(callback.received().subrange(0, before.len() as int) =~= before);
                assert forall|later: Seq<PruningCall>|
                    pruning_trace(start, first_threshold, done.push(call) + later)
                        == #[trigger] pruning_trace(rest.drop_first(), threshold, later) by {
                    let longer = seq![call] + later;
                    assert(done + longer =~= done.push(call) + later);
                    assert(longer.drop_first() =~= later);
                    assert(pruning_trace(rest, old_threshold, longer) == pruning_trace(
                        rest.drop_first(),
                        threshold,
                        later,
                    ));
                }
            }
        } else {
            proof {
                assert forall|later: Seq<PruningCall>|
                    pruning_trace(start, first_threshold, done + later)
                        == #[trigger] pruning_trace(rest.drop_first(), threshold, later) by {
                    assert(pruning_trace(rest, old_threshold, later) == pruning_trace(
                        rest.drop_first(),
                        threshold,
                        later,
                    ));
                }
            }
        }
        proof {
            lemma_step_valid(rest);
        }
        doc = scorer.advance();
    }
    proof {
        let done = callback.received().skip(before.len() as int);
        assert(done + Seq::<PruningCall>::empty() =~= done);
        assert(pruning_trace(scorer.remaining(), threshold, Seq::<PruningCall>::empty()));
    }
}

} // verus!
