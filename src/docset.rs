//! Forward-only cursors over the matching documents of one segment.
use vstd::prelude::*;

use crate::alive::AliveBitSet;
use crate::score::Score;

verus! {

/// Identifier of a document within a segment.
pub type DocId = u32;

/// The sentinel that a cursor reports once it is exhausted; it is greater
/// than every real document identifier.
pub const TERMINATED: DocId = 0x7fff_ffff;

/// A match that a cursor has yet to report: the document and the score that
/// a scoring cursor gives it.
pub type Entry = (DocId, Score);

/// The documents of a sequence of entries, in order.
pub open spec fn docs_of(entries: Seq<Entry>) -> Seq<DocId> {
    entries.map_values(|e: Entry| e.0)
}

/// What a cursor may have ahead of it: documents strictly increasing and
/// all below the sentinel.
pub open spec fn entries_valid(entries: Seq<Entry>) -> bool {
    &&& forall|i: int| 0 <= i < entries.len() ==> #[trigger] entries[i].0 < TERMINATED
    &&& forall|i: int, j: int|
        0 <= i < j < entries.len() ==> #[trigger] entries[i].0 < #[trigger] entries[j].0
}

/// The document under a cursor whose remaining entries are `entries`.
pub open spec fn current_doc(entries: Seq<Entry>) -> DocId {
    if entries.len() == 0 {
        TERMINATED
    } else {
        entries[0].0
    }
}

/// The entries left after one step: the sentinel stays where it is.
pub open spec fn step(entries: Seq<Entry>) -> Seq<Entry> {
    if entries.len() == 0 {
        entries
    } else {
        entries.drop_first()
    }
}

/// How many of the entries name a document that `alive` holds.
pub open spec fn count_alive(entries: Seq<Entry>, alive: AliveBitSet) -> nat
    decreases entries.len(),
{
    if entries.len() == 0 {
        0
    } else {
        (if alive.alive_spec(entries[0].0) {
            1nat
        } else {
            0nat
        }) + count_alive(entries.drop_first(), alive)
    }
}

/// One step keeps the entries valid.
pub proof fn lemma_step_valid(entries: Seq<Entry>)
    requires
        entries_valid(entries),
    ensures
        entries_valid(step(entries)),
{
    if entries.len() > 0 {
        let t = entries.drop_first();
        assert forall|i: int, j: int| 0 <= i < j < t.len() implies #[trigger] t[i].0 < #[trigger] t[j].0 by {
            assert(t[i] == entries[i + 1] && t[j] == entries[j + 1]);
        }
        assert forall|i: int| 0 <= i < t.len() implies #[trigger] t[i].0 < TERMINATED by {
            assert(t[i] == entries[i + 1]);
        }
    }
}

/// The documents of valid entries are at least their positions, so there
/// are no more of them than the sentinel's value.
pub proof fn lemma_valid_len(entries: Seq<Entry>)
    requires
        entries_valid(entries),
    ensures
        entries.len() <= TERMINATED,
{
    if entries.len() > 0 {
        lemma_doc_at_least_index(entries, entries.len() - 1);
    }
}

proof fn lemma_doc_at_least_index(entries: Seq<Entry>, i: int)
    requires
        entries_valid(entries),
        0 <= i < entries.len(),
    ensures
        entries[i].0 >= i,
    decreases i,
{
    if i > 0 {
        lemma_doc_at_least_index(entries, i - 1);
        assert(entries[i - 1].0 < entries[i].0);
    }
}

/// A count over valid entries fits below the sentinel.
pub proof fn lemma_count_alive_bound(entries: Seq<Entry>, alive: AliveBitSet)
    ensures
        count_alive(entries, alive) <= entries.len(),
    decreases entries.len(),
{
    if entries.len() > 0 {
        lemma_count_alive_bound(entries.drop_first(), alive);
    }
}

/// The entries ahead of a cursor after `k` advances from `entries`.
pub open spec fn after_advances(entries: Seq<Entry>, k: nat) -> Seq<Entry>
    decreases k,
{
    if k == 0 {
        entries
    } else {
        step(after_advances(entries, (k - 1) as nat))
    }
}

proof fn lemma_after_advances_skip(entries: Seq<Entry>, k: nat)
    ensures
        after_advances(entries, k) == if k < entries.len() {
            entries.skip(k as int)
        } else {
            Seq::<Entry>::empty()
        },
    decreases k,
{
    if k == 0 {
        assert(entries.skip(0) =~= entries);
        if entries.len() == 0 {
            assert(entries =~= Seq::<Entry>::empty());
        }
    } else {
        lemma_after_advances_skip(entries, (k - 1) as nat);
        if k - 1 < entries.len() {
            assert(entries.skip(k - 1).drop_first() =~= entries.skip(k as int));
            if k == entries.len() {
                assert(entries.skip(k as int) =~= Seq::<Entry>::empty());
            }
        }
    }
}

/// Over any cursor, the documents that successive advances report are
/// strictly increasing; the sentinel comes after exactly as many advances
/// as the cursor had matches, and every later advance reports it again.
pub proof fn lemma_advances_increase(entries: Seq<Entry>, i: nat, j: nat)
    requires
        entries_valid(entries),
        i < j,
    ensures
        (current_doc(after_advances(entries, i)) == TERMINATED) == (i >= entries.len()),
        i < entries.len() ==> current_doc(after_advances(entries, i)) < current_doc(
            after_advances(entries, j),
        ),
        i >= entries.len() ==> current_doc(after_advances(entries, j)) == TERMINATED,
{
    lemma_after_advances_skip(entries, i);
    lemma_after_advances_skip(entries, j);
    if i < entries.len() {
        assert(entries.skip(i as int)[0] == entries[i as int]);
        if j < entries.len() {
            assert(entries.skip(j as int)[0] == entries[j as int]);
        }
    }
}

/// A forward-only cursor over the documents that match a query in one
/// segment, in increasing order, ending at [`TERMINATED`].
pub trait DocSet {
    /// The entries still ahead of the cursor, the current one first; empty
    /// once the cursor stands at the sentinel.
    spec fn remaining(&self) -> Seq<Entry>;

    /// The current document, or [`TERMINATED`].
    fn doc(&self) -> (r: DocId)
        requires
            entries_valid(self.remaining()),
        ensures
            r == current_doc(self.remaining()),
    ;

    /// Moves to the next match and returns it, or [`TERMINATED`].
    ///
    /// Each call returns a document strictly greater than the one before,
    /// and once the sentinel is reached every further call returns it again.
    fn advance(&mut self) -> (r: DocId)
        requires
            entries_valid(old(self).remaining()),
        ensures
            final(self).remaining() == step(old(self).remaining()),
            r == current_doc(final(self).remaining()),
            current_doc(old(self).remaining()) != TERMINATED ==> r > current_doc(
                old(self).remaining(),
            ),
            current_doc(old(self).remaining()) == TERMINATED ==> r == TERMINATED,
    ;

    /// Number of remaining matches whose documents `alive` holds.
    ///
    /// By default a full walk that leaves the cursor at the sentinel.
    fn count(&mut self, alive: &AliveBitSet) -> (r: u32)
        requires
            entries_valid(old(self).remaining()),
        ensures
            r == count_alive(old(self).remaining(), *alive),
        default_ensures
            final(self).remaining().len() == 0,
    {
        let ghost start = self.remaining();
        let mut n: u32 = 0;
        let mut doc = self.doc();
        proof {
            lemma_valid_len(start);
            lemma_count_alive_bound(start, *alive);
        }
        while doc != TERMINATED
            invariant
                entries_valid(self.remaining()),
                doc == current_doc(self.remaining()),
                n + count_alive(self.remaining(), *alive) == count_alive(start, *alive),
                count_alive(start, *alive) <= TERMINATED,
            decreases self.remaining().len(),
        {
            if alive.is_alive(doc) {
                n = n + 1;
            }
            proof {
                lemma_step_valid(self.remaining());
            }
            doc = self.advance();
        }
        n
    }

    /// Number of remaining matches, deleted documents included.
    ///
    /// By default a full walk that leaves the cursor at the sentinel.
    fn count_including_deleted(&mut self) -> (r: u32)
        requires
            entries_valid(old(self).remaining()),
        ensures
            r == old(self).remaining().len(),
        default_ensures
            final(self).remaining().len() == 0,
    {
        let ghost start = self.remaining();
        let mut n: u32 = 0;
        let mut doc = self.doc();
        proof {
            lemma_valid_len(start);
        }
        while doc != TERMINATED
            invariant
                entries_valid(self.remaining()),
                doc == current_doc(self.remaining()),
                n + self.remaining().len() == start.len(),
                start.len() <= TERMINATED,
            decreases self.remaining().len(),
        {
            n = n + 1;
            proof {
                lemma_step_valid(self.remaining());
            }
            doc = self.advance();
        }
        n
    }
}

/// A cursor that also reports the score of its current document.
pub trait Scorer: DocSet {
    /// The score of the current document. The cursor does not move.
    fn score(&mut self) -> (r: Score)
        requires
            entries_valid(old(self).remaining()),
            old(self).remaining().len() > 0,
        ensures
            final(self).remaining() == old(self).remaining(),
            r == old(self).remaining()[0].1,
    ;
}

} // verus!
