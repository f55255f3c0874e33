//! Query-execution core of a full-text search engine: document cursors,
//! the traversals that drain them into callbacks, and the per-segment
//! specialization of a query that builds scoring cursors.
pub mod alive;
pub mod collector;
pub mod docset;
pub mod explanation;
pub mod memory;
pub mod score;
pub mod traversal;
pub mod vec_scorer;
pub mod weight;

pub use alive::AliveBitSet;
pub use collector::{DocCollector, MaxScoreCollector, ScoredCollector};
pub use docset::{DocId, DocSet, Scorer, TERMINATED};
pub use explanation::Explanation;
pub use memory::{ConstScoreWeight, MemorySegment};
pub use score::Score;
pub use traversal::{
    for_each_docset, for_each_pruning_scorer, for_each_scorer, DocCallback, PruningCallback,
    ScoredCallback,
};
pub use vec_scorer::VecScorer;
pub use weight::{SearchError, SegmentReader, Weight};
