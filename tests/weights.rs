use query_exec::{
    AliveBitSet, ConstScoreWeight, DocCollector, DocId, DocSet, MaxScoreCollector, MemorySegment,
    Score, ScoredCollector, SearchError, Weight, TERMINATED,
};

fn s(v: f32) -> Score {
    Score::from_bits(v.to_bits())
}

fn f(score: Score) -> f32 {
    f32::from_bits(score.to_bits())
}

fn segment(alive: Option<AliveBitSet>) -> MemorySegment {
    MemorySegment::new(vec![vec![3, 7, 9], vec![], vec![9, 7]], alive)
}

#[test]
fn weight_for_each_scores_with_unit_boost() {
    let mut cb = ScoredCollector::new();
    assert!(ConstScoreWeight { key: 0 }.for_each(&segment(None), &mut cb).is_ok());
    let got: Vec<(DocId, f32)> = cb.entries().iter().map(|e| (e.0, f(e.1))).collect();
    assert_eq!(got, vec![(3, 1.0), (7, 1.0), (9, 1.0)]);
}

#[test]
fn weight_scorer_applies_boost() {
    let mut c = ConstScoreWeight { key: 0 }.scorer(&segment(None), s(2.5)).unwrap();
    assert_eq!(c.doc(), 3);
    assert_eq!(f(query_exec::Scorer::score(&mut c)), 2.5);
}

#[test]
fn weight_for_each_no_score_reports_documents() {
    let mut cb = DocCollector::new();
    assert!(ConstScoreWeight { key: 0 }.for_each_no_score(&segment(None), &mut cb).is_ok());
    assert_eq!(cb.docs(), &vec![3, 7, 9]);
}

#[test]
fn weight_for_each_pruning_calls_once_per_raise() {
    let mut cb = MaxScoreCollector::new(s(0.5));
    assert!(ConstScoreWeight { key: 0 }
        .for_each_pruning(s(0.5), &segment(None), &mut cb)
        .is_ok());
    let docs: Vec<DocId> = cb.calls().iter().map(|e| e.0).collect();
    assert_eq!(docs, vec![3]);
}

#[test]
fn weight_count_with_and_without_deletions() {
    let with_deletes = segment(Some(AliveBitSet::from_deleted_docs(&[7], 10)));
    assert_eq!(ConstScoreWeight { key: 0 }.count(&with_deletes), Ok(2));
    assert_eq!(ConstScoreWeight { key: 0 }.count(&segment(None)), Ok(3));
    assert_eq!(ConstScoreWeight { key: 1 }.count(&segment(None)), Ok(0));
    assert_eq!(ConstScoreWeight { key: 8 }.count(&segment(None)), Ok(0));
}

#[test]
fn explain_of_matched_document() {
    let e = ConstScoreWeight { key: 0 }.explain(&segment(None), 7).unwrap();
    assert_eq!(f(e.value()), 1.0);
    assert_eq!(e.description(), "constant score");
}

#[test]
fn explain_of_unmatched_document_is_not_matched() {
    let w = ConstScoreWeight { key: 0 };
    assert_eq!(w.explain(&segment(None), 5).err(), Some(SearchError::NotMatched(5)));
    assert_eq!(w.explain(&segment(None), 0).err(), Some(SearchError::NotMatched(0)));
    assert_eq!(w.explain(&segment(None), 100).err(), Some(SearchError::NotMatched(100)));
    assert_eq!(
        w.explain(&segment(None), TERMINATED).err(),
        Some(SearchError::NotMatched(TERMINATED))
    );
    assert_eq!(w.explain(&segment(None), u32::MAX).err(), Some(SearchError::NotMatched(u32::MAX)));
}

#[test]
fn failed_scorer_means_no_callbacks() {
    let seg = segment(None);
    let w = ConstScoreWeight { key: 2 };
    assert!(matches!(w.scorer(&seg, s(1.0)), Err(SearchError::SegmentAccess(_))));
    let mut scored = ScoredCollector::new();
    assert!(matches!(w.for_each(&seg, &mut scored), Err(SearchError::SegmentAccess(_))));
    assert!(scored.entries().is_empty());
    let mut docs = DocCollector::new();
    assert!(matches!(w.for_each_no_score(&seg, &mut docs), Err(SearchError::SegmentAccess(_))));
    assert!(docs.docs().is_empty());
    let mut pruned = MaxScoreCollector::new(s(0.0));
    assert!(matches!(w.for_each_pruning(s(0.0), &seg, &mut pruned), Err(SearchError::SegmentAccess(_))));
    assert!(pruned.calls().is_empty());
    assert!(matches!(w.count(&seg), Err(SearchError::SegmentAccess(_))));
    assert!(matches!(w.explain(&seg, 7), Err(SearchError::SegmentAccess(_))));
}

#[test]
fn segment_postings_by_key() {
    let seg = segment(None);
    assert_eq!(seg.postings(0), vec![3, 7, 9]);
    assert_eq!(seg.postings(5), Vec::<DocId>::new());
}

#[test]
fn unreadable_postings_give_the_read_error() {
    let seg = segment(None);
    let w = ConstScoreWeight { key: 2 };
    let mut scored = ScoredCollector::new();
    assert_eq!(
        w.for_each(&seg, &mut scored),
        Err(SearchError::SegmentAccess("posting list out of order".to_string()))
    );
    assert_eq!(
        w.count(&seg),
        Err(SearchError::SegmentAccess("posting list out of order".to_string()))
    );
}
