use query_exec::{
    for_each_docset, for_each_pruning_scorer, for_each_scorer, AliveBitSet, DocCollector, DocId,
    DocSet, MaxScoreCollector, Score, ScoredCollector, Scorer, VecScorer, TERMINATED,
};

fn s(v: f32) -> Score {
    Score::from_bits(v.to_bits())
}

fn f(score: Score) -> f32 {
    f32::from_bits(score.to_bits())
}

fn three_matches() -> VecScorer {
    VecScorer::new(vec![3, 7, 9], vec![s(1.0), s(2.0), s(0.5)]).unwrap()
}

fn as_floats(entries: &[(DocId, Score)]) -> Vec<(DocId, f32)> {
    entries.iter().map(|e| (e.0, f(e.1))).collect()
}

#[test]
fn advance_strictly_increases_then_sticks() {
    let mut c = three_matches();
    assert_eq!(c.doc(), 3);
    assert_eq!(c.advance(), 7);
    assert_eq!(c.doc(), 7);
    assert_eq!(c.advance(), 9);
    assert_eq!(c.advance(), TERMINATED);
    assert_eq!(c.advance(), TERMINATED);
    assert_eq!(c.doc(), TERMINATED);
}

#[test]
fn score_follows_the_cursor() {
    let mut c = three_matches();
    assert_eq!(f(c.score()), 1.0);
    c.advance();
    assert_eq!(f(c.score()), 2.0);
    assert_eq!(f(c.score()), 2.0);
    assert_eq!(c.doc(), 7);
}

#[test]
fn empty_cursor_starts_terminated() {
    let mut c = VecScorer::new(vec![], vec![]).unwrap();
    assert_eq!(c.doc(), TERMINATED);
    assert_eq!(c.advance(), TERMINATED);
    assert_eq!(c.count_including_deleted(), 0);
}

#[test]
fn vec_scorer_rejects_bad_input() {
    assert!(VecScorer::new(vec![3, 3], vec![s(1.0), s(1.0)]).is_none());
    assert!(VecScorer::new(vec![7, 3], vec![s(1.0), s(1.0)]).is_none());
    assert!(VecScorer::new(vec![3, 7], vec![s(1.0)]).is_none());
    assert!(VecScorer::new(vec![TERMINATED], vec![s(1.0)]).is_none());
    assert!(VecScorer::new(vec![0, TERMINATED - 1], vec![s(1.0), s(2.0)]).is_some());
}

#[test]
fn plain_traversal_delivers_every_match_in_order() {
    let mut c = three_matches();
    let mut cb = ScoredCollector::new();
    for_each_scorer(&mut c, &mut cb);
    assert_eq!(as_floats(cb.entries()), vec![(3, 1.0), (7, 2.0), (9, 0.5)]);
    assert_eq!(c.doc(), TERMINATED);
}

#[test]
fn plain_traversal_starts_at_current_document() {
    let mut c = three_matches();
    c.advance();
    let mut cb = ScoredCollector::new();
    for_each_scorer(&mut c, &mut cb);
    assert_eq!(as_floats(cb.entries()), vec![(7, 2.0), (9, 0.5)]);
}

#[test]
fn pruning_traversal_fires_only_above_threshold() {
    let mut c = three_matches();
    let mut cb = MaxScoreCollector::new(s(1.5));
    for_each_pruning_scorer(&mut c, s(1.5), &mut cb);
    let calls: Vec<(DocId, f32, f32)> =
        cb.calls().iter().map(|e| (e.0, f(e.1), f(e.2))).collect();
    assert_eq!(calls, vec![(7, 2.0, 2.0)]);
    assert_eq!(f(cb.best()), 2.0);
    assert_eq!(c.doc(), TERMINATED);
}

#[test]
fn pruning_threshold_is_strict() {
    let mut c = three_matches();
    let mut cb = MaxScoreCollector::new(s(2.0));
    for_each_pruning_scorer(&mut c, s(2.0), &mut cb);
    assert!(cb.calls().is_empty());
}

#[test]
fn pruning_below_every_score_keeps_raising() {
    let mut c = VecScorer::new(vec![1, 2, 3, 4], vec![s(0.5), s(0.4), s(0.9), s(0.7)]).unwrap();
    let mut cb = MaxScoreCollector::new(s(0.0));
    for_each_pruning_scorer(&mut c, s(0.0), &mut cb);
    let docs: Vec<DocId> = cb.calls().iter().map(|e| e.0).collect();
    assert_eq!(docs, vec![1, 3]);
    assert_eq!(f(cb.best()), 0.9);
}

#[test]
fn pruning_with_lower_answer_lets_more_through() {
    // The collector starts below the traversal's threshold, so its first
    // answer lowers the threshold in force.
    let mut c = three_matches();
    let mut cb = MaxScoreCollector::new(s(0.0));
    for_each_pruning_scorer(&mut c, s(5.0), &mut cb);
    assert!(cb.calls().is_empty());
    let mut c = VecScorer::new(vec![3, 7, 9], vec![s(6.0), s(0.1), s(0.2)]).unwrap();
    let mut cb = MaxScoreCollector::new(s(0.0));
    for_each_pruning_scorer(&mut c, s(5.0), &mut cb);
    let docs: Vec<DocId> = cb.calls().iter().map(|e| e.0).collect();
    assert_eq!(docs, vec![3]);
}

#[test]
fn count_skips_deleted_documents() {
    let alive = AliveBitSet::from_deleted_docs(&[7], 10);
    let mut c = three_matches();
    assert_eq!(c.count(&alive), 2);
    assert_eq!(c.doc(), TERMINATED);
    let mut c = three_matches();
    assert_eq!(c.count_including_deleted(), 3);
}

#[test]
fn count_treats_documents_past_the_segment_as_deleted() {
    let alive = AliveBitSet::from_deleted_docs(&[], 8);
    let mut c = three_matches();
    assert_eq!(c.count(&alive), 2);
}

#[test]
fn score_free_traversal_reports_documents_only() {
    let mut c = three_matches();
    let mut cb = DocCollector::new();
    for_each_docset(&mut c, &mut cb);
    assert_eq!(cb.docs(), &vec![3, 7, 9]);
    assert_eq!(c.doc(), TERMINATED);
}

#[test]
fn score_free_traversal_matches_plain_documents() {
    let mut a = three_matches();
    let mut docs = DocCollector::new();
    for_each_docset(&mut a, &mut docs);
    let mut b = three_matches();
    let mut scored = ScoredCollector::new();
    for_each_scorer(&mut b, &mut scored);
    let plain: Vec<DocId> = scored.entries().iter().map(|e| e.0).collect();
    assert_eq!(docs.docs(), &plain);
}
