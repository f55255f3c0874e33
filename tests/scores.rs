use query_exec::{AliveBitSet, Explanation, Score};

fn s(v: f32) -> Score {
    Score::from_bits(v.to_bits())
}

#[test]
fn greater_than_follows_float_order() {
    let values = [
        f32::NEG_INFINITY,
        -3.5,
        -1.0,
        -0.0,
        0.0,
        1e-30,
        0.5,
        1.0,
        2.0,
        f32::INFINITY,
        f32::NAN,
        -f32::NAN,
    ];
    for a in values {
        for b in values {
            assert_eq!(s(a).is_greater_than(&s(b)), a > b, "{} > {}", a, b);
        }
    }
}

#[test]
fn zeros_are_equal_and_nan_compares_false() {
    assert!(!s(0.0).is_greater_than(&s(-0.0)));
    assert!(!s(-0.0).is_greater_than(&s(0.0)));
    assert!(!s(f32::NAN).is_greater_than(&s(1.0)));
    assert!(!s(1.0).is_greater_than(&s(f32::NAN)));
    assert!(s(f32::NAN).is_nan());
    assert!(!s(f32::INFINITY).is_nan());
}

#[test]
fn one_is_the_unit_boost() {
    assert_eq!(Score::one().to_bits(), 1.0f32.to_bits());
    assert_eq!(s(2.5).to_bits(), 2.5f32.to_bits());
}

#[test]
fn alive_bitset_marks_deletions() {
    let alive = AliveBitSet::from_deleted_docs(&[1, 4, 40], 5);
    assert!(alive.is_alive(0));
    assert!(alive.is_deleted(1));
    assert!(alive.is_alive(3));
    assert!(alive.is_deleted(4));
    assert!(alive.is_deleted(5));
}

#[test]
fn explanation_keeps_value_description_and_details() {
    let mut e = Explanation::new("sum of".to_string(), s(3.0));
    e.add_detail(Explanation::new("term a".to_string(), s(1.0)));
    e.add_detail(Explanation::new("term b".to_string(), s(2.0)));
    assert_eq!(e.value(), s(3.0));
    assert_eq!(e.description(), "sum of");
    assert_eq!(e.details().len(), 2);
    assert_eq!(e.details()[1].description(), "term b");
}
