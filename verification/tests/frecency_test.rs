use ukrop::frecency;

#[test]
fn test_age_threshold() {
    assert!(frecency::AGE_THRESHOLD > 0);
}
