use ketu::backend::Backend;
use ketu::health::HealthTable;

#[test]
fn marks_follow_latest_setting() {
    let mut h = HealthTable::new();
    assert!(!h.is_slow("a"));
    h.set("a", true);
    assert!(h.is_slow("a"));
    h.set("a", false);
    assert!(!h.is_slow("a"));
    h.set("b", true);
    let backends = vec![
        Backend::new("a".to_string(), "m".to_string(), 1),
        Backend::new("b".to_string(), "m".to_string(), 1),
        Backend::new("c".to_string(), "m".to_string(), 1),
    ];
    assert_eq!(h.slow_flags(&backends), vec![false, true, false]);
}
