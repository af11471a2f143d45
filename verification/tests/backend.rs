use ketu::backend::{Backend, BackendPool};

fn backend(url: &str, weight: u32) -> Backend {
    Backend::new(url.to_string(), "model".to_string(), weight)
}

fn pool(weights: &[(&str, u32)]) -> BackendPool {
    BackendPool::new(weights.iter().map(|(u, w)| backend(u, *w)).collect())
}

#[test]
fn weighted_round_robin_follows_weights() {
    let mut p = pool(&[("a", 2), ("b", 1)]);
    let slow = vec![false, false];
    let picks: Vec<String> = (0..6).map(|_| p.next(&slow).url).collect();
    assert_eq!(picks, vec!["a", "a", "b", "a", "a", "b"]);
}

#[test]
fn full_turn_gives_each_backend_its_weight() {
    let mut p = pool(&[("a", 70), ("b", 30)]);
    let slow = vec![false, false];
    let mut a = 0;
    let mut b = 0;
    for _ in 0..100 {
        match p.next(&slow).url.as_str() {
            "a" => a += 1,
            _ => b += 1,
        }
    }
    assert_eq!((a, b), (70, 30));
}

#[test]
fn slow_backend_is_skipped_when_another_is_available() {
    let mut p = pool(&[("a", 1), ("b", 1)]);
    let slow = vec![true, false];
    assert_eq!(p.next(&slow).url, "b");
    assert_eq!(p.next(&slow).url, "b");
    let all_slow = vec![true, true];
    assert_eq!(p.next(&all_slow).url, "a");
}

#[test]
fn excluded_backend_is_not_chosen() {
    let mut p = pool(&[("a", 1), ("b", 1)]);
    let slow = vec![false, false];
    assert_eq!(p.next_excluding("a", &slow).url, "b");
    assert_eq!(p.next_excluding("a", &slow).url, "b");
    assert_eq!(p.next_excluding("b", &slow).url, "a");
}

#[test]
fn exclusion_wins_over_slowness() {
    let mut p = pool(&[("a", 1), ("b", 1)]);
    let slow = vec![false, true];
    // Only b is not excluded; it is slow but still chosen.
    assert_eq!(p.next_excluding("a", &slow).url, "b");
}

#[test]
fn falls_back_to_first_backend_when_nothing_else_remains() {
    let mut p = pool(&[("a", 1)]);
    let slow = vec![false];
    assert_eq!(p.next_excluding("a", &slow).url, "a");
    let mut z = pool(&[("a", 0), ("b", 0)]);
    assert_eq!(z.next(&vec![false, false]).url, "a");
    assert_eq!(z.select_backend(None, true, &vec![false, false]), 0);
}

#[test]
fn zero_weight_backend_is_never_chosen_in_rotation() {
    let mut p = pool(&[("a", 0), ("b", 2)]);
    let slow = vec![false, false];
    for _ in 0..5 {
        assert_eq!(p.next(&slow).url, "b");
    }
}

#[test]
fn select_backend_returns_index() {
    let mut p = pool(&[("a", 1), ("b", 1), ("c", 1)]);
    let slow = vec![false, false, false];
    assert_eq!(p.select_backend(None, false, &slow), 0);
    assert_eq!(p.select_backend(Some("b"), true, &slow), 2);
    assert_eq!(p.select_backend(None, true, &slow), 0);
}

#[test]
fn tokens_are_summed_per_url() {
    let mut p = pool(&[("a", 1)]);
    p.record_tokens("a", 5);
    p.record_tokens("x", 2);
    p.record_tokens("a", 7);
    assert_eq!(p.tokens_for("a"), 12);
    assert_eq!(p.tokens_for("x"), 2);
    assert_eq!(p.tokens_for("y"), 0);
    let mut stats = p.get_stats();
    stats.sort();
    assert_eq!(stats, vec![("a".to_string(), 12), ("x".to_string(), 2)]);
}

#[test]
fn duplicate_copies_backend() {
    let b = backend("u", 3);
    let c = b.duplicate();
    assert_eq!((c.url, c.model, c.weight), ("u".to_string(), "model".to_string(), 3));
}

#[test]
fn stats_list_every_backend_even_without_tokens() {
    let mut p = pool(&[("a", 1), ("b", 1), ("a", 2)]);
    p.record_tokens("x", 3);
    let mut stats = p.get_stats();
    stats.sort();
    assert_eq!(stats, vec![("a".to_string(), 0), ("b".to_string(), 0), ("x".to_string(), 3)]);
}
