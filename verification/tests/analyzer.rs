use ketu::analyzer::{calculate_score, classify, classify_score, score_with_lowercase, PromptComplexity};

#[test]
fn simple_prompt_score_is_low() {
    let prompt = "hello, how are you?";
    let score = calculate_score(prompt);
    assert_eq!(score, 0, "expected score 0, got {}", score);
    assert_eq!(classify(prompt), PromptComplexity::LowLatency);
}

#[test]
fn code_prompt_score_is_high() {
    let prompt = "write a rust macro";
    let score = calculate_score(prompt);
    assert!(score >= 3, "expected score >= 3, got {}", score);
    assert_eq!(classify(prompt), PromptComplexity::HighCapacity);
}

#[test]
fn math_prompt_score_is_calculated() {
    let prompt = "What is 5 + 5 = ?";
    let score = calculate_score(prompt);
    assert!(score >= 1, "expected score >= 1, got {}", score);
    assert_eq!(classify(prompt), PromptComplexity::Uncertain);
}

#[test]
fn long_prompt_scores_length() {
    let prompt = "a".repeat(300);
    let score = calculate_score(&prompt);
    assert!(score >= 1, "expected score >= 1 for long prompt, got {}", score);
    assert_eq!(classify(&prompt), PromptComplexity::Uncertain);
}

#[test]
fn medium_length_prompt_with_score_one_is_uncertain() {
    let prompt = "Can you explain the tradeoffs of this approach?";
    assert_eq!(classify(prompt), PromptComplexity::Uncertain);
}

#[test]
fn exact_scores_of_known_prompts() {
    assert_eq!(calculate_score("write a rust macro"), 4);
    assert_eq!(calculate_score("What is 5 + 5 = ?"), 1);
    assert_eq!(calculate_score("Can you explain the tradeoffs of this approach?"), 2);
    assert_eq!(calculate_score(&"a".repeat(300)), 1);
}

#[test]
fn length_thresholds_are_in_characters() {
    assert_eq!(calculate_score(&"a".repeat(250)), 0);
    assert_eq!(calculate_score(&"a".repeat(251)), 1);
    assert_eq!(calculate_score(&"a".repeat(1000)), 1);
    assert_eq!(calculate_score(&"a".repeat(1001)), 3);
    // Length is counted in characters, not bytes.
    assert_eq!(calculate_score(&"é".repeat(200)), 0);
    assert_eq!(calculate_score(&"é".repeat(251)), 1);
}

#[test]
fn code_fence_and_structure_points() {
    assert_eq!(calculate_score("use `x`"), 2);
    assert_eq!(calculate_score("a/b"), 1);
    assert_eq!(calculate_score("{ [ < = + $ /"), 2);
    assert_eq!(calculate_score("x = [1]"), 2);
    assert_eq!(calculate_score("<xml>"), 1);
    assert_eq!(calculate_score("1 + 1"), 1);
    assert_eq!(calculate_score("{+"), 1);
    assert_eq!(calculate_score("[a/b]"), 1);
    assert_eq!(calculate_score("<b> $5"), 2);
    assert_eq!(calculate_score("= $"), 1);
    assert_eq!(calculate_score("`{`"), 3);
}

#[test]
fn keywords_match_in_any_case() {
    assert_eq!(calculate_score("RUST"), 2);
    assert_eq!(calculate_score("Write a RUST MACRO"), 4);
    assert_eq!(classify("Write a RUST MACRO"), PromptComplexity::HighCapacity);
    assert_eq!(calculate_score("Python SQL Database Function Algorithm"), 10);
    assert_eq!(calculate_score("Analyze, Compare, Architect"), 3);
}

#[test]
fn every_rule_at_once() {
    let mut prompt = String::from("`rust python sql algorithm macro database function analyze compare tradeoffs architect explain { =");
    while prompt.len() <= 1000 {
        prompt.push(' ');
    }
    assert_eq!(calculate_score(&prompt), 26);
}

#[test]
fn score_uses_the_given_lowercase_form() {
    assert_eq!(score_with_lowercase("RUST", "rust"), 2);
    assert_eq!(score_with_lowercase("RUST", "RUST"), 0);
    assert_eq!(score_with_lowercase("x", "sql function"), 4);
}

#[test]
fn class_boundaries() {
    assert_eq!(classify_score(0), PromptComplexity::LowLatency);
    assert_eq!(classify_score(1), PromptComplexity::Uncertain);
    assert_eq!(classify_score(2), PromptComplexity::Uncertain);
    assert_eq!(classify_score(3), PromptComplexity::HighCapacity);
    assert_eq!(classify_score(24), PromptComplexity::HighCapacity);
}

#[test]
fn long_plain_prompt_scores_high_on_length_alone() {
    let prompt = "a".repeat(1001);
    assert_eq!(calculate_score(&prompt), 3);
    assert_eq!(classify(&prompt), PromptComplexity::HighCapacity);
}

#[test]
fn appending_text_never_lowers_score() {
    let p = "explain this";
    let q = " in rust { }";
    let joined = format!("{}{}", p, q);
    assert!(calculate_score(&joined) >= calculate_score(p));
    assert!(calculate_score(&joined) >= calculate_score(q));
}

#[test]
fn ascii_case_does_not_change_score() {
    let p = "Compare SQL and Python = ?";
    assert_eq!(calculate_score(p), calculate_score(&p.to_ascii_uppercase()));
    assert_eq!(calculate_score(p), calculate_score(&p.to_ascii_lowercase()));
}
