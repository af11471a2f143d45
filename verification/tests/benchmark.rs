use ketu::analyzer::{classify, PromptComplexity};
use ketu::benchmark::{case_name, csv_safe, generate_prompts, route_is_correct, CaseType, Tally};
use ketu::ollama::{generate_endpoint, generation_delay_ms, peer_endpoint};

#[test]
fn prompt_set_has_fifty_cases_in_order() {
    let p = generate_prompts();
    assert_eq!(p.len(), 50);
    assert_eq!(p[0], (CaseType::LowLatency, "short prompt 1".to_string()));
    assert_eq!(p[19].1, "short prompt 20");
    assert_eq!(p[20], (CaseType::HighCapacity, "Explain ownership in rust with example { /* case 1 */ }".to_string()));
    assert_eq!(p[39].1, "Explain ownership in rust with example { /* case 20 */ }");
    assert_eq!(p[40], (CaseType::Uncertain, "Please analyze this prompt example number 1".to_string()));
    assert_eq!(p[49].1, "Please analyze this prompt example number 10");
}

#[test]
fn csv_safe_replaces_separators() {
    assert_eq!(csv_safe("a,b\n\"c\"\r"), "a;b 'c' ");
    assert_eq!(csv_safe("plain"), "plain");
}

#[test]
fn correctness_by_port() {
    assert!(route_is_correct(CaseType::LowLatency, "http://localhost:11434"));
    assert!(!route_is_correct(CaseType::LowLatency, "http://localhost:11435"));
    assert!(route_is_correct(CaseType::HighCapacity, "x11435"));
    assert!(route_is_correct(CaseType::Uncertain, "11435"));
    assert!(!route_is_correct(CaseType::Uncertain, "<missing>"));
    assert_eq!(case_name(CaseType::HighCapacity), "HighCapacity");
    assert_eq!(case_name(CaseType::LowLatency), "LowLatency");
    assert_eq!(case_name(CaseType::Uncertain), "Uncertain");
}

#[test]
fn backend_addresses() {
    assert_eq!(generation_delay_ms("http://localhost:11435"), 2500);
    assert_eq!(generation_delay_ms("http://localhost:11434"), 0);
    assert_eq!(generate_endpoint("http://h:1"), "http://h:1/api/generate");
    assert_eq!(peer_endpoint("127.0.0.1:3000", "/health"), "http://127.0.0.1:3000/health");
}

#[test]
fn every_benchmark_case_carries_the_analyzers_class() {
    for (case, prompt) in generate_prompts() {
        let expected = match case {
            CaseType::LowLatency => PromptComplexity::LowLatency,
            CaseType::HighCapacity => PromptComplexity::HighCapacity,
            CaseType::Uncertain => PromptComplexity::Uncertain,
        };
        assert_eq!(classify(&prompt), expected, "prompt {}", prompt);
    }
}

#[test]
fn tally_counts_outcomes() {
    let mut t = Tally::new();
    t.record_error();
    t.record_success(120, true);
    t.record_success(30, false);
    assert_eq!(t, Tally { success: 2, correct: 1, errors: 1, latency_ms: 150 });
}
