//! The prompt set and the scoring rules of the routing benchmark.

use vstd::prelude::*;
use crate::text::{chars_of, contains_text, has_substring, push_char, push_decimal, push_text, decimal};

verus! {

/// The class of backend a benchmark prompt is meant for.
#[derive(Clone, Copy, PartialEq, Eq, Structural, Debug)]
pub enum CaseType {
    LowLatency,
    HighCapacity,
    Uncertain,
}

/// The benchmark prompt at position `i` of the set: twenty short ones, twenty
/// that name a language and hold a brace, ten that ask for analysis.
pub open spec fn prompt_case(i: int) -> (CaseType, Seq<char>) {
    if i < 20 {
        (CaseType::LowLatency, "short prompt "@ + decimal((i + 1) as nat))
    } else if i < 40 {
        (
            CaseType::HighCapacity,
            "Explain ownership in rust with example { /* case "@ + decimal((i - 20 + 1) as nat)
                + " */ }"@,
        )
    } else {
        (CaseType::Uncertain, "Please analyze this prompt example number "@ + decimal((i - 40 + 1) as nat))
    }
}

/// The fifty benchmark prompts, in order (see `prompt_case`).
pub fn generate_prompts() -> (r: Vec<(CaseType, String)>)
    ensures
        r.len() == 50,
        forall|i: int| 0 <= i < 50 ==> (#[trigger] r@[i]).0 == prompt_case(i).0 && r@[i].1@ == prompt_case(i).1,
{
    let mut cases: Vec<(CaseType, String)> = Vec::new();
    let mut i: u64 = 0;
    while i < 50
        invariant
            i <= 50,
            cases.len() == i,
            forall|k: int| 0 <= k < i ==> (#[trigger] cases@[k]).0 == prompt_case(k).0 && cases@[k].1@ == prompt_case(k).1,
        decreases 50 - i,
    {
        let mut prompt = String::new();
        let case = if i < 20 {
            push_text(&mut prompt, "short prompt ");
            push_decimal(&mut prompt, i + 1);
            CaseType::LowLatency
        } else if i < 40 {
            push_text(&mut prompt, "Explain ownership in rust with example { /* case ");
            push_decimal(&mut prompt, i - 20 + 1);
            push_text(&mut prompt, " */ }");
            CaseType::HighCapacity
        } else {
            push_text(&mut prompt, "Please analyze this prompt example number ");
            push_decimal(&mut prompt, i - 40 + 1);
            CaseType::Uncertain
        };
        assert(prompt@ =~= prompt_case(i as int).1);
        cases.push((case, prompt));
        i = i + 1;
    }
    cases
}

/// The character that stands for `c` in a CSV field: line breaks become
/// spaces, double quotes single quotes, and commas semicolons.
pub open spec fn csv_char(c: char) -> char {
    if c == '\n' || c == '\r' {
        ' '
    } else if c == '"' {
        '\''
    } else if c == ',' {
        ';'
    } else {
        c
    }
}

/// `prompt` made safe to write inside a quoted CSV field.
pub fn csv_safe(prompt: &str) -> (r: String)
    ensures
        r@ == prompt@.map_values(|c: char| csv_char(c)),
{
    let cs = chars_of(prompt);
    let mut out = String::new();
    let mut i: usize = 0;
    while i < cs.len()
        invariant
            i <= cs.len(),
            cs@ == prompt@,
            out@ == cs@.take(i as int).map_values(|c: char| csv_char(c)),
        decreases cs.len() - i,
    {
        let c = cs[i];
        let d = if c == '\n' || c == '\r' {
            ' '
        } else if c == '"' {
            '\''
        } else if c == ',' {
            ';'
        } else {
            c
        };
        push_char(&mut out, d);
        assert(cs@.take(i + 1).map_values(|c: char| csv_char(c)) =~= cs@.take(i as int).map_values(
            |c: char| csv_char(c),
        ).push(csv_char(c)));
        i = i + 1;
    }
    assert(cs@.take(cs.len() as int) =~= cs@);
    out
}

/// The name of a case, as the benchmark report writes it.
pub fn case_name(case: CaseType) -> (r: &'static str)
    ensures
        r@ == match case {
            CaseType::LowLatency => "LowLatency"@,
            CaseType::HighCapacity => "HighCapacity"@,
            CaseType::Uncertain => "Uncertain"@,
        },
{
    match case {
        CaseType::LowLatency => "LowLatency",
        CaseType::HighCapacity => "HighCapacity",
        CaseType::Uncertain => "Uncertain",
    }
}

/// The target reported by the router names the backend on port 11434.
pub open spec fn names_port_11434(target: Seq<char>) -> bool {
    has_substring(target, ":11434"@) || has_substring(target, "11434"@)
}

/// The target reported by the router names the backend on port 11435.
pub open spec fn names_port_11435(target: Seq<char>) -> bool {
    has_substring(target, ":11435"@) || has_substring(target, "11435"@)
}

/// Whether the backend that answered suits the case: low-latency prompts
/// belong on port 11434, high-capacity ones on port 11435, and uncertain
/// ones on either.
pub fn route_is_correct(case: CaseType, target: &str) -> (r: bool)
    ensures
        r == match case {
            CaseType::LowLatency => names_port_11434(target@),
            CaseType::HighCapacity => names_port_11435(target@),
            CaseType::Uncertain => names_port_11434(target@) || names_port_11435(target@),
        },
{
    let used_11434 = contains_text(target, ":11434") || contains_text(target, "11434");
    let used_11435 = contains_text(target, ":11435") || contains_text(target, "11435");
    match case {
        CaseType::LowLatency => used_11434,
        CaseType::HighCapacity => used_11435,
        CaseType::Uncertain => used_11434 || used_11435,
    }
}


/// The running totals of a benchmark run.
#[derive(Clone, Copy, PartialEq, Eq, Structural, Debug)]
pub struct Tally {
    pub success: u64,
    pub correct: u64,
    pub errors: u64,
    pub latency_ms: u128,
}

impl Tally {
    /// No request counted yet.
    pub fn new() -> (r: Tally)
        ensures
            r == (Tally { success: 0, correct: 0, errors: 0, latency_ms: 0 }),
    {
        Tally { success: 0, correct: 0, errors: 0, latency_ms: 0 }
    }

    /// Counts a request that failed or was answered with an error status.
    pub fn record_error(&mut self)
        requires
            old(self).errors < u64::MAX,
        ensures
            *final(self) == (Tally { errors: (old(self).errors + 1) as u64, ..*old(self) }),
    {
        self.errors = self.errors + 1;
    }

    /// Counts a request answered after `elapsed_ms` milliseconds, routed
    /// correctly or not.
    pub fn record_success(&mut self, elapsed_ms: u128, correct: bool)
        requires
            old(self).success < u64::MAX,
            old(self).correct < u64::MAX,
            old(self).latency_ms + elapsed_ms <= u128::MAX,
        ensures
            *final(self) == (Tally {
                success: (old(self).success + 1) as u64,
                correct: if correct {
                    (old(self).correct + 1) as u64
                } else {
                    old(self).correct
                },
                errors: old(self).errors,
                latency_ms: (old(self).latency_ms + elapsed_ms) as u128,
            }),
    {
        self.success = self.success + 1;
        self.latency_ms = self.latency_ms + elapsed_ms;
        if correct {
            self.correct = self.correct + 1;
        }
    }
}

} // verus!
