//! Rule-based prompt complexity scoring.

use vstd::prelude::*;
use crate::text::{chars_of, contains_char, contains_seq, has_substring};

verus! {

broadcast use vstd::string::group_string_axioms;

/// The class of backend a prompt is routed to.
#[derive(Debug, PartialEq, Eq, Structural, Clone, Copy)]
pub enum PromptComplexity {
    LowLatency,
    Uncertain,
    HighCapacity,
}

/// What `str::to_lowercase` returns for a string with the given characters.
pub uninterp spec fn lowercase(s: Seq<char>) -> Seq<char>;

/// ASCII case folding of one character: `A`..`Z` become `a`..`z`, every
/// other character stays.
pub open spec fn ascii_lower(c: char) -> char {
    if 'A' <= c && c <= 'Z' {
        ((c as u32) + 32) as char
    } else {
        c
    }
}

/// ASCII case folding of a character sequence.
pub open spec fn ascii_lower_seq(s: Seq<char>) -> Seq<char> {
    s.map_values(|c: char| ascii_lower(c))
}

/// Calls `str::to_lowercase`. Trusted: the result's characters are those that
/// the standard library's Unicode lowercase mapping gives for `s`, named by
/// `lowercase`; of that mapping it is stated only that on ASCII text it turns
/// `A`..`Z` into `a`..`z` and keeps every other character.
#[verifier::external_body]
fn lowercase_text(s: &str) -> (r: String)
    ensures
        r@ == lowercase(s@),
        vstd::utf8::is_ascii_chars(s@) ==> r@ == ascii_lower_seq(s@),
{
    s.to_lowercase()
}

/// Keywords that suggest code or data work: two points each.
pub open spec fn high_value_keywords() -> Seq<Seq<char>> {
    seq!["rust"@, "python"@, "sql"@, "algorithm"@, "macro"@, "database"@, "function"@]
}

/// Keywords that suggest analysis: one point each.
pub open spec fn mid_value_keywords() -> Seq<Seq<char>> {
    seq!["analyze"@, "compare"@, "tradeoffs"@, "architect"@, "explain"@]
}

/// Points for the prompt's length in characters: one past 250 characters,
/// and two more past 1000.
pub open spec fn length_points(len: nat) -> nat {
    (if len > 250 { 1nat } else { 0nat }) + (if len > 1000 { 2nat } else { 0nat })
}

/// Whether the prompt holds a structural mark: a brace, a bracket, an XML
/// tag, or one of `=`, `+`, `$`, `/`.
pub open spec fn has_structural_marker(p: Seq<char>) -> bool {
    has_data_marker(p) || p.contains('=') || p.contains('+') || p.contains('$') || p.contains('/')
}

/// Whether the prompt holds a mark of data or markup: a brace, a bracket or
/// an XML tag.
pub open spec fn has_data_marker(p: Seq<char>) -> bool {
    p.contains('{') || p.contains('[') || p.contains('<') || has_substring(p, "<xml>"@)
}

/// Whether the prompt holds a mark of maths or equations: `=` or `$`.
pub open spec fn has_math_marker(p: Seq<char>) -> bool {
    p.contains('=') || p.contains('$')
}

/// Sum of `weight` over the keywords of `kws` that occur in `lower`.
pub open spec fn keyword_points(lower: Seq<char>, kws: Seq<Seq<char>>, weight: nat) -> nat
    decreases kws.len(),
{
    if kws.len() == 0 {
        0
    } else {
        keyword_points(lower, kws.drop_last(), weight) + if has_substring(lower, kws.last()) {
            weight
        } else {
            0
        }
    }
}

/// The complexity score of a prompt with characters `prompt`, whose
/// lowercase form is `lower`: each rule that matches adds its points. Any
/// structural mark gives one point, and a second where the prompt holds both
/// a data mark and a maths mark.
pub open spec fn score_of(prompt: Seq<char>, lower: Seq<char>) -> nat {
    length_points(prompt.len())
        + (if prompt.contains('`') { 2nat } else { 0nat })
        + (if has_structural_marker(prompt) { 1nat } else { 0nat })
        + (if has_data_marker(prompt) && has_math_marker(prompt) { 1nat } else { 0nat })
        + keyword_points(lower, high_value_keywords(), 2)
        + keyword_points(lower, mid_value_keywords(), 1)
}

/// The score of a prompt whose lowercase form is its ASCII case folding, as
/// for every ASCII prompt.
pub open spec fn ascii_score(prompt: Seq<char>) -> nat {
    score_of(prompt, ascii_lower_seq(prompt))
}

/// The class that a score falls in.
pub open spec fn class_of(score: nat) -> PromptComplexity {
    if score >= 3 {
        PromptComplexity::HighCapacity
    } else if score >= 1 {
        PromptComplexity::Uncertain
    } else {
        PromptComplexity::LowLatency
    }
}

/// Adds `weight` for each keyword of `kws` that occurs in `lower`.
fn add_keyword_points(lower: &Vec<char>, kws: &Vec<&str>, weight: u32) -> (r: u32)
    requires
        weight <= 2,
        kws.len() <= 7,
    ensures
        r == keyword_points(lower@, kws@.map_values(|k: &str| k@), weight as nat),
        r <= 14,
{
    let ghost all = kws@.map_values(|k: &str| k@);
    let mut points: u32 = 0;
    let mut i: usize = 0;
    while i < kws.len()
        invariant
            weight <= 2,
            kws.len() <= 7,
            i <= kws.len(),
            all == kws@.map_values(|k: &str| k@),
            points == keyword_points(lower@, all.take(i as int), weight as nat),
            points <= i * 2,
        decreases kws.len() - i,
    {
        let kw = chars_of(kws[i]);
        assert(all.take(i + 1).drop_last() =~= all.take(i as int));
        if contains_seq(lower, &kw) {
            points = points + weight;
        }
        i = i + 1;
    }
    assert(all.take(kws.len() as int) =~= all);
    points
}

/// The score of a prompt given its lowercase form `lower`: length, code
/// fences, structural marks and keyword matches each add points.
pub fn score_with_lowercase(prompt: &str, lower: &str) -> (r: u32)
    ensures
        r == score_of(prompt@, lower@),
{
    let mut score: u32 = 0;
    let p = chars_of(prompt);
    let n = p.len();
    if n > 250 {
        score = score + 1;
    }
    if n > 1000 {
        score = score + 2;
    }
    if contains_char(&p, '`') {
        score = score + 2;
    }
    let xml = chars_of("<xml>");
    let has_data = contains_char(&p, '{') || contains_char(&p, '[') || contains_char(&p, '<')
        || contains_seq(&p, &xml);
    let has_math = contains_char(&p, '=') || contains_char(&p, '$');
    let has_structural = has_data || contains_char(&p, '=') || contains_char(&p, '+')
        || contains_char(&p, '$') || contains_char(&p, '/');
    if has_structural {
        score = score + 1;
    }
    if has_data && has_math {
        score = score + 1;
    }
    let low = chars_of(lower);
    let high: Vec<&str> = vec![
        "rust",
        "python",
        "sql",
        "algorithm",
        "macro",
        "database",
        "function",
    ];
    assert(high@.map_values(|k: &str| k@) =~= high_value_keywords());
    score = score + add_keyword_points(&low, &high, 2);
    let mid: Vec<&str> = vec!["analyze", "compare", "tradeoffs", "architect", "explain"];
    assert(mid@.map_values(|k: &str| k@) =~= mid_value_keywords());
    score = score + add_keyword_points(&low, &mid, 1);
    score
}

/// The complexity score of a prompt (see `score_of`), where `lowercase`
/// names what `str::to_lowercase` makes of the prompt; for an ASCII prompt
/// that is its ASCII case folding.
pub fn calculate_score(prompt: &str) -> (r: u32)
    ensures
        r == score_of(prompt@, lowercase(prompt@)),
        vstd::utf8::is_ascii_chars(prompt@) ==> r == ascii_score(prompt@),
{
    let lower = lowercase_text(prompt);
    score_with_lowercase(prompt, lower.as_str())
}

/// The class of a score: at least 3 is high capacity, at least 1 uncertain,
/// 0 low latency.
pub fn classify_score(score: u32) -> (r: PromptComplexity)
    ensures
        r == class_of(score as nat),
{
    if score >= 3 {
        PromptComplexity::HighCapacity
    } else if score >= 1 {
        PromptComplexity::Uncertain
    } else {
        PromptComplexity::LowLatency
    }
}

/// The class of a prompt, from its score.
pub fn classify(prompt: &str) -> (r: PromptComplexity)
    ensures
        r == class_of(score_of(prompt@, lowercase(prompt@))),
        vstd::utf8::is_ascii_chars(prompt@) ==> r == class_of(ascii_score(prompt@)),
{
    let score = calculate_score(prompt);
    classify_score(score)
}


/// The rank of a class by capacity: low latency 0, uncertain 1, high capacity 2.
pub open spec fn class_rank(c: PromptComplexity) -> nat {
    match c {
        PromptComplexity::LowLatency => 0,
        PromptComplexity::Uncertain => 1,
        PromptComplexity::HighCapacity => 2,
    }
}

/// A text found in `a` is found in `a` with text added before or after it.
proof fn lemma_substring_in_concat(a: Seq<char>, b: Seq<char>, t: Seq<char>)
    requires
        has_substring(a, t),
    ensures
        has_substring(a + b, t),
        has_substring(b + a, t),
{
    let i = choose|i: int| crate::text::occurs_at(a, t, i);
    assert((a + b).subrange(i, i + t.len()) =~= a.subrange(i, i + t.len()));
    assert(crate::text::occurs_at(a + b, t, i));
    assert((b + a).subrange(b.len() + i, b.len() + i + t.len()) =~= a.subrange(i, i + t.len()));
    assert(crate::text::occurs_at(b + a, t, b.len() + i));
}

/// Keyword points only grow when every keyword found in `a` is found in `b`.
proof fn lemma_keyword_points_grow(a: Seq<char>, b: Seq<char>, kws: Seq<Seq<char>>, weight: nat)
    requires
        forall|k: int| 0 <= k < kws.len() && has_substring(a, #[trigger] kws[k]) ==> has_substring(b, kws[k]),
    ensures
        keyword_points(a, kws, weight) <= keyword_points(b, kws, weight),
    decreases kws.len(),
{
    if kws.len() > 0 {
        let front = kws.drop_last();
        assert forall|k: int| 0 <= k < front.len() && has_substring(a, #[trigger] front[k]) implies has_substring(b, front[k]) by {
            assert(front[k] == kws[k]);
        }
        lemma_keyword_points_grow(a, b, front, weight);
        assert(kws.last() == kws[kws.len() - 1]);
    }
}

/// Adding text before or after a prompt never lowers its score, nor moves it
/// to a class of lower capacity (for prompts scored with ASCII case folding,
/// which is how every ASCII prompt is scored).
pub proof fn law_appending_never_lowers_score(p: Seq<char>, q: Seq<char>)
    ensures
        ascii_score(p) <= ascii_score(p + q),
        ascii_score(q) <= ascii_score(p + q),
        class_rank(class_of(ascii_score(p))) <= class_rank(class_of(ascii_score(p + q))),
        class_rank(class_of(ascii_score(q))) <= class_rank(class_of(ascii_score(p + q))),
{
    let s = p + q;
    let lp = ascii_lower_seq(p);
    let lq = ascii_lower_seq(q);
    assert(ascii_lower_seq(s) =~= lp + lq);
    reveal_strlit("<xml>");
    assert forall|c: char| p.contains(c) implies s.contains(c) by {
        let i = choose|i: int| 0 <= i < p.len() && p[i] == c;
        assert(s[i] == c);
    }
    assert forall|c: char| q.contains(c) implies s.contains(c) by {
        let i = choose|i: int| 0 <= i < q.len() && q[i] == c;
        assert(s[p.len() + i] == c);
    }
    if has_substring(p, "<xml>"@) {
        lemma_substring_in_concat(p, q, "<xml>"@);
    }
    if has_substring(q, "<xml>"@) {
        lemma_substring_in_concat(q, p, "<xml>"@);
    }
    assert forall|t: Seq<char>| has_substring(lp, t) implies has_substring(lp + lq, t) by {
        lemma_substring_in_concat(lp, lq, t);
    }
    assert forall|t: Seq<char>| has_substring(lq, t) implies has_substring(lp + lq, t) by {
        lemma_substring_in_concat(lq, lp, t);
    }
    lemma_keyword_points_grow(lp, lp + lq, high_value_keywords(), 2);
    lemma_keyword_points_grow(lp, lp + lq, mid_value_keywords(), 1);
    lemma_keyword_points_grow(lq, lp + lq, high_value_keywords(), 2);
    lemma_keyword_points_grow(lq, lp + lq, mid_value_keywords(), 1);
}

/// Where folding leaves `c` alone and no letter folds to it, a folded
/// sequence holds `c` exactly where the original does.
proof fn lemma_fold_keeps_mark(p: Seq<char>, q: Seq<char>, c: char)
    requires
        ascii_lower_seq(p) == ascii_lower_seq(q),
        !('a' <= c && c <= 'z'),
        !('A' <= c && c <= 'Z'),
    ensures
        p.contains(c) <==> q.contains(c),
{
    assert(p.len() == ascii_lower_seq(p).len());
    assert(q.len() == ascii_lower_seq(q).len());
    if p.contains(c) {
        let i = choose|i: int| 0 <= i < p.len() && p[i] == c;
        assert(ascii_lower_seq(p)[i] == c);
        assert(ascii_lower_seq(q)[i] == ascii_lower(q[i]));
        assert(q[i] == c);
    }
    if q.contains(c) {
        let i = choose|i: int| 0 <= i < q.len() && q[i] == c;
        assert(ascii_lower_seq(q)[i] == c);
        assert(ascii_lower_seq(p)[i] == ascii_lower(p[i]));
        assert(p[i] == c);
    }
}

/// Letter case does not matter: two prompts that differ only in the case of
/// ASCII letters have the same score (as ASCII prompts are scored).
pub proof fn law_ascii_case_ignored(p: Seq<char>, q: Seq<char>)
    requires
        ascii_lower_seq(p) == ascii_lower_seq(q),
    ensures
        ascii_score(p) == ascii_score(q),
        class_of(ascii_score(p)) == class_of(ascii_score(q)),
{
    assert(p.len() == ascii_lower_seq(p).len());
    assert(q.len() == ascii_lower_seq(q).len());
    lemma_fold_keeps_mark(p, q, '`');
    lemma_fold_keeps_mark(p, q, '{');
    lemma_fold_keeps_mark(p, q, '[');
    lemma_fold_keeps_mark(p, q, '<');
    lemma_fold_keeps_mark(p, q, '=');
    lemma_fold_keeps_mark(p, q, '+');
    lemma_fold_keeps_mark(p, q, '$');
    lemma_fold_keeps_mark(p, q, '/');
    reveal_strlit("<xml>");
    assert forall|r: Seq<char>| has_substring(r, "<xml>"@) implies r.contains('<') by {
        let i = choose|i: int| crate::text::occurs_at(r, "<xml>"@, i);
        assert(r.subrange(i, i + 5)[0] == '<');
        assert(r[i] == '<');
    }
}


/// A keyword of `kws` found in `lower` earns at least its weight.
proof fn lemma_keyword_found(lower: Seq<char>, kws: Seq<Seq<char>>, weight: nat, k: int)
    requires
        0 <= k < kws.len(),
        has_substring(lower, kws[k]),
    ensures
        keyword_points(lower, kws, weight) >= weight,
    decreases kws.len(),
{
    if k < kws.len() - 1 {
        assert(kws.drop_last()[k] == kws[k]);
        lemma_keyword_found(lower, kws.drop_last(), weight, k);
    }
}

/// Keywords none of which is found in `lower` earn nothing.
proof fn lemma_no_keyword_found(lower: Seq<char>, kws: Seq<Seq<char>>, weight: nat)
    requires
        forall|k: int| 0 <= k < kws.len() ==> !has_substring(lower, #[trigger] kws[k]),
    ensures
        keyword_points(lower, kws, weight) == 0,
    decreases kws.len(),
{
    if kws.len() > 0 {
        let front = kws.drop_last();
        assert forall|k: int| 0 <= k < front.len() implies !has_substring(lower, #[trigger] front[k]) by {
            assert(front[k] == kws[k]);
        }
        lemma_no_keyword_found(lower, front, weight);
        assert(kws.last() == kws[kws.len() - 1]);
    }
}

/// What each rule of the score is worth, for every prompt and lowercase form:
/// any of `{ [ < = + $ /` (or an XML tag) earns a point; a backtick earns two;
/// a data mark (`{ [ <`) together with a maths mark (`= $`) earns two; more
/// than 250 characters earn one and more than 1000 three; each of `rust`,
/// `python`, `sql`, `algorithm`, `macro`, `database`, `function` in the
/// lowercase form earns two, and each of `analyze`, `compare`, `tradeoffs`,
/// `architect`, `explain` earns one.
pub proof fn law_rule_points(p: Seq<char>, lower: Seq<char>)
    ensures
        p.contains('{') || p.contains('[') || p.contains('<') || p.contains('=') || p.contains('+')
            || p.contains('$') || p.contains('/') || has_substring(p, "<xml>"@) ==> score_of(p, lower) >= 1,
        p.contains('`') ==> score_of(p, lower) >= 2,
        (p.contains('{') || p.contains('[') || p.contains('<')) && (p.contains('=') || p.contains('$'))
            ==> score_of(p, lower) >= 2,
        p.len() > 250 ==> score_of(p, lower) >= 1,
        p.len() > 1000 ==> score_of(p, lower) >= 3,
        has_substring(lower, "rust"@) || has_substring(lower, "python"@) || has_substring(lower, "sql"@)
            || has_substring(lower, "algorithm"@) || has_substring(lower, "macro"@) || has_substring(
            lower,
            "database"@,
        ) || has_substring(lower, "function"@) ==> score_of(p, lower) >= 2,
        has_substring(lower, "analyze"@) || has_substring(lower, "compare"@) || has_substring(
            lower,
            "tradeoffs"@,
        ) || has_substring(lower, "architect"@) || has_substring(lower, "explain"@) ==> score_of(
            p,
            lower,
        ) >= 1,
{
    let high = high_value_keywords();
    let mid = mid_value_keywords();
    if has_substring(lower, "rust"@) {
        lemma_keyword_found(lower, high, 2, 0);
    }
    if has_substring(lower, "python"@) {
        lemma_keyword_found(lower, high, 2, 1);
    }
    if has_substring(lower, "sql"@) {
        lemma_keyword_found(lower, high, 2, 2);
    }
    if has_substring(lower, "algorithm"@) {
        lemma_keyword_found(lower, high, 2, 3);
    }
    if has_substring(lower, "macro"@) {
        lemma_keyword_found(lower, high, 2, 4);
    }
    if has_substring(lower, "database"@) {
        lemma_keyword_found(lower, high, 2, 5);
    }
    if has_substring(lower, "function"@) {
        lemma_keyword_found(lower, high, 2, 6);
    }
    if has_substring(lower, "analyze"@) {
        lemma_keyword_found(lower, mid, 1, 0);
    }
    if has_substring(lower, "compare"@) {
        lemma_keyword_found(lower, mid, 1, 1);
    }
    if has_substring(lower, "tradeoffs"@) {
        lemma_keyword_found(lower, mid, 1, 2);
    }
    if has_substring(lower, "architect"@) {
        lemma_keyword_found(lower, mid, 1, 3);
    }
    if has_substring(lower, "explain"@) {
        lemma_keyword_found(lower, mid, 1, 4);
    }
}

/// A prompt that no rule matches scores 0 and goes to the low-latency class:
/// at most 250 characters, none of the marks, no backtick, and none of the
/// keywords in its lowercase form.
pub proof fn law_no_rule_scores_zero(p: Seq<char>, lower: Seq<char>)
    requires
        p.len() <= 250,
        !p.contains('{') && !p.contains('[') && !p.contains('<') && !p.contains('=') && !p.contains('+')
            && !p.contains('$') && !p.contains('/') && !p.contains('`'),
        !has_substring(p, "<xml>"@),
        !has_substring(lower, "rust"@) && !has_substring(lower, "python"@) && !has_substring(lower, "sql"@)
            && !has_substring(lower, "algorithm"@) && !has_substring(lower, "macro"@)
            && !has_substring(lower, "database"@) && !has_substring(lower, "function"@),
        !has_substring(lower, "analyze"@) && !has_substring(lower, "compare"@) && !has_substring(
            lower,
            "tradeoffs"@,
        ) && !has_substring(lower, "architect"@) && !has_substring(lower, "explain"@),
    ensures
        score_of(p, lower) == 0,
        class_of(score_of(p, lower)) == PromptComplexity::LowLatency,
{
    let high = high_value_keywords();
    let mid = mid_value_keywords();
    assert forall|k: int| 0 <= k < high.len() implies !has_substring(lower, #[trigger] high[k]) by {
        if k == 0 {} else if k == 1 {} else if k == 2 {} else if k == 3 {} else if k == 4 {} else if k == 5 {} else {}
    }
    assert forall|k: int| 0 <= k < mid.len() implies !has_substring(lower, #[trigger] mid[k]) by {
        if k == 0 {} else if k == 1 {} else if k == 2 {} else if k == 3 {} else {}
    }
    lemma_no_keyword_found(lower, high, 2);
    lemma_no_keyword_found(lower, mid, 1);
}

} // verus!
