//! What the router reads from request headers: the loop-prevention flag that
//! peers set when they forward a request, and the client address used for
//! rate limiting.

use vstd::prelude::*;
use axum::http::{HeaderMap, HeaderValue};
use crate::text::chars_of;

verus! {

broadcast use vstd::string::group_string_axioms;

#[verifier::external_type_specification]
#[verifier::external_body]
#[verifier::reject_recursive_types(T)]
pub struct ExHeaderMap<T>(HeaderMap<T>);

#[verifier::external_type_specification]
#[verifier::external_body]
pub struct ExHeaderValue(HeaderValue);

/// What a header map holds, as the router reads it: for each header name
/// present (in lowercase), the bytes of the first value stored under it.
pub uninterp spec fn first_header_values(headers: HeaderMap<HeaderValue>) -> Map<Seq<char>, Seq<u8>>;

/// A byte that a header value may hold and still be read as text.
pub open spec fn is_visible_ascii(b: u8) -> bool {
    (32 <= b && b < 127) || b == 9
}

/// Every byte of `v` is visible ASCII (or a tab).
pub open spec fn visible_ascii_bytes(v: Seq<u8>) -> bool {
    forall|i: int| 0 <= i < v.len() ==> is_visible_ascii(#[trigger] v[i])
}

/// Every character of `s` is visible ASCII (or a tab).
pub open spec fn visible_ascii_chars(s: Seq<char>) -> bool {
    forall|i: int| 0 <= i < s.len() ==> '\0' <= #[trigger] s[i] <= '\u{7f}' && is_visible_ascii(s[i] as u8)
}

/// The characters that ASCII bytes stand for.
pub open spec fn ascii_chars(v: Seq<u8>) -> Seq<char> {
    v.map_values(|b: u8| b as char)
}

/// A character allowed in a header name as written here: lowercase letter,
/// digit or hyphen.
pub open spec fn is_header_name_char(c: char) -> bool {
    ('a' <= c && c <= 'z') || ('0' <= c && c <= '9') || c == '-'
}

/// A non-empty header name in lowercase, of at most 64 characters.
pub open spec fn is_lowercase_header_name(name: Seq<char>) -> bool {
    0 < name.len() <= 64 && forall|i: int| 0 <= i < name.len() ==> is_header_name_char(#[trigger] name[i])
}

/// The text of the first value of header `name`: `None` where the header is
/// absent or its value is not visible ASCII.
pub open spec fn header_text_of(values: Map<Seq<char>, Seq<u8>>, name: Seq<char>) -> Option<Seq<char>> {
    if values.dom().contains(name) && visible_ascii_bytes(values[name]) {
        Some(ascii_chars(values[name]))
    } else {
        None
    }
}

/// Calls `HeaderMap::get` and then `HeaderValue::to_str`. Trusted: the value
/// returned is the first one stored under `name` (names compare without
/// regard to case), and `to_str` succeeds exactly when every byte is visible
/// ASCII or a tab, giving those bytes as characters.
#[verifier::external_body]
fn header_text(headers: &HeaderMap<HeaderValue>, name: &str) -> (r: Option<String>)
    requires
        is_lowercase_header_name(name@),
    ensures
        r matches Some(s) ==> Some(s@) == header_text_of(first_header_values(*headers), name@),
        r is None ==> header_text_of(first_header_values(*headers), name@) is None,
{
    match headers.get(name) {
        Some(value) => match value.to_str() {
            Ok(text) => Some(text.to_owned()),
            Err(_) => None,
        },
        None => None,
    }
}

/// ASCII case folding of one character, as a code.
pub open spec fn folded(c: char) -> int {
    let code = c as u32;
    if 65 <= code && code <= 90 {
        code + 32
    } else {
        code as int
    }
}

/// `s` and `t` are equal when ASCII letters are compared without case.
pub open spec fn eq_ignore_ascii_case(s: Seq<char>, t: Seq<char>) -> bool {
    s.len() == t.len() && forall|i: int| 0 <= i < s.len() ==> folded(#[trigger] s[i]) == folded(t[i])
}

/// Compares two texts with ASCII letters taken without case.
pub fn text_eq_ignore_ascii_case(s: &str, t: &str) -> (r: bool)
    ensures
        r == eq_ignore_ascii_case(s@, t@),
{
    let a = chars_of(s);
    let b = chars_of(t);
    if a.len() != b.len() {
        return false;
    }
    let mut i: usize = 0;
    while i < a.len()
        invariant
            a@ == s@,
            b@ == t@,
            a.len() == b.len(),
            i <= a.len(),
            forall|k: int| 0 <= k < i ==> folded(#[trigger] a@[k]) == folded(b@[k]),
        decreases a.len() - i,
    {
        let x = a[i] as u32;
        let y = b[i] as u32;
        let fx = if 65 <= x && x <= 90 { x + 32 } else { x };
        let fy = if 65 <= y && y <= 90 { y + 32 } else { y };
        if fx != fy {
            assert(folded(a@[i as int]) != folded(b@[i as int]));
            return false;
        }
        i = i + 1;
    }
    true
}

/// Whether a request carries the loop-prevention flag: the header's text is
/// `true` in any case.
pub open spec fn forwarded_flag(text: Option<Seq<char>>) -> bool {
    match text {
        Some(s) => eq_ignore_ascii_case(s, "true"@),
        None => false,
    }
}

/// Whether the text of the forwarding header (if any) marks a forwarded request.
pub fn is_forwarded_value(text: Option<&str>) -> (r: bool)
    ensures
        r == forwarded_flag(
            match text {
                Some(s) => Some(s@),
                None => None,
            },
        ),
{
    match text {
        Some(s) => text_eq_ignore_ascii_case(s, "true"),
        None => false,
    }
}

/// The name of the header that marks a request forwarded by a peer.
pub open spec fn forwarded_header_name() -> Seq<char> {
    "x-ketu-forwarded"@
}

/// The name of the header that names the client.
pub open spec fn client_header_name() -> Seq<char> {
    "x-forwarded-for"@
}

/// Whether the request was forwarded by a peer (header `x-ketu-forwarded`
/// holds `true`, in any case).
pub fn is_forwarded_header(headers: &HeaderMap<HeaderValue>) -> (r: bool)
    ensures
        r == forwarded_flag(header_text_of(first_header_values(*headers), forwarded_header_name())),
{
    proof {
        reveal_strlit("x-ketu-forwarded");
    }
    let text = header_text(headers, "x-ketu-forwarded");
    match text {
        Some(s) => is_forwarded_value(Some(s.as_str())),
        None => is_forwarded_value(None),
    }
}


/// A blank in a header value: space or tab, the only whitespace that a
/// visible-ASCII value can hold.
pub open spec fn is_blank(c: char) -> bool {
    c == ' ' || c == '\t'
}

/// `k` is where the first comma-separated item of `s` ends.
pub open spec fn is_first_item_end(s: Seq<char>, k: int) -> bool {
    &&& 0 <= k <= s.len()
    &&& (k == s.len() || s[k] == ',')
    &&& forall|j: int| 0 <= j < k ==> s[j] != ','
}

/// The first comma-separated item of `s`.
pub open spec fn first_item(s: Seq<char>) -> Seq<char> {
    s.take(choose|k: int| is_first_item_end(s, k))
}

/// `t[a..b]` is `t` with its leading and trailing blanks removed.
pub open spec fn is_trim_span(t: Seq<char>, a: int, b: int) -> bool {
    &&& 0 <= a <= b <= t.len()
    &&& forall|i: int| 0 <= i < a ==> is_blank(#[trigger] t[i])
    &&& forall|i: int| b <= i < t.len() ==> is_blank(#[trigger] t[i])
    &&& a < b ==> !is_blank(t[a]) && !is_blank(t[b - 1])
}

/// `t` without leading and trailing blanks.
pub open spec fn trimmed(t: Seq<char>) -> Seq<char> {
    let (a, b) = choose|a: int, b: int| is_trim_span(t, a, b);
    t.subrange(a, b)
}

/// The client named by the text of an `x-forwarded-for` header: its first
/// item without surrounding blanks, or `unknown` where there is no header
/// text or that item is empty.
pub open spec fn client_ip_of(text: Option<Seq<char>>) -> Seq<char> {
    match text {
        Some(s) => if trimmed(first_item(s)).len() > 0 {
            trimmed(first_item(s))
        } else {
            "unknown"@
        },
        None => "unknown"@,
    }
}

proof fn lemma_first_item_end_unique(s: Seq<char>, k: int, k2: int)
    requires
        is_first_item_end(s, k),
        is_first_item_end(s, k2),
    ensures
        k == k2,
{
    if k < k2 {
        assert(s[k] == ',');
    } else if k2 < k {
        assert(s[k2] == ',');
    }
}

proof fn lemma_trim_span_unique(t: Seq<char>, a: int, b: int, a2: int, b2: int)
    requires
        is_trim_span(t, a, b),
        is_trim_span(t, a2, b2),
    ensures
        t.subrange(a, b) == t.subrange(a2, b2),
{
    if a < b {
        assert(!is_blank(t[a]));
        if a2 < b2 {
            assert(!is_blank(t[a2]));
            assert(!is_blank(t[b2 - 1]));
            assert(!is_blank(t[b - 1]));
            if a2 < a {
                assert(is_blank(t[a2]));
            }
            if a < a2 {
                assert(is_blank(t[a]));
            }
            if b2 < b {
                assert(is_blank(t[b - 1]));
            }
            if b < b2 {
                assert(is_blank(t[b2 - 1]));
            }
        } else {
            if a < a2 {
                assert(is_blank(t[a]));
            } else {
                assert(is_blank(t[a]));
            }
        }
    } else if a2 < b2 {
        assert(!is_blank(t[a2]));
        if a2 < a {
            assert(is_blank(t[a2]));
        } else {
            assert(is_blank(t[a2]));
        }
    }
    assert(t.subrange(a, b) =~= t.subrange(a2, b2));
}

/// The client address for rate limiting, from the text of the
/// `x-forwarded-for` header (see `client_ip_of`).
pub fn client_ip_from_text(text: Option<&str>) -> (r: String)
    requires
        text matches Some(s) ==> visible_ascii_chars(s@),
    ensures
        r@ == client_ip_of(
            match text {
                Some(s) => Some(s@),
                None => None,
            },
        ),
{
    let s = match text {
        Some(s) => s,
        None => {
            return "unknown".to_string();
        },
    };
    let cs = chars_of(s);
    let mut k: usize = 0;
    while k < cs.len() && cs[k] != ','
        invariant
            k <= cs.len(),
            forall|j: int| 0 <= j < k ==> cs@[j] != ',',
        decreases cs.len() - k,
    {
        k = k + 1;
    }
    assert(is_first_item_end(cs@, k as int));
    let ghost item = cs@.take(k as int);
    proof {
        let k2 = choose|k2: int| is_first_item_end(cs@, k2);
        lemma_first_item_end_unique(cs@, k as int, k2);
        assert(first_item(s@) == item);
    }
    let mut a: usize = 0;
    while a < k && (cs[a] == ' ' || cs[a] == '\t')
        invariant
            a <= k <= cs.len(),
            forall|i: int| 0 <= i < a ==> is_blank(#[trigger] cs@[i]),
        decreases k - a,
    {
        a = a + 1;
    }
    let mut b: usize = k;
    while b > a && (cs[b - 1] == ' ' || cs[b - 1] == '\t')
        invariant
            a <= b <= k <= cs.len(),
            forall|i: int| b <= i < k ==> is_blank(#[trigger] cs@[i]),
        decreases b - a,
    {
        b = b - 1;
    }
    proof {
        assert forall|i: int| 0 <= i < a implies is_blank(#[trigger] item[i]) by {
            assert(item[i] == cs@[i]);
        }
        assert forall|i: int| b <= i < item.len() implies is_blank(#[trigger] item[i]) by {
            assert(item[i] == cs@[i]);
        }
        if a < b {
            assert(item[a as int] == cs@[a as int]);
            assert(item[b - 1] == cs@[b - 1]);
        }
        assert(is_trim_span(item, a as int, b as int));
        let (a2, b2) = choose|a2: int, b2: int| is_trim_span(item, a2, b2);
        lemma_trim_span_unique(item, a as int, b as int, a2, b2);
        assert(trimmed(item) == item.subrange(a as int, b as int));
    }
    if a == b {
        return "unknown".to_string();
    }
    let part = s.substring_ascii(a, b);
    assert(part@ =~= item.subrange(a as int, b as int));
    part.to_string()
}

/// The client address for rate limiting: the first item of the
/// `x-forwarded-for` header without surrounding blanks, or `unknown`.
pub fn client_ip(headers: &HeaderMap<HeaderValue>) -> (r: String)
    ensures
        r@ == client_ip_of(header_text_of(first_header_values(*headers), client_header_name())),
{
    proof {
        reveal_strlit("x-forwarded-for");
    }
    let text = header_text(headers, "x-forwarded-for");
    match text {
        Some(s) => {
            proof {
                let v = first_header_values(*headers)[client_header_name()];
                assert forall|i: int| 0 <= i < s@.len() implies '\0' <= #[trigger] s@[i] <= '\u{7f}' && is_visible_ascii(s@[i] as u8) by {
                    assert(s@[i] == v[i] as char);
                    assert(is_visible_ascii(v[i]));
                }
            }
            client_ip_from_text(Some(s.as_str()))
        },
        None => client_ip_from_text(None),
    }
}


/// The name of the header in which a router reports the backend that answered.
pub open spec fn target_header_name() -> Seq<char> {
    "x-ketu-target"@
}

/// The backend reported in the `x-ketu-target` header of a response, or
/// `<missing>` where there is no readable one.
pub fn reported_target(headers: &HeaderMap<HeaderValue>) -> (r: String)
    ensures
        r@ == match header_text_of(first_header_values(*headers), target_header_name()) {
            Some(t) => t,
            None => "<missing>"@,
        },
{
    proof {
        reveal_strlit("x-ketu-target");
    }
    match header_text(headers, "x-ketu-target") {
        Some(t) => target_from_text(Some(t.as_str())),
        None => target_from_text(None),
    }
}

/// The reported backend, from the text of the `x-ketu-target` header:
/// that text, or `<missing>` where there is none.
pub fn target_from_text(text: Option<&str>) -> (r: String)
    ensures
        r@ == match text {
            Some(t) => t@,
            None => "<missing>"@,
        },
{
    match text {
        Some(t) => t.to_string(),
        None => "<missing>".to_string(),
    }
}

} // verus!
