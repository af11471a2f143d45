//! Where and how a prompt is sent to an Ollama backend.

use vstd::prelude::*;
use crate::text::{contains_text, has_substring, push_text};

verus! {

/// The pause, in milliseconds, before a prompt is sent to the backend on
/// port 11435, kept to exercise the handling of slow backends.
pub const SLOW_PORT_DELAY_MS: u64 = 2500;

/// How long to wait before sending a prompt to the backend at `url`: the
/// backend on port 11435 is held back, any other is not.
pub fn generation_delay_ms(url: &str) -> (r: u64)
    ensures
        r == if has_substring(url@, "11435"@) {
            SLOW_PORT_DELAY_MS
        } else {
            0
        },
{
    if contains_text(url, "11435") {
        SLOW_PORT_DELAY_MS
    } else {
        0
    }
}

/// The generation endpoint of the backend at `url`.
pub fn generate_endpoint(url: &str) -> (r: String)
    ensures
        r@ == url@ + "/api/generate"@,
{
    let mut s = String::new();
    push_text(&mut s, url);
    push_text(&mut s, "/api/generate");
    s
}

/// The address of `path` on the peer router at `peer` (host and port).
pub fn peer_endpoint(peer: &str, path: &str) -> (r: String)
    ensures
        r@ == "http://"@ + peer@ + path@,
{
    let mut s = String::new();
    push_text(&mut s, "http://");
    push_text(&mut s, peer);
    push_text(&mut s, path);
    s
}

} // verus!
