use ketu::backend::{Backend, BackendPool};
use ketu::routing::{on_peer_answer, RouteAction, RouteState, RouteStatus, Router};

fn router(urls: &[&str]) -> Router {
    Router::new(BackendPool::new(
        urls.iter().map(|u| Backend::new(u.to_string(), "m".to_string(), 1)).collect(),
    ))
}

#[test]
fn request_goes_to_first_backend() {
    let mut r = router(&["a", "b"]);
    let slow = vec![false, false];
    let adm = r.begin("ip", 0, false, false, &slow);
    assert_eq!(adm.count, 1);
    assert!(!adm.sync_peer);
    assert_eq!(adm.state, RouteState::Trying { attempt: 1, backend: 0, forwarded: false });
    assert_eq!(adm.action, RouteAction::CallBackend { backend: 0 });
}

#[test]
fn eleventh_request_gets_too_many_requests() {
    let mut r = router(&["a"]);
    let slow = vec![false];
    for _ in 0..10 {
        let adm = r.begin("ip", 0, false, true, &slow);
        assert!(adm.sync_peer);
        assert!(matches!(adm.action, RouteAction::CallBackend { .. }));
    }
    let adm = r.begin("ip", 0, false, true, &slow);
    assert_eq!(adm.count, 11);
    assert!(adm.sync_peer);
    assert_eq!(adm.state, RouteState::Finished);
    assert_eq!(adm.action, RouteAction::Fail { status: RouteStatus::TooManyRequests });
}

#[test]
fn answer_records_tokens_and_marks_slow() {
    let mut r = router(&["a", "b"]);
    let slow = vec![false, false];
    let adm = r.begin("ip", 0, false, false, &slow);
    let (state, action) = r.on_answer(adm.state, 41, 2001, true);
    assert_eq!(state, RouteState::Finished);
    assert_eq!(action, RouteAction::Reply { mark_slow: true, notify_peer: true });
    assert_eq!(r.pool.tokens_for("a"), 10);
    let adm = r.begin("ip", 0, false, false, &slow);
    let (_, action) = r.on_answer(adm.state, 8, 2000, true);
    assert_eq!(action, RouteAction::Reply { mark_slow: false, notify_peer: false });
    assert_eq!(r.pool.tokens_for("b"), 2);
    let adm = r.begin("ip", 0, false, false, &slow);
    let (_, action) = r.on_answer(adm.state, 3, 5000, false);
    assert_eq!(action, RouteAction::Reply { mark_slow: true, notify_peer: false });
    assert_eq!(r.pool.tokens_for("a"), 10);
}

#[test]
fn failure_retries_another_backend_then_forwards() {
    let mut r = router(&["a", "b"]);
    let slow = vec![false, false];
    let adm = r.begin("ip", 0, false, true, &slow);
    let (state, action) = r.on_failure(adm.state, true, &slow);
    assert_eq!(state, RouteState::Trying { attempt: 2, backend: 1, forwarded: false });
    assert_eq!(action, RouteAction::CallBackend { backend: 1 });
    let (state, action) = r.on_failure(state, true, &slow);
    assert_eq!(state, RouteState::Forwarding);
    assert_eq!(action, RouteAction::ForwardToPeer);
    assert_eq!(on_peer_answer(true), (RouteState::Finished, RouteAction::ReplyFromPeer));
    assert_eq!(
        on_peer_answer(false),
        (RouteState::Finished, RouteAction::Fail { status: RouteStatus::BadGateway })
    );
}

#[test]
fn exhausted_local_request_without_peer_is_internal_error() {
    let mut r = router(&["a", "b"]);
    let slow = vec![false, false];
    let adm = r.begin("ip", 0, false, false, &slow);
    let (state, _) = r.on_failure(adm.state, false, &slow);
    let (state, action) = r.on_failure(state, false, &slow);
    assert_eq!(state, RouteState::Finished);
    assert_eq!(action, RouteAction::Fail { status: RouteStatus::InternalServerError });
}

#[test]
fn exhausted_forwarded_request_is_bad_gateway_even_with_peer() {
    let mut r = router(&["a", "b"]);
    let slow = vec![false, false];
    let adm = r.begin("ip", 0, true, true, &slow);
    let (state, _) = r.on_failure(adm.state, true, &slow);
    let (state, action) = r.on_failure(state, true, &slow);
    assert_eq!(state, RouteState::Finished);
    assert_eq!(action, RouteAction::Fail { status: RouteStatus::BadGateway });
}

#[test]
fn last_failure_still_advances_rotation() {
    let mut r = router(&["a", "b", "c"]);
    let slow = vec![false, false, false];
    let adm = r.begin("ip", 0, false, false, &slow);
    let (state, _) = r.on_failure(adm.state, false, &slow);
    let _ = r.on_failure(state, false, &slow);
    // a, then b (excluding a), then c (excluding b) was taken; next is a.
    let adm = r.begin("ip2", 0, false, false, &slow);
    assert_eq!(adm.action, RouteAction::CallBackend { backend: 0 });
}

#[test]
fn over_limit_request_is_refused_without_backends() {
    let mut r = Router::new(BackendPool::new(Vec::new()));
    r.rates.sync_from_peer("ip", 10, 0);
    let adm = r.begin("ip", 1, false, true, &Vec::new());
    assert_eq!(adm.count, 11);
    assert!(adm.sync_peer);
    assert_eq!(adm.action, RouteAction::Fail { status: RouteStatus::TooManyRequests });
}
