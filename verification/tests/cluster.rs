use ketu::cluster::{initial_role, role_name, HeartbeatOutcome, NodeRole, PeerMonitor};

#[test]
fn role_depends_on_peer_flag() {
    assert_eq!(initial_role(true), NodeRole::Follower);
    assert_eq!(initial_role(false), NodeRole::Leader);
    assert_eq!(role_name(NodeRole::Leader), "Leader");
    assert_eq!(role_name(NodeRole::Follower), "Follower");
}

#[test]
fn follower_promotes_after_three_missed_heartbeats() {
    let mut m = PeerMonitor::new(NodeRole::Follower);
    let o = m.on_heartbeat(true);
    assert_eq!(o, HeartbeatOutcome { peer_connected: true, peer_lost: false, promoted: false });
    assert!(m.connected);
    assert!(!m.on_heartbeat(false).peer_lost);
    assert!(!m.on_heartbeat(false).peer_lost);
    assert!(m.connected);
    let o = m.on_heartbeat(false);
    assert_eq!(o, HeartbeatOutcome { peer_connected: false, peer_lost: true, promoted: true });
    assert!(!m.connected);
    assert_eq!(m.role, NodeRole::Leader);
    let o = m.on_heartbeat(false);
    assert_eq!(o, HeartbeatOutcome { peer_connected: false, peer_lost: false, promoted: false });
}

#[test]
fn never_connected_peer_is_not_lost() {
    let mut m = PeerMonitor::new(NodeRole::Follower);
    for _ in 0..5 {
        let o = m.on_heartbeat(false);
        assert!(!o.peer_lost && !o.promoted);
    }
    assert_eq!(m.role, NodeRole::Follower);
    assert_eq!(m.missed, 5);
}

#[test]
fn answer_resets_missed_count() {
    let mut m = PeerMonitor::new(NodeRole::Leader);
    m.on_heartbeat(true);
    m.on_heartbeat(false);
    m.on_heartbeat(false);
    let o = m.on_heartbeat(true);
    assert!(!o.peer_connected);
    assert_eq!(m.missed, 0);
    m.on_heartbeat(false);
    m.on_heartbeat(false);
    assert!(m.connected);
    let o = m.on_heartbeat(false);
    assert_eq!(o, HeartbeatOutcome { peer_connected: false, peer_lost: true, promoted: false });
    assert_eq!(m.role, NodeRole::Leader);
}
