//! Peer tracking for a pair of routers: the role a node starts in, and the
//! heartbeat bookkeeping that declares a silent peer lost and promotes a
//! follower whose leader is gone.

use vstd::prelude::*;

verus! {

/// How many heartbeats in a row may be missed before the peer is declared lost.
pub const MISSED_HEARTBEATS_LIMIT: u32 = 3;

/// The role of a router in the pair.
#[derive(Clone, Copy, PartialEq, Eq, Structural, Debug)]
pub enum NodeRole {
    Leader,
    Follower,
}

/// A router started with a peer to join is a follower; one started alone
/// leads.
pub fn initial_role(has_peer: bool) -> (r: NodeRole)
    ensures
        r == if has_peer {
            NodeRole::Follower
        } else {
            NodeRole::Leader
        },
{
    if has_peer {
        NodeRole::Follower
    } else {
        NodeRole::Leader
    }
}

/// The name of a role.
pub fn role_name(role: NodeRole) -> (r: &'static str)
    ensures
        r@ == match role {
            NodeRole::Leader => "Leader"@,
            NodeRole::Follower => "Follower"@,
        },
{
    match role {
        NodeRole::Leader => "Leader",
        NodeRole::Follower => "Follower",
    }
}

/// What the heartbeat monitor knows: heartbeats missed in a row, whether the
/// peer is currently known, and this router's role.
#[derive(Clone, Copy, PartialEq, Eq, Structural, Debug)]
pub struct PeerMonitor {
    pub missed: u32,
    pub connected: bool,
    pub role: NodeRole,
}

/// What a heartbeat changed, for the log.
#[derive(Clone, Copy, PartialEq, Eq, Structural, Debug)]
pub struct HeartbeatOutcome {
    /// The peer became known.
    pub peer_connected: bool,
    /// The peer was declared lost.
    pub peer_lost: bool,
    /// This router promoted itself to leader.
    pub promoted: bool,
}

/// The monitor after one heartbeat (`answered` tells whether the peer
/// answered it), with what changed. An answer makes the peer known and
/// clears the missed count. A missed heartbeat adds to the count; from the
/// limit on, a peer still known is declared lost, and a follower that loses
/// its peer becomes leader.
pub open spec fn heartbeat_step(m: PeerMonitor, answered: bool) -> (PeerMonitor, HeartbeatOutcome) {
    if answered {
        (
            PeerMonitor { missed: 0, connected: true, role: m.role },
            HeartbeatOutcome { peer_connected: !m.connected, peer_lost: false, promoted: false },
        )
    } else {
        let missed = (m.missed + 1) as u32;
        if missed >= MISSED_HEARTBEATS_LIMIT && m.connected {
            let promote = m.role == NodeRole::Follower;
            (
                PeerMonitor { missed, connected: false, role: NodeRole::Leader },
                HeartbeatOutcome { peer_connected: false, peer_lost: true, promoted: promote },
            )
        } else {
            (
                PeerMonitor { missed, connected: m.connected, role: m.role },
                HeartbeatOutcome { peer_connected: false, peer_lost: false, promoted: false },
            )
        }
    }
}

impl PeerMonitor {
    /// A monitor for a router in `role` that has not heard from its peer yet.
    pub fn new(role: NodeRole) -> (r: PeerMonitor)
        ensures
            r == (PeerMonitor { missed: 0, connected: false, role }),
    {
        PeerMonitor { missed: 0, connected: false, role }
    }

    /// Takes one heartbeat into account (see `heartbeat_step`).
    pub fn on_heartbeat(&mut self, answered: bool) -> (r: HeartbeatOutcome)
        requires
            answered || old(self).missed < u32::MAX,
        ensures
            (*final(self), r) == heartbeat_step(*old(self), answered),
    {
        if answered {
            let was_connected = self.connected;
            self.missed = 0;
            self.connected = true;
            return HeartbeatOutcome { peer_connected: !was_connected, peer_lost: false, promoted: false };
        }
        self.missed = self.missed + 1;
        let mut outcome = HeartbeatOutcome { peer_connected: false, peer_lost: false, promoted: false };
        if self.missed >= MISSED_HEARTBEATS_LIMIT {
            let was_connected = self.connected;
            if was_connected {
                outcome.peer_lost = true;
                self.connected = false;
            }
            if was_connected {
                if self.role == NodeRole::Follower {
                    self.role = NodeRole::Leader;
                    outcome.promoted = true;
                }
            }
        }
        outcome
    }
}

/// Dead-peer detection: starting from a known peer with no missed heartbeat,
/// the peer stays known through the first two missed heartbeats in a row and
/// is declared lost at the third, when a follower becomes leader.
pub proof fn law_lost_at_third_miss(m0: PeerMonitor)
    requires
        m0.connected,
        m0.missed == 0,
    ensures
        ({
            let (m1, o1) = heartbeat_step(m0, false);
            let (m2, o2) = heartbeat_step(m1, false);
            let (m3, o3) = heartbeat_step(m2, false);
            &&& m1.connected && !o1.peer_lost
            &&& m2.connected && !o2.peer_lost
            &&& !m3.connected && o3.peer_lost
            &&& m3.role == NodeRole::Leader
            &&& o3.promoted == (m0.role == NodeRole::Follower)
        }),
{
}

/// An answered heartbeat always leaves the peer known with no missed
/// heartbeats, whatever came before.
pub proof fn law_answer_restores_peer(m: PeerMonitor)
    ensures
        heartbeat_step(m, true).0.connected,
        heartbeat_step(m, true).0.missed == 0,
        heartbeat_step(m, true).0.role == m.role,
{
}

/// Roles only move from follower to leader: a leader stays leader, and a
/// follower is promoted only when it loses a known peer.
pub proof fn law_leader_stays_leader(m: PeerMonitor, answered: bool)
    ensures
        m.role == NodeRole::Leader ==> heartbeat_step(m, answered).0.role == NodeRole::Leader,
        heartbeat_step(m, answered).0.role != m.role ==> m.connected && !answered && !heartbeat_step(
            m,
            answered,
        ).0.connected,
{
}

} // verus!
