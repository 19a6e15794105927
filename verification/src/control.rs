//! The input daemon's control state: what it is doing, how a stale transition
//! is healed, and when a request to switch the input target is admitted.

use vstd::prelude::*;
use crate::text::{str_eq, is_local, local_name, owned};

verus! {

/// Health of a peer connection.
#[derive(Debug, Clone, Copy, PartialEq, Eq, Structural)]
pub enum PeerStatus {
    Connected,
    Disconnected,
    Degraded,
}

/// A peer as the daemon reports it.
#[derive(Debug, Clone)]
pub struct Peer {
    pub id: String,
    pub name: String,
    pub address: String,
    pub status: PeerStatus,
    pub latency_ms: Option<u32>,
    pub protocol_version: u16,
}

/// What the daemon is doing; transition ids are 128-bit UUID values (0 is the nil id).
#[derive(Debug, Clone)]
pub enum RuntimeState {
    Local,
    PreparingRemote { peer: String, transition_id: u128 },
    Remote { peer: String, transition_id: u128 },
    ReturningLocal { transition_id: u128 },
    Recovering { reason: String },
    Degraded { reason: String },
    Stopped,
}

/// The abstract form of a state, with text as characters.
pub enum StateView {
    Local,
    PreparingRemote(Seq<char>, u128),
    Remote(Seq<char>, u128),
    ReturningLocal(u128),
    Recovering(Seq<char>),
    Degraded(Seq<char>),
    Stopped,
}

impl View for RuntimeState {
    type V = StateView;

    open spec fn view(&self) -> StateView {
        match self {
            RuntimeState::Local => StateView::Local,
            RuntimeState::PreparingRemote { peer, transition_id } => StateView::PreparingRemote(peer@, *transition_id),
            RuntimeState::Remote { peer, transition_id } => StateView::Remote(peer@, *transition_id),
            RuntimeState::ReturningLocal { transition_id } => StateView::ReturningLocal(*transition_id),
            RuntimeState::Recovering { reason } => StateView::Recovering(reason@),
            RuntimeState::Degraded { reason } => StateView::Degraded(reason@),
            RuntimeState::Stopped => StateView::Stopped,
        }
    }
}

/// Whether a state is a transition still under way.
pub open spec fn spec_in_transition(s: StateView) -> bool {
    s is PreparingRemote || s is ReturningLocal || s is Recovering
}

/// Whether a state is a transition still under way.
pub fn in_transition(state: &RuntimeState) -> (r: bool)
    ensures
        r == spec_in_transition(state@),
{
    match state {
        RuntimeState::PreparingRemote { .. } | RuntimeState::ReturningLocal { .. } | RuntimeState::Recovering { .. } => true,
        _ => false,
    }
}

/// The settled state that matches the transport's active target.
pub open spec fn settled(active: Seq<char>) -> StateView {
    if active == local_name() {
        StateView::Local
    } else {
        StateView::Remote(active, 0)
    }
}

/// The settled state that matches the transport's active target.
pub fn state_for_active(active: &str) -> (r: RuntimeState)
    ensures
        r@ == settled(active@),
{
    if is_local(active) {
        RuntimeState::Local
    } else {
        RuntimeState::Remote { peer: owned(active), transition_id: 0 }
    }
}

/// The state that replaces `current` once the transport reports `active`, or `None`
/// when `current` stands: a return or recovery always ends local; a preparation ends
/// remote on its peer, or local, and otherwise stands; every settled state (local or
/// remote) is rebuilt from the transport.
pub open spec fn healed(current: StateView, active: Seq<char>) -> Option<StateView> {
    match current {
        StateView::ReturningLocal(_) => Some(StateView::Local),
        StateView::Recovering(_) => Some(StateView::Local),
        StateView::PreparingRemote(peer, id) => if active == peer {
            Some(StateView::Remote(peer, id))
        } else if active == local_name() {
            Some(StateView::Local)
        } else {
            None
        },
        _ => Some(settled(active)),
    }
}

/// The state that replaces `current` once the transport reports `active`.
pub fn heal(current: &RuntimeState, active: &str) -> (r: Option<RuntimeState>)
    ensures
        r is Some <==> healed(current@, active@) is Some,
        r is Some ==> r->0@ == healed(current@, active@)->0,
{
    match current {
        RuntimeState::ReturningLocal { .. } | RuntimeState::Recovering { .. } => Some(RuntimeState::Local),
        RuntimeState::PreparingRemote { peer, transition_id } => {
            if str_eq(active, peer.as_str()) {
                Some(RuntimeState::Remote { peer: owned(peer.as_str()), transition_id: *transition_id })
            } else if is_local(active) {
                Some(RuntimeState::Local)
            } else {
                None
            }
        },
        _ => Some(state_for_active(active)),
    }
}

/// Healing never leaves a return or a recovery pending, and whatever it settles on
/// (other than a finished preparation) is what the transport reports.
pub proof fn law_heal_settles(current: StateView, active: Seq<char>)
    ensures
        healed(current, active) matches Some(s) ==> !(s is ReturningLocal) && !(s is Recovering)
            && !(s is PreparingRemote),
        !(current is PreparingRemote) && !(current is ReturningLocal) && !(current is Recovering)
            ==> healed(current, active) == Some(settled(active)),
{
}

// ---------------------------------------------------------------------------
// Peers.

/// Whether the peer with this id is known and connected.
pub open spec fn peer_connected(peers: Seq<Peer>, id: Seq<char>) -> bool {
    exists|i: int| 0 <= i < peers.len() && #[trigger] peers[i].id@ == id && peers[i].status == PeerStatus::Connected
}

/// Whether the peer with this id is known and connected.
pub fn is_connected(peers: &Vec<Peer>, id: &str) -> (r: bool)
    requires
        unique_ids(peers@),
    ensures
        r == peer_connected(peers@, id@),
{
    let mut i: usize = 0;
    while i < peers.len()
        invariant
            i <= peers@.len(),
            unique_ids(peers@),
            forall|j: int| 0 <= j < i ==> peers@[j].id@ != id@,
        decreases peers@.len() - i,
    {
        if str_eq(peers[i].id.as_str(), id) {
            let c = peers[i].status == PeerStatus::Connected;
            proof {
                if !c {
                    assert forall|j: int| 0 <= j < peers@.len() && #[trigger] peers@[j].id@ == id@
                        implies peers@[j].status != PeerStatus::Connected by {
                        if j != i {
                            assert(peers@[j].id@ != peers@[i as int].id@);
                        }
                    }
                }
            }
            return c;
        }
        i = i + 1;
    }
    false
}

/// Ids of a peer list (a map's values in key order) occur once each.
pub open spec fn unique_ids(peers: Seq<Peer>) -> bool {
    forall|a: int, b: int| 0 <= a < b < peers.len() ==> peers[a].id@ != peers[b].id@
}

/// Monotonic nanoseconds during which a repeated edge crossing is ignored.
pub const EDGE_CONTAINMENT_NANOS: u128 = 750_000_000;

/// What an edge crossing leads to.
#[derive(Debug)]
pub enum EdgeDecision {
    /// Ignored: already remote, or a duplicate within the containment window.
    Contained,
    /// No connected peer to hand control to.
    NoPeer,
    /// Hand control to this peer.
    Switch(String),
}

/// Decides an edge crossing. `since_transition` is the time (nanoseconds) since the
/// last transition, if there was one; `peers` are the known peers in id order.
pub fn edge_decision(active: &str, since_transition: Option<u128>, peers: &Vec<Peer>) -> (r: EdgeDecision)
    ensures
        active@ != local_name() ==> r is Contained,
        active@ == local_name() && since_transition is Some && since_transition->0 < EDGE_CONTAINMENT_NANOS
            ==> r is Contained,
        active@ == local_name() && (since_transition is Some ==> since_transition->0 >= EDGE_CONTAINMENT_NANOS) ==> {
            &&& (forall|i: int| 0 <= i < peers@.len() ==> #[trigger] peers@[i].status != PeerStatus::Connected) ==> r is NoPeer
            &&& forall|i: int| 0 <= i < peers@.len() && #[trigger] peers@[i].status == PeerStatus::Connected
                && (forall|j: int| 0 <= j < i ==> peers@[j].status != PeerStatus::Connected)
                ==> (r matches EdgeDecision::Switch(p) && p@ == peers@[i].id@)
        },
{
    if !is_local(active) {
        return EdgeDecision::Contained;
    }
    if let Some(t) = since_transition {
        if t < EDGE_CONTAINMENT_NANOS {
            return EdgeDecision::Contained;
        }
    }
    let mut i: usize = 0;
    while i < peers.len()
        invariant
            i <= peers@.len(),
            active@ == local_name(),
            since_transition is Some ==> since_transition->0 >= EDGE_CONTAINMENT_NANOS,
            forall|j: int| 0 <= j < i ==> peers@[j].status != PeerStatus::Connected,
        decreases peers@.len() - i,
    {
        if peers[i].status == PeerStatus::Connected {
            let r = EdgeDecision::Switch(owned(peers[i].id.as_str()));
            proof {
                assert forall|k: int| 0 <= k < peers@.len() && #[trigger] peers@[k].status == PeerStatus::Connected
                    && (forall|j: int| 0 <= j < k ==> peers@[j].status != PeerStatus::Connected) implies k == i by {
                    if k < i {
                    } else if k > i {
                        assert(peers@[i as int].status == PeerStatus::Connected);
                    }
                }
            }
            return r;
        }
        i = i + 1;
    }
    EdgeDecision::NoPeer
}

/// Whether a switch request must first force the transport back to local: a return
/// was pending, or the active peer is gone.
pub fn needs_local_reset(was_returning: bool, active: &str, peers: &Vec<Peer>) -> (r: bool)
    requires
        unique_ids(peers@),
    ensures
        r == (was_returning || (active@ != local_name() && !peer_connected(peers@, active@))),
{
    if was_returning {
        return true;
    }
    !is_local(active) && !is_connected(peers, active)
}

/// Admits a request to switch to `peer`.
pub fn admit_switch(peers: &Vec<Peer>, peer: &str, state: &RuntimeState) -> (r: Result<(), String>)
    requires
        unique_ids(peers@),
    ensures
        !peer_connected(peers@, peer@) ==> (r is Err && r->Err_0@ == "peer unavailable: "@ + peer@),
        peer_connected(peers@, peer@) && spec_in_transition(state@)
            ==> (r is Err && r->Err_0@ == "transition in progress"@),
        peer_connected(peers@, peer@) && !spec_in_transition(state@) ==> r is Ok,
{
    if !is_connected(peers, peer) {
        let mut e = owned("peer unavailable: ");
        e.push_str(peer);
        return Err(e);
    }
    if in_transition(state) {
        return Err("transition in progress".to_owned());
    }
    Ok(())
}

/// The state while control is being handed to `peer` under transition `id`.
pub fn preparing(peer: &str, id: u128) -> (r: RuntimeState)
    ensures
        r@ == StateView::PreparingRemote(peer@, id),
{
    RuntimeState::PreparingRemote { peer: owned(peer), transition_id: id }
}

/// The state a hand-over ends in: remote on the peer once it is active; local when
/// activation failed; the transport's own target when preparation failed.
pub fn switch_outcome(peer: &str, id: u128, prepared: bool, activated: bool, active_after: &str) -> (r: RuntimeState)
    ensures
        !prepared ==> r@ == settled(active_after@),
        prepared && !activated ==> r@ == StateView::Local,
        prepared && activated ==> r@ == StateView::Remote(peer@, id),
{
    if !prepared {
        return state_for_active(active_after);
    }
    if !activated {
        return RuntimeState::Local;
    }
    RuntimeState::Remote { peer: owned(peer), transition_id: id }
}

/// Checks a cycle to the next target: it fails when control stayed local.
pub fn check_next(before: &str, after: &str) -> (r: Result<(), String>)
    ensures
        (after@ == before@ && after@ == local_name()) ==> (r is Err && r->Err_0@ == "no connected peer to switch to"@),
        !(after@ == before@ && after@ == local_name()) ==> r is Ok,
{
    if str_eq(after, before) && is_local(after) {
        return Err("no connected peer to switch to".to_owned());
    }
    Ok(())
}

/// Seconds after its last heartbeat that the session agent counts as connected.
pub const AGENT_TTL_NANOS: u128 = 5_000_000_000;

/// Whether the session agent counts as connected, given the time since its last heartbeat.
pub fn agent_connected(since_heartbeat: Option<u128>) -> (r: bool)
    ensures
        r == (since_heartbeat is Some && since_heartbeat->0 < AGENT_TTL_NANOS),
{
    match since_heartbeat {
        Some(t) => t < AGENT_TTL_NANOS,
        None => false,
    }
}

/// The peers as status reports them: each one's latency replaced by a measured
/// round trip where there is one (`rtt` holds (id, milliseconds) pairs, ids once each).
pub fn with_latencies(peers: Vec<Peer>, rtt: &Vec<(String, u32)>) -> (r: Vec<Peer>)
    ensures
        r@.len() == peers@.len(),
        forall|i: int| 0 <= i < r@.len() ==> {
            &&& (#[trigger] r@[i]).id@ == peers@[i].id@
            &&& r@[i].status == peers@[i].status
            &&& r@[i].protocol_version == peers@[i].protocol_version
            &&& r@[i].name@ == peers@[i].name@
            &&& r@[i].address@ == peers@[i].address@
            &&& (exists|k: int| 0 <= k < rtt@.len() && rtt@[k].0@ == peers@[i].id@) ==> r@[i].latency_ms == Some(
                rtt@[choose|k: int| 0 <= k < rtt@.len() && rtt@[k].0@ == peers@[i].id@
                    && forall|m: int| 0 <= m < k ==> rtt@[m].0@ != peers@[i].id@].1)
            &&& !(exists|k: int| 0 <= k < rtt@.len() && rtt@[k].0@ == peers@[i].id@) ==> r@[i].latency_ms
                == peers@[i].latency_ms
        },
{
    let mut out: Vec<Peer> = Vec::new();
    let n = peers.len();
    let ghost src = peers@;
    for p in it: peers
        invariant
            it.seq() == src,
            n == src.len(),
            out@.len() == it.index(),
            forall|i: int| 0 <= i < out@.len() ==> {
                &&& (#[trigger] out@[i]).id@ == src[i].id@
                &&& out@[i].status == src[i].status
                &&& out@[i].protocol_version == src[i].protocol_version
                &&& out@[i].name@ == src[i].name@
                &&& out@[i].address@ == src[i].address@
                &&& (exists|k: int| 0 <= k < rtt@.len() && rtt@[k].0@ == src[i].id@) ==> out@[i].latency_ms == Some(
                    rtt@[choose|k: int| 0 <= k < rtt@.len() && rtt@[k].0@ == src[i].id@
                        && forall|m: int| 0 <= m < k ==> rtt@[m].0@ != src[i].id@].1)
                &&& !(exists|k: int| 0 <= k < rtt@.len() && rtt@[k].0@ == src[i].id@) ==> out@[i].latency_ms
                    == src[i].latency_ms
            },
    {
        let mut q = p;
        let mut k: usize = 0;
        let mut found = false;
        while k < rtt.len()
            invariant_except_break
                k <= rtt@.len(),
                q.id@ == src[it.index() as int].id@,
                !found,
                forall|m: int| 0 <= m < k ==> rtt@[m].0@ != q.id@,
                q.latency_ms == src[it.index() as int].latency_ms,
                q.status == src[it.index() as int].status,
                q.protocol_version == src[it.index() as int].protocol_version,
                q.name@ == src[it.index() as int].name@,
                q.address@ == src[it.index() as int].address@,
            ensures
                q.id@ == src[it.index() as int].id@,
                q.status == src[it.index() as int].status,
                q.protocol_version == src[it.index() as int].protocol_version,
                q.name@ == src[it.index() as int].name@,
                q.address@ == src[it.index() as int].address@,
                found ==> k < rtt@.len() && rtt@[k as int].0@ == q.id@ && q.latency_ms == Some(rtt@[k as int].1)
                    && forall|m: int| 0 <= m < k ==> rtt@[m].0@ != q.id@,
                !found ==> q.latency_ms == src[it.index() as int].latency_ms
                    && forall|m: int| 0 <= m < rtt@.len() ==> rtt@[m].0@ != q.id@,
            decreases rtt@.len() - k,
        {
            if str_eq(rtt[k].0.as_str(), q.id.as_str()) {
                q.latency_ms = Some(rtt[k].1);
                found = true;
                break;
            }
            k = k + 1;
        }
        proof {
            let id = src[it.index() as int].id@;
            if found {
                let c = choose|c: int| 0 <= c < rtt@.len() && rtt@[c].0@ == id
                    && forall|m: int| 0 <= m < c ==> rtt@[m].0@ != id;
                assert(0 <= k < rtt@.len() && rtt@[k as int].0@ == id && forall|m: int| 0 <= m < k ==> rtt@[m].0@ != id);
                if c < k {
                    assert(rtt@[c].0@ != id);
                } else if c > k {
                    assert(rtt@[k as int].0@ != id);
                }
            }
        }
        out.push(q);
    }
    out
}

} // verus!
