//! Decisions of the session agent and of the daemon's view of its transport:
//! which password to use, how the client's layout starts, which peer to follow,
//! and how answers from the daemon are passed on.

use vstd::prelude::*;
use crate::clip::trim;
use crate::control::{Peer, PeerStatus};
use crate::layout::{LayoutFile, PeerSide, default_remote, is_two_node_layout};
use crate::router::PeerSnapshot;
use crate::text::{owned, str_eq, local_name, local_target, chars_of, string_of};

verus! {

/// Name of a side, as the status file writes it.
pub open spec fn side_name(side: PeerSide) -> Seq<char> {
    match side {
        PeerSide::Left => "left"@,
        PeerSide::Right => "right"@,
        PeerSide::Top => "top"@,
        PeerSide::Bottom => "bottom"@,
    }
}

/// Name of a side, as the status file writes it.
pub fn side_word(side: PeerSide) -> (r: &'static str)
    ensures
        r@ == side_name(side),
{
    match side {
        PeerSide::Left => "left",
        PeerSide::Right => "right",
        PeerSide::Top => "top",
        PeerSide::Bottom => "bottom",
    }
}

/// The side a side name stands for.
pub fn parse_side(word: &str) -> (r: Result<PeerSide, String>)
    ensures
        word@ == "left"@ ==> r == Ok::<PeerSide, String>(PeerSide::Left),
        word@ == "right"@ ==> r == Ok::<PeerSide, String>(PeerSide::Right),
        word@ == "top"@ ==> r == Ok::<PeerSide, String>(PeerSide::Top),
        word@ == "bottom"@ ==> r == Ok::<PeerSide, String>(PeerSide::Bottom),
        !(word@ == "left"@ || word@ == "right"@ || word@ == "top"@ || word@ == "bottom"@)
            ==> (r is Err && r->Err_0@ == "invalid side: "@ + word@ + " (left|right|top|bottom)"@),
{
    proof {
        lemma_side_words_distinct();
    }
    if str_eq(word, "left") {
        Ok(PeerSide::Left)
    } else if str_eq(word, "right") {
        Ok(PeerSide::Right)
    } else if str_eq(word, "top") {
        Ok(PeerSide::Top)
    } else if str_eq(word, "bottom") {
        Ok(PeerSide::Bottom)
    } else {
        let mut e = owned("invalid side: ");
        e.push_str(word);
        e.push_str(" (left|right|top|bottom)");
        Err(e)
    }
}

/// Side names and sides correspond one to one.
pub proof fn law_side_names_roundtrip(side: PeerSide)
    ensures
        side_name(side) == "left"@ ==> side == PeerSide::Left,
        side_name(side) == "right"@ ==> side == PeerSide::Right,
        side_name(side) == "top"@ ==> side == PeerSide::Top,
        side_name(side) == "bottom"@ ==> side == PeerSide::Bottom,
{
    lemma_side_words_distinct();
}

proof fn lemma_side_words_distinct()
    ensures
        "left"@ != "right"@,
        "left"@ != "top"@,
        "left"@ != "bottom"@,
        "right"@ != "top"@,
        "right"@ != "bottom"@,
        "top"@ != "bottom"@,
{
    reveal_strlit("left");
    reveal_strlit("right");
    reveal_strlit("top");
    reveal_strlit("bottom");
    assert("left"@.len() == 4);
    assert("right"@.len() == 5);
    assert("top"@.len() == 3);
    assert("bottom"@.len() == 6);
    assert("left"@[0] != "right"@[0]);
}

/// The text with white space trimmed off both ends.
pub fn trim_text(s: &str) -> (r: String)
    ensures
        r@ == trim(s@),
{
    let v = chars_of(s);
    let t = crate::clip::trim_exec(&v);
    string_of(&t)
}

/// The pairing password: the one given on the command line, else the one from the
/// environment, else the contents of the password file trimmed; an empty one is refused.
pub fn choose_password(arg: Option<String>, env: Option<String>, file: Option<String>) -> (r: Result<String, String>)
    ensures
        ({
            let chosen = match arg {
                Some(a) => a@,
                None => match env {
                    Some(e) => e@,
                    None => match file {
                        Some(f) => trim(f@),
                        None => Seq::empty(),
                    },
                },
            };
            &&& chosen.len() == 0 ==> (r is Err && r->Err_0@ == "pairing password required (NEXUSKVM_PASSWORD or data-dir/password)"@)
            &&& chosen.len() > 0 ==> (r is Ok && r->Ok_0@ == chosen)
        }),
{
    let chosen = match arg {
        Some(a) => a,
        None => match env {
            Some(e) => e,
            None => match file {
                Some(f) => trim_text(f.as_str()),
                None => String::new(),
            },
        },
    };
    if chosen.as_str().is_empty() {
        return Err("pairing password required (NEXUSKVM_PASSWORD or data-dir/password)".to_owned());
    }
    Ok(chosen)
}

/// On a client the return edge is the opposite of the host's default: a layout still
/// at its default (remote `peer` on the right) is turned to the left. Returns the
/// layout to use and whether it changed.
pub fn client_layout(file: LayoutFile) -> (r: (LayoutFile, bool))
    ensures
        (file.peer_side == PeerSide::Right && file.remote_peer is Some && file.remote_peer->0@ == default_remote()) ==> {
            &&& r.1
            &&& r.0.peer_side == PeerSide::Left
            &&& r.0.remote_peer is Some && r.0.remote_peer->0@ == default_remote()
            &&& is_two_node_layout(r.0.layout, local_name(), default_remote(), PeerSide::Left)
        },
        !(file.peer_side == PeerSide::Right && file.remote_peer is Some && file.remote_peer->0@ == default_remote()) ==> {
            &&& !r.1
            &&& r.0.peer_side == file.peer_side
        },
{
    let is_default = match &file.remote_peer {
        Some(r) => file.peer_side == PeerSide::Right && str_eq(r.as_str(), "peer"),
        None => false,
    };
    if is_default {
        (file.with_side(PeerSide::Left), true)
    } else {
        (file, false)
    }
}

/// The layout after the daemon reports `peer_id` as the connected peer: re-targeted at
/// it when the layout names another remote, `None` when nothing changes.
pub fn follow_peer(file: &LayoutFile, peer_id: &str) -> (r: Option<LayoutFile>)
    ensures
        (file.remote_peer is Some && file.remote_peer->0@ == peer_id@) ==> r is None,
        !(file.remote_peer is Some && file.remote_peer->0@ == peer_id@) ==> (r matches Some(f)
            && f.peer_side == file.peer_side && f.remote_peer is Some && f.remote_peer->0@ == peer_id@
            && is_two_node_layout(f.layout, local_name(), peer_id@, file.peer_side)),
{
    let same = match &file.remote_peer {
        Some(r) => str_eq(r.as_str(), peer_id),
        None => false,
    };
    if same {
        return None;
    }
    let local = local_target();
    let layout = crate::layout::two_node_layout(local.as_str(), peer_id, file.peer_side);
    Some(LayoutFile { peer_side: file.peer_side, remote_peer: Some(owned(peer_id)), layout })
}

/// The answer to a peer's request to return control here, from the daemon's reply:
/// the active target it reports (`local` when it reports none), or its error
/// (`local failed` when it gives none).
pub fn return_outcome(ok: bool, active_target: Option<String>, error: Option<String>) -> (r: Result<Option<String>, String>)
    ensures
        ok && active_target is Some ==> (r is Ok && r->Ok_0 is Some && r->Ok_0->0@ == active_target->0@),
        ok && active_target is None ==> (r is Ok && r->Ok_0 is Some && r->Ok_0->0@ == local_name()),
        !ok && error is Some ==> (r is Err && r->Err_0@ == error->0@),
        !ok && error is None ==> (r is Err && r->Err_0@ == "local failed"@),
{
    if ok {
        match active_target {
            Some(t) => Ok(Some(t)),
            None => Ok(Some(local_target())),
        }
    } else {
        match error {
            Some(e) => Err(e),
            None => Err("local failed".to_owned()),
        }
    }
}

/// Whether `k` is the first index of `rtt` whose id is `id`.
pub open spec fn first_rtt_index(rtt: Seq<(String, u32)>, id: Seq<char>, k: int) -> bool {
    &&& 0 <= k < rtt.len()
    &&& rtt[k].0@ == id
    &&& forall|m: int| 0 <= m < k ==> rtt[m].0@ != id
}

/// The round trip recorded for `id`: that of its first entry in `rtt`, if any.
pub open spec fn latency_of(rtt: Seq<(String, u32)>, id: Seq<char>) -> Option<u32> {
    if exists|k: int| #[trigger] first_rtt_index(rtt, id, k) {
        Some(rtt[choose|k: int| #[trigger] first_rtt_index(rtt, id, k)].1)
    } else {
        None
    }
}

/// The peer record the daemon reports for one entry of a router snapshot.
pub open spec fn reported_peer(p: PeerSnapshot, rtt: Seq<(String, u32)>, q: Peer) -> bool {
    &&& q.id@ == p.id@
    &&& q.name@ == p.id@
    &&& q.address@ == p.address@
    &&& q.status == (if p.connected { PeerStatus::Connected } else { PeerStatus::Disconnected })
    &&& q.protocol_version == 1
    &&& q.latency_ms == latency_of(rtt, p.id@)
}

fn lookup_latency(rtt: &Vec<(String, u32)>, id: &str) -> (latency: Option<u32>)
    ensures
        latency == latency_of(rtt@, id@),
{
    let mut k: usize = 0;
    while k < rtt.len()
        invariant
            k <= rtt@.len(),
            forall|m: int| 0 <= m < k ==> rtt@[m].0@ != id@,
        decreases rtt@.len() - k,
    {
        if str_eq(rtt[k].0.as_str(), id) {
            proof {
                assert(first_rtt_index(rtt@, id@, k as int));
                let j = choose|j: int| #[trigger] first_rtt_index(rtt@, id@, j);
                if j < k as int {
                    assert(rtt@[j].0@ != id@);
                }
                if (k as int) < j {
                    assert(rtt@[k as int].0@ != id@);
                }
                assert(j == k as int);
            }
            return Some(rtt[k].1);
        }
        k = k + 1;
    }
    proof {
        assert forall|j: int| !first_rtt_index(rtt@, id@, j) by {
            if 0 <= j < rtt@.len() {
                assert(rtt@[j].0@ != id@);
            }
        }
    }
    None
}

/// The peers of a router snapshot as the daemon reports them: connected or
/// disconnected, with the measured round trip where there is one (`rtt` holds
/// (id, milliseconds) pairs).
pub fn peers_from_snapshot(snap: &Vec<PeerSnapshot>, rtt: &Vec<(String, u32)>) -> (r: Vec<Peer>)
    ensures
        r@.len() == snap@.len(),
        forall|i: int| 0 <= i < r@.len() ==> reported_peer(snap@[i], rtt@, #[trigger] r@[i]),
{
    let mut out: Vec<Peer> = Vec::new();
    let mut i: usize = 0;
    while i < snap.len()
        invariant
            i <= snap@.len(),
            out@.len() == i,
            forall|j: int| 0 <= j < i ==> reported_peer(snap@[j], rtt@, #[trigger] out@[j]),
        decreases snap@.len() - i,
    {
        let p = &snap[i];
        let latency = lookup_latency(rtt, p.id.as_str());
        let status = if p.connected { PeerStatus::Connected } else { PeerStatus::Disconnected };
        out.push(Peer {
            id: owned(p.id.as_str()),
            name: owned(p.id.as_str()),
            address: owned(p.address.as_str()),
            status,
            latency_ms: latency,
            protocol_version: 1,
        });
        i = i + 1;
    }
    out
}


/// What the session agent reports to the desktop app.
#[derive(Debug, Clone)]
pub struct AgentStatusFile {
    pub portal_available: bool,
    pub portal_error: Option<String>,
    pub peer_side: String,
    pub clipboard_ok: bool,
}

/// The status the agent reports for a layout.
pub fn agent_status(portal_available: bool, portal_error: Option<&str>, layout: &LayoutFile, clipboard_ok: bool) -> (r: AgentStatusFile)
    ensures
        r.portal_available == portal_available,
        portal_error is None ==> r.portal_error is None,
        portal_error matches Some(e) ==> (r.portal_error is Some && r.portal_error->0@ == e@),
        r.peer_side@ == side_name(layout.peer_side),
        r.clipboard_ok == clipboard_ok,
{
    let err = match portal_error {
        Some(e) => Some(owned(e)),
        None => None,
    };
    AgentStatusFile {
        portal_available,
        portal_error: err,
        peer_side: owned(side_word(layout.peer_side)),
        clipboard_ok,
    }
}

/// How the agent reaches the daemon's control socket.
#[derive(Debug, Clone)]
pub struct DaemonClient {
    pub socket: String,
    pub token: Option<String>,
}

/// The saved role of this machine and, for a client, its host.
#[derive(Debug, Clone)]
pub struct SavedState {
    pub role: crate::service::Role,
    pub server: Option<String>,
}

/// What a host hands a client to pair with it.
#[derive(Debug, Clone)]
pub struct Invite {
    pub server: String,
    pub password: String,
    pub certificate: String,
    pub client_certificate: String,
    pub client_key: String,
}

/// The invite a host gives out: its address, the stored password trimmed, and its
/// certificates (the client ones empty when there are none).
pub fn make_invite(server: String, password_file: &str, certificate: String, client_certificate: Option<String>, client_key: Option<String>) -> (r: Invite)
    ensures
        r.server@ == server@,
        r.password@ == trim(password_file@),
        r.certificate@ == certificate@,
        client_certificate matches Some(c) ==> r.client_certificate@ == c@,
        client_certificate is None ==> r.client_certificate@.len() == 0,
        client_key matches Some(k) ==> r.client_key@ == k@,
        client_key is None ==> r.client_key@.len() == 0,
{
    let cc = match client_certificate {
        Some(c) => c,
        None => String::new(),
    };
    let ck = match client_key {
        Some(k) => k,
        None => String::new(),
    };
    Invite { server, password: trim_text(password_file), certificate, client_certificate: cc, client_key: ck }
}

/// What raising the scheduling priority achieved.
#[derive(Debug, Clone, Copy)]
pub struct Boost {
    /// The realtime priority granted, if realtime scheduling was.
    pub rt_prio: Option<i32>,
    /// The nice value set when realtime scheduling was not granted.
    pub nice: i32,
    /// Whether memory got locked.
    pub memlocked: bool,
}

} // verus!
