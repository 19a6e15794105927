//! Properties of the routing model that span several operations.

use vstd::prelude::*;
use crate::held::entries_to;
use crate::router::{RouterState, connected_ids, first_pos};
use crate::text::{hex_fixed, lemma_hex_fixed_injective, lemma_pow16_16, local_name};

verus! {

/// Input goes to this machine or to a peer that is known and connected.
pub open spec fn routes_live(s: RouterState) -> bool {
    s.active == local_name() || s.is_connected(s.active)
}

proof fn lemma_connected_ids_member(peers: Seq<crate::router::PeerRecord>, k: int)
    requires
        0 <= k < connected_ids(peers).len(),
    ensures
        exists|i: int| 0 <= i < peers.len() && peers[i].id == connected_ids(peers)[k] && peers[i].connected,
    decreases peers.len(),
{
    let rest = connected_ids(peers.drop_last());
    if peers.last().connected && k == rest.len() {
        assert(peers[peers.len() - 1].id == connected_ids(peers)[k]);
    } else {
        lemma_connected_ids_member(peers.drop_last(), k);
        let i = choose|i: int| 0 <= i < peers.drop_last().len() && peers.drop_last()[i].id == rest[k]
            && peers.drop_last()[i].connected;
        assert(peers[i] == peers.drop_last()[i]);
    }
}

proof fn lemma_first_pos_in_range(c: Seq<Seq<char>>, x: Seq<char>)
    ensures
        c.len() > 0 ==> 0 <= first_pos(c, x) < c.len(),
    decreases c.len(),
{
    if c.len() > 0 && c[0] != x && c.drop_first().contains(x) {
        lemma_first_pos_in_range(c.drop_first(), x);
    }
}

/// The shortcut always lands on this machine or on a connected peer, and the chord's
/// own keys keep going to the machine it started on until the chord is finished.
pub proof fn law_next_lands_on_live_target(s: RouterState)
    requires
        s.wf(),
    ensures
        s.next_target() == local_name() || s.is_connected(s.next_target()),
        s.after_next().active == s.next_target(),
        s.after_next().event_target() == s.active,
        s.after_next().chord_finished().event_target() == s.next_target(),
        s.after_next().held == s.held,
        s.after_next().transitions == s.transitions + 1,
{
    let c = s.cycle();
    lemma_first_pos_in_range(c, s.active);
    let k = (first_pos(c, s.active) + 1) % (c.len() as int);
    if k > 0 {
        assert(c[k] == connected_ids(s.peers)[k - 1]);
        lemma_connected_ids_member(s.peers, k - 1);
    } else {
        assert(c[0] == local_name());
    }
}

/// From this machine the shortcut goes to the first connected peer (or stays here
/// when none is connected); from the last connected peer it comes back here.
pub proof fn law_next_cycle_order(s: RouterState)
    requires
        s.wf(),
    ensures
        s.active == local_name() && connected_ids(s.peers).len() > 0 ==> s.next_target()
            == connected_ids(s.peers)[0],
        s.active == local_name() && connected_ids(s.peers).len() == 0 ==> s.next_target()
            == local_name(),
        connected_ids(s.peers).len() > 0 && s.active == connected_ids(s.peers).last() && s.active
            != local_name() && (forall|j: int| 0 <= j < connected_ids(s.peers).len() - 1
            ==> connected_ids(s.peers)[j] != s.active) ==> s.next_target() == local_name(),
{
    let c = s.cycle();
    let ids = connected_ids(s.peers);
    assert(c[0] == local_name());
    if s.active == local_name() {
        assert(first_pos(c, s.active) == 0);
        if ids.len() > 0 {
            assert(c[1] == ids[0]);
            assert(c.len() == 1 + ids.len());
            vstd::arithmetic::div_mod::lemma_small_mod(1, c.len() as nat);
        } else {
            assert(c.len() == 1);
            vstd::arithmetic::div_mod::lemma_mod_self_0(1);
        }
    }
    if ids.len() > 0 && s.active == ids.last() && s.active != local_name() && (forall|j: int|
        0 <= j < ids.len() - 1 ==> ids[j] != s.active) {
        let p = ids.len() as int;
        assert(c[p] == s.active);
        assert forall|k: int| 0 <= k < p implies c[k] != s.active by {
            if k > 0 {
                assert(c[k] == ids[k - 1]);
            }
        }
        crate::router::lemma_first_pos_found_pub(c, s.active, p);
        assert(c.len() == p + 1);
        vstd::arithmetic::div_mod::lemma_mod_self_0(p + 1);
    }
}

/// The shortcut moves one step along the cycle: this machine, then the connected
/// peers in insertion order, then this machine again. If the active destination first
/// occurs at position `p` of that cycle, the shortcut leads to position `p + 1`
/// (wrapping round), and the router's active destination becomes exactly that. In
/// particular, from a connected peer that is not the last one the shortcut leads to
/// the next connected peer, and from this machine to the first connected peer.
pub proof fn law_next_is_successor(s: RouterState, p: int)
    requires
        0 <= p < 1 + connected_ids(s.peers).len(),
        (seq![local_name()] + connected_ids(s.peers))[p] == s.active,
        forall|q: int| 0 <= q < p ==> (seq![local_name()] + connected_ids(s.peers))[q] != s.active,
    ensures
        s.next_target() == (seq![local_name()] + connected_ids(s.peers))[(p + 1) % (1 + connected_ids(s.peers).len() as int)],
        s.after_next().active == s.next_target(),
        p + 1 < 1 + connected_ids(s.peers).len() ==> s.after_next().active == connected_ids(s.peers)[p],
        p + 1 == 1 + connected_ids(s.peers).len() ==> s.after_next().active == local_name(),
{
    let ids = connected_ids(s.peers);
    let c = seq![local_name()] + ids;
    assert(c =~= s.cycle());
    crate::router::lemma_first_pos_found_pub(c, s.active, p);
    let n: int = 1 + ids.len() as int;
    if p + 1 < n {
        vstd::arithmetic::div_mod::lemma_small_mod((p + 1) as nat, n as nat);
        assert(c[p + 1] == ids[p]);
    } else {
        vstd::arithmetic::div_mod::lemma_mod_self_0(n);
    }
}

/// Input never goes to a missing or disconnected peer: every operation keeps the
/// destination on this machine or on a connected peer. Losing the active peer,
/// however it happens, brings input back here.
pub proof fn law_routes_only_to_live_targets(
    s: RouterState,
    id: Seq<char>,
    address: Seq<char>,
    key: u16,
    down: bool,
    from_chord: bool,
)
    requires
        s.wf(),
        routes_live(s),
    ensures
        routes_live(s.with_peer(id, address)),
        routes_live(s.without_peer(id)),
        routes_live(s.disconnected(id)),
        s.is_connected(id) ==> routes_live(s.switched(id, from_chord)),
        routes_live(s.localized(from_chord)),
        routes_live(s.after_next()),
        routes_live(s.noted(key, down)),
        routes_live(s.chord_finished()),
{
    let a = s.active;
    // insertion
    if a != local_name() {
        let j = choose|j: int| 0 <= j < s.peers.len() && s.peers[j].id == a && s.peers[j].connected;
        let t = s.with_peer(id, address);
        if s.has_peer(id) {
            let i = s.peer_index(id);
            if i == j {
                assert(t.peers[j].id == a && t.peers[j].connected);
            } else {
                assert(t.peers[j] == s.peers[j]);
            }
        } else {
            assert(t.peers[j] == s.peers[j]);
        }
        assert(t.is_connected(a));
        // removal and disconnection of another peer
        if a != id {
            if s.has_peer(id) {
                let i = s.peer_index(id);
                assert(i != j);
                let r = s.without_peer(id);
                if j < i {
                    assert(r.peers[j] == s.peers[j]);
                } else {
                    assert(r.peers[j - 1] == s.peers[j]);
                }
                assert(r.is_connected(a));
                let d = s.disconnected(id);
                assert(d.peers[j] == s.peers[j]);
                assert(d.is_connected(a));
            } else {
                assert(s.without_peer(id).peers == s.peers);
                assert(s.disconnected(id).peers == s.peers);
            }
        }
    }
    law_next_lands_on_live_target(s);
    assert(s.switched(id, from_chord).peers == s.peers);
    assert(s.noted(key, down).peers == s.peers);
    assert(s.noted(key, down).active == s.active);
    assert(s.chord_finished().peers == s.peers);
    assert(s.localized(from_chord).peers == s.peers);
    assert(s.after_next().peers == s.peers);
}

/// Each release goes where the press went: a key pressed now stays bound to the
/// current event destination across a switch, and releasing that destination hands
/// it back.
pub proof fn law_release_follows_press(s: RouterState, key: u16, id: Seq<char>)
    requires
        s.wf(),
        s.is_connected(id),
    ensures
        ({
            let t = s.noted(key, true).switched(id, false);
            &&& t.active == id
            &&& t.held.contains_key(key)
            &&& t.held[key] == s.event_target()
            &&& entries_to(t.held, s.event_target()).contains_key(key)
            &&& entries_to(t.held, s.event_target())[key] == s.event_target()
        }),
{
    let t = s.noted(key, true).switched(id, false);
    assert(t.held.dom().filter(|k: u16| t.held[k] == s.event_target()).contains(key));
}

/// Losing the active peer, by removal or disconnection, brings input back to this
/// machine and hands back every held key; losing another peer hands back none.
pub proof fn law_lost_peer_falls_back(s: RouterState, id: Seq<char>)
    requires
        s.wf(),
    ensures
        s.active == id ==> s.without_peer(id).active == local_name()
            && s.without_peer(id).held == Map::<u16, Seq<char>>::empty()
            && s.lost_keys(id) == s.held,
        s.active == id ==> s.disconnected(id).active == local_name()
            && s.disconnected(id).held == Map::<u16, Seq<char>>::empty(),
        s.active != id ==> s.lost_keys(id) == Map::<u16, Seq<char>>::empty()
            && s.without_peer(id).active == s.active
            && s.without_peer(id).held == s.held,
        !s.without_peer(id).has_peer(id),
{
    let r = s.without_peer(id);
    if s.has_peer(id) {
        let i = s.peer_index(id);
        assert forall|k: int| 0 <= k < r.peers.len() implies r.peers[k].id != id by {
            if k < i {
                assert(r.peers[k] == s.peers[k]);
            } else {
                assert(r.peers[k] == s.peers[k + 1]);
            }
        }
    }
}

/// Returning to this machine is idempotent, and every request gets a fresh id.
pub proof fn law_local_idempotent(s: RouterState)
    requires
        s.transitions + 2 < 0x1_0000_0000_0000_0000,
    ensures
        s.localized(false).active == local_name(),
        s.localized(false).localized(false).active == local_name(),
        s.localized(false).last_id() != s.localized(false).localized(false).last_id(),
{
    law_transition_ids_unique(s.transitions + 1, s.transitions + 2);
}

/// A transition id is never reused: distinct counter values below `2^64` give
/// distinct ids, and every granted transition advances the counter by one.
pub proof fn law_transition_ids_unique(a: nat, b: nat)
    requires
        a < b < 0x1_0000_0000_0000_0000,
    ensures
        hex_fixed(a, 16) != hex_fixed(b, 16),
{
    lemma_pow16_16();
    if hex_fixed(a, 16) == hex_fixed(b, 16) {
        lemma_hex_fixed_injective(a, b, 16);
    }
}

} // verus!
