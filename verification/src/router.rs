//! Destination selection for captured input: which machine receives events,
//! which peers may be chosen, and where each held key must be released.

use vstd::prelude::*;
use std::collections::HashMap;
use crate::held::{codes_unique, drain_table, entries_not_to, entries_to, pairs_map, pairs_view, table_view, take_to};
use crate::chord::{chord_next, chord_step, ChordAction, ChordState, ChordView};
use crate::text::{hex16, hex_fixed, is_local, local_name, local_target, owned, str_eq};

verus! {

broadcast use vstd::std_specs::hash::group_hash_axioms;

/// A peer as the router reports it.
#[derive(Debug, Clone, PartialEq, Eq)]
pub struct PeerSnapshot {
    pub id: String,
    pub address: String,
    pub connected: bool,
}

/// What the router reports: the active destination and the peers in insertion order.
#[derive(Debug, Clone, PartialEq, Eq)]
pub struct Snapshot {
    pub active_target: String,
    pub peers: Vec<PeerSnapshot>,
}

/// Why a request to the router failed.
#[derive(Debug, Clone, PartialEq, Eq)]
pub enum TargetError {
    PeerUnavailable(String),
    TransitionInProgress,
    Closed,
}

/// A peer seen abstractly.
pub struct PeerRecord {
    pub id: Seq<char>,
    pub address: Seq<char>,
    pub connected: bool,
}

pub open spec fn record_of(p: PeerSnapshot) -> PeerRecord {
    PeerRecord { id: p.id@, address: p.address@, connected: p.connected }
}

pub open spec fn records_of(v: Seq<PeerSnapshot>) -> Seq<PeerRecord> {
    v.map_values(|p: PeerSnapshot| record_of(p))
}

/// Ids of the connected peers, in insertion order.
pub open spec fn connected_ids(peers: Seq<PeerRecord>) -> Seq<Seq<char>>
    decreases peers.len(),
{
    if peers.len() == 0 {
        Seq::empty()
    } else {
        let rest = connected_ids(peers.drop_last());
        if peers.last().connected {
            rest.push(peers.last().id)
        } else {
            rest
        }
    }
}

/// First position of `x` in `c`, or 0 when absent.
pub open spec fn first_pos(c: Seq<Seq<char>>, x: Seq<char>) -> int
    decreases c.len(),
{
    if c.len() == 0 {
        0
    } else if c[0] == x {
        0
    } else if c.drop_first().contains(x) {
        1 + first_pos(c.drop_first(), x)
    } else {
        0
    }
}

/// Abstract router state.
pub struct RouterState {
    /// Destination of new input.
    pub active: Seq<char>,
    /// Destination before the last change.
    pub previous: Seq<char>,
    /// The last change came from the switch chord, whose keys still go to `previous`.
    pub chord_changed: bool,
    /// Known peers, in insertion order.
    pub peers: Seq<PeerRecord>,
    /// Held key code -> destination that received its press.
    pub held: Map<u16, Seq<char>>,
    /// Number of transition ids handed out so far.
    pub transitions: nat,
    /// Cursor placement requested for the next activation: (edge, position as IEEE-754 bits).
    pub warp: Option<(u8, u32)>,
}

impl RouterState {
    pub open spec fn initial() -> RouterState {
        RouterState {
            active: local_name(),
            previous: local_name(),
            chord_changed: false,
            peers: Seq::empty(),
            held: Map::empty(),
            transitions: 0,
            warp: None,
        }
    }

    /// Peer ids are unique.
    pub open spec fn wf(self) -> bool {
        forall|i: int, j: int|
            0 <= i < self.peers.len() && 0 <= j < self.peers.len() && i != j
                ==> self.peers[i].id != self.peers[j].id
    }

    /// Where events of the current chord go.
    pub open spec fn event_target(self) -> Seq<char> {
        if self.chord_changed {
            self.previous
        } else {
            self.active
        }
    }

    pub open spec fn has_peer(self, id: Seq<char>) -> bool {
        exists|i: int| 0 <= i < self.peers.len() && self.peers[i].id == id
    }

    pub open spec fn peer_index(self, id: Seq<char>) -> int {
        choose|i: int| 0 <= i < self.peers.len() && self.peers[i].id == id
    }

    pub open spec fn is_connected(self, id: Seq<char>) -> bool {
        exists|i: int| 0 <= i < self.peers.len() && self.peers[i].id == id && self.peers[i].connected
    }

    pub open spec fn with_peer(self, id: Seq<char>, address: Seq<char>) -> RouterState {
        let rec = PeerRecord { id, address, connected: true };
        RouterState {
            peers: if self.has_peer(id) {
                self.peers.update(self.peer_index(id), rec)
            } else {
                self.peers.push(rec)
            },
            ..self
        }
    }

    /// Back to this machine after losing the destination; held keys are forgotten.
    pub open spec fn fail_local(self) -> RouterState {
        RouterState {
            previous: self.active,
            active: local_name(),
            chord_changed: false,
            held: Map::empty(),
            ..self
        }
    }

    pub open spec fn without_peer(self, id: Seq<char>) -> RouterState {
        let s = RouterState {
            peers: if self.has_peer(id) {
                self.peers.remove(self.peer_index(id))
            } else {
                self.peers
            },
            ..self
        };
        if self.active == id {
            s.fail_local()
        } else {
            s
        }
    }

    pub open spec fn disconnected(self, id: Seq<char>) -> RouterState {
        let s = RouterState {
            peers: if self.has_peer(id) {
                self.peers.update(
                    self.peer_index(id),
                    PeerRecord { connected: false, ..self.peers[self.peer_index(id)] },
                )
            } else {
                self.peers
            },
            ..self
        };
        if self.active == id {
            s.fail_local()
        } else {
            s
        }
    }

    /// Keys handed back when `id` is lost.
    pub open spec fn lost_keys(self, id: Seq<char>) -> Map<u16, Seq<char>> {
        if self.active == id {
            self.held
        } else {
            Map::empty()
        }
    }

    pub open spec fn switched(self, id: Seq<char>, from_chord: bool) -> RouterState {
        RouterState {
            previous: self.active,
            active: id,
            chord_changed: from_chord,
            transitions: self.transitions + 1,
            ..self
        }
    }

    pub open spec fn localized(self, from_chord: bool) -> RouterState {
        if self.active == local_name() && !from_chord {
            RouterState { transitions: self.transitions + 1, ..self }
        } else {
            RouterState {
                previous: self.active,
                active: local_name(),
                chord_changed: from_chord,
                held: if from_chord { self.held } else { Map::empty() },
                transitions: self.transitions + 1,
                ..self
            }
        }
    }

    /// Shortcut cycle: this machine, then connected peers in insertion order.
    pub open spec fn cycle(self) -> Seq<Seq<char>> {
        seq![local_name()] + connected_ids(self.peers)
    }

    pub open spec fn next_target(self) -> Seq<char> {
        let c = self.cycle();
        c[(first_pos(c, self.active) + 1) % (c.len() as int)]
    }

    pub open spec fn after_next(self) -> RouterState {
        if self.next_target() == local_name() {
            self.localized(true)
        } else {
            self.switched(self.next_target(), true)
        }
    }

    pub open spec fn noted(self, key: u16, down: bool) -> RouterState {
        RouterState {
            held: if down {
                self.held.insert(key, self.event_target())
            } else {
                self.held.remove(key)
            },
            ..self
        }
    }

    pub open spec fn with_warp(self, w: Option<(u8, u32)>) -> RouterState {
        RouterState { warp: w, ..self }
    }

    pub open spec fn chord_finished(self) -> RouterState {
        RouterState { chord_changed: false, ..self }
    }

    pub open spec fn with_held(self, held: Map<u16, Seq<char>>) -> RouterState {
        RouterState { held, ..self }
    }

    /// Id of the most recent transition.
    pub open spec fn last_id(self) -> Seq<char> {
        hex_fixed(self.transitions, 16)
    }
}

/// Target selection with stable peer ids.
///
/// Shortcut cycle order is: this machine, then connected peers in insertion order.
#[derive(Debug)]
pub struct TargetRouter {
    active: String,
    previous: String,
    chord_changed: bool,
    busy: bool,
    peers: Vec<PeerSnapshot>,
    held_keys: HashMap<u16, String>,
    next_transition: u64,
    pending_warp: Option<(u8, u32)>,
}

impl View for TargetRouter {
    type V = RouterState;

    closed spec fn view(&self) -> RouterState {
        RouterState {
            active: self.active@,
            previous: self.previous@,
            chord_changed: self.chord_changed,
            peers: records_of(self.peers@),
            held: table_view(self.held_keys@),
            transitions: self.next_transition as nat,
            warp: self.pending_warp,
        }
    }
}

/// `r` is the refusal for peer `id`.
pub open spec fn refused<T>(r: Result<T, TargetError>, id: Seq<char>) -> bool {
    r matches Err(TargetError::PeerUnavailable(e)) && e@ == id
}

/// `r` carries the id of the transition that produced `s`.
pub open spec fn granted(r: Result<String, TargetError>, s: RouterState) -> bool {
    r matches Ok(t) && t@ == s.last_id()
}

/// `r` hands back, each once, exactly the entries of `m`.
pub open spec fn released(r: Result<Vec<(u16, String)>, TargetError>, m: Map<u16, Seq<char>>) -> bool {
    r matches Ok(keys) && codes_unique(pairs_view(keys@)) && pairs_map(pairs_view(keys@)) == m
}


pub open spec fn names_view(v: Seq<String>) -> Seq<Seq<char>> {
    v.map_values(|s: String| s@)
}

pub proof fn lemma_first_pos_found_pub(c: Seq<Seq<char>>, x: Seq<char>, j: int)
    requires
        0 <= j < c.len(),
        c[j] == x,
        forall|k: int| 0 <= k < j ==> c[k] != x,
    ensures
        first_pos(c, x) == j,
{
    lemma_first_pos_found(c, x, j);
}

proof fn lemma_first_pos_found(c: Seq<Seq<char>>, x: Seq<char>, j: int)
    requires
        0 <= j < c.len(),
        c[j] == x,
        forall|k: int| 0 <= k < j ==> c[k] != x,
    ensures
        first_pos(c, x) == j,
    decreases j,
{
    if j > 0 {
        let d = c.drop_first();
        assert(d[j - 1] == x);
        assert(d.contains(x));
        assert forall|k: int| 0 <= k < j - 1 implies d[k] != x by {
            assert(d[k] == c[k + 1]);
        }
        lemma_first_pos_found(d, x, j - 1);
    }
}

proof fn lemma_first_pos_absent(c: Seq<Seq<char>>, x: Seq<char>)
    requires
        !c.contains(x),
    ensures
        first_pos(c, x) == 0,
{
    if c.len() > 0 {
        assert(c[0] != x);
        assert(!c.drop_first().contains(x)) by {
            if c.drop_first().contains(x) {
                let k = choose|k: int| 0 <= k < c.len() - 1 && c.drop_first()[k] == x;
                assert(c[k + 1] == x);
            }
        }
    }
}

proof fn lemma_first_pos_bound(c: Seq<Seq<char>>, x: Seq<char>)
    ensures
        c.len() > 0 ==> 0 <= first_pos(c, x) < c.len(),
    decreases c.len(),
{
    if c.len() > 0 && c[0] != x && c.drop_first().contains(x) {
        lemma_first_pos_bound(c.drop_first(), x);
    }
}


proof fn lemma_connected_ids_connected(peers: Seq<PeerRecord>, k: int)
    requires
        0 <= k < connected_ids(peers).len(),
    ensures
        exists|i: int| 0 <= i < peers.len() && peers[i].id == connected_ids(peers)[k] && peers[i].connected,
    decreases peers.len(),
{
    let rest = connected_ids(peers.drop_last());
    if peers.last().connected && k == rest.len() {
        assert(peers[peers.len() - 1].id == connected_ids(peers)[k]);
    } else {
        lemma_connected_ids_connected(peers.drop_last(), k);
        let i = choose|i: int| 0 <= i < peers.drop_last().len() && peers.drop_last()[i].id == rest[k]
            && peers.drop_last()[i].connected;
        assert(peers[i] == peers.drop_last()[i]);
    }
}


/// A request for the routing loop.
#[derive(Debug)]
pub enum Order {
    Prepare { id: String, warp: Option<(u8, u32)> },
    Activate { id: String },
    Local,
    ReleaseAll { peer: Option<String> },
    Next,
}

/// The answer to an [`Order`].
#[derive(Debug)]
pub enum Reply {
    Prepared(Result<(), TargetError>),
    Switched(Result<String, TargetError>),
    Released(Result<Vec<(u16, String)>, TargetError>),
}

/// The keys handed back are, each once, exactly the entries of `m`.
pub open spec fn hands_back(keys: Vec<(u16, String)>, m: Map<u16, Seq<char>>) -> bool {
    codes_unique(pairs_view(keys@)) && pairs_map(pairs_view(keys@)) == m
}

proof fn lemma_disconnected_not_connected(s: RouterState, id: Seq<char>)
    requires
        s.wf(),
    ensures
        !s.disconnected(id).is_connected(id),
{
    let t = s.disconnected(id);
    if t.is_connected(id) {
        let j = choose|j: int| 0 <= j < t.peers.len() && t.peers[j].id == id && t.peers[j].connected;
        if s.has_peer(id) {
            let k = s.peer_index(id);
            if j != k {
                assert(t.peers[j] == s.peers[j]);
            }
        } else {
            assert(t.peers[j] == s.peers[j]);
        }
    }
}

proof fn lemma_without_peer_gone(s: RouterState, id: Seq<char>)
    requires
        s.wf(),
    ensures
        !s.without_peer(id).has_peer(id),
{
    let t = s.without_peer(id);
    if t.has_peer(id) {
        let j = choose|j: int| 0 <= j < t.peers.len() && t.peers[j].id == id;
        if s.has_peer(id) {
            let k = s.peer_index(id);
            if j < k {
                assert(t.peers[j] == s.peers[j]);
            } else {
                assert(t.peers[j] == s.peers[j + 1]);
            }
        } else {
            assert(t.peers[j] == s.peers[j]);
        }
    }
}

/// What one key event from a captured device leads to.
#[derive(Debug)]
pub struct KeyRouting {
    /// What the event means for the switch shortcut.
    pub action: ChordAction,
    /// Keys handed back by a switch, each with the destination that got its press.
    pub released: Vec<(u16, String)>,
    /// Where the event goes; `None` when it is withheld.
    pub route_to: Option<String>,
}

/// `route_key` on router state `s0` and shortcut state `c0` leaves `s` and `c` and
/// answers `out`: the event is noted, the shortcut steps, a complete chord moves to
/// the next destination (while transition ids last), the event goes to the event
/// destination unless withheld, and the chord is finished after its last release.
pub open spec fn key_routed(
    s0: RouterState,
    c0: ChordView,
    switch_keys: Seq<u16>,
    key: u16,
    down: bool,
    propagate: bool,
    s: RouterState,
    c: ChordView,
    out: KeyRouting,
) -> bool {
    let s1 = s0.noted(key, down);
    let step = chord_next(c0, switch_keys, key, down, propagate);
    let a = step.1;
    let switched = a.switch_now && s1.transitions < u64::MAX;
    let s2 = if switched { s1.with_held(Map::empty()).after_next() } else { s1 };
    &&& c == step.0
    &&& out.action == a
    &&& (if switched { hands_back(out.released, s1.held) } else { out.released@.len() == 0 })
    &&& (a.suppress ==> out.route_to is None)
    &&& (!a.suppress ==> (out.route_to matches Some(t) && t@ == s2.event_target()))
    &&& s == (if a.finish_chord { s2.chord_finished() } else { s2 })
}

/// Whether carrying out `order` on `s` hands out a transition id: activating a
/// connected peer, returning here, or moving to the next destination.
pub open spec fn order_advances(s: RouterState, order: Order) -> bool {
    match order {
        Order::Activate { id } => s.is_connected(id@),
        Order::Local => true,
        Order::Next => true,
        _ => false,
    }
}

/// What applying `order` to `s` leaves and answers, and which keys it releases.
pub open spec fn order_effect(s: RouterState, order: Order, after: RouterState, keys: Vec<(u16, String)>, reply: Reply) -> bool {
    match order {
        Order::Prepare { id, warp } => {
            &&& hands_back(keys, Map::empty())
            &&& reply matches Reply::Prepared(r)
            &&& (s.is_connected(id@) ==> r is Ok && after == s.with_warp(warp))
            &&& (!s.is_connected(id@) ==> after == s && refused(r, id@))
        },
        Order::Activate { id } => {
            let drained = s.with_held(Map::empty());
            &&& hands_back(keys, s.held)
            &&& reply matches Reply::Switched(r)
            &&& (s.is_connected(id@) ==> after == drained.switched(id@, false) && granted(r, after))
            &&& (!s.is_connected(id@) ==> after == drained && refused(r, id@))
        },
        Order::Local => {
            &&& hands_back(keys, s.held)
            &&& reply matches Reply::Switched(r)
            &&& after == s.with_held(Map::empty()).localized(false)
            &&& granted(r, after)
        },
        Order::ReleaseAll { peer } => {
            &&& reply matches Reply::Released(r)
            &&& match peer {
                None => hands_back(keys, s.held) && released(r, s.held) && after == s.with_held(Map::empty()),
                Some(id) => if id@ != local_name() && !s.has_peer(id@) {
                    hands_back(keys, Map::empty()) && after == s && refused(r, id@)
                } else {
                    let m = entries_to(s.held, id@);
                    hands_back(keys, m) && released(r, m)
                        && after == s.with_held(entries_not_to(s.held, id@))
                },
            }
        },
        Order::Next => {
            &&& hands_back(keys, s.held)
            &&& reply matches Reply::Switched(r)
            &&& after == s.with_held(Map::empty()).after_next().chord_finished()
            &&& granted(r, s.with_held(Map::empty()).after_next())
        },
    }
}

fn copy_keys(v: &Vec<(u16, String)>) -> (w: Vec<(u16, String)>)
    ensures
        pairs_view(w@) == pairs_view(v@),
{
    let mut w: Vec<(u16, String)> = Vec::new();
    let n = v.len();
    for i in 0..n
        invariant
            n == v@.len(),
            w@.len() == i,
            forall|j: int| 0 <= j < i ==> w@[j].0 == v@[j].0 && w@[j].1@ == v@[j].1@,
    {
        w.push((v[i].0, v[i].1.clone()));
    }
    proof {
        assert(pairs_view(w@) =~= pairs_view(v@));
    }
    w
}

fn copy_peer(p: &PeerSnapshot) -> (q: PeerSnapshot)
    ensures
        record_of(q) == record_of(*p),
{
    PeerSnapshot { id: p.id.clone(), address: p.address.clone(), connected: p.connected }
}

impl TargetRouter {
    /// Well-formedness: peer ids are unique and no transition is half applied.
    pub closed spec fn wf(&self) -> bool {
        &&& self@.wf()
        &&& !self.busy
    }

    /// A well-formed router's state has unique peer ids.
    pub proof fn lemma_view_wf(&self)
        requires
            self.wf(),
        ensures
            self@.wf(),
    {
    }

    /// Routing to this machine, no peers, nothing held.
    pub fn new() -> (r: TargetRouter)
        ensures
            r.wf(),
            r@ == RouterState::initial(),
    {
        let r = TargetRouter {
            active: local_target(),
            previous: local_target(),
            chord_changed: false,
            busy: false,
            peers: Vec::new(),
            held_keys: HashMap::new(),
            next_transition: 0,
            pending_warp: None,
        };
        proof {
            assert(records_of(r.peers@) =~= Seq::<PeerRecord>::empty());
            assert(table_view(r.held_keys@) =~= Map::<u16, Seq<char>>::empty());
        }
        r
    }

    fn find_peer(&self, id: &str) -> (r: Option<usize>)
        requires
            self.wf(),
        ensures
            match r {
                Some(i) => i < self.peers@.len() && self@.has_peer(id@) && self@.peer_index(id@) == i
                    && self@.peers[i as int].id == id@,
                None => !self@.has_peer(id@),
            },
    {
        let n = self.peers.len();
        let mut i: usize = 0;
        while i < n
            invariant
                n == self.peers@.len(),
                i <= n,
                self.wf(),
                forall|j: int| 0 <= j < i ==> self@.peers[j].id != id@,
            decreases n - i,
        {
            if str_eq(self.peers[i].id.as_str(), id) {
                proof {
                    assert(self@.peers[i as int].id == id@);
                    assert(self@.has_peer(id@));
                    let k = self@.peer_index(id@);
                    assert(self@.peers[k].id == id@);
                    assert(k == i);
                }
                return Some(i);
            }
            i = i + 1;
        }
        None
    }

    /// The current report: active destination and peers.
    pub fn snapshot(&self) -> (s: Snapshot)
        ensures
            s.active_target@ == self@.active,
            records_of(s.peers@) == self@.peers,
    {
        Snapshot { active_target: self.active.clone(), peers: self.peers() }
    }

    /// Destination of new input.
    pub fn active_target(&self) -> (s: &str)
        ensures
            s@ == self@.active,
    {
        self.active.as_str()
    }

    /// Destination for events of the current key chord (shortcut).
    pub fn event_target(&self) -> (s: &str)
        ensures
            s@ == self@.event_target(),
    {
        if self.chord_changed {
            self.previous.as_str()
        } else {
            self.active.as_str()
        }
    }

    /// Known peers in insertion order.
    pub fn peers(&self) -> (v: Vec<PeerSnapshot>)
        ensures
            records_of(v@) == self@.peers,
    {
        let mut v: Vec<PeerSnapshot> = Vec::new();
        let n = self.peers.len();
        for i in 0..n
            invariant
                n == self.peers@.len(),
                v@.len() == i,
                forall|j: int| 0 <= j < i ==> record_of(v@[j]) == record_of(self.peers@[j]),
        {
            v.push(copy_peer(&self.peers[i]));
        }
        proof {
            assert(records_of(v@) =~= records_of(self.peers@));
        }
        v
    }

    /// Registers (or re-registers) a connected peer; a new id goes last in the cycle.
    pub fn insert_peer(&mut self, id: String, address: String)
        requires
            old(self).wf(),
        ensures
            final(self).wf(),
            final(self)@ == old(self)@.with_peer(id@, address@),
    {
        let ghost rec = PeerRecord { id: id@, address: address@, connected: true };
        match self.find_peer(id.as_str()) {
            Some(i) => {
                let ghost prev = self.peers@;
                self.peers.set(i, PeerSnapshot { id, address, connected: true });
                proof {
                    assert(records_of(self.peers@) =~= records_of(prev).update(i as int, rec));
                }
            },
            None => {
                let ghost prev = self.peers@;
                self.peers.push(PeerSnapshot { id, address, connected: true });
                proof {
                    assert(records_of(self.peers@) =~= records_of(prev).push(rec));
                }
            },
        }
    }

    fn fail_local(&mut self) -> (keys: Vec<(u16, String)>)
        requires
            old(self).wf(),
        ensures
            final(self).wf(),
            final(self)@ == old(self)@.fail_local(),
            codes_unique(pairs_view(keys@)),
            pairs_map(pairs_view(keys@)) == old(self)@.held,
    {
        self.previous = self.active.clone();
        self.active = local_target();
        self.chord_changed = false;
        self.busy = false;
        let keys = drain_table(&mut self.held_keys);
        proof {
            assert(table_view(self.held_keys@) =~= Map::<u16, Seq<char>>::empty());
        }
        keys
    }

    /// Removes a peer. If it was the active destination, input falls back to this
    /// machine and the held keys are handed back so the caller can release them.
    pub fn remove_peer(&mut self, id: &str) -> (keys: Vec<(u16, String)>)
        requires
            old(self).wf(),
        ensures
            final(self).wf(),
            final(self)@ == old(self)@.without_peer(id@),
            !final(self)@.has_peer(id@),
            codes_unique(pairs_view(keys@)),
            pairs_map(pairs_view(keys@)) == old(self)@.lost_keys(id@),
    {
        proof {
            lemma_without_peer_gone(self@, id@);
        }
        match self.find_peer(id) {
            Some(i) => {
                let ghost prev = self.peers@;
                self.peers.remove(i);
                proof {
                    assert(records_of(self.peers@) =~= records_of(prev).remove(i as int));
                }
            },
            None => {},
        }
        if str_eq(self.active.as_str(), id) {
            self.fail_local()
        } else {
            let v: Vec<(u16, String)> = Vec::new();
            proof {
                assert(pairs_map(pairs_view(v@)) =~= Map::<u16, Seq<char>>::empty());
            }
            v
        }
    }

    /// Marks a peer as gone without forgetting its place in the cycle. If it was the
    /// active destination, input falls back to this machine and the held keys are
    /// handed back.
    pub fn mark_disconnected(&mut self, id: &str) -> (keys: Vec<(u16, String)>)
        requires
            old(self).wf(),
        ensures
            final(self).wf(),
            final(self)@ == old(self)@.disconnected(id@),
            !final(self)@.is_connected(id@),
            codes_unique(pairs_view(keys@)),
            pairs_map(pairs_view(keys@)) == old(self)@.lost_keys(id@),
    {
        proof {
            lemma_disconnected_not_connected(self@, id@);
        }
        match self.find_peer(id) {
            Some(i) => {
                let ghost prev = self.peers@;
                let p = copy_peer(&self.peers[i]);
                self.peers.set(i, PeerSnapshot { connected: false, ..p });
                proof {
                    assert(records_of(self.peers@) =~= records_of(prev).update(
                        i as int,
                        PeerRecord { connected: false, ..records_of(prev)[i as int] },
                    ));
                }
            },
            None => {},
        }
        if str_eq(self.active.as_str(), id) {
            self.fail_local()
        } else {
            let v: Vec<(u16, String)> = Vec::new();
            proof {
                assert(pairs_map(pairs_view(v@)) =~= Map::<u16, Seq<char>>::empty());
            }
            v
        }
    }

    fn alloc_transition(&mut self) -> (t: String)
        requires
            old(self).next_transition < u64::MAX,
        ensures
            final(self).next_transition == old(self).next_transition + 1,
            t@ == hex_fixed(final(self).next_transition as nat, 16),
            final(self).active == old(self).active,
            final(self).previous == old(self).previous,
            final(self).chord_changed == old(self).chord_changed,
            final(self).busy == old(self).busy,
            final(self).peers == old(self).peers,
            final(self).held_keys == old(self).held_keys,
            final(self).pending_warp == old(self).pending_warp,
    {
        self.next_transition = self.next_transition + 1;
        hex16(self.next_transition)
    }

    fn connected(&self, id: &str) -> (r: bool)
        requires
            self.wf(),
        ensures
            r == self@.is_connected(id@),
    {
        match self.find_peer(id) {
            Some(i) => {
                let c = self.peers[i].connected;
                proof {
                    if self@.is_connected(id@) {
                        let j = choose|j: int| 0 <= j < self@.peers.len() && self@.peers[j].id == id@
                            && self@.peers[j].connected;
                        assert(j == i);
                    }
                }
                c
            },
            None => false,
        }
    }

    /// Checks that `id` can be activated and remembers where to place the cursor.
    pub fn prepare(&mut self, id: &str, warp: Option<(u8, u32)>) -> (r: Result<(), TargetError>)
        requires
            old(self).wf(),
        ensures
            final(self).wf(),
            old(self)@.is_connected(id@) ==> r is Ok && final(self)@ == old(self)@.with_warp(warp),
            !old(self)@.is_connected(id@) ==> final(self)@ == old(self)@ && refused(r, id@),
    {
        if self.busy {
            return Err(TargetError::TransitionInProgress);
        }
        if !self.connected(id) {
            return Err(TargetError::PeerUnavailable(owned(id)));
        }
        self.pending_warp = warp;
        Ok(())
    }

    /// Hands over the pending cursor placement, leaving none.
    pub fn take_warp(&mut self) -> (w: Option<(u8, u32)>)
        requires
            old(self).wf(),
        ensures
            final(self).wf(),
            w == old(self)@.warp,
            final(self)@ == old(self)@.with_warp(None),
    {
        self.pending_warp.take()
    }

    fn apply_switch(&mut self, id: &str, from_chord: bool) -> (r: Result<String, TargetError>)
        requires
            old(self).wf(),
            old(self)@.is_connected(id@) ==> old(self)@.transitions < u64::MAX,
        ensures
            final(self).wf(),
            old(self)@.is_connected(id@) ==> final(self)@ == old(self)@.switched(id@, from_chord)
                && granted(r, final(self)@),
            !old(self)@.is_connected(id@) ==> final(self)@ == old(self)@ && refused(r, id@),
    {
        if self.busy {
            return Err(TargetError::TransitionInProgress);
        }
        if !self.connected(id) {
            return Err(TargetError::PeerUnavailable(owned(id)));
        }
        self.busy = true;
        self.previous = self.active.clone();
        self.active = owned(id);
        self.chord_changed = from_chord;
        let t = self.alloc_transition();
        self.busy = false;
        Ok(t)
    }

    /// Sends new input to peer `id`; refused when the peer is unknown or disconnected.
    pub fn switch_to(&mut self, id: &str) -> (r: Result<String, TargetError>)
        requires
            old(self).wf(),
            old(self)@.is_connected(id@) ==> old(self)@.transitions < u64::MAX,
        ensures
            final(self).wf(),
            old(self)@.is_connected(id@) ==> final(self)@ == old(self)@.switched(id@, false)
                && granted(r, final(self)@),
            !old(self)@.is_connected(id@) ==> final(self)@ == old(self)@ && refused(r, id@),
    {
        self.apply_switch(id, false)
    }

    /// Sends new input to this machine; held keys are forgotten. Always succeeds.
    pub fn switch_local(&mut self) -> (r: Result<String, TargetError>)
        requires
            old(self).wf(),
            old(self)@.transitions < u64::MAX,
        ensures
            final(self).wf(),
            final(self)@ == old(self)@.localized(false),
            granted(r, final(self)@),
    {
        self.apply_local(false)
    }

    fn apply_local(&mut self, from_chord: bool) -> (r: Result<String, TargetError>)
        requires
            old(self).wf(),
            old(self)@.transitions < u64::MAX,
        ensures
            final(self).wf(),
            final(self)@ == old(self)@.localized(from_chord),
            granted(r, final(self)@),
    {
        if self.busy {
            return Err(TargetError::TransitionInProgress);
        }
        if is_local(self.active.as_str()) && !from_chord {
            let t = self.alloc_transition();
            return Ok(t);
        }
        self.busy = true;
        self.previous = self.active.clone();
        self.active = local_target();
        self.chord_changed = from_chord;
        if !from_chord {
            self.held_keys.clear();
        }
        let t = self.alloc_transition();
        self.busy = false;
        proof {
            if !from_chord {
                assert(table_view(self.held_keys@) =~= Map::<u16, Seq<char>>::empty());
            }
        }
        Ok(t)
    }


    fn cycle(&self) -> (c: Vec<String>)
        requires
            self.wf(),
        ensures
            names_view(c@) == self@.cycle(),
    {
        let mut c: Vec<String> = Vec::new();
        c.push(local_target());
        let n = self.peers.len();
        for i in 0..n
            invariant
                n == self.peers@.len(),
                self.wf(),
                names_view(c@) == seq![local_name()] + connected_ids(self@.peers.take(i as int)),
        {
            let ghost prev = c@;
            proof {
                let t = self@.peers.take(i as int + 1);
                assert(t.drop_last() =~= self@.peers.take(i as int));
                assert(t.last() == self@.peers[i as int]);
            }
            if self.peers[i].connected {
                c.push(self.peers[i].id.clone());
                proof {
                    assert(names_view(c@) =~= names_view(prev).push(self@.peers[i as int].id));
                }
            }
        }
        proof {
            assert(self@.peers.take(n as int) =~= self@.peers);
        }
        c
    }

    /// Shortcut cycle: this machine, then each connected peer in insertion order, then
    /// around again. The chord keeps its keys on the previous destination until
    /// [`finish_chord`](Self::finish_chord). Never refused.
    pub fn switch_next(&mut self) -> (r: Result<String, TargetError>)
        requires
            old(self).wf(),
            old(self)@.transitions < u64::MAX,
        ensures
            final(self).wf(),
            final(self)@ == old(self)@.after_next(),
            granted(r, final(self)@),
            forall|p: int| #![trigger (seq![local_name()] + connected_ids(old(self)@.peers))[p]]
                0 <= p < 1 + connected_ids(old(self)@.peers).len()
                && (seq![local_name()] + connected_ids(old(self)@.peers))[p] == old(self)@.active
                && (forall|q: int| 0 <= q < p ==> (seq![local_name()] + connected_ids(old(self)@.peers))[q] != old(self)@.active)
                ==> final(self)@.active == (seq![local_name()] + connected_ids(old(self)@.peers))[(p + 1) % (1 + connected_ids(old(self)@.peers).len() as int)],
    {
        proof {
            let s0 = self@;
            assert forall|p: int| #![trigger (seq![local_name()] + connected_ids(s0.peers))[p]]
                0 <= p < 1 + connected_ids(s0.peers).len()
                && (seq![local_name()] + connected_ids(s0.peers))[p] == s0.active
                && (forall|q: int| 0 <= q < p ==> (seq![local_name()] + connected_ids(s0.peers))[q] != s0.active)
                implies s0.after_next().active == (seq![local_name()] + connected_ids(s0.peers))[(p + 1) % (1 + connected_ids(s0.peers).len() as int)] by {
                crate::router_laws::law_next_is_successor(s0, p);
            }
        }
        let c = self.cycle();
        let n = c.len();
        let mut i: usize = 0;
        let mut found = false;
        while i < n
            invariant_except_break
                !found,
            invariant
                n == c@.len(),
                n >= 1,
                i <= n,
                names_view(c@) == self@.cycle(),
                forall|k: int| 0 <= k < i ==> names_view(c@)[k] != self@.active,
            ensures
                i <= n,
                forall|k: int| 0 <= k < i ==> names_view(c@)[k] != self@.active,
                found ==> i < n && names_view(c@)[i as int] == self@.active,
                !found ==> i == n,
            decreases n - i,
        {
            if str_eq(c[i].as_str(), self.active.as_str()) {
                found = true;
                break;
            }
            i = i + 1;
        }
        let pos: usize = if found { i } else { 0 };
        proof {
            let cv = names_view(c@);
            if found {
                lemma_first_pos_found(cv, self@.active, i as int);
            } else {
                assert(!cv.contains(self@.active)) by {
                    if cv.contains(self@.active) {
                        let k = choose|k: int| 0 <= k < cv.len() && cv[k] == self@.active;
                    }
                }
                lemma_first_pos_absent(cv, self@.active);
            }
        }
        let next_idx = (pos + 1) % n;
        let next = c[next_idx].clone();
        proof {
            assert(next@ == self@.next_target());
        }
        if is_local(next.as_str()) {
            self.apply_local(true)
        } else {
            proof {
                let cv = names_view(c@);
                assert(next_idx >= 1);
                let ids = connected_ids(self@.peers);
                assert(cv[next_idx as int] == ids[next_idx as int - 1]);
                lemma_connected_ids_connected(self@.peers, next_idx as int - 1);
            }
            self.apply_switch(next.as_str(), true)
        }
    }


    /// Carries out one request of the routing loop. Switching requests first release
    /// every held key (handed back for the caller to emit); a shortcut-free `Next`
    /// targets new events at the new machine at once.
    pub fn apply(&mut self, order: Order) -> (res: (Vec<(u16, String)>, Reply))
        requires
            old(self).wf(),
            order_advances(old(self)@, order) ==> old(self)@.transitions < u64::MAX,
        ensures
            final(self).wf(),
            order_effect(old(self)@, order, final(self)@, res.0, res.1),
    {
        match order {
            Order::Prepare { id, warp } => {
                let r = self.prepare(id.as_str(), warp);
                let keys: Vec<(u16, String)> = Vec::new();
                proof {
                    assert(pairs_map(pairs_view(keys@)) =~= Map::<u16, Seq<char>>::empty());
                }
                (keys, Reply::Prepared(r))
            },
            Order::Activate { id } => {
                let keys = self.drain_held();
                let r = self.switch_to(id.as_str());
                (keys, Reply::Switched(r))
            },
            Order::Local => {
                let keys = self.drain_held();
                let r = self.switch_local();
                (keys, Reply::Switched(r))
            },
            Order::ReleaseAll { peer } => {
                let r = match &peer {
                    Some(id) => self.release_all(Some(id.as_str())),
                    None => self.release_all(None),
                };
                let keys = match &r {
                    Ok(v) => copy_keys(v),
                    Err(_) => Vec::new(),
                };
                proof {
                    if r is Err {
                        assert(pairs_map(pairs_view(keys@)) =~= Map::<u16, Seq<char>>::empty());
                    }
                }
                (keys, Reply::Released(r))
            },
            Order::Next => {
                let keys = self.drain_held();
                let r = self.switch_next();
                if r.is_ok() {
                    self.finish_chord();
                }
                (keys, Reply::Switched(r))
            },
        }
    }

    /// Drops the chord mark: events go to the active destination again.
    pub fn finish_chord(&mut self)
        requires
            old(self).wf(),
        ensures
            final(self).wf(),
            final(self)@ == old(self)@.chord_finished(),
    {
        self.chord_changed = false;
    }

    /// Records a key press (towards the current event destination) or its release.
    pub fn note_key(&mut self, key: u16, down: bool)
        requires
            old(self).wf(),
        ensures
            final(self).wf(),
            final(self)@ == old(self)@.noted(key, down),
    {
        if down {
            let dest = owned(self.event_target());
            let ghost d = dest@;
            self.held_keys.insert(key, dest);
            proof {
                assert(table_view(self.held_keys@) =~= old(self)@.held.insert(key, d));
            }
        } else {
            self.held_keys.remove(&key);
            proof {
                assert(table_view(self.held_keys@) =~= old(self)@.held.remove(key));
            }
        }
    }

    /// Forgets every held key, handing each back once with its destination.
    pub fn drain_held(&mut self) -> (keys: Vec<(u16, String)>)
        requires
            old(self).wf(),
        ensures
            final(self).wf(),
            final(self)@ == old(self)@.with_held(Map::empty()),
            codes_unique(pairs_view(keys@)),
            pairs_map(pairs_view(keys@)) == old(self)@.held,
    {
        let keys = drain_table(&mut self.held_keys);
        proof {
            assert(table_view(self.held_keys@) =~= Map::<u16, Seq<char>>::empty());
        }
        keys
    }

    /// Puts back a held key that could not be released.
    pub fn restore_held(&mut self, key: u16, dest: String)
        requires
            old(self).wf(),
        ensures
            final(self).wf(),
            final(self)@ == old(self)@.with_held(old(self)@.held.insert(key, dest@)),
    {
        let ghost d = dest@;
        self.held_keys.insert(key, dest);
        proof {
            assert(table_view(self.held_keys@) =~= old(self)@.held.insert(key, d));
        }
    }

    /// Takes one key event from a captured device: records it as held or released,
    /// feeds the switch shortcut, moves to the next destination when the chord is
    /// complete (handing back the keys held so far, for release where they were
    /// pressed), and says where the event goes, if it is not withheld. The chord is
    /// finished after the event that releases its last key has been routed.
    pub fn route_key(
        &mut self,
        chord: &mut ChordState,
        switch_keys: &Vec<u16>,
        key: u16,
        down: bool,
        propagate: bool,
    ) -> (out: KeyRouting)
        requires
            old(self).wf(),
            old(chord).wf(switch_keys@),
            switch_keys@.no_duplicates(),
        ensures
            final(self).wf(),
            final(chord).wf(switch_keys@),
            key_routed(old(self)@, old(chord)@, switch_keys@, key, down, propagate, final(self)@, final(chord)@, out),
    {
        self.note_key(key, down);
        let ghost s1 = self@;
        let a = chord_step(chord, switch_keys, key, down, propagate);
        let mut released: Vec<(u16, String)> = Vec::new();
        if a.switch_now && self.next_transition < u64::MAX {
            released = self.drain_held();
            let _ = self.switch_next();
        } else {
            proof {
                assert(pairs_view(released@) =~= Seq::<(u16, Seq<char>)>::empty());
            }
        }
        let route_to = if a.suppress { None } else { Some(owned(self.event_target())) };
        if a.finish_chord {
            self.finish_chord();
        }
        KeyRouting { action: a, released, route_to }
    }

    /// Releases the keys held towards `peer` (or every held key when `None`).
    /// A peer other than this machine must be known.
    pub fn release_all(&mut self, peer: Option<&str>) -> (r: Result<Vec<(u16, String)>, TargetError>)
        requires
            old(self).wf(),
        ensures
            final(self).wf(),
            peer is None ==> released(r, old(self)@.held)
                && final(self)@ == old(self)@.with_held(Map::empty()),
            peer is Some && peer->0@ != local_name() && !old(self)@.has_peer(peer->0@)
                ==> final(self)@ == old(self)@ && refused(r, peer->0@),
            peer is Some && (peer->0@ == local_name() || old(self)@.has_peer(peer->0@))
                ==> released(r, entries_to(old(self)@.held, peer->0@))
                && final(self)@ == old(self)@.with_held(entries_not_to(old(self)@.held, peer->0@)),
    {
        match peer {
            Some(id) => {
                if !is_local(id) {
                    match self.find_peer(id) {
                        None => {
                            return Err(TargetError::PeerUnavailable(owned(id)));
                        },
                        Some(_) => {},
                    }
                }
                let out = take_to(&mut self.held_keys, id);
                Ok(out)
            },
            None => Ok(self.drain_held()),
        }
    }
}

impl Default for TargetRouter {
    fn default() -> (r: TargetRouter)
        ensures
            r.wf(),
            r@ == RouterState::initial(),
    {
        TargetRouter::new()
    }
}

} // verus!
