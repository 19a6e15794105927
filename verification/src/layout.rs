//! Screen layouts: displays, the barriers between them, and the two-screen layout
//! that places the remote machine on one side of this one.
//!
//! Fractions and scales are `f32` values held as their IEEE-754 bit patterns.

use vstd::prelude::*;
use crate::model::{Edge, spec_opposite};
use crate::peer::{join_path, path_join};
use crate::text::{owned, str_eq, local_name, local_target, decimal, push_decimal};

verus! {

/// Bits of `0.0f32`.
pub const F32_ZERO: u32 = 0x0000_0000;
/// Bits of `-0.0f32`.
pub const F32_NEG_ZERO: u32 = 0x8000_0000;
/// Bits of `1.0f32`.
pub const F32_ONE: u32 = 0x3F80_0000;

/// Which side of this machine the remote one sits on.
#[derive(Debug, Clone, Copy, PartialEq, Eq, Structural)]
pub enum PeerSide {
    Left,
    Right,
    Top,
    Bottom,
}

/// The edge of this machine's screen that leads to a peer on that side.
pub open spec fn side_edge(s: PeerSide) -> Edge {
    match s {
        PeerSide::Left => Edge::Left,
        PeerSide::Right => Edge::Right,
        PeerSide::Top => Edge::Top,
        PeerSide::Bottom => Edge::Bottom,
    }
}

/// The side a peer sits on when it is reached over this edge.
pub open spec fn edge_side(e: Edge) -> PeerSide {
    match e {
        Edge::Left => PeerSide::Left,
        Edge::Right => PeerSide::Right,
        Edge::Top => PeerSide::Top,
        Edge::Bottom => PeerSide::Bottom,
    }
}

impl PeerSide {
    /// The edge of this machine's screen that leads to a peer on this side.
    pub fn as_edge(self) -> (r: Edge)
        ensures
            r == side_edge(self),
    {
        match self {
            PeerSide::Left => Edge::Left,
            PeerSide::Right => Edge::Right,
            PeerSide::Top => Edge::Top,
            PeerSide::Bottom => Edge::Bottom,
        }
    }

    /// The side a peer sits on when it is reached over `edge`.
    pub fn from_edge(edge: Edge) -> (r: PeerSide)
        ensures
            r == edge_side(edge),
    {
        match edge {
            Edge::Left => PeerSide::Left,
            Edge::Right => PeerSide::Right,
            Edge::Top => PeerSide::Top,
            Edge::Bottom => PeerSide::Bottom,
        }
    }

    /// The side facing this one.
    pub fn opposite(self) -> (r: PeerSide)
        ensures
            r == edge_side(spec_opposite(side_edge(self))),
    {
        PeerSide::from_edge(self.as_edge().opposite())
    }
}

impl Default for PeerSide {
    fn default() -> (s: PeerSide)
        ensures
            s == PeerSide::Right,
    {
        PeerSide::Right
    }
}

/// Sides and edges correspond one to one, and facing sides come in pairs.
pub proof fn law_side_edge_bijection(s: PeerSide, e: Edge)
    ensures
        edge_side(side_edge(s)) == s,
        side_edge(edge_side(e)) == e,
        spec_opposite(spec_opposite(e)) == e,
        edge_side(spec_opposite(side_edge(edge_side(spec_opposite(side_edge(s)))))) == s,
        spec_opposite(e) != e,
{
}

/// A border crossing from one display to a peer.
#[derive(Debug, Clone)]
pub struct Barrier {
    pub id: u32,
    pub from_peer: String,
    pub display_id: String,
    pub edge: Edge,
    /// Start of the crossing range along the edge (f32 bits, a fraction).
    pub range_start: u32,
    /// End of the crossing range along the edge (f32 bits, a fraction).
    pub range_end: u32,
    pub destination: String,
    pub activation_delay_ms: u32,
    pub cooldown_ms: u32,
}

/// One display of a machine.
#[derive(Debug, Clone)]
pub struct DisplayNode {
    pub peer_id: String,
    pub display_id: String,
    pub x: i32,
    pub y: i32,
    pub width: u32,
    pub height: u32,
    /// Scale factor (f32 bits).
    pub scale: u32,
}

/// Displays and the barriers between them.
#[derive(Debug, Clone)]
pub struct Layout {
    pub version: u16,
    pub local_peer: String,
    pub nodes: Vec<DisplayNode>,
    pub barriers: Vec<Barrier>,
}

/// The stored layout and the side the remote peer was put on.
#[derive(Debug, Clone)]
pub struct LayoutFile {
    pub peer_side: PeerSide,
    pub remote_peer: Option<String>,
    pub layout: Layout,
}

/// Whether f32 bits stand for a value in `0.0..=1.0` (`-0.0` included, NaN not).
pub open spec fn unit_fraction(bits: u32) -> bool {
    bits <= F32_ONE || bits == F32_NEG_ZERO
}

/// The order key of f32 bits of a value in `0.0..=1.0`: `-0.0` ranks as `0.0`,
/// and for the others the bit patterns order as the values do.
pub open spec fn fraction_key(bits: u32) -> u32 {
    if bits == F32_NEG_ZERO { 0 } else { bits }
}

/// Whether a barrier's range is a non-empty part of its edge.
pub open spec fn range_valid(b: Barrier) -> bool {
    unit_fraction(b.range_start) && unit_fraction(b.range_end) && fraction_key(b.range_start) < fraction_key(b.range_end)
}

/// Whether some display belongs to the peer `id`.
pub open spec fn has_node(nodes: Seq<DisplayNode>, id: Seq<char>) -> bool {
    exists|i: int| 0 <= i < nodes.len() && #[trigger] nodes[i].peer_id@ == id
}

/// The first barrier that fails validation, if any.
pub open spec fn first_bad(l: Layout) -> Option<int> {
    if exists|i: int| 0 <= i < l.barriers@.len() && !(range_valid(#[trigger] l.barriers@[i]) && has_node(l.nodes@, l.barriers@[i].destination@)) {
        Some(choose|i: int| 0 <= i < l.barriers@.len() && !(range_valid(#[trigger] l.barriers@[i])
            && has_node(l.nodes@, l.barriers@[i].destination@))
            && forall|j: int| 0 <= j < i ==> range_valid(l.barriers@[j]) && has_node(l.nodes@, l.barriers@[j].destination@))
    } else {
        None
    }
}

fn find_node(nodes: &Vec<DisplayNode>, id: &str) -> (r: bool)
    ensures
        r == has_node(nodes@, id@),
{
    let mut i: usize = 0;
    while i < nodes.len()
        invariant
            i <= nodes@.len(),
            forall|j: int| 0 <= j < i ==> nodes@[j].peer_id@ != id@,
        decreases nodes@.len() - i,
    {
        if str_eq(nodes[i].peer_id.as_str(), id) {
            return true;
        }
        i = i + 1;
    }
    false
}

impl Layout {
    /// Checks a layout: version 1, every barrier's range a non-empty part of its edge,
    /// every barrier leading to a peer that has a display.
    pub fn validate(&self) -> (r: Result<(), String>)
        ensures
            self.version != 1 ==> (r is Err && r->Err_0@ == "unsupported layout version"@),
            self.version == 1 ==> match first_bad(*self) {
                None => r is Ok,
                Some(i) => r is Err && (if !range_valid(self.barriers@[i]) {
                    r->Err_0@ == "barrier "@ + decimal(self.barriers@[i].id as nat) + " has invalid range"@
                } else {
                    r->Err_0@ == "destination "@ + self.barriers@[i].destination@ + " does not exist"@
                }),
            },
    {
        if self.version != 1 {
            return Err("unsupported layout version".to_owned());
        }
        let mut i: usize = 0;
        while i < self.barriers.len()
            invariant
                i <= self.barriers@.len(),
                self.version == 1,
                forall|j: int| 0 <= j < i ==> range_valid(self.barriers@[j]) && has_node(self.nodes@, self.barriers@[j].destination@),
            decreases self.barriers@.len() - i,
        {
            let b = &self.barriers[i];
            let s = b.range_start;
            let e = b.range_end;
            let s_ok = s <= F32_ONE || s == F32_NEG_ZERO;
            let e_ok = e <= F32_ONE || e == F32_NEG_ZERO;
            let sk: u32 = if s == F32_NEG_ZERO { 0 } else { s };
            let ek: u32 = if e == F32_NEG_ZERO { 0 } else { e };
            if !s_ok || !e_ok || sk >= ek {
                proof {
                    lemma_first_bad_is(*self, i as int);
                }
                let mut m = owned("barrier ");
                push_decimal(&mut m, b.id as u64);
                m.push_str(" has invalid range");
                return Err(m);
            }
            if !find_node(&self.nodes, b.destination.as_str()) {
                proof {
                    lemma_first_bad_is(*self, i as int);
                }
                let mut m = owned("destination ");
                m.push_str(b.destination.as_str());
                m.push_str(" does not exist");
                return Err(m);
            }
            i = i + 1;
        }
        proof {
            if first_bad(*self) is Some {
                let k = first_bad(*self)->0;
                assert(range_valid(self.barriers@[k]) && has_node(self.nodes@, self.barriers@[k].destination@));
            }
        }
        Ok(())
    }
}

proof fn lemma_first_bad_is(l: Layout, i: int)
    requires
        0 <= i < l.barriers@.len(),
        !(range_valid(l.barriers@[i]) && has_node(l.nodes@, l.barriers@[i].destination@)),
        forall|j: int| 0 <= j < i ==> range_valid(l.barriers@[j]) && has_node(l.nodes@, l.barriers@[j].destination@),
    ensures
        first_bad(l) == Some(i),
{
    let k = first_bad(l)->0;
    assert(first_bad(l) is Some);
    if k < i {
        assert(range_valid(l.barriers@[k]) && has_node(l.nodes@, l.barriers@[k].destination@));
    } else if k > i {
        assert(range_valid(l.barriers@[i]) && has_node(l.nodes@, l.barriers@[i].destination@));
    }
}

/// Where the remote screen sits in a two-screen layout with the remote on `edge`.
pub open spec fn remote_origin(edge: Edge) -> (int, int) {
    match edge {
        Edge::Right => (1920, 0),
        Edge::Left => (-1920, 0),
        Edge::Top => (0, -1080),
        Edge::Bottom => (0, 1080),
    }
}

/// `l` is the two-screen layout of `local` and `remote` with the remote on `side`:
/// two 1920x1080 displays named `main` at scale 1, and two barriers spanning the whole
/// edges that face each other, from each machine to the other, with a 350 ms cooldown.
pub open spec fn is_two_node_layout(l: Layout, local: Seq<char>, remote: Seq<char>, side: PeerSide) -> bool {
    let edge = side_edge(side);
    &&& l.version == 1
    &&& l.local_peer@ == local
    &&& l.nodes@.len() == 2
    &&& l.nodes@[0].peer_id@ == local && l.nodes@[0].display_id@ == "main"@
    &&& l.nodes@[0].x == 0 && l.nodes@[0].y == 0
    &&& l.nodes@[1].peer_id@ == remote && l.nodes@[1].display_id@ == "main"@
    &&& (l.nodes@[1].x as int, l.nodes@[1].y as int) == remote_origin(edge)
    &&& forall|k: int| 0 <= k < 2 ==> (#[trigger] l.nodes@[k]).width == 1920 && l.nodes@[k].height == 1080
        && l.nodes@[k].scale == F32_ONE
    &&& l.barriers@.len() == 2
    &&& l.barriers@[0].id == 1 && l.barriers@[0].from_peer@ == local && l.barriers@[0].edge == edge
        && l.barriers@[0].destination@ == remote
    &&& l.barriers@[1].id == 2 && l.barriers@[1].from_peer@ == remote && l.barriers@[1].edge == spec_opposite(edge)
        && l.barriers@[1].destination@ == local
    &&& forall|k: int| 0 <= k < 2 ==> (#[trigger] l.barriers@[k]).display_id@ == "main"@
        && l.barriers@[k].range_start == F32_ZERO && l.barriers@[k].range_end == F32_ONE
        && l.barriers@[k].activation_delay_ms == 0 && l.barriers@[k].cooldown_ms == 350
}

/// The two-screen layout with the remote machine on `side` of this one.
pub fn two_node_layout(local: &str, remote: &str, side: PeerSide) -> (l: Layout)
    ensures
        is_two_node_layout(l, local@, remote@, side),
        side == PeerSide::Bottom ==> l.nodes@[1].x == l.nodes@[0].x
            && l.nodes@[1].y == l.nodes@[0].y + l.nodes@[0].height,
        side == PeerSide::Top ==> l.nodes@[1].x == l.nodes@[0].x
            && l.nodes@[1].y + l.nodes@[1].height == l.nodes@[0].y,
        side == PeerSide::Right ==> l.nodes@[1].y == l.nodes@[0].y
            && l.nodes@[1].x == l.nodes@[0].x + l.nodes@[0].width,
        side == PeerSide::Left ==> l.nodes@[1].y == l.nodes@[0].y
            && l.nodes@[1].x + l.nodes@[1].width == l.nodes@[0].x,
{
    let edge = side.as_edge();
    let (rx, ry): (i32, i32) = match edge {
        Edge::Right => (1920, 0),
        Edge::Left => (-1920, 0),
        Edge::Top => (0, -1080),
        Edge::Bottom => (0, 1080),
    };
    let mut nodes: Vec<DisplayNode> = Vec::new();
    nodes.push(DisplayNode {
        peer_id: owned(local),
        display_id: owned("main"),
        x: 0,
        y: 0,
        width: 1920,
        height: 1080,
        scale: F32_ONE,
    });
    nodes.push(DisplayNode {
        peer_id: owned(remote),
        display_id: owned("main"),
        x: rx,
        y: ry,
        width: 1920,
        height: 1080,
        scale: F32_ONE,
    });
    let mut barriers: Vec<Barrier> = Vec::new();
    barriers.push(Barrier {
        id: 1,
        from_peer: owned(local),
        display_id: owned("main"),
        edge,
        range_start: F32_ZERO,
        range_end: F32_ONE,
        destination: owned(remote),
        activation_delay_ms: 0,
        cooldown_ms: 350,
    });
    barriers.push(Barrier {
        id: 2,
        from_peer: owned(remote),
        display_id: owned("main"),
        edge: edge.opposite(),
        range_start: F32_ZERO,
        range_end: F32_ONE,
        destination: owned(local),
        activation_delay_ms: 0,
        cooldown_ms: 350,
    });
    Layout { version: 1, local_peer: owned(local), nodes, barriers }
}

/// In the two-screen layout the remote display lies on the given side of the local
/// one, touching it: below it starts where the local screen ends (`y` = local `y` +
/// local height), above it ends where the local screen starts, to the right it starts
/// at the local screen's right edge, to the left it ends at its left edge; along the
/// other axis the two are aligned. The barrier out of this machine leads over that
/// same side, and the one back over the opposite side.
pub proof fn law_two_node_remote_on_side(l: Layout, local: Seq<char>, remote: Seq<char>, side: PeerSide)
    requires
        is_two_node_layout(l, local, remote, side),
    ensures
        ({
            let a = l.nodes@[0];
            let b = l.nodes@[1];
            &&& side == PeerSide::Bottom ==> b.x == a.x && b.y == a.y + a.height
                && l.barriers@[0].edge == Edge::Bottom && l.barriers@[1].edge == Edge::Top
            &&& side == PeerSide::Top ==> b.x == a.x && b.y + b.height == a.y
                && l.barriers@[0].edge == Edge::Top && l.barriers@[1].edge == Edge::Bottom
            &&& side == PeerSide::Right ==> b.y == a.y && b.x == a.x + a.width
                && l.barriers@[0].edge == Edge::Right && l.barriers@[1].edge == Edge::Left
            &&& side == PeerSide::Left ==> b.y == a.y && b.x + b.width == a.x
                && l.barriers@[0].edge == Edge::Left && l.barriers@[1].edge == Edge::Right
        }),
{
    assert(l.nodes@[0].width == 1920 && l.nodes@[0].height == 1080);
    assert(l.nodes@[1].width == 1920 && l.nodes@[1].height == 1080);
}

/// Every two-screen layout passes validation.
pub proof fn law_two_node_layout_validates(l: Layout, local: Seq<char>, remote: Seq<char>, side: PeerSide)
    requires
        is_two_node_layout(l, local, remote, side),
    ensures
        first_bad(l) is None,
        l.version == 1,
{
    assert(has_node(l.nodes@, remote)) by {
        assert(l.nodes@[1].peer_id@ == remote);
    }
    assert(has_node(l.nodes@, local)) by {
        assert(l.nodes@[0].peer_id@ == local);
    }
    assert forall|i: int| 0 <= i < l.barriers@.len()
        implies range_valid(#[trigger] l.barriers@[i]) && has_node(l.nodes@, l.barriers@[i].destination@) by {
        assert(i == 0 || i == 1);
    }
}

/// The name the remote peer goes by when none was given.
pub open spec fn default_remote() -> Seq<char> {
    "peer"@
}

impl LayoutFile {
    /// The layout used before any was saved: the remote peer (`peer` when unnamed)
    /// on the right.
    pub fn default_right(remote: Option<&str>) -> (f: LayoutFile)
        ensures
            f.peer_side == PeerSide::Right,
            f.remote_peer is Some,
            remote matches Some(r) ==> f.remote_peer->0@ == r@,
            remote is None ==> f.remote_peer->0@ == default_remote(),
            is_two_node_layout(f.layout, local_name(), f.remote_peer->0@, PeerSide::Right),
    {
        let remote = match remote {
            Some(r) => owned(r),
            None => owned("peer"),
        };
        let local = local_target();
        let layout = two_node_layout(local.as_str(), remote.as_str(), PeerSide::Right);
        LayoutFile { peer_side: PeerSide::Right, remote_peer: Some(remote), layout }
    }

    /// The same file with the remote peer moved to `side`.
    pub fn with_side(self, side: PeerSide) -> (f: LayoutFile)
        ensures
            f.peer_side == side,
            f.remote_peer is Some,
            self.remote_peer matches Some(r) ==> f.remote_peer->0@ == r@,
            self.remote_peer is None ==> f.remote_peer->0@ == default_remote(),
            is_two_node_layout(f.layout, local_name(), f.remote_peer->0@, side),
    {
        let remote = match &self.remote_peer {
            Some(r) => owned(r.as_str()),
            None => owned("peer"),
        };
        let local = local_target();
        let layout = two_node_layout(local.as_str(), remote.as_str(), side);
        LayoutFile { peer_side: side, remote_peer: Some(remote), layout }
    }

    /// The same file with another remote peer.
    pub fn with_remote(self, remote: &str) -> (f: LayoutFile)
        ensures
            f.peer_side == self.peer_side,
            f.remote_peer is Some && f.remote_peer->0@ == remote@,
            is_two_node_layout(f.layout, local_name(), remote@, self.peer_side),
    {
        let local = local_target();
        let layout = two_node_layout(local.as_str(), remote, self.peer_side);
        LayoutFile { peer_side: self.peer_side, remote_peer: Some(owned(remote)), layout }
    }
}

/// Where the layout is stored in the data directory.
pub fn layout_path(data_dir: &str) -> (r: String)
    ensures
        r@ == path_join(data_dir@, "layout.json"@),
{
    join_path(data_dir, "layout.json")
}

/// Where the session agent reports its status in the data directory.
pub fn agent_status_path(data_dir: &str) -> (r: String)
    ensures
        r@ == path_join(data_dir@, "agent_status.json"@),
{
    join_path(data_dir, "agent_status.json")
}

} // verus!
