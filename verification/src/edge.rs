//! Edge crossings on this machine's screen: which barrier a crossing hits, where the
//! pointer enters the other screen, and the latch that keeps one crossing from
//! switching twice.
//!
//! Positions are `f32` values held as their IEEE-754 bit patterns; they are compared
//! as `f32` compares them.

use vstd::prelude::*;
use crate::model::{Edge, spec_opposite};
use crate::layout::{Barrier, Layout, F32_ZERO, F32_ONE};
use crate::text::{str_eq, is_local, local_name, owned};

verus! {

/// Whether f32 bits stand for NaN.
pub open spec fn f32_is_nan(b: u32) -> bool {
    (b % 0x8000_0000) > 0x7F80_0000
}

/// A number that orders f32 bits (other than NaN) as their values order:
/// `-0.0` and `0.0` get the same number.
pub open spec fn f32_key(b: u32) -> int {
    if b < 0x8000_0000 { 0x8000_0000 + b } else { 0x8000_0000 - (b - 0x8000_0000) }
}

/// `a <= b` for f32 values given by their bits (false when either is NaN).
pub open spec fn f32_le(a: u32, b: u32) -> bool {
    !f32_is_nan(a) && !f32_is_nan(b) && f32_key(a) <= f32_key(b)
}

fn f32_key_exec(b: u32) -> (k: u64)
    ensures
        k == f32_key(b),
{
    if b < 0x8000_0000 {
        0x8000_0000u64 + b as u64
    } else {
        0x8000_0000u64 - (b as u64 - 0x8000_0000u64)
    }
}

fn f32_le_exec(a: u32, b: u32) -> (r: bool)
    ensures
        r == f32_le(a, b),
{
    let a_nan = (a % 0x8000_0000) > 0x7F80_0000;
    let b_nan = (b % 0x8000_0000) > 0x7F80_0000;
    !a_nan && !b_nan && f32_key_exec(a) <= f32_key_exec(b)
}

/// Whether a crossing of `edge` of `display` of `peer` at `position` hits barrier `b`.
pub open spec fn hits(b: Barrier, peer: Seq<char>, display: Seq<char>, edge: Edge, position: u32) -> bool {
    &&& b.from_peer@ == peer
    &&& b.display_id@ == display
    &&& b.edge == edge
    &&& f32_le(b.range_start, position)
    &&& f32_le(position, b.range_end)
}

/// A barrier with its text as characters.
pub open spec fn bview(b: Barrier) -> (u32, Seq<char>, Seq<char>, Edge, u32, u32, Seq<char>, u32, u32) {
    (b.id, b.from_peer@, b.display_id@, b.edge, b.range_start, b.range_end, b.destination@, b.activation_delay_ms, b.cooldown_ms)
}

fn copy_barrier(b: &Barrier) -> (c: Barrier)
    ensures
        bview(c) == bview(*b),
{
    Barrier {
        id: b.id,
        from_peer: owned(b.from_peer.as_str()),
        display_id: owned(b.display_id.as_str()),
        edge: b.edge,
        range_start: b.range_start,
        range_end: b.range_end,
        destination: owned(b.destination.as_str()),
        activation_delay_ms: b.activation_delay_ms,
        cooldown_ms: b.cooldown_ms,
    }
}

/// The barriers of a list that start on `peer`, in order.
pub open spec fn from_peer_views(bs: Seq<Barrier>, peer: Seq<char>) -> Seq<(u32, Seq<char>, Seq<char>, Edge, u32, u32, Seq<char>, u32, u32)>
    decreases bs.len(),
{
    if bs.len() == 0 {
        Seq::empty()
    } else if bs.last().from_peer@ == peer {
        from_peer_views(bs.drop_last(), peer).push(bview(bs.last()))
    } else {
        from_peer_views(bs.drop_last(), peer)
    }
}

/// The first barrier of a layout that a crossing hits.
pub fn barrier_for(layout: &Layout, peer: &str, display: &str, edge: Edge, position: u32) -> (r: Option<Barrier>)
    ensures
        (forall|i: int| 0 <= i < layout.barriers@.len() ==> !hits(#[trigger] layout.barriers@[i], peer@, display@, edge, position))
            ==> r is None,
        forall|i: int| 0 <= i < layout.barriers@.len() && hits(#[trigger] layout.barriers@[i], peer@, display@, edge, position)
            && (forall|j: int| 0 <= j < i ==> !hits(layout.barriers@[j], peer@, display@, edge, position))
            ==> (r is Some && bview(r->0) == bview(layout.barriers@[i])),
{
    let mut i: usize = 0;
    while i < layout.barriers.len()
        invariant
            i <= layout.barriers@.len(),
            forall|j: int| 0 <= j < i ==> !hits(layout.barriers@[j], peer@, display@, edge, position),
        decreases layout.barriers@.len() - i,
    {
        let b = &layout.barriers[i];
        if str_eq(b.from_peer.as_str(), peer) && str_eq(b.display_id.as_str(), display) && b.edge == edge
            && f32_le_exec(b.range_start, position) && f32_le_exec(position, b.range_end) {
            let found = copy_barrier(b);
            proof {
                assert forall|k: int| 0 <= k < layout.barriers@.len() && hits(#[trigger] layout.barriers@[k], peer@, display@, edge, position)
                    && (forall|j: int| 0 <= j < k ==> !hits(layout.barriers@[j], peer@, display@, edge, position)) implies k == i by {
                    if k > i {
                        assert(hits(layout.barriers@[i as int], peer@, display@, edge, position));
                    }
                }
            }
            return Some(found);
        }
        i = i + 1;
    }
    None
}

/// The barriers that start on this machine, in layout order.
pub fn local_barriers(layout: &Layout, local_peer: &str) -> (r: Vec<Barrier>)
    ensures
        r@.map_values(|b: Barrier| bview(b)) == from_peer_views(layout.barriers@, local_peer@),
{
    let mut out: Vec<Barrier> = Vec::new();
    let mut i: usize = 0;
    while i < layout.barriers.len()
        invariant
            i <= layout.barriers@.len(),
            out@.map_values(|b: Barrier| bview(b)) == from_peer_views(layout.barriers@.take(i as int), local_peer@),
        decreases layout.barriers@.len() - i,
    {
        proof {
            assert(layout.barriers@.take(i as int + 1).drop_last() =~= layout.barriers@.take(i as int));
            assert(layout.barriers@.take(i as int + 1).last() == layout.barriers@[i as int]);
        }
        let b = &layout.barriers[i];
        if str_eq(b.from_peer.as_str(), local_peer) {
            let ghost before = out@.map_values(|b: Barrier| bview(b));
            let c = copy_barrier(b);
            out.push(c);
            assert(out@.map_values(|b: Barrier| bview(b)) =~= before.push(bview(layout.barriers@[i as int])));
        }
        i = i + 1;
    }
    assert(layout.barriers@.take(i as int) =~= layout.barriers@);
    out
}

/// Where the pointer enters the other screen.
#[derive(Debug, Clone, Copy)]
pub struct EntryPoint {
    pub edge: Edge,
    /// Fraction along the edge (f32 bits).
    pub normalized_position: u32,
    pub inset_px: u32,
}

/// `f32::clamp(x, 0.0, 1.0)` on bits: NaN stays NaN.
pub open spec fn clamp_unit(x: u32) -> u32 {
    if f32_is_nan(x) {
        x
    } else if f32_key(x) < f32_key(F32_ZERO) {
        F32_ZERO
    } else if f32_key(x) > f32_key(F32_ONE) {
        F32_ONE
    } else {
        x
    }
}

/// The entry point on the other screen for a crossing of `edge` at `position`: the
/// facing edge, the same fraction (clamped to the edge), 6 pixels in.
pub fn entry_for(edge: Edge, position: u32) -> (e: EntryPoint)
    ensures
        e.edge == spec_opposite(edge),
        e.normalized_position == clamp_unit(position),
        e.inset_px == 6,
{
    let nan = (position % 0x8000_0000) > 0x7F80_0000;
    let p = if nan {
        position
    } else if f32_key_exec(position) < f32_key_exec(F32_ZERO) {
        F32_ZERO
    } else if f32_key_exec(position) > f32_key_exec(F32_ONE) {
        F32_ONE
    } else {
        position
    };
    EntryPoint { edge: edge.opposite(), normalized_position: p, inset_px: 6 }
}

/// Where a crossing leads: back to this machine, or to a peer.
#[derive(Debug)]
pub enum EdgeCommand {
    Local,
    Switch { target: String, entry: EntryPoint },
}

/// The request a barrier crossing makes of the daemon.
pub fn edge_command(b: &Barrier, edge: Edge, position: u32) -> (c: EdgeCommand)
    ensures
        b.destination@ == local_name() ==> c is Local,
        b.destination@ != local_name() ==> (c matches EdgeCommand::Switch { target, entry }
            && target@ == b.destination@ && entry.edge == spec_opposite(edge)
            && entry.normalized_position == clamp_unit(position) && entry.inset_px == 6),
{
    if is_local(b.destination.as_str()) {
        EdgeCommand::Local
    } else {
        EdgeCommand::Switch { target: owned(b.destination.as_str()), entry: entry_for(edge, position) }
    }
}

// ---------------------------------------------------------------------------
// The latch.

/// Whether crossings are acted on: ready, busy with one, or cooling down until a
/// deadline (monotonic nanoseconds).
#[derive(Debug, Clone, Copy, PartialEq, Eq, Structural)]
pub enum Latch {
    Armed,
    Switching,
    Cooldown(u128),
}

/// The latch at `now`: a cooldown that has run out re-arms.
pub open spec fn latch_at(g: Latch, now: u128) -> Latch {
    match g {
        Latch::Cooldown(t) => if now >= t { Latch::Armed } else { g },
        _ => g,
    }
}

/// The latch at `now`, and whether the engine waits for a crossing at all (it does not
/// while cooling down).
pub fn latch_tick(g: Latch, now: u128) -> (r: (Latch, bool))
    ensures
        r.0 == latch_at(g, now),
        r.1 == !(r.0 is Cooldown),
{
    match g {
        Latch::Cooldown(t) => {
            if now >= t {
                (Latch::Armed, true)
            } else {
                (g, false)
            }
        },
        _ => (g, true),
    }
}

/// Whether a crossing is acted on: the latch is armed, and no button is held unless
/// dragging across is allowed.
pub fn latch_admits(g: Latch, any_button_pressed: bool, allow_drag: bool) -> (r: bool)
    ensures
        r == (g == Latch::Armed && (allow_drag || !any_button_pressed)),
{
    g == Latch::Armed && (allow_drag || !any_button_pressed)
}

/// The latch after the daemon answered a crossing: cooling down for the barrier's
/// cooldown when it switched, armed again when it refused.
pub fn latch_after(ok: bool, cooldown_ms: u32, now: u128) -> (g: Latch)
    requires
        now + cooldown_ms * 1_000_000 <= u128::MAX,
    ensures
        ok ==> g == Latch::Cooldown((now + cooldown_ms * 1_000_000) as u128),
        !ok ==> g == Latch::Armed,
{
    if ok {
        Latch::Cooldown(now + (cooldown_ms as u128) * 1_000_000)
    } else {
        Latch::Armed
    }
}

/// A crossing that switched is not acted on again until its cooldown has run out.
pub proof fn law_no_double_switch(cooldown_ms: u32, at: u128, now: u128)
    requires
        at + cooldown_ms * 1_000_000 <= u128::MAX,
        now < at + cooldown_ms * 1_000_000,
    ensures
        latch_at(Latch::Cooldown((at + cooldown_ms * 1_000_000) as u128), now) is Cooldown,
{
}

/// The id a desktop portal barrier gets for zone `zone` (counted from 0) of layout
/// barrier `barrier_id`: `barrier_id * 100 + zone + 1`, saturating at `u32::MAX`.
pub fn portal_barrier_id(barrier_id: u32, zone: u32) -> (r: u32)
    requires
        zone < u32::MAX,
    ensures
        ({
            let base = if barrier_id * 100 > u32::MAX { u32::MAX as int } else { barrier_id * 100 };
            r == (if base + zone + 1 > u32::MAX { u32::MAX as int } else { base + zone + 1 })
        }),
        r >= 1,
{
    let base: u32 = if barrier_id > u32::MAX / 100 { u32::MAX } else { barrier_id * 100 };
    base.saturating_add(zone + 1)
}

} // verus!
