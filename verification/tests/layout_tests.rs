use nexuskvm::agent::{choose_password, client_layout, follow_peer, parse_side, peers_from_snapshot, return_outcome, side_word};
use nexuskvm::control::PeerStatus;
use nexuskvm::edge::{
    barrier_for, edge_command, entry_for, latch_admits, latch_after, latch_tick, local_barriers, EdgeCommand, Latch,
};
use nexuskvm::layout::{agent_status_path, layout_path, two_node_layout, LayoutFile, PeerSide, F32_ONE};
use nexuskvm::model::Edge;
use nexuskvm::router::PeerSnapshot;

#[test]
fn default_right_validates() {
    let f = LayoutFile::default_right(Some("studio-b"));
    f.layout.validate().unwrap();
    assert_eq!(f.layout.barriers[0].edge, Edge::Right);
    assert_eq!(f.layout.barriers[1].edge, Edge::Left);
}

#[test]
fn side_rewrite() {
    let f = LayoutFile::default_right(Some("b")).with_side(PeerSide::Left);
    assert_eq!(f.peer_side, PeerSide::Left);
    assert_eq!(f.layout.barriers[0].edge, Edge::Left);
    assert_eq!(f.layout.barriers[0].destination, "b");
}

#[test]
fn sides_and_edges() {
    assert_eq!(PeerSide::Left.as_edge(), Edge::Left);
    assert_eq!(PeerSide::from_edge(Edge::Top), PeerSide::Top);
    assert_eq!(PeerSide::Bottom.opposite(), PeerSide::Top);
    assert_eq!(PeerSide::Right.opposite(), PeerSide::Left);
    assert_eq!(Edge::Left.opposite(), Edge::Right);
    assert_eq!(PeerSide::default(), PeerSide::Right);
}

#[test]
fn validation_reports_first_bad_barrier() {
    let mut l = two_node_layout("local", "b", PeerSide::Top);
    assert!(l.validate().is_ok());
    assert_eq!((l.nodes[1].x, l.nodes[1].y), (0, -1080));
    l.barriers[1].range_start = F32_ONE;
    assert_eq!(l.validate().unwrap_err(), "barrier 2 has invalid range");
    l.barriers[1].range_start = 0.5f32.to_bits();
    assert!(l.validate().is_ok());
    l.barriers[1].range_end = f32::NAN.to_bits();
    assert_eq!(l.validate().unwrap_err(), "barrier 2 has invalid range");
    l.barriers[1].range_end = 1.0f32.to_bits();
    l.barriers[0].destination = "ghost".into();
    assert_eq!(l.validate().unwrap_err(), "destination ghost does not exist");
    l.barriers[0].range_start = (-0.0f32).to_bits();
    assert_eq!(l.validate().unwrap_err(), "destination ghost does not exist");
    l.version = 2;
    assert_eq!(l.validate().unwrap_err(), "unsupported layout version");
    let no_default = LayoutFile::default_right(None);
    assert_eq!(no_default.remote_peer.as_deref(), Some("peer"));
    let moved = no_default.with_remote("c");
    assert_eq!(moved.layout.barriers[0].destination, "c");
    assert_eq!(moved.peer_side, PeerSide::Right);
    assert_eq!(layout_path("/d"), "/d/layout.json");
    assert_eq!(agent_status_path("/d"), "/d/agent_status.json");
}

#[test]
fn crossings_find_barriers() {
    let l = two_node_layout("local", "b", PeerSide::Right);
    let b = barrier_for(&l, "local", "main", Edge::Right, 0.5f32.to_bits()).unwrap();
    assert_eq!(b.destination, "b");
    assert!(barrier_for(&l, "local", "main", Edge::Left, 0.5f32.to_bits()).is_none());
    assert!(barrier_for(&l, "local", "main", Edge::Right, 1.5f32.to_bits()).is_none());
    assert!(barrier_for(&l, "local", "main", Edge::Right, (-0.0f32).to_bits()).is_some());
    assert!(barrier_for(&l, "local", "main", Edge::Right, f32::NAN.to_bits()).is_none());
    let back = barrier_for(&l, "b", "main", Edge::Left, 1.0f32.to_bits()).unwrap();
    assert_eq!(back.destination, "local");
    assert!(matches!(edge_command(&back, Edge::Left, 0.2f32.to_bits()), EdgeCommand::Local));
    match edge_command(&b, Edge::Right, 2.0f32.to_bits()) {
        EdgeCommand::Switch { target, entry } => {
            assert_eq!(target, "b");
            assert_eq!(entry.edge, Edge::Left);
            assert_eq!(f32::from_bits(entry.normalized_position), 1.0);
            assert_eq!(entry.inset_px, 6);
        }
        _ => panic!("switch expected"),
    }
    assert_eq!(f32::from_bits(entry_for(Edge::Top, (-3.0f32).to_bits()).normalized_position), 0.0);
    assert_eq!(f32::from_bits(entry_for(Edge::Top, 0.25f32.to_bits()).normalized_position), 0.25);
    assert!(f32::from_bits(entry_for(Edge::Top, f32::NAN.to_bits()).normalized_position).is_nan());
    let mine = local_barriers(&l, "local");
    assert_eq!(mine.len(), 1);
    assert_eq!(mine[0].id, 1);
}

#[test]
fn latch_cycle() {
    assert_eq!(latch_tick(Latch::Cooldown(10), 5), (Latch::Cooldown(10), false));
    assert_eq!(latch_tick(Latch::Cooldown(10), 10), (Latch::Armed, true));
    assert_eq!(latch_tick(Latch::Switching, 0), (Latch::Switching, true));
    assert!(latch_admits(Latch::Armed, false, false));
    assert!(!latch_admits(Latch::Armed, true, false));
    assert!(latch_admits(Latch::Armed, true, true));
    assert!(!latch_admits(Latch::Switching, false, false));
    assert_eq!(latch_after(true, 350, 1_000), Latch::Cooldown(1_000 + 350_000_000));
    assert_eq!(latch_after(false, 350, 1_000), Latch::Armed);
}

#[test]
fn agent_choices() {
    assert_eq!(choose_password(Some("a".into()), Some("b".into()), None).unwrap(), "a");
    assert_eq!(choose_password(None, Some("b".into()), Some("c".into())).unwrap(), "b");
    assert_eq!(choose_password(None, None, Some("  c\n".into())).unwrap(), "c");
    assert_eq!(
        choose_password(Some(String::new()), Some("b".into()), None).unwrap_err(),
        "pairing password required (NEXUSKVM_PASSWORD or data-dir/password)"
    );
    assert!(choose_password(None, None, None).is_err());
    let (f, changed) = client_layout(LayoutFile::default_right(None));
    assert!(changed);
    assert_eq!(f.peer_side, PeerSide::Left);
    let (g, changed) = client_layout(LayoutFile::default_right(Some("host")));
    assert!(!changed);
    assert_eq!(g.peer_side, PeerSide::Right);
    assert!(follow_peer(&g, "host").is_none());
    let h = follow_peer(&g, "other").unwrap();
    assert_eq!(h.remote_peer.as_deref(), Some("other"));
    assert_eq!(h.layout.barriers[0].destination, "other");
    assert_eq!(return_outcome(true, Some("b".into()), None).unwrap(), Some("b".to_string()));
    assert_eq!(return_outcome(true, None, None).unwrap(), Some("local".to_string()));
    assert_eq!(return_outcome(false, None, Some("e".into())).unwrap_err(), "e");
    assert_eq!(return_outcome(false, None, None).unwrap_err(), "local failed");
    assert_eq!(side_word(PeerSide::Top), "top");
    assert_eq!(parse_side("bottom").unwrap(), PeerSide::Bottom);
    assert_eq!(parse_side("up").unwrap_err(), "invalid side: up (left|right|top|bottom)");
    let snap = vec![
        PeerSnapshot { id: "a".into(), address: "1.2.3.4:1".into(), connected: true },
        PeerSnapshot { id: "b".into(), address: "5.6.7.8:2".into(), connected: false },
    ];
    let peers = peers_from_snapshot(&snap, &vec![("b".to_string(), 12)]);
    assert_eq!(peers[0].status, PeerStatus::Connected);
    assert_eq!(peers[0].latency_ms, None);
    assert_eq!(peers[1].status, PeerStatus::Disconnected);
    assert_eq!(peers[1].latency_ms, Some(12));
    assert_eq!(peers[1].name, "b");
    assert_eq!(peers[1].protocol_version, 1);
    let twice = peers_from_snapshot(&snap, &vec![("b".to_string(), 5), ("b".to_string(), 9)]);
    assert_eq!(twice[1].latency_ms, Some(5));
}
