use nexuskvm::control::{
    admit_switch, agent_connected, check_next, edge_decision, heal, in_transition, needs_local_reset, preparing,
    state_for_active, switch_outcome, with_latencies, EdgeDecision, Peer, PeerStatus, RuntimeState,
};
use nexuskvm::framing::{encode_frame, FrameDecoder};

fn peer(id: &str, status: PeerStatus) -> Peer {
    Peer { id: id.into(), name: id.into(), address: "a".into(), status, latency_ms: None, protocol_version: 1 }
}

fn is_local(s: &RuntimeState) -> bool {
    matches!(s, RuntimeState::Local)
}

#[test]
fn healing_settles_transitions() {
    assert!(is_local(&heal(&RuntimeState::ReturningLocal { transition_id: 0 }, "b").unwrap()));
    assert!(is_local(&heal(&RuntimeState::Recovering { reason: "x".into() }, "local").unwrap()));
    match heal(&RuntimeState::PreparingRemote { peer: "b".into(), transition_id: 7 }, "b").unwrap() {
        RuntimeState::Remote { peer, transition_id } => {
            assert_eq!(peer, "b");
            assert_eq!(transition_id, 7);
        }
        _ => panic!("remote expected"),
    }
    assert!(heal(&RuntimeState::PreparingRemote { peer: "b".into(), transition_id: 7 }, "c").is_none());
    assert!(is_local(&heal(&RuntimeState::PreparingRemote { peer: "b".into(), transition_id: 7 }, "local").unwrap()));
    match heal(&RuntimeState::Remote { peer: "b".into(), transition_id: 7 }, "c").unwrap() {
        RuntimeState::Remote { peer, transition_id } => {
            assert_eq!(peer, "c");
            assert_eq!(transition_id, 0);
        }
        _ => panic!("remote expected"),
    }
    assert!(is_local(&heal(&RuntimeState::Stopped, "local").unwrap()));
    assert!(in_transition(&preparing("b", 1)));
    assert!(!in_transition(&state_for_active("local")));
}

#[test]
fn edge_crossings_are_contained() {
    let peers = vec![peer("a", PeerStatus::Disconnected), peer("b", PeerStatus::Connected), peer("c", PeerStatus::Connected)];
    assert!(matches!(edge_decision("b", None, &peers), EdgeDecision::Contained));
    assert!(matches!(edge_decision("local", Some(749_999_999), &peers), EdgeDecision::Contained));
    match edge_decision("local", Some(750_000_000), &peers) {
        EdgeDecision::Switch(p) => assert_eq!(p, "b"),
        _ => panic!("switch expected"),
    }
    assert!(matches!(edge_decision("local", None, &vec![peer("a", PeerStatus::Degraded)]), EdgeDecision::NoPeer));
}

#[test]
fn switch_requests_are_admitted() {
    let peers = vec![peer("a", PeerStatus::Disconnected), peer("b", PeerStatus::Connected)];
    assert!(admit_switch(&peers, "b", &RuntimeState::Local).is_ok());
    assert_eq!(admit_switch(&peers, "a", &RuntimeState::Local).unwrap_err(), "peer unavailable: a");
    assert_eq!(admit_switch(&peers, "z", &RuntimeState::Local).unwrap_err(), "peer unavailable: z");
    assert_eq!(
        admit_switch(&peers, "b", &RuntimeState::ReturningLocal { transition_id: 1 }).unwrap_err(),
        "transition in progress"
    );
    assert!(needs_local_reset(true, "local", &peers));
    assert!(needs_local_reset(false, "a", &peers));
    assert!(!needs_local_reset(false, "b", &peers));
    assert!(!needs_local_reset(false, "local", &peers));
    assert!(is_local(&switch_outcome("b", 5, true, false, "b")));
    assert!(matches!(switch_outcome("b", 5, true, true, "local"), RuntimeState::Remote { transition_id: 5, .. }));
    assert!(matches!(switch_outcome("b", 5, false, false, "c"), RuntimeState::Remote { transition_id: 0, .. }));
    assert_eq!(check_next("local", "local").unwrap_err(), "no connected peer to switch to");
    assert!(check_next("local", "b").is_ok());
    assert!(check_next("b", "local").is_ok());
    assert!(agent_connected(Some(4_999_999_999)));
    assert!(!agent_connected(Some(5_000_000_000)));
    assert!(!agent_connected(None));
    let merged = with_latencies(peers, &vec![("b".to_string(), 7), ("b".to_string(), 9)]);
    assert_eq!(merged[0].latency_ms, None);
    assert_eq!(merged[1].latency_ms, Some(7));
}

#[test]
fn frames_survive_partial_reads() {
    let f1 = encode_frame(b"hello").unwrap();
    let f2 = encode_frame(&[]).unwrap();
    assert_eq!(f1, vec![0, 5, b'h', b'e', b'l', b'l', b'o']);
    assert_eq!(encode_frame(&vec![0u8; 70000]).unwrap_err(), "Data too large");
    let mut d = FrameDecoder::new();
    d.extend(&f1[..1]);
    assert!(d.complete_frame().is_none());
    d.extend(&f1[1..4]);
    assert!(d.complete_frame().is_none());
    d.extend(&f1[4..]);
    d.extend(&f2);
    assert_eq!(d.complete_frame().unwrap(), b"hello");
    assert_eq!(d.complete_frame().unwrap(), b"hello");
    d.consume_frame();
    assert_eq!(d.complete_frame().unwrap(), Vec::<u8>::new());
    d.consume_frame();
    assert!(d.complete_frame().is_none());
}
