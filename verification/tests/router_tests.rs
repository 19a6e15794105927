use nexuskvm::input::InputState;
use nexuskvm::router::{TargetError, TargetRouter};

const KEY_A: u16 = 30;
const KEY_LEFTSHIFT: u16 = 42;
const KEY_LEFTALT: u16 = 56;
const KEY_LEFTCTRL: u16 = 29;

fn fixture_with_peer(id: &str, connected: bool) -> TargetRouter {
    let mut r = TargetRouter::new();
    r.insert_peer(id.into(), "127.0.0.1:1".into());
    if !connected {
        r.mark_disconnected(id);
    }
    r
}

#[test]
fn release_goes_to_press_destination() {
    let mut s = InputState::default();
    s.press_key(42, "b".into());
    assert_eq!(s.release_key(42), Some("b".into()));
    assert!(s.is_clear());
}

#[test]
fn buttons_and_drain() {
    let mut s = InputState::new();
    s.press_key(1, "a".into());
    s.press_button(272, "b".into());
    assert_eq!(s.release_button(272), Some("b".into()));
    assert_eq!(s.release_button(272), None);
    s.press_button(273, "c".into());
    let drained = s.drain();
    assert_eq!(drained, vec![(1, "a".to_string(), false), (273, "c".to_string(), true)]);
    assert!(s.is_clear());
}

#[test]
fn switches_local_to_connected_client() {
    let mut c = fixture_with_peer("b", true);
    c.switch_to("b").unwrap();
    assert_eq!(c.active_target(), "b");
}

#[test]
fn disconnected_peer_cannot_be_selected() {
    let mut c = fixture_with_peer("b", false);
    let result = c.switch_to("b");
    assert!(matches!(result, Err(TargetError::PeerUnavailable(_))));
    assert_eq!(c.active_target(), "local");
}

#[test]
fn missing_peer_cannot_be_selected() {
    let mut c = TargetRouter::new();
    assert!(c.switch_to("ghost").is_err());
    assert_eq!(c.active_target(), "local");
}

#[test]
fn switch_local_is_idempotent() {
    let mut c = TargetRouter::new();
    let first = c.switch_local().unwrap();
    let second = c.switch_local().unwrap();
    assert_ne!(first, second);
    assert_eq!(c.active_target(), "local");
}

#[test]
fn lost_active_peer_returns_local() {
    let mut c = fixture_with_peer("b", true);
    c.switch_to("b").unwrap();
    c.remove_peer("b");
    assert_eq!(c.active_target(), "local");
}

#[test]
fn lost_active_peer_drains_held_keys() {
    let mut c = fixture_with_peer("b", true);
    c.switch_to("b").unwrap();
    c.note_key(KEY_A, true);
    let released = c.remove_peer("b");
    assert_eq!(released, vec![(KEY_A, "b".to_string())]);
    assert_eq!(c.active_target(), "local");
    assert!(c.drain_held().is_empty());
}

#[test]
fn release_follows_press_destination() {
    let mut c = fixture_with_peer("b", true);
    c.note_key(KEY_LEFTSHIFT, true);
    c.switch_to("b").unwrap();
    let keys = c.release_all(Some("local")).unwrap();
    assert_eq!(keys, vec![(KEY_LEFTSHIFT, "local".to_string())]);
    assert!(c.drain_held().is_empty());
}

#[test]
fn chord_keeps_release_on_previous_until_finished() {
    let mut c = fixture_with_peer("b", true);
    c.note_key(KEY_LEFTALT, true);
    c.note_key(KEY_LEFTCTRL, true);
    assert_eq!(c.event_target(), "local");
    let held = c.drain_held();
    assert_eq!(held.len(), 2);
    c.switch_next().unwrap();
    assert_eq!(c.active_target(), "b");
    assert_eq!(c.event_target(), "local");
    c.finish_chord();
    assert_eq!(c.event_target(), "b");
}

#[test]
fn switch_next_cycles_local_and_peers() {
    let mut c = fixture_with_peer("a", true);
    c.insert_peer("b".into(), "127.0.0.1:2".into());
    assert!(!c.switch_next().unwrap().is_empty());
    assert_eq!(c.active_target(), "a");
    c.finish_chord();
    c.switch_next().unwrap();
    assert_eq!(c.active_target(), "b");
    c.finish_chord();
    c.switch_next().unwrap();
    assert_eq!(c.active_target(), "local");
}

#[test]
fn snapshot_lists_peers_in_insertion_order() {
    let mut c = fixture_with_peer("z", true);
    c.insert_peer("a".into(), "10.0.0.1:1".into());
    c.mark_disconnected("z");
    let s = c.snapshot();
    assert_eq!(s.active_target, "local");
    let ids: Vec<(String, bool)> = s.peers.iter().map(|p| (p.id.clone(), p.connected)).collect();
    assert_eq!(ids, vec![("z".to_string(), false), ("a".to_string(), true)]);
}
