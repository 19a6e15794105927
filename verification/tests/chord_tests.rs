use nexuskvm::chord::{chord_step, ChordState};
use nexuskvm::router::TargetRouter;

const CTRL: u16 = 29;
const ALT: u16 = 56;
const KEY_A: u16 = 30;

fn router_with_peer() -> TargetRouter {
    let mut r = TargetRouter::new();
    r.insert_peer("peer-b".into(), "10.0.0.2:1".into());
    r
}

#[test]
fn chord_switches_and_withholds_only_engaged_keys() {
    let mut r = router_with_peer();
    let mut c = ChordState::new();
    let keys = vec![CTRL, ALT];

    // A lone switch key reaches the current destination.
    let s = r.route_key(&mut c, &keys, CTRL, true, false);
    assert!(s.action.switch_key && !s.action.switch_now && !s.action.suppress);
    assert_eq!(s.route_to.as_deref(), Some("local"));
    assert!(s.released.is_empty());

    // The second switch key completes the chord: switch, hand back the held keys.
    let s = r.route_key(&mut c, &keys, ALT, true, false);
    assert!(s.action.switch_now && s.action.suppress);
    assert_eq!(s.route_to, None);
    let mut rel = s.released.clone();
    rel.sort();
    assert_eq!(rel, vec![(CTRL, "local".to_string()), (ALT, "local".to_string())]);
    assert_eq!(r.active_target(), "peer-b");
    // The chord's keys keep going to the previous destination until it is finished.
    assert_eq!(r.event_target(), "local");

    // Other keys during the chord go to the chord's destination.
    let s = r.route_key(&mut c, &keys, KEY_A, true, false);
    assert!(!s.action.switch_key && !s.action.suppress);
    assert_eq!(s.route_to.as_deref(), Some("local"));
    let s = r.route_key(&mut c, &keys, KEY_A, false, false);
    assert_eq!(s.route_to.as_deref(), Some("local"));

    // Releasing the chord is withheld; the last release finishes it.
    let s = r.route_key(&mut c, &keys, CTRL, false, false);
    assert!(s.action.suppress && !s.action.finish_chord);
    let s = r.route_key(&mut c, &keys, ALT, false, false);
    assert!(s.action.suppress && s.action.finish_chord);
    assert_eq!(r.event_target(), "peer-b");

    let s = r.route_key(&mut c, &keys, KEY_A, true, false);
    assert_eq!(s.route_to.as_deref(), Some("peer-b"));
}

#[test]
fn chord_propagated_when_asked() {
    let mut r = router_with_peer();
    let mut c = ChordState::new();
    let keys = vec![CTRL, ALT];
    let s = r.route_key(&mut c, &keys, CTRL, true, true);
    assert_eq!(s.route_to.as_deref(), Some("local"));
    let s = r.route_key(&mut c, &keys, ALT, true, true);
    assert!(s.action.switch_now && !s.action.suppress);
    assert_eq!(s.route_to.as_deref(), Some("local"));
    assert_eq!(r.active_target(), "peer-b");
    let s = r.route_key(&mut c, &keys, ALT, false, true);
    let s2 = r.route_key(&mut c, &keys, CTRL, false, true);
    assert!(!s.action.finish_chord && s2.action.finish_chord);
    assert_eq!(s2.route_to.as_deref(), Some("local"));
    assert_eq!(r.event_target(), "peer-b");
}

#[test]
fn chord_step_tracks_switch_keys_only() {
    let mut c = ChordState::new();
    let keys = vec![CTRL, ALT];
    let a = chord_step(&mut c, &keys, KEY_A, true, false);
    assert!(!a.switch_key && !a.switch_now && !a.suppress && !a.finish_chord);
    let a = chord_step(&mut c, &keys, CTRL, true, false);
    assert!(a.switch_key && !a.switch_now && !a.finish_chord);
    // A repeated press of a key already down changes nothing.
    let a = chord_step(&mut c, &keys, CTRL, true, false);
    assert!(!a.switch_now);
    let a = chord_step(&mut c, &keys, CTRL, false, false);
    assert!(a.finish_chord && !a.suppress);
    // Releasing a key that is not down leaves the chord empty and finished again.
    let a = chord_step(&mut c, &keys, ALT, false, false);
    assert!(a.finish_chord);
}

#[test]
fn chord_with_no_peer_stays_local() {
    let mut r = TargetRouter::new();
    let mut c = ChordState::new();
    let keys = vec![CTRL, ALT];
    r.route_key(&mut c, &keys, CTRL, true, false);
    let s = r.route_key(&mut c, &keys, ALT, true, false);
    assert!(s.action.switch_now);
    assert_eq!(r.active_target(), "local");
    assert_eq!(s.released.len(), 2);
}
