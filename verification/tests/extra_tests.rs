use nexuskvm::names::{safe_file_name, safe_rel_path};
use nexuskvm::peer::{add_file_bytes, check_tree_room, child_rel, root_name};
use nexuskvm::agent::{agent_status, make_invite};
use nexuskvm::clip::{after_failure, held_back, SendGate};
use nexuskvm::layout::{LayoutFile, PeerSide};
use nexuskvm::peer::control_host;
use nexuskvm::service::{launch_args, log_filter, log_tail, service_config_path, service_key, Role};

#[test]
fn control_hosts_from_peer_ids() {
    assert_eq!(control_host("host.example:5258"), "host.example");
    assert_eq!(control_host("[2001:db8::1]:5258"), "2001:db8::1");
    assert_eq!(control_host("[fe80::1"), "[fe80:");
    assert_eq!(control_host("[fe80::1]x"), "fe80::1");
    assert_eq!(control_host("myhost"), "myhost");
    assert_eq!(control_host("a:b"), "a:b");
    assert_eq!(control_host("a:+80"), "a");
    assert_eq!(control_host("a:65536"), "a:65536");
    assert_eq!(control_host(":80"), ":80");
}

#[test]
fn log_tails_skip_chatter() {
    let raw = "\u{1b}[32mstart\u{1b}[0m\r\n  \nReceived ping from x\nerror one\nSent pong\nerror two\r";
    assert_eq!(log_tail(raw, 12), "start\nerror one\nerror two\r");
    assert_eq!(log_tail(raw, 1), "error two\r");
    assert_eq!(log_tail(raw, 0), "");
    assert_eq!(log_tail("", 5), "");
    assert_eq!(log_tail("a\nb\n", 5), "a\nb");
}

#[test]
fn services_are_started_per_role() {
    assert_eq!(service_key(Role::Host), "nexus-kvmd");
    assert_eq!(service_key(Role::Client), "rkvm-client");
    assert_eq!(launch_args(Role::Host, "/d/daemon.toml"), vec!["--config".to_string(), "/d/daemon.toml".to_string()]);
    assert_eq!(launch_args(Role::Client, "/d/client.toml"), vec!["/d/client.toml".to_string()]);
    assert_eq!(log_filter(Role::Client), "rkvm_client=info,rkvm_input=info");
    assert_eq!(service_config_path("/d", Role::Host), "/d/daemon.toml");
    assert_eq!(service_config_path("/d", Role::Client), "/d/client.toml");
}

#[test]
fn failed_sends_back_off() {
    let s: u128 = 1_000_000_000;
    let g = after_failure(&None, "fp", 10 * s);
    assert_eq!(g.fails, 1);
    assert_eq!(g.next_try, 12 * s);
    let gate = Some(g);
    assert!(held_back(&gate, "fp", 11 * s));
    assert!(!held_back(&gate, "fp", 12 * s));
    assert!(!held_back(&gate, "other", 11 * s));
    assert!(!held_back(&None, "fp", 0));
    let g2 = after_failure(&gate, "fp", 20 * s);
    assert_eq!(g2.fails, 2);
    assert_eq!(g2.next_try, 24 * s);
    let many = Some(SendGate { fp: "fp".into(), fails: 40, next_try: 0 });
    assert_eq!(after_failure(&many, "fp", 0).next_try, 60 * s);
    let five = Some(SendGate { fp: "fp".into(), fails: 4, next_try: 0 });
    assert_eq!(after_failure(&five, "fp", 0).next_try, 32 * s);
    let six = Some(SendGate { fp: "fp".into(), fails: 5, next_try: 0 });
    assert_eq!(after_failure(&six, "fp", 0).next_try, 60 * s);
    assert_eq!(after_failure(&many, "new", 0).fails, 1);
}

#[test]
fn agent_status_and_invites() {
    let f = LayoutFile::default_right(None).with_side(PeerSide::Bottom);
    let st = agent_status(false, Some("no portal"), &f, true);
    assert_eq!(st.peer_side, "bottom");
    assert_eq!(st.portal_error.as_deref(), Some("no portal"));
    assert!(st.clipboard_ok);
    assert!(!st.portal_available);
    let inv = make_invite("10.0.0.2:5258".into(), " abc\n", "CERT".into(), None, Some("KEY".into()));
    assert_eq!(inv.server, "10.0.0.2:5258");
    assert_eq!(inv.password, "abc");
    assert_eq!(inv.client_certificate, "");
    assert_eq!(inv.client_key, "KEY");
}

#[test]
fn safe_names_are_fixed_points() {
    let n = safe_file_name("../we?ird name*.txt").unwrap();
    assert_eq!(n, "we_ird name_.txt");
    assert_eq!(safe_file_name(&n).as_deref(), Some(n.as_str()));
    let p = safe_rel_path("\\a\\.\\b c/d?e").unwrap();
    assert_eq!(p, "a/b c/d_e");
    assert_eq!(safe_rel_path(&p).as_deref(), Some(p.as_str()));
}

#[test]
fn file_tree_limits() {
    assert_eq!(root_name("../x"), "x");
    assert_eq!(root_name(".."), "item");
    assert!(check_tree_room(2047, 16).is_ok());
    assert_eq!(check_tree_room(2048, 0).unwrap_err(), "too many clipboard files");
    assert_eq!(check_tree_room(0, 17).unwrap_err(), "clipboard folder too deep");
    assert_eq!(add_file_bytes(10, 5).unwrap(), 15);
    assert_eq!(add_file_bytes(64 * 1024 * 1024, 1).unwrap_err(), "clipboard files too large");
    assert_eq!(add_file_bytes(u64::MAX, 1).unwrap_err(), "clipboard files too large");
    assert_eq!(child_rel("top", "a?b").as_deref(), Some("top/a_b"));
    assert_eq!(child_rel("top", ".."), None);
}

#[test]
fn portal_barrier_ids() {
    assert_eq!(nexuskvm::edge::portal_barrier_id(3, 0), 301);
    assert_eq!(nexuskvm::edge::portal_barrier_id(0, 4), 5);
    assert_eq!(nexuskvm::edge::portal_barrier_id(u32::MAX / 100 + 1, 0), u32::MAX);
    assert_eq!(nexuskvm::edge::portal_barrier_id(42_949_672, 99), u32::MAX);
}
