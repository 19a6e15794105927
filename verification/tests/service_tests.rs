use nexuskvm::service::server_from_config;
use nexuskvm::service::{
    cert_path, child_failure, client_cert_path, client_config_path, client_key_path, daemon_config_path, key_path,
    logs_dir, password_path, push_named, push_workspace_bins, rotated_path, service_log_path, session_preflight,
    state_path, strip_ansi, unit_name, Backoff, Role,
};

#[test]
fn strips_ansi_and_csi() {
    let raw = "\u{1b}[31mERROR\u{1b}[0m boom\n[34mDEBUG[0m ping";
    let cleaned = strip_ansi(raw);
    assert!(cleaned.contains("ERROR boom"));
    assert!(!cleaned.contains("31m"));
    assert!(!cleaned.contains("[34m"));
}

#[test]
fn strip_ansi_edge_cases() {
    assert_eq!(strip_ansi("a\u{1b}[1;2"), "a");
    assert_eq!(strip_ansi("[12x"), "[12x");
    assert_eq!(strip_ansi("[1;2K!"), "!");
    assert_eq!(strip_ansi("[x"), "[x");
    assert_eq!(strip_ansi("\u{1b}x"), "\u{1b}x");
    assert_eq!(strip_ansi(""), "");
}

#[test]
fn supervisor_backoff_blocks_immediate_retry() {
    let mut b = Backoff::default();
    let now: u128 = 1_000_000_000_000;
    assert!(b.should_attempt(now));
    assert!(!b.should_attempt(now));
    b.fails = 0;
    b.last = Some(now - 60_000_000_000);
    assert!(b.should_attempt(now));
}

#[test]
fn backoff_doubles_up_to_thirty_seconds() {
    let mut b = Backoff::new();
    let s: u128 = 1_000_000_000;
    assert!(b.should_attempt(0));
    assert!(!b.should_attempt(2 * s - 1));
    assert!(b.should_attempt(2 * s));
    assert_eq!(b.fails, 2);
    assert!(!b.should_attempt(2 * s + 4 * s - 1));
    assert!(b.should_attempt(6 * s));
    b.fails = 9;
    assert!(!b.should_attempt(6 * s + 30 * s - 1));
    assert!(b.should_attempt(36 * s));
    b.reset();
    assert_eq!(b.fails, 0);
    assert_eq!(b.last, Some(36 * s));
    assert!(b.should_attempt(37 * s));
    let mut early = Backoff { fails: 0, last: Some(10 * s) };
    assert!(!early.should_attempt(5 * s));
}

#[test]
fn data_dir_files() {
    assert_eq!(state_path("/d"), "/d/state.json");
    assert_eq!(password_path("/d/"), "/d/password");
    assert_eq!(cert_path("d"), "d/certificate.pem");
    assert_eq!(key_path(""), "key.pem");
    assert_eq!(daemon_config_path("/d"), "/d/daemon.toml");
    assert_eq!(client_config_path("/d"), "/d/client.toml");
    assert_eq!(client_cert_path("/d"), "/d/client-cert.pem");
    assert_eq!(client_key_path("/d"), "/d/client-key.pem");
    assert_eq!(logs_dir("/d"), "/d/logs");
    assert_eq!(service_log_path("/d", Some(Role::Host)).as_deref(), Some("/d/logs/nexus-kvmd.log"));
    assert_eq!(service_log_path("/d", Some(Role::Client)).as_deref(), Some("/d/logs/rkvm-client.log"));
    assert_eq!(service_log_path("/d", None), None);
    assert_eq!(rotated_path("/d/logs/x.log"), "/d/logs/x.log.1");
    assert_eq!(unit_name(Role::Host), "nexuskvm-host.service");
    assert_eq!(unit_name(Role::Client), "nexuskvm-client.service");
}

#[test]
fn binary_candidates() {
    let mut c = Vec::new();
    push_workspace_bins(&mut c, "/app", "nexus-agent");
    assert_eq!(
        c,
        vec![
            "/app/../target/debug/nexus-agent".to_string(),
            "/app/../target/release/nexus-agent".to_string(),
            "/app/../rkvm-master/target/debug/nexus-agent".to_string(),
            "/app/../rkvm-master/target/release/nexus-agent".to_string(),
        ]
    );
    let mut n = Vec::new();
    push_named(&mut n, "/bin", "tool", "");
    push_named(&mut n, "/bin", "tool", "x86_64-unknown-linux-gnu");
    assert_eq!(
        n,
        vec!["/bin/tool".to_string(), "/bin/tool".to_string(), "/bin/tool-x86_64-unknown-linux-gnu".to_string()]
    );
}

#[test]
fn failure_messages() {
    assert_eq!(child_failure("/d", "svc", ""), "svc exited on startup. Check /d/logs/svc.log");
    assert_eq!(child_failure("/d", "svc", "boom"), "svc exited on startup. Log:\nboom");
    assert!(session_preflight(true, true).is_ok());
    assert!(session_preflight(false, true).unwrap_err().starts_with("Your user still lacks permission"));
    assert!(session_preflight(true, false).unwrap_err().starts_with("Cannot open /dev/uinput"));
}

#[test]
fn server_read_from_client_config() {
    let text = "certificate = \"/d/certificate.pem\"\n  server = \"10.0.0.2:5258\"\r\npassword = \"p\"\n";
    assert_eq!(server_from_config(text).as_deref(), Some("10.0.0.2:5258"));
    assert_eq!(server_from_config("serverx = 1\nserver=host:1\n").as_deref(), Some("host:1"));
    assert_eq!(server_from_config("password = \"p\"\n"), None);
    assert_eq!(server_from_config("server \"a\"\n"), None);
}
