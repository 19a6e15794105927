use nexuskvm::auth::{seal, ReplayGuard};
use nexuskvm::peer::{admit_envelope, Refusal};
use nexuskvm::auth::{open_chunk, AeadEnvelope};
use nexuskvm::names::{safe_file_name, safe_rel_path};
use nexuskvm::peer::{
    ack_for, build_offer, check_done, check_file_body, check_file_sizes, check_inbox_room, check_offer,
    check_reply_line, clip_done, confined, decode_msg_bytes, file_target, frame_header, frame_len, kind_max,
    line_fits, msg_kind, note_root, payload_digest, route_message, seal_frame, seal_payload, take_chunk,
    ClipEntry, ClipFileMeta, ClipKind, ClipOut, PeerMessage, Route, CHUNK, CLIP_MAX_FILES, CLIP_MAX_PNG,
    CLIP_MAX_TEXT,
};

#[test]
fn rejects_path_traversal_names() {
    assert!(safe_file_name("../etc/passwd").is_some());
    assert_eq!(safe_file_name("../etc/passwd").unwrap(), "passwd");
    assert!(safe_file_name("..").is_none());
    assert_eq!(safe_rel_path("a/b/c.txt").as_deref(), Some("a/b/c.txt"));
    assert!(safe_rel_path("a/../etc/passwd").is_none());
    assert_eq!(safe_rel_path("/etc/passwd").unwrap(), "etc/passwd");
    assert!(safe_rel_path("/etc/passwd").is_some());
    assert_eq!(safe_rel_path("/etc/passwd").as_deref(), Some("etc/passwd"));
}

#[test]
fn kinds_and_names() {
    assert_eq!(kind_max(ClipKind::Text), CLIP_MAX_TEXT);
    assert_eq!(kind_max(ClipKind::Png), CLIP_MAX_PNG);
    assert_eq!(kind_max(ClipKind::Files), CLIP_MAX_FILES);
    assert_eq!(msg_kind(&PeerMessage::Ping), "ping");
    assert_eq!(msg_kind(&PeerMessage::SwitchLocal), "switch_local");
    assert_eq!(msg_kind(&PeerMessage::Clipboard { seq: 1, text: "x".into() }), "clipboard");
    assert_eq!(msg_kind(&PeerMessage::ClipDone { id: "i".into(), sha256: "s".into() }), "clip_done");
    assert_eq!(msg_kind(&PeerMessage::Ack { ok: true, active_target: None, error: None }), "ack");
}

fn offer(kind: ClipKind, byte_len: u64, files: Vec<ClipFileMeta>) -> PeerMessage {
    PeerMessage::ClipOffer { id: "id1".into(), kind, byte_len, files }
}

#[test]
fn offers_are_checked() {
    assert_eq!(check_offer(&PeerMessage::Ping).unwrap_err(), "expected clip_offer");
    assert_eq!(check_offer(&offer(ClipKind::Text, CLIP_MAX_TEXT + 1, vec![])).unwrap_err(), "clip payload exceeds limit");
    assert!(check_offer(&offer(ClipKind::Text, CLIP_MAX_TEXT, vec![])).is_ok());
    let many: Vec<ClipFileMeta> =
        (0..2049).map(|i| ClipFileMeta { name: format!("f{i}"), size: 0, dir: false }).collect();
    assert_eq!(check_offer(&offer(ClipKind::Files, 0, many)).unwrap_err(), "too many clipboard files");
    assert!(check_inbox_room(10, 20).is_ok());
    assert_eq!(check_inbox_room(256 * 1024 * 1024, 1).unwrap_err(), "clipboard inbox full");
    assert!(check_inbox_room(256 * 1024 * 1024, 0).is_ok());
    assert_eq!(check_inbox_room(u64::MAX, u64::MAX).unwrap_err(), "clipboard inbox full");
}

#[test]
fn file_sizes_must_match_offer() {
    let files = vec![
        ClipFileMeta { name: "d".into(), size: 99, dir: true },
        ClipFileMeta { name: "d/a".into(), size: 3, dir: false },
        ClipFileMeta { name: "d/b".into(), size: 4, dir: false },
    ];
    assert!(check_file_sizes(&files, 7).is_ok());
    assert_eq!(check_file_sizes(&files, 8).unwrap_err(), "file sizes do not match offer");
    assert_eq!(check_file_sizes(&files, 6).unwrap_err(), "file sizes do not match offer");
    let huge = vec![
        ClipFileMeta { name: "a".into(), size: u64::MAX, dir: false },
        ClipFileMeta { name: "b".into(), size: 1, dir: false },
    ];
    assert_eq!(check_file_sizes(&huge, u64::MAX).unwrap_err(), "file sizes do not match offer");
    assert!(check_file_body(3, 3).is_ok());
    assert_eq!(check_file_body(2, 3).unwrap_err(), "clip file size mismatch");
}

#[test]
fn received_files_stay_in_the_inbox() {
    assert_eq!(confined("/inbox/id", "a/../b"), None);
    assert_eq!(confined("/inbox/id", "/etc/passwd").as_deref(), Some("/inbox/id/etc/passwd"));
    assert_eq!(confined("/inbox/id/", "x").as_deref(), Some("/inbox/id/x"));
    let meta = ClipFileMeta { name: "pack/sub/a.txt".into(), size: 1, dir: false };
    assert_eq!(file_target("/in", &meta).unwrap(), ("/in/pack/sub/a.txt".to_string(), "pack".to_string()));
    let bad = ClipFileMeta { name: "..".into(), size: 1, dir: false };
    assert_eq!(file_target("/in", &bad).unwrap_err(), "bad file name");
    let mut firsts = Vec::new();
    let mut roots = Vec::new();
    note_root(&mut firsts, &mut roots, "/in", "pack");
    note_root(&mut firsts, &mut roots, "/in", "pack");
    note_root(&mut firsts, &mut roots, "/in", "other");
    assert_eq!(roots, vec!["/in/pack".to_string(), "/in/other".to_string()]);
}

#[test]
fn frames_have_checked_sizes() {
    assert_eq!(frame_header(0x0102_0304), vec![1, 2, 3, 4]);
    assert_eq!(frame_len(&[0, 0, 0, 16]).unwrap(), 16);
    assert_eq!(frame_len(&[0, 0, 0, 15]).unwrap_err(), "clip frame size");
    assert_eq!(frame_len(&[0, 1, 0, 64]).unwrap(), CHUNK + 64);
    assert_eq!(frame_len(&[0, 1, 0, 65]).unwrap_err(), "clip frame size");
    assert_eq!(take_chunk(10, 4).unwrap(), 6);
    assert_eq!(take_chunk(3, 4).unwrap_err(), "clip frame overflow");
}

#[test]
fn payload_frames_open_in_order() {
    let data: Vec<u8> = (0..(CHUNK * 2 + 10)).map(|i| (i % 251) as u8).collect();
    let frames = seal_payload("pw", &data).unwrap();
    assert_eq!(frames.len(), 3);
    let mut back = Vec::new();
    for f in &frames {
        let mut h = [0u8; 4];
        h.copy_from_slice(&f[..4]);
        let n = frame_len(&h).unwrap();
        assert_eq!(n, f.len() - 4);
        back.extend(open_chunk("pw", &f[4..]).unwrap());
    }
    assert_eq!(back, data);
    assert!(seal_payload("pw", &[]).unwrap().is_empty());
    assert_eq!(seal_payload("", b"x").unwrap_err(), "empty peer secret");
    let one = seal_frame("pw", b"abc").unwrap();
    assert_eq!(one.len(), 4 + 12 + 3 + 16);
}

#[test]
fn done_messages_check_id_and_digest() {
    let d = payload_digest(b"abc");
    assert_eq!(
        d.iter().map(|b| format!("{b:02x}")).collect::<String>(),
        "ba7816bf8f01cfea414140de5dae2223b00361a396177a9cb410ff61f20015ad"
    );
    let done = clip_done("id1".into(), b"abc");
    assert!(check_done(&done, "id1", &d).is_ok());
    assert_eq!(check_done(&done, "id2", &d).unwrap_err(), "clip id mismatch");
    assert_eq!(check_done(&done, "id1", &payload_digest(b"abd")).unwrap_err(), "clip sha256 mismatch");
    assert_eq!(check_done(&PeerMessage::Ping, "id1", &d).unwrap_err(), "expected clip_done");
}

#[test]
fn offers_describe_payloads() {
    match build_offer("x".into(), &ClipOut::Text("héllo".into()), &Vec::new()).unwrap() {
        PeerMessage::ClipOffer { id, kind, byte_len, files } => {
            assert_eq!(id, "x");
            assert_eq!(kind, ClipKind::Text);
            assert_eq!(byte_len, 6);
            assert!(files.is_empty());
        }
        _ => panic!("offer expected"),
    }
    let big = ClipOut::Png(vec![0; (CLIP_MAX_PNG + 1) as usize]);
    assert_eq!(build_offer("x".into(), &big, &Vec::new()).unwrap_err(), "clipboard image too large");
    let files = ClipOut::Files(vec![("a".into(), "/a".into())]);
    assert_eq!(build_offer("x".into(), &files, &Vec::new()).unwrap_err(), "no clipboard files");
    let entries = vec![
        ClipEntry { rel: "a".into(), path: "/a".into(), dir: true, size: 0 },
        ClipEntry { rel: "a/f".into(), path: "/a/f".into(), dir: false, size: 5 },
    ];
    match build_offer("x".into(), &files, &entries).unwrap() {
        PeerMessage::ClipOffer { kind, byte_len, files, .. } => {
            assert_eq!(kind, ClipKind::Files);
            assert_eq!(byte_len, 5);
            assert_eq!(files.len(), 2);
            assert_eq!(files[1].name, "a/f");
            assert!(files[0].dir);
        }
        _ => panic!("offer expected"),
    }
    let too_big = vec![ClipEntry { rel: "a".into(), path: "/a".into(), dir: false, size: CLIP_MAX_FILES + 1 }];
    assert_eq!(build_offer("x".into(), &files, &too_big).unwrap_err(), "clipboard files too large");
}

#[test]
fn connections_route_messages() {
    assert!(matches!(route_message(&PeerMessage::Ack { ok: true, active_target: None, error: None }, true), Route::Ignore));
    assert!(matches!(route_message(&offer(ClipKind::Text, 1, vec![]), true), Route::ReceiveClip));
    match route_message(&offer(ClipKind::Text, 1, vec![]), false) {
        Route::Refuse(e) => assert_eq!(e, "clipboard inbox unavailable"),
        _ => panic!("refusal expected"),
    }
    match route_message(&PeerMessage::Clipboard { seq: 3, text: "t".into() }, true) {
        Route::Deliver(c) => {
            assert_eq!(c.kind, ClipKind::Text);
            assert_eq!(c.text.as_deref(), Some("t"));
        }
        _ => panic!("delivery expected"),
    }
    assert!(matches!(route_message(&PeerMessage::SwitchLocal, true), Route::Dispatch));
    match ack_for(Err("no".into())) {
        PeerMessage::Ack { ok, active_target, error } => {
            assert!(!ok);
            assert!(active_target.is_none());
            assert_eq!(error.as_deref(), Some("no"));
        }
        _ => panic!("ack expected"),
    }
    match ack_for(Ok(Some("b".into()))) {
        PeerMessage::Ack { ok, active_target, error } => {
            assert!(ok);
            assert_eq!(active_target.as_deref(), Some("b"));
            assert!(error.is_none());
        }
        _ => panic!("ack expected"),
    }
    assert!(line_fits("short"));
    assert_eq!(check_reply_line("").unwrap_err(), "peer control closed without ack");
    assert_eq!(check_reply_line(&"x".repeat(512 * 1024 + 1)).unwrap_err(), "peer line too large");
    assert!(check_reply_line("{}").is_ok());
    let env = AeadEnvelope { n: String::new(), t: 0, c: String::new() };
    assert_eq!(decode_msg_bytes("", &env, 0).unwrap_err(), "empty peer secret");
}

#[test]
fn admit_checks_replay_before_opening() {
    let mut g = ReplayGuard::new();
    let env = seal("secret", b"{}", 1000).unwrap();
    assert_eq!(admit_envelope(&mut g, "secret", &env, 1000).unwrap(), b"{}".to_vec());
    assert!(matches!(admit_envelope(&mut g, "secret", &env, 1000), Err(Refusal::Replayed(_))));
    let other = seal("secret", b"{}", 1000).unwrap();
    assert_eq!(
        admit_envelope(&mut g, "wrong", &other, 1000).unwrap_err(),
        Refusal::Unauthorized("aead decrypt".into())
    );
    // The nonce was remembered even though the envelope did not open.
    assert!(matches!(admit_envelope(&mut g, "secret", &other, 1000), Err(Refusal::Replayed(_))));
    let late = seal("secret", b"{}", 1000).unwrap();
    assert_eq!(
        admit_envelope(&mut g, "secret", &late, 2000).unwrap_err(),
        Refusal::Unauthorized("expired peer control message".into())
    );
}
