use nexuskvm::clip::{
    fingerprint, hex_nibble, image_ext_ok, image_snap_from_bytes, inbox_fingerprint, item_name_exec,
    path_starts_with_exec, path_to_uri, percent_decode, png_to_rgba, rgba_to_png, simple_hash, snap_desc,
    snap_to_out, sort_texts, uri_list, uri_list_candidates, LocalSnap,
};
use nexuskvm::peer::{ClipEntry, ClipOut};

#[test]
fn png_roundtrip_rgba() {
    let rgba = vec![255, 0, 0, 255, 0, 255, 0, 255];
    let png = rgba_to_png(2, 1, &rgba).unwrap();
    let (w, h, back) = png_to_rgba(&png).unwrap();
    assert_eq!((w, h), (2, 1));
    assert_eq!(back, rgba);
}

#[test]
fn file_fp_ignores_inbox_echo() {
    let inbox = "/tmp/nexuskvm-clip-test";
    let snap = LocalSnap::Files(vec![format!("{}/a.txt", inbox)]);
    assert!(fingerprint(&snap, inbox, &Vec::new()).starts_with("inbox:"));
}

#[test]
fn path_to_uri_encodes_spaces() {
    assert_eq!(path_to_uri("/home/u/My Shot.png"), "file:///home/u/My%20Shot.png");
}

#[test]
fn uri_escape_and_decode() {
    assert_eq!(path_to_uri("/a%b/ñ~"), "file:///a%25b/%C3%B1~");
    assert_eq!(percent_decode("/a%25b/%C3%B1~"), "/a%b/ñ~");
    assert_eq!(percent_decode("100%"), "100%");
    assert_eq!(percent_decode("%4"), "%4");
    assert_eq!(percent_decode("%zz%41"), "%zzA");
    assert_eq!(percent_decode("%ff"), "\u{fffd}");
    assert_eq!(hex_nibble(b'7'), Some(7));
    assert_eq!(hex_nibble(b'b'), Some(11));
    assert_eq!(hex_nibble(b'F'), Some(15));
    assert_eq!(hex_nibble(b'g'), None);
}

#[test]
fn uri_list_candidates_read_file_urls_and_paths() {
    let text = "file:///tmp/My%20Shot.png\r\n#comment\n  /abs/path  \nrelative\n\nfile://\n";
    let c = uri_list_candidates(text);
    assert_eq!(c, vec!["/tmp/My Shot.png".to_string(), "/abs/path".to_string(), String::new()]);
    assert!(uri_list_candidates("hello world").is_empty());
}

#[test]
fn uri_list_joins_with_crlf() {
    let l = uri_list(&vec!["/a b".to_string(), "/c".to_string()]);
    assert_eq!(l, "file:///a%20b\r\nfile:///c");
    assert_eq!(uri_list(&Vec::new()), "");
}

#[test]
fn fnv1a_known_values() {
    assert_eq!(simple_hash(b""), 0xcbf29ce484222325);
    assert_eq!(simple_hash(b"a"), 0xaf63dc4c8601ec8c);
    assert_eq!(simple_hash(b"foobar"), 0x85944171f73967e8);
}

#[test]
fn text_and_image_fingerprints() {
    let t = LocalSnap::Text("hello".into());
    assert_eq!(fingerprint(&t, "/inbox", &Vec::new()), format!("t:5:{}", simple_hash(b"hello")));
    let i = LocalSnap::Image { width: 2, height: 1, rgba: vec![1, 2, 3, 4, 5, 6, 7, 8] };
    assert_eq!(
        fingerprint(&i, "/inbox", &Vec::new()),
        format!("i:2x1:8:{}", simple_hash(&[1, 2, 3, 4, 5, 6, 7, 8]))
    );
    assert_eq!(fingerprint(&LocalSnap::Empty, "/inbox", &Vec::new()), "");
    assert_eq!(inbox_fingerprint(3), "inbox:3");
}

#[test]
fn file_fingerprint_sorts_entries() {
    let snap = LocalSnap::Files(vec!["/home/u/pack".to_string()]);
    let e = |rel: &str, size: u64, dir: bool| ClipEntry { rel: rel.into(), path: format!("/home/u/{rel}"), dir, size };
    let a = vec![e("pack", 0, true), e("pack/b.txt", 2, false), e("pack/a.txt", 10, false)];
    let b = vec![e("pack/a.txt", 10, false), e("pack", 0, true), e("pack/b.txt", 2, false)];
    let fa = fingerprint(&snap, "/tmp/inbox", &a);
    assert_eq!(fa, "f:pack/a.txt:10:0|pack/b.txt:2:0|pack:0:1");
    assert_eq!(fa, fingerprint(&snap, "/tmp/inbox", &b));
    let mixed = LocalSnap::Files(vec!["/tmp/inbox/x".to_string(), "/home/y".to_string()]);
    assert_eq!(fingerprint(&mixed, "/tmp/inbox", &Vec::new()), "f:");
}

#[test]
fn sort_texts_orders_like_strings() {
    let v: Vec<Vec<char>> = ["b", "a", "ab", "", "B", "é"].iter().map(|s| s.chars().collect()).collect();
    let sorted: Vec<String> = sort_texts(v).into_iter().map(|c| c.into_iter().collect()).collect();
    let mut expect: Vec<String> = ["b", "a", "ab", "", "B", "é"].iter().map(|s| s.to_string()).collect();
    expect.sort();
    assert_eq!(sorted, expect);
}

#[test]
fn inbox_check_is_by_component() {
    assert!(path_starts_with_exec("/tmp/inbox/a.txt", "/tmp/inbox"));
    assert!(path_starts_with_exec("/tmp//inbox/./a", "/tmp/inbox/"));
    assert!(!path_starts_with_exec("/tmp/inboxx/a", "/tmp/inbox"));
    assert!(!path_starts_with_exec("tmp/inbox/a", "/tmp/inbox"));
    assert!(path_starts_with_exec("./a/b", "./a"));
    assert!(!path_starts_with_exec("a/b", "./a"));
}

#[test]
fn snapshot_descriptions() {
    assert_eq!(snap_desc(&LocalSnap::Empty), "empty");
    assert_eq!(snap_desc(&LocalSnap::Text("héllo".into())), "text 6 bytes");
    assert_eq!(
        snap_desc(&LocalSnap::Image { width: 3, height: 2, rgba: vec![0; 24] }),
        "image 3x2 (24 bytes)"
    );
    assert_eq!(snap_desc(&LocalSnap::Files(vec!["/a".into(), "/b".into()])), "files 2 items");
}

#[test]
fn names_and_extensions() {
    assert_eq!(item_name_exec("/home/u/shot.png"), "shot.png");
    assert_eq!(item_name_exec("/home/u/dir/"), "dir");
    assert_eq!(item_name_exec("/"), "item");
    assert_eq!(item_name_exec("/a/.."), "item");
    assert!(image_ext_ok("/x/shot.PNG"));
    assert!(image_ext_ok("/x/a.tar.jpeg"));
    assert!(!image_ext_ok("/x/.png"));
    assert!(!image_ext_ok("/x/readme.txt"));
    assert!(!image_ext_ok("/x/png"));
}

#[test]
fn snapshots_become_payloads() {
    assert!(snap_to_out(LocalSnap::Empty, Vec::new(), true).is_none());
    match snap_to_out(LocalSnap::Text("hi".into()), Vec::new(), true) {
        Some(ClipOut::Text(t)) => assert_eq!(t, "hi"),
        _ => panic!("text payload expected"),
    }
    let big = "x".repeat(2 * 1024 * 1024 + 1);
    assert!(snap_to_out(LocalSnap::Text(big), Vec::new(), true).is_none());
    let img = LocalSnap::Image { width: 1, height: 1, rgba: vec![1, 2, 3, 4] };
    match snap_to_out(img, Vec::new(), true) {
        Some(ClipOut::Png(p)) => assert_eq!(png_to_rgba(&p).unwrap(), (1, 1, vec![1, 2, 3, 4])),
        _ => panic!("png payload expected"),
    }
    let files = vec![("a".to_string(), "/x/a".to_string())];
    assert!(snap_to_out(LocalSnap::Files(vec!["/x/a".into()]), files.clone(), false).is_none());
    assert!(snap_to_out(LocalSnap::Files(vec!["/x/a".into()]), Vec::new(), true).is_none());
    match snap_to_out(LocalSnap::Files(vec!["/x/a".into()]), files, true) {
        Some(ClipOut::Files(f)) => assert_eq!(f, vec![("a".to_string(), "/x/a".to_string())]),
        _ => panic!("files payload expected"),
    }
}

#[test]
fn image_bytes_become_snapshots() {
    let png = rgba_to_png(2, 2, &[9u8; 16]).unwrap();
    match image_snap_from_bytes(&png) {
        Some(LocalSnap::Image { width, height, rgba }) => {
            assert_eq!((width, height), (2, 2));
            assert_eq!(rgba, vec![9u8; 16]);
        }
        _ => panic!("image expected"),
    }
    assert!(image_snap_from_bytes(&[]).is_none());
    assert!(image_snap_from_bytes(b"not an image").is_none());
    assert!(png_to_rgba(b"not an image").is_err());
}

#[test]
fn send_claims_and_retries() {
    let mut last = String::from("old");
    assert_eq!(nexuskvm::clip::claim_send(&None, &mut last, "", 0), None);
    assert_eq!(nexuskvm::clip::claim_send(&None, &mut last, "old", 0), None);
    assert_eq!(nexuskvm::clip::claim_send(&None, &mut last, "new", 0), Some("old".to_string()));
    assert_eq!(last, "new");
    nexuskvm::clip::release_claim(&mut last, "new", "old".to_string());
    assert_eq!(last, "old");
    nexuskvm::clip::release_claim(&mut last, "other", "x".to_string());
    assert_eq!(last, "old");
    let g = nexuskvm::clip::gate_after_send(&None, "new", 10, true).unwrap();
    assert_eq!((g.fails, g.next_try), (1, 10 + 2_000_000_000));
    let gate = Some(g);
    assert_eq!(nexuskvm::clip::claim_send(&gate, &mut last, "new", 11), None);
    assert_eq!(nexuskvm::clip::claim_send(&gate, &mut last, "new", 2_000_000_010), Some("old".to_string()));
    let g2 = nexuskvm::clip::gate_after_send(&gate, "new", 20, true).unwrap();
    assert_eq!((g2.fails, g2.next_try), (2, 20 + 4_000_000_000));
    assert!(nexuskvm::clip::gate_after_send(&Some(g2), "new", 30, false).is_none());
}

#[test]
fn non_ascii_path_survives_uri() {
    let u = path_to_uri("/tmp/café shot.png");
    assert!(u.starts_with("file://"));
    assert_eq!(nexuskvm::clip::percent_decode(&u[7..]), "/tmp/café shot.png");
}
