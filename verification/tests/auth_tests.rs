use hmac::{Hmac, Mac};
use nexuskvm::auth::{
    derive_aead_key, mac_hex, mac_verify, now_unix, open, open_at, open_chunk, seal, seal_chunk,
    seal_chunk_with_nonce, seal_with_nonce, secret_ok, token_eq, AeadEnvelope, ReplayGuard,
};

#[test]
fn hmac_roundtrip() {
    let m = mac_hex("pw", "switch_local");
    assert!(mac_verify("pw", "switch_local", &m));
    assert!(!mac_verify("pw", "switch_local", "00"));
    assert!(!mac_verify("other", "switch_local", &m));
}

#[test]
fn aead_roundtrip_and_replay() {
    let env = seal("secret", b"hello", now_unix()).unwrap();
    assert_eq!(open("secret", &env).unwrap(), b"hello");
    assert!(open("wrong", &env).is_err());
    let mut g = ReplayGuard::default();
    g.check(&env).unwrap();
    assert!(g.check(&env).is_err());
}

#[test]
fn empty_secret_rejected() {
    assert!(derive_aead_key("").is_err());
    assert!(seal("", b"x", now_unix()).is_err());
}

#[test]
fn token_constant_time() {
    assert!(token_eq("abc", Some("abc")));
    assert!(!token_eq("abc", Some("abd")));
    assert!(!token_eq("abc", None));
    assert!(!token_eq("abc", Some("ab")));
}

#[test]
fn secret_ok_needs_text() {
    assert!(secret_ok("x"));
    assert!(!secret_ok(""));
}

#[test]
fn derived_key_is_fixed_per_secret() {
    let a = derive_aead_key("secret").unwrap();
    let b = derive_aead_key("secret").unwrap();
    let c = derive_aead_key("other").unwrap();
    assert_eq!(a, b);
    assert_ne!(a, c);
    assert_eq!(derive_aead_key("").unwrap_err(), "empty peer secret");
}

#[test]
fn sealed_envelope_fields() {
    let nonce = [7u8; 12];
    let env = seal_with_nonce("secret", b"hello", 1000, &nonce).unwrap();
    assert_eq!(env.t, 1000);
    assert_eq!(env.n, "070707070707070707070707");
    // ciphertext is hex of plaintext plus the 16-byte tag
    assert_eq!(env.c.len(), 2 * (5 + 16));
    assert_ne!(env.c, hex_of(b"hello"));
    assert_eq!(open_at("secret", &env, 1000).unwrap(), b"hello");
    assert_eq!(open_at("secret", &env, 1090).unwrap(), b"hello");
}

fn hex_of(b: &[u8]) -> String {
    b.iter().map(|x| format!("{:02x}", x)).collect()
}

#[test]
fn open_errors_come_in_order() {
    let nonce = [1u8; 12];
    let env = seal_with_nonce("secret", b"data", 500, &nonce).unwrap();
    assert_eq!(open_at("secret", &env, 591).unwrap_err(), "expired peer control message");
    assert_eq!(open_at("secret", &env, 409).unwrap_err(), "expired peer control message");
    let bad_nonce = AeadEnvelope { n: "zz".into(), t: 500, c: env.c.clone() };
    assert_eq!(open_at("secret", &bad_nonce, 500).unwrap_err(), "bad nonce");
    let short_nonce = AeadEnvelope { n: "0102".into(), t: 500, c: env.c.clone() };
    assert_eq!(open_at("secret", &short_nonce, 500).unwrap_err(), "bad nonce length");
    let bad_ct = AeadEnvelope { n: env.n.clone(), t: 500, c: "xyz".into() };
    assert_eq!(open_at("secret", &bad_ct, 500).unwrap_err(), "bad ciphertext");
    assert_eq!(open_at("", &env, 500).unwrap_err(), "empty peer secret");
    assert_eq!(open_at("other", &env, 500).unwrap_err(), "aead decrypt");
    let moved = AeadEnvelope { n: env.n.clone(), t: 501, c: env.c.clone() };
    assert_eq!(open_at("secret", &moved, 501).unwrap_err(), "aead decrypt");
}

#[test]
fn chunk_roundtrip_and_errors() {
    let frame = seal_chunk("secret", b"clipboard bytes").unwrap();
    assert_eq!(frame.len(), 12 + 15 + 16);
    assert_eq!(open_chunk("secret", &frame).unwrap(), b"clipboard bytes");
    assert_eq!(open_chunk("secret", &frame[..27]).unwrap_err(), "clip frame too small");
    assert_eq!(open_chunk("", &frame).unwrap_err(), "empty peer secret");
    assert_eq!(open_chunk("other", &frame).unwrap_err(), "aead decrypt");
    let fixed = seal_chunk_with_nonce("secret", b"", &[9u8; 12]).unwrap();
    assert_eq!(&fixed[..12], &[9u8; 12]);
    assert_eq!(open_chunk("secret", &fixed).unwrap(), b"");
    assert_eq!(seal_chunk("", b"x").unwrap_err(), "empty peer secret");
}

#[test]
fn replay_guard_errors() {
    let mut g = ReplayGuard::new();
    let bad = AeadEnvelope { n: "q".into(), t: 0, c: String::new() };
    assert_eq!(g.check(&bad).unwrap_err(), "bad nonce");
    let short = AeadEnvelope { n: "00".into(), t: 0, c: String::new() };
    assert_eq!(g.check(&short).unwrap_err(), "bad nonce length");
    let a = AeadEnvelope { n: "000000000000000000000001".into(), t: 0, c: String::new() };
    let b = AeadEnvelope { n: "000000000000000000000002".into(), t: 0, c: String::new() };
    assert!(g.check(&a).is_ok());
    assert!(g.check(&b).is_ok());
    assert_eq!(g.check(&a).unwrap_err(), "replayed peer control message");
    let upper = AeadEnvelope { n: "00000000000000000000000A".into(), t: 0, c: String::new() };
    let lower = AeadEnvelope { n: "00000000000000000000000a".into(), t: 0, c: String::new() };
    assert!(g.check(&upper).is_ok());
    assert!(g.check(&lower).is_err());
}

#[test]
fn replay_guard_forgets_oldest_past_cap() {
    let mut g = ReplayGuard::new();
    let first = AeadEnvelope { n: format!("{:024x}", 0), t: 0, c: String::new() };
    g.check(&first).unwrap();
    for i in 1..8192u32 {
        let e = AeadEnvelope { n: format!("{:024x}", i), t: 0, c: String::new() };
        g.check(&e).unwrap();
    }
    assert!(g.check(&first).is_err());
    let next = AeadEnvelope { n: format!("{:024x}", 8192), t: 0, c: String::new() };
    g.check(&next).unwrap();
    assert!(g.check(&first).is_ok());
}

#[test]
fn aead_key_is_hkdf_of_secret() {
    type H = Hmac<sha2::Sha256>;
    let mut ext = <H as Mac>::new_from_slice(b"nexuskvm-peer-v1").unwrap();
    ext.update(b"pw");
    let prk = ext.finalize().into_bytes();
    let mut exp = <H as Mac>::new_from_slice(&prk).unwrap();
    exp.update(b"aead\x01");
    let okm = exp.finalize().into_bytes();
    assert_eq!(derive_aead_key("pw").unwrap().to_vec(), okm.to_vec());
}
