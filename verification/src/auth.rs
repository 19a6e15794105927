//! Peer authentication: the shared secret, sealed control envelopes,
//! sealed clipboard chunks, replay protection, MACs and token checks.

use vstd::prelude::*;
use vstd::string::StringSliceAdditionalSpecFns;
use std::collections::{HashSet, VecDeque};
use chacha20poly1305::aead::{Aead, KeyInit, Payload};
use chacha20poly1305::{ChaCha20Poly1305, Key, Nonce};
use hkdf::Hkdf;
use hmac::{Hmac, Mac};
use rand::RngCore;
use sha2::Sha256;
use subtle::ConstantTimeEq;
use crate::hexcodec::{hex_encoding, hex_decodable, hex_decoding, lemma_hex_roundtrip, hex_encode, hex_decode};

verus! {

broadcast use {vstd::std_specs::hash::group_hash_axioms, vstd::seq_lib::group_seq_properties};

/// Length of an AEAD nonce in bytes.
pub const AEAD_NONCE_LEN: usize = 12;
/// How far, in seconds, a control envelope's timestamp may lie from the receiver's clock.
pub const AEAD_TS_SKEW_SECS: u64 = 90;
/// How many accepted nonces a replay guard remembers.
pub const REPLAY_CAP: usize = 8192;

#[verifier::external_type_specification]
#[verifier::external_body]
pub struct ExAeadError(chacha20poly1305::Error);

#[verifier::external_type_specification]
#[verifier::external_body]
pub struct ExInvalidLength(hkdf::InvalidLength);

// ---------------------------------------------------------------------------
// Names for what the primitives compute.

/// HMAC-SHA256 of a message under a key.
pub uninterp spec fn hmac_sha256(key: Seq<u8>, msg: Seq<u8>) -> Seq<u8>;

/// The 32 output bytes of HKDF-SHA256: extract, then the first expansion block.
pub open spec fn hkdf_sha256_32(salt: Seq<u8>, ikm: Seq<u8>, info: Seq<u8>) -> Seq<u8> {
    hmac_sha256(hmac_sha256(salt, ikm), info.push(1u8))
}

/// The ChaCha20-Poly1305 ciphertext (with its tag appended) of a message.
pub uninterp spec fn chacha20poly1305_seal(
    key: Seq<u8>,
    nonce: Seq<u8>,
    aad: Seq<u8>,
    msg: Seq<u8>,
) -> Seq<u8>;

/// Whether ChaCha20-Poly1305 accepts a message of this length (fewer than 2^32 - 1 blocks).
pub open spec fn aead_msg_fits(len: int) -> bool {
    len / 64 < 0xffff_ffff
}

/// The plaintext that a ciphertext opens to.
pub open spec fn decrypts_to(key: Seq<u8>, nonce: Seq<u8>, aad: Seq<u8>, ct: Seq<u8>, m: Seq<u8>) -> bool {
    aead_msg_fits(m.len() as int) && chacha20poly1305_seal(key, nonce, aad, m) == ct
}

// ---------------------------------------------------------------------------
// Calls into the primitives.

/// `Hkdf::<Sha256>::new(Some(salt), ikm)` followed by `expand(info, ..)` into 32 bytes.
/// The crate refuses only outputs longer than 255 hash lengths, so 32 bytes always come out:
/// the pseudorandom key is the HMAC of `ikm` under `salt`, and the output is its first
/// expansion block, the HMAC of `info` followed by the byte 1 under that key.
#[verifier::external_body]
fn hkdf_sha256_expand32(salt: &[u8], ikm: &[u8], info: &[u8]) -> (r: Result<[u8; 32], hkdf::InvalidLength>)
    ensures
        r is Ok,
        r is Ok ==> r->Ok_0@ == hkdf_sha256_32(salt@, ikm@, info@),
{
    let hk = Hkdf::<Sha256>::new(Some(salt), ikm);
    let mut okm = [0u8; 32];
    match hk.expand(info, &mut okm) {
        Ok(()) => Ok(okm),
        Err(e) => Err(e),
    }
}

/// `Hmac::<Sha256>::new_from_slice(key)`, `update(msg)`, `finalize()`: the 32-byte tag.
/// HMAC takes keys of any length, so the key is never refused.
#[verifier::external_body]
fn hmac_sha256_tag(key: &[u8], msg: &[u8]) -> (tag: Vec<u8>)
    ensures
        tag@ == hmac_sha256(key@, msg@),
        tag@.len() == 32,
{
    let mut mac = <Hmac<Sha256> as Mac>::new_from_slice(key).expect("hmac");
    mac.update(msg);
    mac.finalize().into_bytes().to_vec()
}

/// `Hmac::<Sha256>` over `msg`, then `verify_slice(tag)`: accepts exactly the tag that
/// finalizing the same MAC gives (a tag of another length is refused).
#[verifier::external_body]
fn hmac_sha256_verify(key: &[u8], msg: &[u8], tag: &[u8]) -> (ok: bool)
    ensures
        ok == (tag@ == hmac_sha256(key@, msg@)),
{
    let mut mac = <Hmac<Sha256> as Mac>::new_from_slice(key).expect("hmac");
    mac.update(msg);
    mac.verify_slice(tag).is_ok()
}

/// `subtle`'s constant-time slice comparison, read back with `unwrap_u8`.
#[verifier::external_body]
fn ct_eq_bytes(a: &[u8], b: &[u8]) -> (eq: bool)
    ensures
        eq == (a@ == b@),
{
    a.ct_eq(b).unwrap_u8() == 1
}

/// `ChaCha20Poly1305::new(key).encrypt(nonce, Payload { msg, aad })`: the ciphertext with
/// its 16-byte tag appended; refused only for messages of 2^32 - 1 blocks or more.
#[verifier::external_body]
fn chacha_encrypt(key: &[u8], nonce: &[u8], aad: &[u8], msg: &[u8]) -> (r: Result<Vec<u8>, chacha20poly1305::Error>)
    requires
        key@.len() == 32,
        nonce@.len() == 12,
    ensures
        r is Ok <==> aead_msg_fits(msg@.len() as int),
        r is Ok ==> r->Ok_0@ == chacha20poly1305_seal(key@, nonce@, aad@, msg@),
        r is Ok ==> r->Ok_0@.len() == msg@.len() + 16,
{
    let cipher = ChaCha20Poly1305::new(Key::from_slice(key));
    cipher.encrypt(Nonce::from_slice(nonce), Payload { msg, aad })
}

/// `ChaCha20Poly1305::new(key).decrypt(nonce, Payload { msg: ct, aad })`: succeeds exactly when
/// the tag checks, and then gives the message whose encryption is `ct`.
#[verifier::external_body]
fn chacha_decrypt(key: &[u8], nonce: &[u8], aad: &[u8], ct: &[u8]) -> (r: Result<Vec<u8>, chacha20poly1305::Error>)
    requires
        key@.len() == 32,
        nonce@.len() == 12,
    ensures
        r is Ok ==> decrypts_to(key@, nonce@, aad@, ct@, r->Ok_0@),
        forall|m: Seq<u8>| #[trigger] decrypts_to(key@, nonce@, aad@, ct@, m) ==> (r is Ok && r->Ok_0@ == m),
{
    let cipher = ChaCha20Poly1305::new(Key::from_slice(key));
    cipher.decrypt(Nonce::from_slice(nonce), Payload { msg: ct, aad })
}

/// Twelve bytes from the operating system's random source (`OsRng::fill_bytes`).
/// The bytes are whatever the source gave; the crate panics only when the source fails.
#[verifier::external_body]
fn random_nonce() -> (n: [u8; 12])
{
    let mut n = [0u8; 12];
    rand::rngs::OsRng.fill_bytes(&mut n);
    n
}

/// `UNIX_EPOCH.elapsed()` in whole seconds: how far the system clock reads past the
/// Unix epoch, `None` when it reads earlier. The reading is whatever the clock says.
#[verifier::external_body]
fn clock_secs_since_epoch() -> (r: Option<u64>)
{
    match std::time::UNIX_EPOCH.elapsed() {
        Ok(d) => Some(d.as_secs()),
        Err(_) => None,
    }
}

/// Seconds since the Unix epoch by the system clock, or 0 when the clock reads earlier.
pub fn now_unix() -> u64 {
    match clock_secs_since_epoch() {
        Some(s) => s,
        None => 0,
    }
}

// ---------------------------------------------------------------------------
// Keys and byte layouts.

/// Salt of the key derivation.
pub open spec fn peer_salt() -> Seq<u8> {
    "nexuskvm-peer-v1".spec_bytes()
}

/// Info string of the key derivation.
pub open spec fn aead_info() -> Seq<u8> {
    "aead".spec_bytes()
}

/// Associated data of a sealed clipboard chunk.
pub open spec fn clip_aad() -> Seq<u8> {
    "clip".spec_bytes()
}

/// The AEAD key that a shared secret (as UTF-8 bytes) stands for.
pub open spec fn peer_key(secret: Seq<u8>) -> Seq<u8> {
    hkdf_sha256_32(peer_salt(), secret, aead_info())
}

/// The `n` low-order bytes of `v`, least significant first.
pub open spec fn le_bytes(v: nat, n: nat) -> Seq<u8>
    decreases n,
{
    if n == 0 {
        Seq::empty()
    } else {
        seq![(v % 256) as u8] + le_bytes(v / 256, (n - 1) as nat)
    }
}

/// Associated data of a control envelope: its timestamp, little-endian.
pub open spec fn ts_aad(t: u64) -> Seq<u8> {
    le_bytes(t as nat, 8)
}

/// UTF-8 bytes of text.
pub open spec fn utf8(s: Seq<char>) -> Seq<u8> {
    vstd::utf8::encode_utf8(s)
}

fn u64_le_bytes(t: u64) -> (out: Vec<u8>)
    ensures
        out@ == ts_aad(t),
{
    let mut out: Vec<u8> = Vec::new();
    let mut x: u64 = t;
    let mut i: usize = 0;
    while i < 8
        invariant
            i <= 8,
            out@ + le_bytes(x as nat, (8 - i) as nat) == le_bytes(t as nat, 8),
        decreases 8 - i,
    {
        proof {
            let rest = le_bytes(x as nat, (8 - i) as nat);
            assert(rest == seq![(x % 256) as u8] + le_bytes((x / 256) as nat, (8 - i - 1) as nat));
            assert(out@.push((x % 256) as u8) + le_bytes((x / 256) as nat, (8 - i - 1) as nat)
                =~= out@ + rest);
        }
        out.push((x % 256) as u8);
        x = x / 256;
        i = i + 1;
    }
    assert(le_bytes(x as nat, 0) =~= Seq::<u8>::empty());
    assert(out@ + Seq::<u8>::empty() =~= out@);
    out
}

/// Whether a shared secret is usable: it must not be empty.
pub fn secret_ok(secret: &str) -> (r: bool)
    ensures
        r == (secret@.len() > 0),
{
    !secret.is_empty()
}

/// The AEAD key of a shared secret; an empty secret is refused.
pub fn derive_aead_key(secret: &str) -> (r: Result<[u8; 32], String>)
    ensures
        r is Err <==> secret@.len() == 0,
        r is Err ==> r->Err_0@ == "empty peer secret"@,
        r is Ok ==> r->Ok_0@ == peer_key(secret.spec_bytes()),
{
    if secret.is_empty() {
        return Err("empty peer secret".to_owned());
    }
    match hkdf_sha256_expand32("nexuskvm-peer-v1".as_bytes(), secret.as_bytes(), "aead".as_bytes()) {
        Ok(key) => Ok(key),
        Err(_) => Err("hkdf expand".to_owned()),
    }
}

/// Encrypts or decrypts `msg` under the key of `secret`.
fn aead_crypt(secret: &str, nonce: &[u8], aad: &[u8], msg: &[u8], encrypt: bool) -> (r: Result<Vec<u8>, String>)
    requires
        nonce@.len() == AEAD_NONCE_LEN,
    ensures
        secret@.len() == 0 ==> (r is Err && r->Err_0@ == "empty peer secret"@),
        secret@.len() > 0 && encrypt ==> {
            &&& r is Ok <==> aead_msg_fits(msg@.len() as int)
            &&& r is Ok ==> r->Ok_0@ == chacha20poly1305_seal(peer_key(secret.spec_bytes()), nonce@, aad@, msg@)
            &&& r is Ok ==> r->Ok_0@.len() == msg@.len() + 16
            &&& r is Err ==> r->Err_0@ == "aead encrypt"@
        },
        secret@.len() > 0 && !encrypt ==> {
            &&& r is Ok ==> decrypts_to(peer_key(secret.spec_bytes()), nonce@, aad@, msg@, r->Ok_0@)
            &&& r is Err ==> r->Err_0@ == "aead decrypt"@
        },
        secret@.len() > 0 && !encrypt ==> forall|m: Seq<u8>|
            #[trigger] decrypts_to(peer_key(secret.spec_bytes()), nonce@, aad@, msg@, m)
                ==> (r is Ok && r->Ok_0@ == m),
{
    let key = match derive_aead_key(secret) {
        Ok(k) => k,
        Err(e) => return Err(e),
    };
    let ks = key.as_slice();
    if encrypt {
        match chacha_encrypt(ks, nonce, aad, msg) {
            Ok(ct) => Ok(ct),
            Err(_) => Err("aead encrypt".to_owned()),
        }
    } else {
        match chacha_decrypt(ks, nonce, aad, msg) {
            Ok(pt) => Ok(pt),
            Err(_) => Err("aead decrypt".to_owned()),
        }
    }
}

// ---------------------------------------------------------------------------
// Control envelopes.

/// A sealed control message: hex nonce, timestamp, hex ciphertext.
#[derive(Debug, Clone)]
pub struct AeadEnvelope {
    pub n: String,
    pub t: u64,
    pub c: String,
}

/// `env` is the envelope that sealing `pt` at time `ts` with `nonce` under `secret` gives.
pub open spec fn sealed_envelope(env: AeadEnvelope, secret: Seq<u8>, nonce: Seq<u8>, ts: u64, pt: Seq<u8>) -> bool {
    &&& env.t == ts
    &&& env.n@ == hex_encoding(nonce)
    &&& env.c@ == hex_encoding(chacha20poly1305_seal(peer_key(secret), nonce, ts_aad(ts), pt))
}

/// Seals `plaintext` at time `ts` under `secret`, with the given nonce.
pub fn seal_with_nonce(secret: &str, plaintext: &[u8], ts: u64, nonce: &[u8; 12]) -> (r: Result<AeadEnvelope, String>)
    ensures
        secret@.len() == 0 ==> (r is Err && r->Err_0@ == "empty peer secret"@),
        secret@.len() > 0 ==> (r is Ok <==> aead_msg_fits(plaintext@.len() as int)),
        secret@.len() > 0 && r is Err ==> r->Err_0@ == "aead encrypt"@,
        r is Ok ==> sealed_envelope(r->Ok_0, secret.spec_bytes(), nonce@, ts, plaintext@),
{
    let aad = u64_le_bytes(ts);
    let ct = aead_crypt(secret, nonce.as_slice(), aad.as_slice(), plaintext, true)?;
    Ok(AeadEnvelope { n: hex_encode(nonce.as_slice()), t: ts, c: hex_encode(ct.as_slice()) })
}

/// Seals `plaintext` at time `ts` under `secret`, with a fresh random nonce.
pub fn seal(secret: &str, plaintext: &[u8], ts: u64) -> (r: Result<AeadEnvelope, String>)
    ensures
        secret@.len() == 0 ==> (r is Err && r->Err_0@ == "empty peer secret"@),
        secret@.len() > 0 ==> (r is Ok <==> aead_msg_fits(plaintext@.len() as int)),
        secret@.len() > 0 && r is Err ==> r->Err_0@ == "aead encrypt"@,
        r is Ok ==> exists|nonce: Seq<u8>|
            nonce.len() == AEAD_NONCE_LEN && #[trigger] sealed_envelope(r->Ok_0, secret.spec_bytes(), nonce, ts, plaintext@),
{
    let nonce = random_nonce();
    let r = seal_with_nonce(secret, plaintext, ts, &nonce);
    proof {
        if r is Ok {
            assert(sealed_envelope(r->Ok_0, secret.spec_bytes(), nonce@, ts, plaintext@));
        }
    }
    r
}

/// Distance between two timestamps.
pub open spec fn ts_distance(a: u64, b: u64) -> int {
    if a >= b { a - b } else { b - a }
}

/// Every check of `open_at` passes on `env`, and its ciphertext opens to `m`.
pub open spec fn envelope_opens_to(secret: Seq<u8>, env: AeadEnvelope, now: u64, m: Seq<u8>) -> bool {
    &&& ts_distance(env.t, now) <= AEAD_TS_SKEW_SECS
    &&& hex_decodable(utf8(env.n@))
    &&& hex_decoding(utf8(env.n@)).len() == AEAD_NONCE_LEN
    &&& hex_decodable(utf8(env.c@))
    &&& secret.len() > 0
    &&& decrypts_to(peer_key(secret), hex_decoding(utf8(env.n@)), ts_aad(env.t), hex_decoding(utf8(env.c@)), m)
}

fn decode_nonce(hex_n: &str) -> (r: Result<Vec<u8>, String>)
    ensures
        !hex_decodable(hex_n.spec_bytes()) ==> (r is Err && r->Err_0@ == "bad nonce"@),
        hex_decodable(hex_n.spec_bytes()) && hex_decoding(hex_n.spec_bytes()).len() != AEAD_NONCE_LEN
            ==> (r is Err && r->Err_0@ == "bad nonce length"@),
        hex_decodable(hex_n.spec_bytes()) && hex_decoding(hex_n.spec_bytes()).len() == AEAD_NONCE_LEN
            ==> (r is Ok && r->Ok_0@ == hex_decoding(hex_n.spec_bytes())),
{
    let raw = match hex_decode(hex_n.as_bytes()) {
        Ok(v) => v,
        Err(_) => return Err("bad nonce".to_owned()),
    };
    if raw.len() != AEAD_NONCE_LEN {
        return Err("bad nonce length".to_owned());
    }
    Ok(raw)
}

/// The check of `open_at` that refuses `env` before decryption, with its message, or
/// `None` when the envelope passes them all.
pub open spec fn envelope_check_error(secret: Seq<u8>, env: AeadEnvelope, now: u64) -> Option<Seq<char>> {
    if ts_distance(env.t, now) > AEAD_TS_SKEW_SECS {
        Some("expired peer control message"@)
    } else if !hex_decodable(utf8(env.n@)) {
        Some("bad nonce"@)
    } else if hex_decoding(utf8(env.n@)).len() != AEAD_NONCE_LEN {
        Some("bad nonce length"@)
    } else if !hex_decodable(utf8(env.c@)) {
        Some("bad ciphertext"@)
    } else if secret.len() == 0 {
        Some("empty peer secret"@)
    } else {
        None
    }
}

/// Opens a control envelope against the clock reading `now`.
pub fn open_at(secret: &str, env: &AeadEnvelope, now: u64) -> (r: Result<Vec<u8>, String>)
    ensures
        envelope_check_error(secret.spec_bytes(), *env, now) matches Some(e)
            ==> (r is Err && r->Err_0@ == e),
        envelope_check_error(secret.spec_bytes(), *env, now) is None && r is Err
            ==> r->Err_0@ == "aead decrypt"@,
        r is Ok ==> envelope_opens_to(secret.spec_bytes(), *env, now, r->Ok_0@),
        forall|m: Seq<u8>| #[trigger] envelope_opens_to(secret.spec_bytes(), *env, now, m)
            ==> (r is Ok && r->Ok_0@ == m),
{
    let dist: u64 = if env.t >= now { env.t - now } else { now - env.t };
    if dist > AEAD_TS_SKEW_SECS {
        return Err("expired peer control message".to_owned());
    }
    let nonce = decode_nonce(env.n.as_str())?;
    let ct = match hex_decode(env.c.as_str().as_bytes()) {
        Ok(v) => v,
        Err(_) => return Err("bad ciphertext".to_owned()),
    };
    let aad = u64_le_bytes(env.t);
    aead_crypt(secret, nonce.as_slice(), aad.as_slice(), ct.as_slice(), false)
}

/// What `open_at` returns on `env` against the clock reading `now`, as its contract says.
pub open spec fn opened_at(secret: Seq<u8>, env: AeadEnvelope, now: u64, r: Result<Vec<u8>, String>) -> bool {
    &&& (envelope_check_error(secret, env, now) matches Some(e) ==> (r is Err && r->Err_0@ == e))
    &&& (envelope_check_error(secret, env, now) is None && r is Err ==> r->Err_0@ == "aead decrypt"@)
    &&& (r is Ok ==> envelope_opens_to(secret, env, now, r->Ok_0@))
    &&& forall|m: Seq<u8>| #[trigger] envelope_opens_to(secret, env, now, m) ==> (r is Ok && r->Ok_0@ == m)
}

/// Opens a control envelope against the system clock: the outcome is that of `open_at`
/// at the clock reading taken.
pub fn open(secret: &str, env: &AeadEnvelope) -> (r: Result<Vec<u8>, String>)
    ensures
        exists|now: u64| #[trigger] opened_at(secret.spec_bytes(), *env, now, r),
{
    let now = now_unix();
    let r = open_at(secret, env, now);
    assert(opened_at(secret.spec_bytes(), *env, now, r));
    r
}

/// An envelope sealed under a non-empty secret passes every check of `open_at`
/// while the clock stays within the skew window, and opens to the sealed plaintext.
pub proof fn law_sealed_envelope_opens(
    secret: Seq<u8>,
    nonce: Seq<u8>,
    ts: u64,
    now: u64,
    pt: Seq<u8>,
    env: AeadEnvelope,
)
    requires
        secret.len() > 0,
        nonce.len() == AEAD_NONCE_LEN,
        aead_msg_fits(pt.len() as int),
        ts_distance(ts, now) <= AEAD_TS_SKEW_SECS,
        sealed_envelope(env, secret, nonce, ts, pt),
    ensures
        envelope_opens_to(secret, env, now, pt),
{
    lemma_hex_roundtrip(nonce);
    lemma_hex_roundtrip(chacha20poly1305_seal(peer_key(secret), nonce, ts_aad(ts), pt));
}

// ---------------------------------------------------------------------------
// Clipboard chunks: nonce, then ciphertext with its tag.

/// `frame` is the chunk that sealing `pt` with `nonce` under `secret` gives.
pub open spec fn sealed_chunk(frame: Seq<u8>, secret: Seq<u8>, nonce: Seq<u8>, pt: Seq<u8>) -> bool {
    &&& frame == nonce + chacha20poly1305_seal(peer_key(secret), nonce, clip_aad(), pt)
    &&& frame.len() == AEAD_NONCE_LEN + pt.len() + 16
}

/// Every check of `open_chunk` passes on `frame`, and it opens to `m`.
pub open spec fn chunk_opens_to(secret: Seq<u8>, frame: Seq<u8>, m: Seq<u8>) -> bool {
    &&& frame.len() >= AEAD_NONCE_LEN + 16
    &&& secret.len() > 0
    &&& decrypts_to(
        peer_key(secret),
        frame.subrange(0, AEAD_NONCE_LEN as int),
        clip_aad(),
        frame.subrange(AEAD_NONCE_LEN as int, frame.len() as int),
        m,
    )
}

/// Seals one clipboard chunk under `secret`, with the given nonce.
pub fn seal_chunk_with_nonce(secret: &str, plaintext: &[u8], nonce: &[u8; 12]) -> (r: Result<Vec<u8>, String>)
    ensures
        secret@.len() == 0 ==> (r is Err && r->Err_0@ == "empty peer secret"@),
        secret@.len() > 0 ==> (r is Ok <==> aead_msg_fits(plaintext@.len() as int)),
        secret@.len() > 0 && r is Err ==> r->Err_0@ == "aead encrypt"@,
        r is Ok ==> sealed_chunk(r->Ok_0@, secret.spec_bytes(), nonce@, plaintext@),
{
    let ct = aead_crypt(secret, nonce.as_slice(), "clip".as_bytes(), plaintext, true)?;
    let mut out: Vec<u8> = Vec::new();
    let mut i: usize = 0;
    while i < AEAD_NONCE_LEN
        invariant
            i <= AEAD_NONCE_LEN,
            nonce@.len() == AEAD_NONCE_LEN,
            out@ == nonce@.subrange(0, i as int),
        decreases AEAD_NONCE_LEN - i,
    {
        out.push(nonce[i]);
        i = i + 1;
    }
    let mut j: usize = 0;
    while j < ct.len()
        invariant
            j <= ct@.len(),
            out@ == nonce@ + ct@.subrange(0, j as int),
        decreases ct@.len() - j,
    {
        out.push(ct[j]);
        j = j + 1;
        assert(out@ =~= nonce@ + ct@.subrange(0, j as int));
    }
    assert(ct@.subrange(0, ct@.len() as int) =~= ct@);
    Ok(out)
}

/// Seals one clipboard chunk under `secret`, with a fresh random nonce.
pub fn seal_chunk(secret: &str, plaintext: &[u8]) -> (r: Result<Vec<u8>, String>)
    ensures
        secret@.len() == 0 ==> (r is Err && r->Err_0@ == "empty peer secret"@),
        secret@.len() > 0 ==> (r is Ok <==> aead_msg_fits(plaintext@.len() as int)),
        secret@.len() > 0 && r is Err ==> r->Err_0@ == "aead encrypt"@,
        r is Ok ==> exists|nonce: Seq<u8>|
            nonce.len() == AEAD_NONCE_LEN && #[trigger] sealed_chunk(r->Ok_0@, secret.spec_bytes(), nonce, plaintext@),
{
    let nonce = random_nonce();
    let r = seal_chunk_with_nonce(secret, plaintext, &nonce);
    proof {
        if r is Ok {
            assert(sealed_chunk(r->Ok_0@, secret.spec_bytes(), nonce@, plaintext@));
        }
    }
    r
}

/// Opens one sealed clipboard chunk.
pub fn open_chunk(secret: &str, frame: &[u8]) -> (r: Result<Vec<u8>, String>)
    ensures
        frame@.len() < AEAD_NONCE_LEN + 16 ==> (r is Err && r->Err_0@ == "clip frame too small"@),
        frame@.len() >= AEAD_NONCE_LEN + 16 && secret@.len() == 0
            ==> (r is Err && r->Err_0@ == "empty peer secret"@),
        frame@.len() >= AEAD_NONCE_LEN + 16 && secret@.len() > 0 && r is Err
            ==> r->Err_0@ == "aead decrypt"@,
        r is Ok ==> chunk_opens_to(secret.spec_bytes(), frame@, r->Ok_0@),
        forall|m: Seq<u8>| #[trigger] chunk_opens_to(secret.spec_bytes(), frame@, m)
            ==> (r is Ok && r->Ok_0@ == m),
{
    if frame.len() < AEAD_NONCE_LEN + 16 {
        return Err("clip frame too small".to_owned());
    }
    let (nonce, ct) = frame.split_at(AEAD_NONCE_LEN);
    aead_crypt(secret, nonce, "clip".as_bytes(), ct, false)
}

/// A chunk sealed under a non-empty secret opens to the sealed plaintext.
pub proof fn law_sealed_chunk_opens(secret: Seq<u8>, nonce: Seq<u8>, pt: Seq<u8>, frame: Seq<u8>)
    requires
        secret.len() > 0,
        nonce.len() == AEAD_NONCE_LEN,
        aead_msg_fits(pt.len() as int),
        sealed_chunk(frame, secret, nonce, pt),
    ensures
        chunk_opens_to(secret, frame, pt),
{
    let ct = chacha20poly1305_seal(peer_key(secret), nonce, clip_aad(), pt);
    assert(frame.subrange(0, AEAD_NONCE_LEN as int) =~= nonce);
    assert(frame.subrange(AEAD_NONCE_LEN as int, frame.len() as int) =~= ct);
}

// ---------------------------------------------------------------------------
// Replay protection.

/// Value of a byte string read little-endian.
pub open spec fn le_value(s: Seq<u8>) -> nat
    decreases s.len(),
{
    if s.len() == 0 {
        0
    } else {
        (s[0] + 256 * le_value(s.drop_first())) as nat
    }
}

/// 256 to the power `n`.
pub open spec fn pow256(n: nat) -> nat
    decreases n,
{
    if n == 0 {
        1
    } else {
        256 * pow256((n - 1) as nat)
    }
}

proof fn lemma_le_value_bound(s: Seq<u8>)
    ensures
        le_value(s) < pow256(s.len()),
    decreases s.len(),
{
    if s.len() > 0 {
        let rest = s.drop_first();
        lemma_le_value_bound(rest);
        let v = le_value(rest);
        let p = pow256(rest.len());
        let b = s[0];
        assert(b + 256 * v < 256 * p) by (nonlinear_arith)
            requires
                v < p,
                b < 256,
        ;
    }
}

proof fn lemma_le_value_injective(a: Seq<u8>, b: Seq<u8>)
    requires
        a.len() == b.len(),
        le_value(a) == le_value(b),
    ensures
        a == b,
    decreases a.len(),
{
    if a.len() > 0 {
        let x = le_value(a.drop_first());
        let y = le_value(b.drop_first());
        let p = a[0];
        let q = b[0];
        assert(p == q && x == y) by (nonlinear_arith)
            requires
                p + 256 * x == q + 256 * y,
                0 <= p < 256,
                0 <= q < 256,
                x >= 0,
                y >= 0,
        ;
        lemma_le_value_injective(a.drop_first(), b.drop_first());
        assert forall|i: int| 0 <= i < a.len() implies a[i] == b[i] by {
            if i > 0 {
                assert(a[i] == a.drop_first()[i - 1]);
                assert(b[i] == b.drop_first()[i - 1]);
            }
        }
        assert(a =~= b);
    }
}

proof fn lemma_pow256_12()
    ensures
        pow256(12) == 0x1_0000_0000_0000_0000_0000_0000,
{
    reveal_with_fuel(pow256, 13);
}

proof fn lemma_pow256_mono(i: nat, j: nat)
    requires
        i <= j,
    ensures
        pow256(i) <= pow256(j),
    decreases j,
{
    if i < j {
        lemma_pow256_mono(i, (j - 1) as nat);
    }
}

/// The key under which a replay guard remembers a nonce: its bytes read little-endian.
pub open spec fn nonce_key(nonce: Seq<u8>) -> u128 {
    le_value(nonce) as u128
}

/// Two nonces of the protocol's length have the same key exactly when they are equal.
pub proof fn law_nonce_key_identifies_nonce(a: Seq<u8>, b: Seq<u8>)
    requires
        a.len() == AEAD_NONCE_LEN,
        b.len() == AEAD_NONCE_LEN,
    ensures
        (nonce_key(a) == nonce_key(b)) <==> (a == b),
{
    lemma_pow256_12();
    lemma_le_value_bound(a);
    lemma_le_value_bound(b);
    if nonce_key(a) == nonce_key(b) {
        lemma_le_value_injective(a, b);
    }
}

fn nonce_key_exec(nonce: &Vec<u8>) -> (k: u128)
    requires
        nonce@.len() == AEAD_NONCE_LEN,
    ensures
        k == nonce_key(nonce@),
{
    let n: usize = nonce.len();
    let mut acc: u128 = 0;
    let mut j: usize = n;
    proof {
        lemma_pow256_12();
        assert(nonce@.subrange(n as int, n as int) =~= Seq::<u8>::empty());
    }
    while j > 0
        invariant
            n == nonce@.len(),
            n == AEAD_NONCE_LEN,
            j <= n,
            pow256(12) == 0x1_0000_0000_0000_0000_0000_0000,
            acc as nat == le_value(nonce@.subrange(j as int, n as int)),
        decreases j,
    {
        let ghost tail = nonce@.subrange(j as int, n as int);
        let ghost longer = nonce@.subrange(j - 1, n as int);
        proof {
            assert(longer.drop_first() =~= tail);
            lemma_le_value_bound(tail);
            lemma_pow256_mono(tail.len() + 1, 12);
            let v = acc as nat;
            let p = pow256(tail.len());
            assert(v * 256 + 255 < 256 * p) by (nonlinear_arith)
                requires
                    v < p,
            ;
        }
        let b: u8 = nonce[j - 1];
        acc = acc * 256 + b as u128;
        j = j - 1;
        proof {
            assert(longer[0] == b);
        }
    }
    proof {
        assert(nonce@.subrange(0, n as int) =~= nonce@);
        lemma_le_value_bound(nonce@);
    }
    acc
}

/// What a replay guard remembers after accepting a nonce key: the key at the end, the
/// oldest one forgotten once the guard is full.
pub open spec fn remember(order: Seq<u128>, k: u128) -> Seq<u128> {
    if order.len() >= REPLAY_CAP {
        order.drop_first().push(k)
    } else {
        order.push(k)
    }
}

/// Whether a replay guard remembering `order` accepts `env`: its nonce is hex of the
/// protocol's length and its key is not remembered.
pub open spec fn replay_accepts(order: Seq<u128>, env: AeadEnvelope) -> bool {
    &&& hex_decodable(utf8(env.n@))
    &&& hex_decoding(utf8(env.n@)).len() == AEAD_NONCE_LEN
    &&& !order.contains(nonce_key(hex_decoding(utf8(env.n@))))
}

/// The key under which a replay guard remembers the nonce of `env`.
pub open spec fn envelope_key(env: AeadEnvelope) -> u128 {
    nonce_key(hex_decoding(utf8(env.n@)))
}

/// Remembers the nonces of accepted control envelopes, oldest first, up to a cap.
pub struct ReplayGuard {
    seen: HashSet<u128>,
    order: VecDeque<u128>,
}

impl View for ReplayGuard {
    type V = Seq<u128>;

    closed spec fn view(&self) -> Seq<u128> {
        self.order@
    }
}

impl ReplayGuard {
    /// The set of remembered keys matches the queue, which holds no key twice and
    /// stays within the cap.
    pub closed spec fn wf(&self) -> bool {
        &&& self.seen@ == self.order@.to_set()
        &&& self.order@.no_duplicates()
        &&& self.order@.len() <= REPLAY_CAP
    }

    /// A guard that remembers nothing.
    pub fn new() -> (g: Self)
        ensures
            g.wf(),
            g@ == Seq::<u128>::empty(),
    {
        let g = ReplayGuard { seen: HashSet::new(), order: VecDeque::new() };
        assert(g.order@.to_set() =~= Set::<u128>::empty());
        g
    }

    /// Accepts an envelope whose nonce it has not seen, and remembers that nonce.
    pub fn check(&mut self, env: &AeadEnvelope) -> (r: Result<(), String>)
        requires
            old(self).wf(),
        ensures
            final(self).wf(),
            !hex_decodable(utf8(env.n@))
                ==> (r is Err && r->Err_0@ == "bad nonce"@ && final(self)@ == old(self)@),
            hex_decodable(utf8(env.n@)) && hex_decoding(utf8(env.n@)).len() != AEAD_NONCE_LEN
                ==> (r is Err && r->Err_0@ == "bad nonce length"@ && final(self)@ == old(self)@),
            hex_decodable(utf8(env.n@)) && hex_decoding(utf8(env.n@)).len() == AEAD_NONCE_LEN
                && old(self)@.contains(nonce_key(hex_decoding(utf8(env.n@))))
                ==> (r is Err && r->Err_0@ == "replayed peer control message"@
                    && final(self)@ == old(self)@),
            hex_decodable(utf8(env.n@)) && hex_decoding(utf8(env.n@)).len() == AEAD_NONCE_LEN
                && !old(self)@.contains(nonce_key(hex_decoding(utf8(env.n@))))
                ==> (r is Ok && final(self)@ == remember(old(self)@, nonce_key(hex_decoding(utf8(env.n@))))),
    {
        let nonce = decode_nonce(env.n.as_str())?;
        let key = nonce_key_exec(&nonce);
        if self.seen.contains(&key) {
            return Err("replayed peer control message".to_owned());
        }
        let ghost before = self.order@;
        if self.order.len() >= REPLAY_CAP {
            match self.order.pop_front() {
                Some(oldest) => {
                    self.seen.remove(&oldest);
                    proof {
                        let rest = before.subrange(1, before.len() as int);
                        assert(rest =~= before.drop_first());
                        assert forall|x: u128| #[trigger] self.seen@.contains(x) <==> rest.contains(x) by {
                            if rest.contains(x) {
                                let i = choose|i: int| 0 <= i < rest.len() && rest[i] == x;
                                assert(before[i + 1] == x);
                                assert(x != oldest);
                                assert(before.contains(x));
                            }
                            if x != oldest && before.contains(x) {
                                let i = choose|i: int| 0 <= i < before.len() && before[i] == x;
                                assert(i != 0);
                                assert(rest[i - 1] == x);
                            }
                        }
                        assert(self.seen@ =~= rest.to_set());
                    }
                },
                None => {},
            }
        }
        let ghost mid = self.order@;
        self.seen.insert(key);
        self.order.push_back(key);
        proof {
            assert(!mid.contains(key)) by {
                if mid.contains(key) {
                    let i = choose|i: int| 0 <= i < mid.len() && mid[i] == key;
                    if before.len() >= REPLAY_CAP {
                        assert(mid[i] == before[i + 1]);
                    } else {
                        assert(mid[i] == before[i]);
                    }
                }
            }
            assert(self.order@ =~= mid.push(key));
            assert(self.seen@ =~= self.order@.to_set());
        }
        Ok(())
    }
}

impl Default for ReplayGuard {
    fn default() -> (g: Self)
        ensures
            g.wf(),
            g@ == Seq::<u128>::empty(),
    {
        ReplayGuard::new()
    }
}

/// After a guard accepts a fresh nonce key it remembers that key as its newest one, so
/// the next check of the same nonce is refused; below the cap it forgets nothing.
pub proof fn law_accepted_nonce_is_remembered(order: Seq<u128>, k: u128)
    requires
        !order.contains(k),
    ensures
        remember(order, k).contains(k),
        remember(order, k).last() == k,
        order.len() < REPLAY_CAP ==> remember(order, k) == order.push(k),
{
    let r = remember(order, k);
    assert(r[r.len() - 1] == k);
}

// ---------------------------------------------------------------------------
// Message authentication.

/// The MAC text of a body under a secret: the lower-case hex of its HMAC-SHA256.
pub open spec fn mac_text(secret: Seq<char>, body: Seq<char>) -> Seq<char> {
    hex_encoding(hmac_sha256(utf8(secret), utf8(body)))
}

/// Whether `presented` is hex text of the HMAC-SHA256 of `body` under `secret`.
pub open spec fn mac_accepts(secret: Seq<char>, body: Seq<char>, presented: Seq<char>) -> bool {
    &&& hex_decodable(utf8(presented))
    &&& hex_decoding(utf8(presented)) == hmac_sha256(utf8(secret), utf8(body))
}

/// The hex HMAC-SHA256 of `body` under `secret`.
pub fn mac_hex(secret: &str, body: &str) -> (m: String)
    ensures
        m@ == mac_text(secret@, body@),
{
    let tag = hmac_sha256_tag(secret.as_bytes(), body.as_bytes());
    hex_encode(tag.as_slice())
}

/// Whether `presented` is the hex HMAC-SHA256 of `body` under `secret` (either case).
pub fn mac_verify(secret: &str, body: &str, presented: &str) -> (ok: bool)
    ensures
        ok == mac_accepts(secret@, body@, presented@),
{
    let bytes = match hex_decode(presented.as_bytes()) {
        Ok(b) => b,
        Err(_) => return false,
    };
    hmac_sha256_verify(secret.as_bytes(), body.as_bytes(), bytes.as_slice())
}

/// A MAC made by `mac_hex` passes `mac_verify` under the same secret and body.
pub proof fn law_mac_roundtrip(secret: Seq<char>, body: Seq<char>)
    ensures
        mac_accepts(secret, body, mac_text(secret, body)),
{
    lemma_hex_roundtrip(hmac_sha256(utf8(secret), utf8(body)));
}

/// Compares a presented token with the expected one; a missing token never matches.
pub fn token_eq(expected: &str, presented: Option<&str>) -> (eq: bool)
    ensures
        eq == (presented is Some && presented->0@ == expected@),
{
    let p = match presented {
        Some(p) => p,
        None => return false,
    };
    if expected.as_bytes().len() != p.as_bytes().len() {
        proof {
            if p@ == expected@ {
                assert(p.spec_bytes() == expected.spec_bytes());
            }
        }
        return false;
    }
    let eq = ct_eq_bytes(expected.as_bytes(), p.as_bytes());
    proof {
        if eq {
            vstd::utf8::encode_utf8_decode_utf8(expected@);
            vstd::utf8::encode_utf8_decode_utf8(p@);
        }
    }
    eq
}


} // verus!
