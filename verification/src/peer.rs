//! The peer control channel: its messages, the limits on clipboard transfers,
//! the checks a receiver makes, and the framing of sealed payload chunks.

use vstd::prelude::*;
use vstd::string::StringSliceAdditionalSpecFns;
use sha2::{Digest, Sha256};
use crate::auth::{
    open_at, seal_chunk, secret_ok, sealed_chunk, envelope_opens_to, envelope_check_error,
    envelope_key, remember, replay_accepts, ReplayGuard,
    AeadEnvelope, AEAD_NONCE_LEN,
};
use crate::hexcodec::{hex_encode, hex_encoding};
use crate::names::{safe_file_name, safe_rel_path, spec_safe_file_name, spec_safe_rel_path};
use crate::text::{owned, str_eq};

verus! {

/// TCP port of the peer control channel.
pub const CONTROL_PORT: u16 = 5259;
/// Largest clipboard text, in bytes.
pub const CLIP_MAX_TEXT: u64 = 2 * 1024 * 1024;
/// Largest clipboard image (PNG), in bytes.
pub const CLIP_MAX_PNG: u64 = 16 * 1024 * 1024;
/// Largest total size of clipboard files, in bytes.
pub const CLIP_MAX_FILES: u64 = 64 * 1024 * 1024;
/// Largest size of the receiving inbox, in bytes.
pub const CLIP_INBOX_CAP: u64 = 256 * 1024 * 1024;
/// Most entries in one clipboard file offer.
pub const CLIP_MAX_ENTRIES: usize = 2048;
/// Deepest folder nesting in a clipboard file offer.
pub const CLIP_MAX_DEPTH: u32 = 16;
/// Longest control line, in bytes.
pub const LINE_MAX: usize = 512 * 1024;
/// Plaintext size of one sealed payload chunk.
pub const CHUNK: usize = 64 * 1024;

/// What a clipboard transfer carries.
#[derive(Debug, Clone, Copy, PartialEq, Eq, Structural)]
pub enum ClipKind {
    Text,
    Png,
    Files,
}

/// One entry of a clipboard file offer.
#[derive(Debug, Clone)]
pub struct ClipFileMeta {
    pub name: String,
    pub size: u64,
    pub dir: bool,
}

/// A message on the peer control channel.
#[derive(Debug, Clone)]
pub enum PeerMessage {
    Clipboard { seq: u64, text: String },
    ClipOffer { id: String, kind: ClipKind, byte_len: u64, files: Vec<ClipFileMeta> },
    ClipDone { id: String, sha256: String },
    SwitchLocal,
    Ping,
    Ack { ok: bool, active_target: Option<String>, error: Option<String> },
}

/// A clipboard payload about to be sent; files are (name, path) pairs.
#[derive(Debug)]
pub enum ClipOut {
    Text(String),
    Png(Vec<u8>),
    Files(Vec<(String, String)>),
}

/// A clipboard payload that arrived.
#[derive(Debug, Clone)]
pub struct IncomingClip {
    pub kind: ClipKind,
    pub text: Option<String>,
    pub png: Option<Vec<u8>>,
    pub files: Vec<String>,
}

/// One file or folder of a flattened clipboard file list.
#[derive(Debug, Clone)]
pub struct ClipEntry {
    pub rel: String,
    pub path: String,
    pub dir: bool,
    pub size: u64,
}

/// Size limit of a clipboard payload of the given kind.
pub open spec fn spec_kind_max(kind: ClipKind) -> u64 {
    match kind {
        ClipKind::Text => CLIP_MAX_TEXT,
        ClipKind::Png => CLIP_MAX_PNG,
        ClipKind::Files => CLIP_MAX_FILES,
    }
}

/// Size limit of a clipboard payload of the given kind.
pub fn kind_max(kind: ClipKind) -> (r: u64)
    ensures
        r == spec_kind_max(kind),
{
    match kind {
        ClipKind::Text => CLIP_MAX_TEXT,
        ClipKind::Png => CLIP_MAX_PNG,
        ClipKind::Files => CLIP_MAX_FILES,
    }
}

/// Name of a message's type, as logs show it.
pub open spec fn msg_kind_name(m: PeerMessage) -> Seq<char> {
    match m {
        PeerMessage::Clipboard { .. } => "clipboard"@,
        PeerMessage::ClipOffer { .. } => "clip_offer"@,
        PeerMessage::ClipDone { .. } => "clip_done"@,
        PeerMessage::SwitchLocal => "switch_local"@,
        PeerMessage::Ping => "ping"@,
        PeerMessage::Ack { .. } => "ack"@,
    }
}

/// Name of a message's type, as logs show it.
pub fn msg_kind(m: &PeerMessage) -> (r: &'static str)
    ensures
        r@ == msg_kind_name(*m),
{
    match m {
        PeerMessage::Clipboard { .. } => "clipboard",
        PeerMessage::ClipOffer { .. } => "clip_offer",
        PeerMessage::ClipDone { .. } => "clip_done",
        PeerMessage::SwitchLocal => "switch_local",
        PeerMessage::Ping => "ping",
        PeerMessage::Ack { .. } => "ack",
    }
}


// ---------------------------------------------------------------------------
// Where received files land.

/// `rel` joined below `base`, with one `/` between them where `base` needs it.
pub open spec fn path_join(base: Seq<char>, rel: Seq<char>) -> Seq<char> {
    if base.len() == 0 || base.last() == '/' {
        base + rel
    } else {
        base + seq!['/'] + rel
    }
}

/// `rel` joined below `base`, as `Path::join` joins a relative path.
pub fn join_path(base: &str, rel: &str) -> (r: String)
    ensures
        r@ == path_join(base@, rel@),
{
    let b = crate::text::chars_of(base);
    let mut out = owned(base);
    if b.len() > 0 && b[b.len() - 1] != '/' {
        out.push('/');
    }
    out.push_str(rel);
    out
}

/// The path below `base` that a received clipboard name `rel` is written to,
/// or `None` when the name is unusable.
pub fn confined(base: &str, rel: &str) -> (r: Option<String>)
    ensures
        r is Some <==> spec_safe_rel_path(rel@) is Some,
        r is Some ==> r->0@ == path_join(base@, spec_safe_rel_path(rel@)->0),
{
    let rel = safe_rel_path(rel)?;
    Some(join_path(base, rel.as_str()))
}

/// A path that [`confined`] gives starts with the base directory, and what follows it
/// (after the separator) is a relative path with no empty, `.` or `..` component.
pub proof fn law_confined_stays_below(base: Seq<char>, rel: Seq<char>)
    ensures
        spec_safe_rel_path(rel) matches Some(r) ==> {
            let p = path_join(base, r);
            &&& p.subrange(0, base.len() as int) == base
            &&& crate::names::confined_rel(p.subrange(p.len() - r.len(), p.len() as int))
            &&& p.subrange(p.len() - r.len(), p.len() as int) == r
        },
{
    crate::names::law_safe_rel_path_confined(rel);
    if let Some(r) = spec_safe_rel_path(rel) {
        let p = path_join(base, r);
        assert(p.subrange(0, base.len() as int) =~= base);
        assert(p.subrange(p.len() - r.len(), p.len() as int) =~= r);
    }
}

/// The first `/`-separated component of a path.
pub open spec fn first_component(r: Seq<char>) -> Seq<char> {
    crate::names::split_by(r, false)[0]
}

fn first_component_exec(r: &str) -> (f: String)
    ensures
        f@ == first_component(r@),
{
    let cs = crate::text::chars_of(r);
    let mut out: Vec<char> = Vec::new();
    let mut i: usize = 0;
    while i < cs.len()
        invariant_except_break
            i <= cs@.len(),
            forall|j: int| 0 <= j < i ==> cs@[j] != '/',
            out@ == cs@.subrange(0, i as int),
        ensures
            i <= cs@.len(),
            forall|j: int| 0 <= j < i ==> cs@[j] != '/',
            out@ == cs@.subrange(0, i as int),
            i == cs@.len() || cs@[i as int] == '/',
        decreases cs@.len() - i,
    {
        if cs[i] == '/' {
            break;
        }
        out.push(cs[i]);
        i = i + 1;
        assert(out@ =~= cs@.subrange(0, i as int));
    }
    proof {
        lemma_first_split(r@, i as int);
    }
    crate::text::string_of(&out)
}

proof fn lemma_first_split(r: Seq<char>, i: int)
    requires
        0 <= i <= r.len(),
        forall|j: int| 0 <= j < i ==> r[j] != '/',
        i == r.len() || r[i] == '/',
    ensures
        first_component(r) == r.subrange(0, i),
    decreases r.len(),
{
    if i == r.len() {
        crate::names::lemma_split_no_sep(r, false);
        assert(r.subrange(0, i) =~= r);
    } else {
        lemma_split_first_sep(r, i);
    }
}

proof fn lemma_split_first_sep(r: Seq<char>, i: int)
    requires
        0 <= i < r.len(),
        forall|j: int| 0 <= j < i ==> r[j] != '/',
        r[i] == '/',
    ensures
        crate::names::split_by(r, false)[0] == r.subrange(0, i),
        crate::names::split_by(r, false).len() >= 2,
    decreases r.len(),
{
    let head = r.subrange(0, i);
    if r.len() == i + 1 {
        crate::names::lemma_split_no_sep(head, false);
        assert(r.drop_last() =~= head);
    } else {
        lemma_split_first_sep(r.drop_last(), i);
        assert(r.drop_last().subrange(0, i) =~= head);
    }
}

/// Receiving a file offer: where one entry goes, and the name of the top-level
/// item it belongs to.
pub fn file_target(dest: &str, meta: &ClipFileMeta) -> (r: Result<(String, String), String>)
    ensures
        spec_safe_rel_path(meta.name@) is None ==> (r is Err && r->Err_0@ == "bad file name"@),
        spec_safe_rel_path(meta.name@) matches Some(rel) ==> (r is Ok
            && r->Ok_0.0@ == path_join(dest@, rel)
            && r->Ok_0.1@ == first_component(rel)),
{
    let rel = match safe_rel_path(meta.name.as_str()) {
        Some(x) => x,
        None => return Err("bad file name".to_owned()),
    };
    let path = join_path(dest, rel.as_str());
    let first = first_component_exec(rel.as_str());
    Ok((path, first))
}

/// Records the top-level item `first` of a received offer once: its path below
/// `dest` joins `roots` the first time the name is seen.
pub fn note_root(firsts: &mut Vec<String>, roots: &mut Vec<String>, dest: &str, first: &str)
    ensures
        old(firsts)@.map_values(|s: String| s@).contains(first@) ==> {
            &&& final(firsts)@ == old(firsts)@
            &&& final(roots)@ == old(roots)@
        },
        !old(firsts)@.map_values(|s: String| s@).contains(first@) ==> {
            &&& final(firsts)@.map_values(|s: String| s@) == old(firsts)@.map_values(|s: String| s@).push(first@)
            &&& final(roots)@.map_values(|s: String| s@) == old(roots)@.map_values(|s: String| s@).push(path_join(dest@, first@))
        },
{
    let ghost names = firsts@.map_values(|s: String| s@);
    let mut i: usize = 0;
    while i < firsts.len()
        invariant
            i <= firsts@.len(),
            names == firsts@.map_values(|s: String| s@),
            forall|j: int| 0 <= j < i ==> names[j] != first@,
        decreases firsts@.len() - i,
    {
        if str_eq(firsts[i].as_str(), first) {
            assert(names[i as int] == first@);
            return;
        }
        i = i + 1;
    }
    assert(!names.contains(first@));
    firsts.push(owned(first));
    roots.push(join_path(dest, first));
    assert(firsts@.map_values(|s: String| s@) =~= names.push(first@));
    assert(roots@.map_values(|s: String| s@) =~= old(roots)@.map_values(|s: String| s@).push(path_join(dest@, first@)));
}


// ---------------------------------------------------------------------------
// Checks a receiver makes on a clipboard offer.

/// Admits a clipboard offer by its kind, size and number of entries.
pub fn check_offer(offer: &PeerMessage) -> (r: Result<(), String>)
    ensures
        !(offer is ClipOffer) ==> (r is Err && r->Err_0@ == "expected clip_offer"@),
        (*offer matches PeerMessage::ClipOffer { kind, byte_len, files, .. } ==> {
            &&& byte_len > spec_kind_max(kind) ==> (r is Err && r->Err_0@ == "clip payload exceeds limit"@)
            &&& byte_len <= spec_kind_max(kind) && files@.len() > CLIP_MAX_ENTRIES
                ==> (r is Err && r->Err_0@ == "too many clipboard files"@)
            &&& byte_len <= spec_kind_max(kind) && files@.len() <= CLIP_MAX_ENTRIES ==> r is Ok
        }),
{
    match offer {
        PeerMessage::ClipOffer { kind, byte_len, files, .. } => {
            if *byte_len > kind_max(*kind) {
                return Err("clip payload exceeds limit".to_owned());
            }
            if files.len() > CLIP_MAX_ENTRIES {
                return Err("too many clipboard files".to_owned());
            }
            Ok(())
        },
        _ => Err("expected clip_offer".to_owned()),
    }
}

/// Admits a payload of `byte_len` bytes into an inbox already holding `used` bytes.
pub fn check_inbox_room(used: u64, byte_len: u64) -> (r: Result<(), String>)
    ensures
        used + byte_len > CLIP_INBOX_CAP ==> (r is Err && r->Err_0@ == "clipboard inbox full"@),
        used + byte_len <= CLIP_INBOX_CAP ==> r is Ok,
{
    if used > CLIP_INBOX_CAP || byte_len > CLIP_INBOX_CAP - used {
        return Err("clipboard inbox full".to_owned());
    }
    Ok(())
}

/// Total size of the files (not folders) of an offer.
pub open spec fn file_bytes(files: Seq<ClipFileMeta>) -> int
    decreases files.len(),
{
    if files.len() == 0 {
        0
    } else {
        file_bytes(files.drop_last()) + if files.last().dir { 0 } else { files.last().size as int }
    }
}

proof fn lemma_file_bytes_mono(files: Seq<ClipFileMeta>, i: int)
    requires
        0 <= i <= files.len(),
    ensures
        file_bytes(files.take(i)) <= file_bytes(files),
    decreases files.len(),
{
    if i < files.len() {
        assert(files.drop_last().take(i) =~= files.take(i));
        lemma_file_bytes_mono(files.drop_last(), i);
    } else {
        assert(files.take(i) =~= files);
    }
}

/// The sizes of an offer's files must add up to the offered length.
pub fn check_file_sizes(files: &Vec<ClipFileMeta>, byte_len: u64) -> (r: Result<(), String>)
    ensures
        file_bytes(files@) != byte_len ==> (r is Err && r->Err_0@ == "file sizes do not match offer"@),
        file_bytes(files@) == byte_len ==> r is Ok,
{
    let mut total: u64 = 0;
    let mut i: usize = 0;
    while i < files.len()
        invariant
            i <= files@.len(),
            total == file_bytes(files@.take(i as int)),
            total <= byte_len,
        decreases files@.len() - i,
    {
        proof {
            assert(files@.take(i as int + 1).drop_last() =~= files@.take(i as int));
        }
        let f = &files[i];
        if !f.dir {
            if f.size > byte_len - total {
                proof {
                    lemma_file_bytes_mono(files@, i as int + 1);
                }
                return Err("file sizes do not match offer".to_owned());
            }
            total = total + f.size;
        }
        i = i + 1;
    }
    assert(files@.take(i as int) =~= files@);
    if total != byte_len {
        return Err("file sizes do not match offer".to_owned());
    }
    Ok(())
}

/// A received file body must have the size its offer entry announced.
pub fn check_file_body(body_len: usize, size: u64) -> (r: Result<(), String>)
    ensures
        body_len != size ==> (r is Err && r->Err_0@ == "clip file size mismatch"@),
        body_len == size ==> r is Ok,
{
    if body_len as u64 != size {
        return Err("clip file size mismatch".to_owned());
    }
    Ok(())
}

// ---------------------------------------------------------------------------
// Sealed payload frames: a big-endian u32 length, then a sealed chunk.

/// Big-endian bytes of a 32-bit length.
pub open spec fn be32(n: nat) -> Seq<u8> {
    seq![((n / 0x100_0000) % 256) as u8, ((n / 0x1_0000) % 256) as u8, ((n / 0x100) % 256) as u8, (n % 256) as u8]
}

/// The number that four big-endian bytes stand for.
pub open spec fn be32_value(b: Seq<u8>) -> nat {
    (b[0] * 0x100_0000 + b[1] * 0x1_0000 + b[2] * 0x100 + b[3]) as nat
}

/// Whether a frame length is one a receiver accepts.
pub open spec fn frame_len_ok(n: nat) -> bool {
    16 <= n <= CHUNK + 64
}

/// The header written before a frame of `len` bytes.
pub fn frame_header(len: u32) -> (h: Vec<u8>)
    ensures
        h@ == be32(len as nat),
{
    let mut h: Vec<u8> = Vec::new();
    h.push(((len / 0x100_0000) % 256) as u8);
    h.push(((len / 0x1_0000) % 256) as u8);
    h.push(((len / 0x100) % 256) as u8);
    h.push((len % 256) as u8);
    h
}

/// Reads a frame header and admits the frame length it announces.
pub fn frame_len(header: &[u8; 4]) -> (r: Result<usize, String>)
    ensures
        !frame_len_ok(be32_value(header@)) ==> (r is Err && r->Err_0@ == "clip frame size"@),
        frame_len_ok(be32_value(header@)) ==> (r is Ok && r->Ok_0 == be32_value(header@)),
{
    let n: u64 = (header[0] as u64) * 0x100_0000 + (header[1] as u64) * 0x1_0000
        + (header[2] as u64) * 0x100 + (header[3] as u64);
    if n < 16 || n > (CHUNK as u64) + 64 {
        return Err("clip frame size".to_owned());
    }
    Ok(n as usize)
}

/// The header of a frame decodes to that frame's length.
pub proof fn law_frame_header_roundtrip(len: u32)
    ensures
        be32_value(be32(len as nat)) == len,
{
    let n = len as int;
    assert(n == ((n / 0x100_0000) % 256) * 0x100_0000 + ((n / 0x1_0000) % 256) * 0x1_0000
        + ((n / 0x100) % 256) * 0x100 + n % 256) by (nonlinear_arith)
        requires
            0 <= n < 0x1_0000_0000,
    {
        vstd::arithmetic::div_mod::lemma_fundamental_div_mod(n, 0x100);
        vstd::arithmetic::div_mod::lemma_fundamental_div_mod(n / 0x100, 0x100);
        vstd::arithmetic::div_mod::lemma_fundamental_div_mod(n / 0x1_0000, 0x100);
        vstd::arithmetic::div_mod::lemma_div_denominator(n, 0x100, 0x100);
        vstd::arithmetic::div_mod::lemma_div_denominator(n, 0x1_0000, 0x100);
    }
}

/// A frame of one chunk: its header, then the chunk sealed under `secret`.
pub open spec fn framed_chunk(frame: Seq<u8>, secret: Seq<u8>, pt: Seq<u8>) -> bool {
    &&& frame.len() >= 4
    &&& frame.subrange(0, 4) == be32((frame.len() - 4) as nat)
    &&& exists|nonce: Seq<u8>|
        nonce.len() == AEAD_NONCE_LEN && #[trigger] sealed_chunk(frame.subrange(4, frame.len() as int), secret, nonce, pt)
}

/// Seals one chunk of at most `CHUNK` bytes and puts its header before it.
pub fn seal_frame(password: &str, chunk: &[u8]) -> (r: Result<Vec<u8>, String>)
    requires
        chunk@.len() <= CHUNK,
    ensures
        password@.len() == 0 <==> r is Err,
        r is Err ==> r->Err_0@ == "empty peer secret"@,
        r is Ok ==> framed_chunk(r->Ok_0@, password.spec_bytes(), chunk@),
        r is Ok ==> r->Ok_0@.len() == 4 + AEAD_NONCE_LEN + chunk@.len() + 16,
{
    let sealed = seal_chunk(password, chunk)?;
    let ghost nonce = choose|nonce: Seq<u8>|
        nonce.len() == AEAD_NONCE_LEN && #[trigger] sealed_chunk(sealed@, password.spec_bytes(), nonce, chunk@);
    let len = sealed.len() as u32;
    let mut out = frame_header(len);
    let mut j: usize = 0;
    while j < sealed.len()
        invariant
            j <= sealed@.len(),
            out@ == be32(len as nat) + sealed@.subrange(0, j as int),
        decreases sealed@.len() - j,
    {
        out.push(sealed[j]);
        j = j + 1;
        assert(out@ =~= be32(len as nat) + sealed@.subrange(0, j as int));
    }
    proof {
        assert(sealed@.subrange(0, sealed@.len() as int) =~= sealed@);
        assert(out@.subrange(0, 4) =~= be32(len as nat));
        assert(out@.subrange(4, out@.len() as int) =~= sealed@);
        assert(sealed_chunk(out@.subrange(4, out@.len() as int), password.spec_bytes(), nonce, chunk@));
    }
    Ok(out)
}

/// Every frame a sender writes has a length that the receiver's size check admits.
pub proof fn law_sent_frames_pass_size_check(chunk_len: nat)
    requires
        chunk_len <= CHUNK,
    ensures
        frame_len_ok((AEAD_NONCE_LEN + chunk_len + 16) as nat),
{
}

/// The pieces of `CHUNK` bytes that a payload is cut into, in order.
pub open spec fn chunk_of(data: Seq<u8>, i: int) -> Seq<u8> {
    data.subrange(i * CHUNK, if (i + 1) * CHUNK <= data.len() { (i + 1) * CHUNK } else { data.len() as int })
}

/// How many pieces of `CHUNK` bytes a payload is cut into.
pub open spec fn chunk_count(len: nat) -> nat {
    ((len + CHUNK - 1) / (CHUNK as int)) as nat
}

/// Seals a whole payload as frames of at most `CHUNK` plaintext bytes each.
pub fn seal_payload(password: &str, data: &[u8]) -> (r: Result<Vec<Vec<u8>>, String>)
    ensures
        password@.len() == 0 && data@.len() > 0 ==> (r is Err && r->Err_0@ == "empty peer secret"@),
        password@.len() > 0 || data@.len() == 0 ==> r is Ok,
        r is Ok ==> r->Ok_0@.len() == chunk_count(data@.len()),
        r is Ok ==> forall|i: int| 0 <= i < r->Ok_0@.len()
            ==> framed_chunk(#[trigger] r->Ok_0@[i]@, password.spec_bytes(), chunk_of(data@, i)),
{
    let mut frames: Vec<Vec<u8>> = Vec::new();
    let mut start: usize = 0;
    let n = data.len();
    while start < n
        invariant
            n == data@.len(),
            start <= n,
            start == frames@.len() * CHUNK || start == n,
            start < n ==> start == frames@.len() * CHUNK,
            frames@.len() == chunk_count(start as nat),
            password@.len() > 0 || frames@.len() == 0,
            forall|i: int| 0 <= i < frames@.len()
                ==> framed_chunk(#[trigger] frames@[i]@, password.spec_bytes(), chunk_of(data@, i)),
        decreases n - start,
    {
        let end: usize = if n - start > CHUNK { start + CHUNK } else { n };
        let ghost k = frames@.len() as int;
        let mut piece: Vec<u8> = Vec::new();
        let mut j: usize = start;
        while j < end
            invariant
                start <= j <= end,
                end <= n,
                n == data@.len(),
                piece@ == data@.subrange(start as int, j as int),
            decreases end - j,
        {
            piece.push(data[j]);
            j = j + 1;
            assert(piece@ =~= data@.subrange(start as int, j as int));
        }
        proof {
            assert(start == k * CHUNK);
            assert(piece@ == chunk_of(data@, k)) by {
                if (k + 1) * CHUNK <= data@.len() {
                    assert(end == start + CHUNK);
                } else {
                    assert(end == n);
                }
            }
        }
        let frame = seal_frame(password, piece.as_slice())?;
        frames.push(frame);
        proof {
            assert forall|i: int| 0 <= i < frames@.len()
                implies framed_chunk(#[trigger] frames@[i]@, password.spec_bytes(), chunk_of(data@, i)) by {
                if i < k {
                    assert(frames@[i] == old_frames_at(frames@, i));
                }
            }
            assert(chunk_count(end as nat) == k + 1) by (nonlinear_arith)
                requires
                    start == k * CHUNK,
                    k == chunk_count(start as nat),
                    end <= start + CHUNK,
                    end > start,
                    CHUNK == 65536,
            {
            }
        }
        start = end;
    }
    Ok(frames)
}

spec fn old_frames_at(v: Seq<Vec<u8>>, i: int) -> Vec<u8> {
    v[i]
}


/// Takes a chunk of `pt_len` bytes off the `remain` bytes still expected.
pub fn take_chunk(remain: u64, pt_len: usize) -> (r: Result<u64, String>)
    ensures
        pt_len > remain ==> (r is Err && r->Err_0@ == "clip frame overflow"@),
        pt_len <= remain ==> (r is Ok && r->Ok_0 == remain - pt_len),
{
    if pt_len as u64 > remain {
        return Err("clip frame overflow".to_owned());
    }
    Ok(remain - pt_len as u64)
}

// ---------------------------------------------------------------------------
// Payload digests.

/// SHA-256 of a byte string.
pub uninterp spec fn sha256(data: Seq<u8>) -> Seq<u8>;

/// `Sha256::digest`: the 32-byte SHA-256 of `data`.
#[verifier::external_body]
fn sha256_digest(data: &[u8]) -> (d: Vec<u8>)
    ensures
        d@ == sha256(data@),
        d@.len() == 32,
{
    Sha256::digest(data).to_vec()
}

/// SHA-256 of a clipboard payload, as sent and as checked.
pub fn payload_digest(data: &[u8]) -> (d: Vec<u8>)
    ensures
        d@ == sha256(data@),
        d@.len() == 32,
{
    sha256_digest(data)
}

/// The message that closes a clipboard transfer: its id and the payload's hex SHA-256.
pub fn clip_done(id: String, data: &[u8]) -> (m: PeerMessage)
    ensures
        m matches PeerMessage::ClipDone { id: i, sha256: h } && i@ == id@ && h@ == hex_encoding(sha256(data@)),
{
    let digest = sha256_digest(data);
    PeerMessage::ClipDone { id, sha256: hex_encode(digest.as_slice()) }
}

/// Whether a message closes the transfer `id` whose payload had the given digest.
pub open spec fn done_matches(msg: PeerMessage, id: Seq<char>, digest: Seq<u8>) -> bool {
    msg matches PeerMessage::ClipDone { id: i, sha256: h } && i@ == id && h@ == hex_encoding(digest)
}

/// Checks the message that closes a clipboard transfer.
pub fn check_done(msg: &PeerMessage, id: &str, digest: &[u8]) -> (r: Result<(), String>)
    ensures
        !(*msg is ClipDone) ==> (r is Err && r->Err_0@ == "expected clip_done"@),
        (*msg matches PeerMessage::ClipDone { id: i, .. } && i@ != id@)
            ==> (r is Err && r->Err_0@ == "clip id mismatch"@),
        (*msg matches PeerMessage::ClipDone { id: i, sha256: h } && i@ == id@ && h@ != hex_encoding(digest@))
            ==> (r is Err && r->Err_0@ == "clip sha256 mismatch"@),
        r is Ok <==> done_matches(*msg, id@, digest@),
{
    match msg {
        PeerMessage::ClipDone { id: done_id, sha256 } => {
            if !str_eq(done_id.as_str(), id) {
                return Err("clip id mismatch".to_owned());
            }
            let got = hex_encode(digest);
            if !str_eq(got.as_str(), sha256.as_str()) {
                return Err("clip sha256 mismatch".to_owned());
            }
            Ok(())
        },
        _ => Err("expected clip_done".to_owned()),
    }
}

/// The closing message a sender writes for a payload passes the receiver's check
/// for the same transfer and the same bytes.
pub proof fn law_done_message_checks(msg: PeerMessage, id: Seq<char>, data: Seq<u8>)
    requires
        msg matches PeerMessage::ClipDone { id: i, sha256: h } && i@ == id && h@ == hex_encoding(sha256(data)),
    ensures
        done_matches(msg, id, sha256(data)),
{
}

// ---------------------------------------------------------------------------
// Offers a sender makes.

/// Sum of the entry sizes, stopping at `u64::MAX`.
pub open spec fn entry_bytes(entries: Seq<ClipEntry>) -> int
    decreases entries.len(),
{
    if entries.len() == 0 {
        0
    } else {
        let t = entry_bytes(entries.drop_last()) + entries.last().size;
        if t > u64::MAX { u64::MAX as int } else { t }
    }
}

// ---------------------------------------------------------------------------
// Flattening copied files and folders.

/// The name a copied item is offered under: its safe file name, or `item`.
pub open spec fn spec_root_name(name: Seq<char>) -> Seq<char> {
    match spec_safe_file_name(name) {
        Some(n) => n,
        None => "item"@,
    }
}

/// The name a copied item is offered under: its safe file name, or `item`.
pub fn root_name(name: &str) -> (r: String)
    ensures
        r@ == spec_root_name(name@),
{
    match safe_file_name(name) {
        Some(n) => n,
        None => "item".to_owned(),
    }
}

/// Whether one more entry may be taken into a flattened file list that already
/// holds `count` entries, at folder depth `depth`.
pub fn check_tree_room(count: usize, depth: u32) -> (r: Result<(), String>)
    ensures
        count >= CLIP_MAX_ENTRIES ==> (r is Err && r->Err_0@ == "too many clipboard files"@),
        count < CLIP_MAX_ENTRIES && depth > CLIP_MAX_DEPTH
            ==> (r is Err && r->Err_0@ == "clipboard folder too deep"@),
        count < CLIP_MAX_ENTRIES && depth <= CLIP_MAX_DEPTH ==> r is Ok,
{
    if count >= CLIP_MAX_ENTRIES {
        return Err("too many clipboard files".to_owned());
    }
    if depth > CLIP_MAX_DEPTH {
        return Err("clipboard folder too deep".to_owned());
    }
    Ok(())
}

/// Adds a file's size to the running total of a file list (saturating), refusing a
/// total above the limit for files.
pub fn add_file_bytes(total: u64, size: u64) -> (r: Result<u64, String>)
    ensures
        ({
            let t = if total + size > u64::MAX { u64::MAX as int } else { total + size };
            &&& t > CLIP_MAX_FILES ==> (r is Err && r->Err_0@ == "clipboard files too large"@)
            &&& t <= CLIP_MAX_FILES ==> (r is Ok && r->Ok_0 == t)
        }),
{
    let t = total.saturating_add(size);
    if t > CLIP_MAX_FILES {
        return Err("clipboard files too large".to_owned());
    }
    Ok(t)
}

/// The relative path of a folder's child: the folder's path, `/`, and the child's
/// safe file name; `None` (the child is skipped) when the name has no safe form.
pub fn child_rel(rel: &str, name: &str) -> (r: Option<String>)
    ensures
        spec_safe_file_name(name@) is None ==> r is None,
        spec_safe_file_name(name@) matches Some(seg) ==> (r matches Some(p) && p@ == rel@ + seq!['/'] + seg),
{
    match safe_file_name(name) {
        Some(seg) => {
            let mut p = owned(rel);
            p.push('/');
            p.push_str(seg.as_str());
            Some(p)
        },
        None => None,
    }
}

/// The offer that announces a clipboard payload; `entries` is the flattened file
/// list of a `Files` payload.
pub fn build_offer(id: String, payload: &ClipOut, entries: &Vec<ClipEntry>) -> (r: Result<PeerMessage, String>)
    ensures
        (*payload matches ClipOut::Text(t) ==> {
            &&& vstd::utf8::encode_utf8(t@).len() > CLIP_MAX_TEXT ==> (r is Err && r->Err_0@ == "clipboard text too large"@)
            &&& vstd::utf8::encode_utf8(t@).len() <= CLIP_MAX_TEXT ==> (r matches Ok(PeerMessage::ClipOffer { id: i, kind, byte_len, files })
                && i@ == id@ && kind == ClipKind::Text && byte_len == vstd::utf8::encode_utf8(t@).len() && files@.len() == 0)
        }),
        (*payload matches ClipOut::Png(p) ==> {
            &&& p@.len() > CLIP_MAX_PNG ==> (r is Err && r->Err_0@ == "clipboard image too large"@)
            &&& p@.len() <= CLIP_MAX_PNG ==> (r matches Ok(PeerMessage::ClipOffer { id: i, kind, byte_len, files })
                && i@ == id@ && kind == ClipKind::Png && byte_len == p@.len() && files@.len() == 0)
        }),
        (*payload is Files ==> {
            &&& entries@.len() == 0 ==> (r is Err && r->Err_0@ == "no clipboard files"@)
            &&& entries@.len() > 0 && entry_bytes(entries@) > CLIP_MAX_FILES
                ==> (r is Err && r->Err_0@ == "clipboard files too large"@)
            &&& entries@.len() > 0 && entry_bytes(entries@) <= CLIP_MAX_FILES
                ==> (r matches Ok(PeerMessage::ClipOffer { id: i, kind, byte_len, files })
                    && i@ == id@ && kind == ClipKind::Files && byte_len == entry_bytes(entries@)
                    && files@.len() == entries@.len()
                    && forall|k: int| 0 <= k < files@.len()
                        ==> (#[trigger] files@[k]).name@ == entries@[k].rel@ && files@[k].size == entries@[k].size
                            && files@[k].dir == entries@[k].dir)
        }),
{
    match payload {
        ClipOut::Text(t) => {
            let n = t.as_str().as_bytes().len() as u64;
            if n > CLIP_MAX_TEXT {
                return Err("clipboard text too large".to_owned());
            }
            Ok(PeerMessage::ClipOffer { id, kind: ClipKind::Text, byte_len: n, files: Vec::new() })
        },
        ClipOut::Png(p) => {
            let n = p.len() as u64;
            if n > CLIP_MAX_PNG {
                return Err("clipboard image too large".to_owned());
            }
            Ok(PeerMessage::ClipOffer { id, kind: ClipKind::Png, byte_len: n, files: Vec::new() })
        },
        ClipOut::Files(_) => {
            if entries.len() == 0 {
                return Err("no clipboard files".to_owned());
            }
            let mut meta: Vec<ClipFileMeta> = Vec::new();
            let mut total: u64 = 0;
            let mut i: usize = 0;
            while i < entries.len()
                invariant
                    i <= entries@.len(),
                    total == entry_bytes(entries@.take(i as int)),
                    meta@.len() == i,
                    forall|k: int| 0 <= k < i ==> (#[trigger] meta@[k]).name@ == entries@[k].rel@
                        && meta@[k].size == entries@[k].size && meta@[k].dir == entries@[k].dir,
                decreases entries@.len() - i,
            {
                proof {
                    assert(entries@.take(i as int + 1).drop_last() =~= entries@.take(i as int));
                }
                let e = &entries[i];
                total = total.saturating_add(e.size);
                meta.push(ClipFileMeta { name: e.rel.clone(), size: e.size, dir: e.dir });
                i = i + 1;
            }
            assert(entries@.take(i as int) =~= entries@);
            if total > CLIP_MAX_FILES {
                return Err("clipboard files too large".to_owned());
            }
            Ok(PeerMessage::ClipOffer { id, kind: ClipKind::Files, byte_len: total, files: meta })
        },
    }
}

// ---------------------------------------------------------------------------
// Serving a connection.

/// The acknowledgement that answers a handled message.
pub fn ack_for(outcome: Result<Option<String>, String>) -> (m: PeerMessage)
    ensures
        (outcome matches Ok(t) ==> (m matches PeerMessage::Ack { ok, active_target, error }
            && ok && active_target == t && error is None)),
        (outcome matches Err(e) ==> (m matches PeerMessage::Ack { ok, active_target, error }
            && !ok && active_target is None && error == Some(e))),
{
    match outcome {
        Ok(active_target) => PeerMessage::Ack { ok: true, active_target, error: None },
        Err(error) => PeerMessage::Ack { ok: false, active_target: None, error: Some(error) },
    }
}

/// What a listener does with an authenticated message.
#[derive(Debug)]
pub enum Route {
    /// An acknowledgement: nothing to answer.
    Ignore,
    /// A clipboard offer: receive the transfer into the inbox.
    ReceiveClip,
    /// A clipboard offer that cannot be received: answer with this error.
    Refuse(String),
    /// Clipboard text inline: hand it over and answer ok.
    Deliver(IncomingClip),
    /// Anything else: hand it to the message handler and answer its outcome.
    Dispatch,
}

/// Routes an authenticated message; `has_inbox` says whether files can be received.
pub fn route_message(msg: &PeerMessage, has_inbox: bool) -> (r: Route)
    ensures
        *msg is Ack ==> r is Ignore,
        *msg is ClipOffer && has_inbox ==> r is ReceiveClip,
        *msg is ClipOffer && !has_inbox ==> (r matches Route::Refuse(e) && e@ == "clipboard inbox unavailable"@),
        (*msg matches PeerMessage::Clipboard { text, .. } ==> (r matches Route::Deliver(c)
            && c.kind == ClipKind::Text && c.text is Some && c.text->0@ == text@ && c.png is None
            && c.files@.len() == 0)),
        (*msg is ClipDone || *msg is SwitchLocal || *msg is Ping) ==> r is Dispatch,
{
    match msg {
        PeerMessage::Ack { .. } => Route::Ignore,
        PeerMessage::ClipOffer { .. } => {
            if has_inbox {
                Route::ReceiveClip
            } else {
                Route::Refuse("clipboard inbox unavailable".to_owned())
            }
        },
        PeerMessage::Clipboard { text, .. } => Route::Deliver(
            IncomingClip { kind: ClipKind::Text, text: Some(owned(text.as_str())), png: None, files: Vec::new() },
        ),
        _ => Route::Dispatch,
    }
}

/// Whether a received control line may be parsed at all.
pub fn line_fits(line: &str) -> (r: bool)
    ensures
        r == (line.spec_bytes().len() <= LINE_MAX),
{
    line.as_bytes().len() <= LINE_MAX
}

/// Checks a reply line before it is parsed.
pub fn check_reply_line(line: &str) -> (r: Result<(), String>)
    ensures
        line@.len() == 0 ==> (r is Err && r->Err_0@ == "peer control closed without ack"@),
        line@.len() > 0 && line.spec_bytes().len() > LINE_MAX ==> (r is Err && r->Err_0@ == "peer line too large"@),
        line@.len() > 0 && line.spec_bytes().len() <= LINE_MAX ==> r is Ok,
{
    if line.is_empty() {
        return Err("peer control closed without ack".to_owned());
    }
    if line.as_bytes().len() > LINE_MAX {
        return Err("peer line too large".to_owned());
    }
    Ok(())
}

/// Opens the envelope of a control message against the clock reading `now`;
/// the bytes are the message's JSON.
pub fn decode_msg_bytes(password: &str, env: &AeadEnvelope, now: u64) -> (r: Result<Vec<u8>, String>)
    ensures
        password@.len() == 0 ==> (r is Err && r->Err_0@ == "empty peer secret"@),
        password@.len() > 0 ==> (envelope_check_error(password.spec_bytes(), *env, now) matches Some(e)
            ==> (r is Err && r->Err_0@ == e)),
        password@.len() > 0 && envelope_check_error(password.spec_bytes(), *env, now) is None && r is Err
            ==> r->Err_0@ == "aead decrypt"@,
        r is Ok ==> envelope_opens_to(password.spec_bytes(), *env, now, r->Ok_0@),
        forall|m: Seq<u8>| #[trigger] envelope_opens_to(password.spec_bytes(), *env, now, m)
            ==> (r is Ok && r->Ok_0@ == m),
{
    if !secret_ok(password) {
        return Err("empty peer secret".to_owned());
    }
    open_at(password, env, now)
}


/// Why an incoming control line is turned away.
#[derive(Debug, Clone, PartialEq, Eq)]
pub enum Refusal {
    /// The nonce was bad or seen before: the connection is dropped without a reply.
    Replayed(String),
    /// The envelope does not open under the password: answered `unauthorized`.
    Unauthorized(String),
}

/// Admits one incoming control envelope: the replay guard checks its nonce first
/// (and remembers it), then it is opened against the clock reading `now`.
pub fn admit_envelope(replay: &mut ReplayGuard, password: &str, env: &AeadEnvelope, now: u64) -> (r: Result<Vec<u8>, Refusal>)
    requires
        old(replay).wf(),
    ensures
        final(replay).wf(),
        !replay_accepts(old(replay)@, *env)
            ==> (r matches Err(Refusal::Replayed(_)) && final(replay)@ == old(replay)@),
        replay_accepts(old(replay)@, *env) ==> {
            &&& final(replay)@ == remember(old(replay)@, envelope_key(*env))
            &&& (r is Err ==> r->Err_0 is Unauthorized)
            &&& (password@.len() == 0 ==> (r matches Err(Refusal::Unauthorized(e)) && e@ == "empty peer secret"@))
            &&& (password@.len() > 0 ==> (envelope_check_error(password.spec_bytes(), *env, now) matches Some(e)
                ==> (r matches Err(Refusal::Unauthorized(m)) && m@ == e)))
            &&& (password@.len() > 0 && envelope_check_error(password.spec_bytes(), *env, now) is None
                ==> (r is Err ==> (r matches Err(Refusal::Unauthorized(m)) && m@ == "aead decrypt"@)))
            &&& (r is Ok ==> envelope_opens_to(password.spec_bytes(), *env, now, r->Ok_0@))
            &&& forall|m: Seq<u8>| #[trigger] envelope_opens_to(password.spec_bytes(), *env, now, m)
                ==> (r is Ok && r->Ok_0@ == m)
        },
{
    match replay.check(env) {
        Err(e) => return Err(Refusal::Replayed(e)),
        Ok(()) => {},
    }
    match decode_msg_bytes(password, env, now) {
        Ok(b) => Ok(b),
        Err(e) => Err(Refusal::Unauthorized(e)),
    }
}

// ---------------------------------------------------------------------------
// Peer addresses.

/// Value of decimal digits.
pub open spec fn digits_value(d: Seq<char>) -> nat
    decreases d.len(),
{
    if d.len() == 0 {
        0
    } else {
        10 * digits_value(d.drop_last()) + ((d.last() as u32) - 48) as nat
    }
}

/// Whether every character is an ASCII digit.
pub open spec fn all_digits(d: Seq<char>) -> bool {
    forall|i: int| 0 <= i < d.len() ==> '0' <= #[trigger] d[i] <= '9'
}

/// Whether text reads as a `u16` (`str::parse::<u16>`): an optional `+`, then at
/// least one digit, of value at most 65535.
pub open spec fn is_u16_text(s: Seq<char>) -> bool {
    let d = if s.len() > 0 && s[0] == '+' { s.drop_first() } else { s };
    d.len() > 0 && all_digits(d) && digits_value(d) <= 0xffff
}

fn is_u16_text_exec(s: &Vec<char>) -> (r: bool)
    ensures
        r == is_u16_text(s@),
{
    let start: usize = if s.len() > 0 && s[0] == '+' { 1 } else { 0 };
    let ghost d = if s@.len() > 0 && s@[0] == '+' { s@.drop_first() } else { s@ };
    assert(d =~= s@.skip(start as int));
    if start >= s.len() {
        return false;
    }
    let mut v: u32 = 0;
    let mut i: usize = start;
    while i < s.len()
        invariant
            start <= i <= s@.len(),
            d =~= s@.skip(start as int),
            d == (if s@.len() > 0 && s@[0] == '+' { s@.drop_first() } else { s@ }),
            d.len() > 0,
            all_digits(s@.subrange(start as int, i as int)),
            v == digits_value(s@.subrange(start as int, i as int)),
            v <= 0xffff,
        decreases s@.len() - i,
    {
        let c = s[i];
        if !('0' <= c && c <= '9') {
            proof {
                assert(d[i - start] == c);
            }
            return false;
        }
        let digit: u32 = (c as u32) - 48;
        proof {
            assert(s@.subrange(start as int, i + 1).drop_last() =~= s@.subrange(start as int, i as int));
        }
        if v > (0xffff - digit) / 10 {
            proof {
                assert(digits_value(s@.subrange(start as int, i + 1)) == 10 * v + digit);
                assert(10 * v + digit > 0xffff);
                assert(d.take(i + 1 - start) =~= s@.subrange(start as int, i + 1));
                if all_digits(d) {
                    lemma_digits_prefix_bound(d, i + 1 - start);
                }
            }
            return false;
        }
        v = 10 * v + digit;
        i = i + 1;
    }
    assert(s@.subrange(start as int, s@.len() as int) =~= d);
    true
}

proof fn lemma_digits_prefix_bound(d: Seq<char>, k: int)
    requires
        0 <= k <= d.len(),
        all_digits(d),
    ensures
        digits_value(d.take(k)) <= digits_value(d),
    decreases d.len(),
{
    if k < d.len() {
        assert(d.drop_last().take(k) =~= d.take(k));
        assert(all_digits(d.drop_last()));
        lemma_digits_prefix_bound(d.drop_last(), k);
    } else {
        assert(d.take(k) =~= d);
    }
}

/// Index of the last occurrence of a character.
pub open spec fn last_index_of(s: Seq<char>, c: char) -> Option<int>
    decreases s.len(),
{
    if s.len() == 0 {
        None
    } else if s.last() == c {
        Some(s.len() - 1)
    } else {
        last_index_of(s.drop_last(), c)
    }
}

/// Index of the first occurrence of a character.
pub open spec fn first_index_of(s: Seq<char>, c: char) -> Option<int>
    decreases s.len(),
{
    if s.len() == 0 {
        None
    } else if s[0] == c {
        Some(0)
    } else {
        match first_index_of(s.drop_first(), c) {
            Some(i) => Some(i + 1),
            None => None,
        }
    }
}

/// The host part of a peer id or address: before a final `:port`, inside `[...]` for
/// a bracketed IPv6 address, or the whole text.
pub open spec fn control_host_of(s: Seq<char>) -> Seq<char> {
    match last_index_of(s, ':') {
        None => s,
        Some(k) => {
            let h = s.take(k);
            let p = s.skip(k + 1);
            if is_u16_text(p) && h.len() > 0 && first_index_of(h, ']') is None {
                h
            } else if s.len() > 0 && s[0] == '[' {
                let rest = s.drop_first();
                match first_index_of(rest, ']') {
                    Some(j) => rest.take(j),
                    None => rest,
                }
            } else {
                s
            }
        },
    }
}

proof fn lemma_last_index_bound(s: Seq<char>, c: char)
    ensures
        last_index_of(s, c) matches Some(i) ==> 0 <= i < s.len() && s[i] == c,
        last_index_of(s, c) is None ==> forall|i: int| 0 <= i < s.len() ==> s[i] != c,
    decreases s.len(),
{
    if s.len() > 0 && s.last() != c {
        let t = s.drop_last();
        lemma_last_index_bound(t, c);
        if last_index_of(t, c) is None {
            assert forall|i: int| 0 <= i < s.len() implies s[i] != c by {
                if i < t.len() {
                    assert(s[i] == t[i]);
                }
            }
        }
    }
}

proof fn lemma_first_index_bound(s: Seq<char>, c: char)
    ensures
        first_index_of(s, c) matches Some(i) ==> 0 <= i < s.len() && s[i] == c
            && forall|j: int| 0 <= j < i ==> s[j] != c,
        first_index_of(s, c) is None ==> forall|i: int| 0 <= i < s.len() ==> s[i] != c,
    decreases s.len(),
{
    if s.len() > 0 && s[0] != c {
        let t = s.drop_first();
        lemma_first_index_bound(t, c);
        match first_index_of(t, c) {
            Some(i) => {
                assert forall|j: int| 0 <= j < i + 1 implies s[j] != c by {
                    if j > 0 {
                        assert(s[j] == t[j - 1]);
                    }
                }
            },
            None => {
                assert forall|j: int| 0 <= j < s.len() implies s[j] != c by {
                    if j > 0 {
                        assert(s[j] == t[j - 1]);
                    }
                }
            },
        }
    }
}

fn find_first(v: &Vec<char>, c: char) -> (r: Option<usize>)
    ensures
        r is Some <==> first_index_of(v@, c) is Some,
        r is Some ==> r->0 == first_index_of(v@, c)->0,
{
    proof {
        lemma_first_index_bound(v@, c);
    }
    let mut i: usize = 0;
    while i < v.len()
        invariant
            i <= v@.len(),
            forall|j: int| 0 <= j < i ==> v@[j] != c,
        decreases v@.len() - i,
    {
        if v[i] == c {
            proof {
                lemma_first_index_bound(v@, c);
                let k = first_index_of(v@, c)->0;
                assert(first_index_of(v@, c) is Some);
                assert(k == i);
            }
            return Some(i);
        }
        i = i + 1;
    }
    None
}

fn find_last(v: &Vec<char>, c: char) -> (r: Option<usize>)
    ensures
        r is Some <==> last_index_of(v@, c) is Some,
        r is Some ==> r->0 == last_index_of(v@, c)->0,
{
    let mut i: usize = v.len();
    assert(v@.take(i as int) =~= v@);
    while i > 0
        invariant
            i <= v@.len(),
            last_index_of(v@.take(i as int), c) == last_index_of(v@, c),
        decreases i,
    {
        proof {
            assert(v@.take(i as int).drop_last() =~= v@.take(i - 1));
        }
        if v[i - 1] == c {
            return Some(i - 1);
        }
        i = i - 1;
    }
    None
}

fn slice_chars(v: &Vec<char>, a: usize, b: usize) -> (r: String)
    requires
        a <= b <= v@.len(),
    ensures
        r@ == v@.subrange(a as int, b as int),
{
    let mut out: Vec<char> = Vec::new();
    let mut i: usize = a;
    while i < b
        invariant
            a <= i <= b,
            b <= v@.len(),
            out@ == v@.subrange(a as int, i as int),
        decreases b - i,
    {
        out.push(v[i]);
        i = i + 1;
        assert(out@ =~= v@.subrange(a as int, i as int));
    }
    crate::text::string_of(&out)
}

/// The host part of a peer id or address that did not parse as an IP address or
/// socket address; the control channel is reached on it at `CONTROL_PORT`.
pub fn control_host(peer_id_or_addr: &str) -> (r: String)
    ensures
        r@ == control_host_of(peer_id_or_addr@),
{
    let v = crate::text::chars_of(peer_id_or_addr);
    let ghost s = v@;
    proof {
        lemma_last_index_bound(s, ':');
    }
    match find_last(&v, ':') {
        None => owned(peer_id_or_addr),
        Some(k) => {
            let mut p: Vec<char> = Vec::new();
            let mut i: usize = k + 1;
            while i < v.len()
                invariant
                    k + 1 <= i <= v@.len(),
                    p@ == v@.subrange(k + 1, i as int),
                decreases v@.len() - i,
            {
                p.push(v[i]);
                i = i + 1;
                assert(p@ =~= v@.subrange(k + 1, i as int));
            }
            assert(p@ =~= s.skip(k + 1));
            let mut h: Vec<char> = Vec::new();
            let mut j: usize = 0;
            while j < k
                invariant
                    j <= k,
                    k < v@.len(),
                    h@ == v@.subrange(0, j as int),
                decreases k - j,
            {
                h.push(v[j]);
                j = j + 1;
                assert(h@ =~= v@.subrange(0, j as int));
            }
            assert(h@ =~= s.take(k as int));
            if is_u16_text_exec(&p) && h.len() > 0 && find_first(&h, ']').is_none() {
                slice_chars(&v, 0, k)
            } else if v.len() > 0 && v[0] == '[' {
                let mut rest: Vec<char> = Vec::new();
                let mut m: usize = 1;
                while m < v.len()
                    invariant
                        1 <= m <= v@.len(),
                        rest@ == v@.subrange(1, m as int),
                    decreases v@.len() - m,
                {
                    rest.push(v[m]);
                    m = m + 1;
                    assert(rest@ =~= v@.subrange(1, m as int));
                }
                assert(rest@ =~= s.drop_first());
                proof {
                    lemma_first_index_bound(rest@, ']');
                }
                match find_first(&rest, ']') {
                    Some(e) => slice_chars(&rest, 0, e),
                    None => crate::text::string_of(&rest),
                }
            } else {
                owned(peer_id_or_addr)
            }
        },
    }
}

} // verus!
