//! Clipboard bookkeeping: snapshots of the local clipboard, the fingerprints that
//! keep a received payload from echoing back, and the text forms of file lists.

use vstd::prelude::*;
use vstd::string::StringSliceAdditionalSpecFns;
use crate::names::{split_by, last_named, is_named, dotdot, pieces_view};
use crate::peer::{ClipOut, CLIP_MAX_TEXT};
use crate::text::{chars_of, string_of, owned, decimal, push_decimal, str_eq};
use image::ImageEncoder;

verus! {

/// What the local clipboard holds; file paths are text.
#[derive(Debug)]
pub enum LocalSnap {
    Empty,
    Text(String),
    Image { width: usize, height: usize, rgba: Vec<u8> },
    Files(Vec<String>),
}

// ---------------------------------------------------------------------------
// Descriptions and hashes.

/// A one-line description of a snapshot, as logs show it.
pub open spec fn snap_description(snap: LocalSnap) -> Seq<char> {
    match snap {
        LocalSnap::Empty => "empty"@,
        LocalSnap::Text(t) => "text "@ + decimal(t@.len() as nat) + " bytes"@,
        LocalSnap::Image { width, height, rgba } => "image "@ + decimal(width as nat) + "x"@
            + decimal(height as nat) + " ("@ + decimal(rgba@.len()) + " bytes)"@,
        LocalSnap::Files(paths) => "files "@ + decimal(paths@.len()) + " items"@,
    }
}

/// A one-line description of a snapshot, as logs show it.
pub fn snap_desc(snap: &LocalSnap) -> (r: String)
    ensures
        (*snap matches LocalSnap::Text(t) ==> r@ == "text "@ + decimal(vstd::utf8::encode_utf8(t@).len()) + " bytes"@),
        !(*snap is Text) ==> r@ == snap_description(*snap),
{
    match snap {
        LocalSnap::Empty => owned("empty"),
        LocalSnap::Text(t) => {
            let mut s = owned("text ");
            push_decimal(&mut s, t.as_str().as_bytes().len() as u64);
            s.push_str(" bytes");
            s
        },
        LocalSnap::Image { width, height, rgba } => {
            let mut s = owned("image ");
            push_decimal(&mut s, *width as u64);
            s.push_str("x");
            push_decimal(&mut s, *height as u64);
            s.push_str(" (");
            push_decimal(&mut s, rgba.len() as u64);
            s.push_str(" bytes)");
            s
        },
        LocalSnap::Files(paths) => {
            let mut s = owned("files ");
            push_decimal(&mut s, paths.len() as u64);
            s.push_str(" items");
            s
        },
    }
}

/// FNV-1a offset basis.
pub const FNV_OFFSET: u64 = 0xcbf29ce484222325;
/// FNV-1a prime.
pub const FNV_PRIME: u64 = 0x100000001b3;

/// 64-bit FNV-1a hash of a byte string.
pub open spec fn fnv1a(s: Seq<u8>) -> u64
    decreases s.len(),
{
    if s.len() == 0 {
        FNV_OFFSET
    } else {
        (((fnv1a(s.drop_last()) ^ (s.last() as u64)) as nat * FNV_PRIME as nat) % 0x1_0000_0000_0000_0000) as u64
    }
}

/// 64-bit FNV-1a hash of a byte string.
pub fn simple_hash(bytes: &[u8]) -> (h: u64)
    ensures
        h == fnv1a(bytes@),
{
    let mut h: u64 = FNV_OFFSET;
    let n = bytes.len();
    for i in 0..n
        invariant
            n == bytes@.len(),
            h == fnv1a(bytes@.take(i as int)),
    {
        proof {
            assert(bytes@.take(i as int + 1).drop_last() =~= bytes@.take(i as int));
        }
        h = h ^ (bytes[i] as u64);
        h = h.wrapping_mul(FNV_PRIME);
    }
    assert(bytes@.take(n as int) =~= bytes@);
    h
}

// ---------------------------------------------------------------------------
// Paths as the file manager names them.

/// `file://` followed by the path with every byte other than ASCII letters, digits
/// and `/ - _ . ~` written as `%XX` (upper-case hex).
pub open spec fn uri_keep(b: u8) -> bool {
    (48 <= b <= 57) || (65 <= b <= 90) || (97 <= b <= 122) || b == 47 || b == 45 || b == 95 || b == 46 || b == 126
}

/// Upper-case hex digit of a nibble.
pub open spec fn upper_hex(v: int) -> char {
    if v < 10 { (('0' as int) + v) as char } else { (('A' as int) + v - 10) as char }
}

/// The text that one path byte becomes in a URI.
pub open spec fn uri_byte(b: u8) -> Seq<char> {
    if uri_keep(b) {
        seq![b as char]
    } else {
        seq!['%', upper_hex((b / 16) as int), upper_hex((b % 16) as int)]
    }
}

/// The escaped form of path bytes.
pub open spec fn uri_escape(bs: Seq<u8>) -> Seq<char>
    decreases bs.len(),
{
    if bs.len() == 0 {
        Seq::empty()
    } else {
        uri_escape(bs.drop_last()) + uri_byte(bs.last())
    }
}

fn upper_hex_exec(v: u8) -> (c: char)
    requires
        v < 16,
    ensures
        c == upper_hex(v as int),
{
    if v < 10 {
        let b: u8 = 48u8 + v;
        b as char
    } else {
        let b: u8 = 55u8 + v;
        b as char
    }
}

/// `file://` URI of a path, as `text/uri-list` expects it.
pub fn path_to_uri(path: &str) -> (r: String)
    ensures
        r@ == "file://"@ + uri_escape(path.spec_bytes()),
{
    let raw = path.as_bytes();
    let mut out = owned("file://");
    let n = raw.len();
    for i in 0..n
        invariant
            n == raw@.len(),
            out@ == "file://"@ + uri_escape(raw@.take(i as int)),
    {
        proof {
            assert(raw@.take(i as int + 1).drop_last() =~= raw@.take(i as int));
        }
        let b = raw[i];
        let keep = (b >= 48 && b <= 57) || (b >= 65 && b <= 90) || (b >= 97 && b <= 122) || b == 47
            || b == 45 || b == 95 || b == 46 || b == 126;
        if keep {
            out.push(b as char);
        } else {
            out.push('%');
            out.push(upper_hex_exec(b / 16));
            out.push(upper_hex_exec(b % 16));
        }
        proof {
            assert(out@ =~= "file://"@ + uri_escape(raw@.take(i as int)) + uri_byte(b));
        }
    }
    assert(raw@.take(n as int) =~= raw@);
    out
}

/// The `text/uri-list` form of a list of paths: their URIs joined by CRLF.
pub open spec fn uri_list_text(paths: Seq<Seq<char>>) -> Seq<char>
    decreases paths.len(),
{
    if paths.len() == 0 {
        Seq::empty()
    } else if paths.len() == 1 {
        "file://"@ + uri_escape(vstd::utf8::encode_utf8(paths[0]))
    } else {
        uri_list_text(paths.drop_last()) + "\r\n"@ + "file://"@ + uri_escape(vstd::utf8::encode_utf8(paths.last()))
    }
}

/// The `text/uri-list` form of a list of paths.
pub fn uri_list(paths: &Vec<String>) -> (r: String)
    ensures
        r@ == uri_list_text(paths@.map_values(|p: String| p@)),
{
    let ghost views = paths@.map_values(|p: String| p@);
    let mut out = String::new();
    let n = paths.len();
    for i in 0..n
        invariant
            n == paths@.len(),
            views == paths@.map_values(|p: String| p@),
            out@ == uri_list_text(views.take(i as int)),
    {
        proof {
            assert(views.take(i as int + 1).drop_last() =~= views.take(i as int));
            assert(views.take(i as int + 1).last() == paths@[i as int]@);
        }
        if i > 0 {
            out.push_str("\r\n");
        }
        let u = path_to_uri(paths[i].as_str());
        out.push_str(u.as_str());
        proof {
            if i == 0 {
                assert(views.take(1) =~= seq![views[0]]);
                assert(out@ =~= uri_list_text(views.take(1)));
            } else {
                assert(out@ =~= uri_list_text(views.take(i as int + 1)));
            }
        }
    }
    assert(views.take(n as int) =~= views);
    out
}

/// Value of a hex digit byte (either case).
pub fn hex_nibble(b: u8) -> (r: Option<u8>)
    ensures
        r is Some <==> crate::hexcodec::hex_val(b) >= 0,
        r is Some ==> r->0 == crate::hexcodec::hex_val(b),
{
    if b >= 48 && b <= 57 {
        Some(b - 48)
    } else if b >= 97 && b <= 102 {
        Some(b - 87)
    } else if b >= 65 && b <= 70 {
        Some(b - 55)
    } else {
        None
    }
}

/// Bytes with `%XX` escapes (either case) replaced by the byte they stand for;
/// a `%` not followed by two hex digits stays as it is.
pub open spec fn pct_decode(bs: Seq<u8>) -> Seq<u8>
    decreases bs.len(),
{
    if bs.len() == 0 {
        Seq::empty()
    } else if bs[0] == 37 && bs.len() >= 3 && crate::hexcodec::hex_val(bs[1]) >= 0
        && crate::hexcodec::hex_val(bs[2]) >= 0 {
        seq![(16 * crate::hexcodec::hex_val(bs[1]) + crate::hexcodec::hex_val(bs[2])) as u8] + pct_decode(bs.skip(3))
    } else {
        seq![bs[0]] + pct_decode(bs.skip(1))
    }
}

/// Text that `String::from_utf8_lossy` makes of bytes.
pub uninterp spec fn utf8_lossy(bytes: Seq<u8>) -> Seq<char>;

/// `String::from_utf8_lossy(..).into_owned()`: valid UTF-8 comes back unchanged,
/// each invalid sequence becomes U+FFFD.
#[verifier::external_body]
fn from_utf8_lossy(bytes: &[u8]) -> (s: String)
    ensures
        s@ == utf8_lossy(bytes@),
        vstd::utf8::valid_utf8(bytes@) ==> s@ == vstd::utf8::decode_utf8(bytes@),
{
    String::from_utf8_lossy(bytes).into_owned()
}

/// Decodes `%XX` escapes of a URI path.
pub fn percent_decode(s: &str) -> (r: String)
    ensures
        r@ == utf8_lossy(pct_decode(s.spec_bytes())),
        vstd::utf8::valid_utf8(pct_decode(s.spec_bytes()))
            ==> r@ == vstd::utf8::decode_utf8(pct_decode(s.spec_bytes())),
{
    let bytes = s.as_bytes();
    let n = bytes.len();
    let mut out: Vec<u8> = Vec::new();
    let mut i: usize = 0;
    proof {
        assert(bytes@.skip(0) =~= bytes@);
        assert(out@ + pct_decode(bytes@) =~= pct_decode(bytes@));
    }
    while i < n
        invariant
            n == bytes@.len(),
            i <= n,
            out@ + pct_decode(bytes@.skip(i as int)) == pct_decode(bytes@),
        decreases n - i,
    {
        let ghost rest = bytes@.skip(i as int);
        if bytes[i] == 37 && n >= 3 && i < n - 2 {
            let a = hex_nibble(bytes[i + 1]);
            let b = hex_nibble(bytes[i + 2]);
            if a.is_some() && b.is_some() {
                let v: u8 = a.unwrap() * 16 + b.unwrap();
                proof {
                    assert(rest[0] == bytes@[i as int]);
                    assert(rest[1] == bytes@[i + 1]);
                    assert(rest[2] == bytes@[i + 2]);
                    assert(rest.skip(3) =~= bytes@.skip(i + 3));
                    assert(out@.push(v) + pct_decode(bytes@.skip(i + 3)) =~= out@ + pct_decode(rest));
                }
                out.push(v);
                i = i + 3;
                continue;
            }
        }
        proof {
            assert(rest[0] == bytes@[i as int]);
            if rest.len() >= 3 {
                assert(rest[1] == bytes@[i + 1]);
                assert(rest[2] == bytes@[i + 2]);
            }
            assert(rest.skip(1) =~= bytes@.skip(i + 1));
            assert(out@.push(bytes@[i as int]) + pct_decode(bytes@.skip(i + 1)) =~= out@ + pct_decode(rest));
        }
        out.push(bytes[i]);
        i = i + 1;
    }
    proof {
        assert(bytes@.skip(n as int) =~= Seq::<u8>::empty());
        assert(out@ + Seq::<u8>::empty() =~= out@);
        assert(bytes@.skip(0) =~= bytes@);
    }
    from_utf8_lossy(out.as_slice())
}


// ---------------------------------------------------------------------------
// Lines, trimming and `text/uri-list` parsing.

/// Pieces of `s` between occurrences of `sep`, empty pieces included.
pub open spec fn split_on(s: Seq<char>, sep: char) -> Seq<Seq<char>>
    decreases s.len(),
{
    if s.len() == 0 {
        seq![Seq::empty()]
    } else {
        let r = split_on(s.drop_last(), sep);
        if s.last() == sep {
            r.push(Seq::empty())
        } else {
            r.update(r.len() - 1, r.last().push(s.last()))
        }
    }
}

pub(crate) proof fn lemma_split_on_len(s: Seq<char>, sep: char)
    ensures
        split_on(s, sep).len() >= 1,
    decreases s.len(),
{
    if s.len() > 0 {
        lemma_split_on_len(s.drop_last(), sep);
    }
}

pub(crate) fn split_on_exec(v: &Vec<char>, sep: char) -> (segs: Vec<Vec<char>>)
    ensures
        pieces_view(segs@) == split_on(v@, sep),
{
    let mut segs: Vec<Vec<char>> = Vec::new();
    let mut cur: Vec<char> = Vec::new();
    let n = v.len();
    for i in 0..n
        invariant
            n == v@.len(),
            pieces_view(segs@).push(cur@) == split_on(v@.take(i as int), sep),
    {
        let c = v[i];
        let ghost before = v@.take(i as int);
        proof {
            assert(v@.take(i as int + 1).drop_last() =~= before);
            assert(v@.take(i as int + 1).last() == c);
            lemma_split_on_len(before, sep);
        }
        let ghost prev_segs = pieces_view(segs@);
        let ghost prev_cur = cur@;
        if c == sep {
            let mut done: Vec<char> = Vec::new();
            std::mem::swap(&mut done, &mut cur);
            segs.push(done);
            proof {
                assert(pieces_view(segs@) =~= prev_segs.push(prev_cur));
                assert(pieces_view(segs@).push(cur@) =~= split_on(v@.take(i as int + 1), sep));
            }
        } else {
            cur.push(c);
            proof {
                let r = split_on(before, sep);
                assert(r == prev_segs.push(prev_cur));
                assert(pieces_view(segs@).push(cur@) =~= r.update(r.len() - 1, r.last().push(c)));
            }
        }
    }
    proof {
        assert(v@.take(n as int) =~= v@);
    }
    let ghost prev_segs = pieces_view(segs@);
    let ghost prev_cur = cur@;
    segs.push(cur);
    proof {
        assert(pieces_view(segs@) =~= prev_segs.push(prev_cur));
    }
    segs
}

/// Unicode white space, as `char::is_whitespace` defines it.
pub open spec fn is_ws(c: char) -> bool {
    let u = c as u32;
    (0x09 <= u <= 0x0D) || u == 0x20 || u == 0x85 || u == 0xA0 || u == 0x1680 || (0x2000 <= u <= 0x200A)
        || u == 0x2028 || u == 0x2029 || u == 0x202F || u == 0x205F || u == 0x3000
}

fn is_ws_exec(c: char) -> (r: bool)
    ensures
        r == is_ws(c),
{
    let u = c as u32;
    (u >= 0x09 && u <= 0x0D) || u == 0x20 || u == 0x85 || u == 0xA0 || u == 0x1680 || (u >= 0x2000
        && u <= 0x200A) || u == 0x2028 || u == 0x2029 || u == 0x202F || u == 0x205F || u == 0x3000
}

/// Text without leading white space.
pub open spec fn trim_start(s: Seq<char>) -> Seq<char>
    decreases s.len(),
{
    if s.len() > 0 && is_ws(s[0]) {
        trim_start(s.drop_first())
    } else {
        s
    }
}

/// Text without trailing white space.
pub open spec fn trim_end(s: Seq<char>) -> Seq<char>
    decreases s.len(),
{
    if s.len() > 0 && is_ws(s.last()) {
        trim_end(s.drop_last())
    } else {
        s
    }
}

/// Text without leading and trailing white space (`str::trim`).
pub open spec fn trim(s: Seq<char>) -> Seq<char> {
    trim_end(trim_start(s))
}

pub(crate) fn trim_exec(v: &Vec<char>) -> (r: Vec<char>)
    ensures
        r@ == trim(v@),
{
    let n = v.len();
    let mut a: usize = 0;
    assert(v@.subrange(0, n as int) =~= v@);
    while a < n && is_ws_exec(v[a])
        invariant
            n == v@.len(),
            a <= n,
            trim_start(v@.subrange(a as int, n as int)) == trim_start(v@),
        decreases n - a,
    {
        proof {
            assert(v@.subrange(a as int, n as int).drop_first() =~= v@.subrange(a + 1, n as int));
        }
        a = a + 1;
    }
    let mut b: usize = n;
    let ghost ts = v@.subrange(a as int, n as int);
    assert(trim_start(ts) == ts);
    while b > a && is_ws_exec(v[b - 1])
        invariant
            n == v@.len(),
            a <= b <= n,
            ts == v@.subrange(a as int, n as int),
            trim_end(v@.subrange(a as int, b as int)) == trim_end(ts),
        decreases b - a,
    {
        proof {
            assert(v@.subrange(a as int, b as int).drop_last() =~= v@.subrange(a as int, b - 1));
        }
        b = b - 1;
    }
    let mut out: Vec<char> = Vec::new();
    let mut k: usize = a;
    while k < b
        invariant
            a <= k <= b,
            b <= n,
            n == v@.len(),
            out@ == v@.subrange(a as int, k as int),
        decreases b - k,
    {
        out.push(v[k]);
        k = k + 1;
        assert(out@ =~= v@.subrange(a as int, k as int));
    }
    out
}

/// The path that one line of a `text/uri-list` names, if any: a `file://` URI
/// (percent-decoded) or an absolute path; blank and `#` lines name none.
pub open spec fn uri_line_path(l: Seq<char>) -> Option<Seq<char>> {
    if l.len() == 0 || l[0] == '#' {
        None
    } else if l.len() >= 7 && l.take(7) == "file://"@ {
        Some(utf8_lossy(pct_decode(vstd::utf8::encode_utf8(l.skip(7)))))
    } else if l[0] == '/' {
        Some(l)
    } else {
        None
    }
}

/// The paths that the lines of a text name, in order.
pub open spec fn uri_paths(lines: Seq<Seq<char>>) -> Seq<Seq<char>>
    decreases lines.len(),
{
    if lines.len() == 0 {
        Seq::empty()
    } else {
        let r = uri_paths(lines.drop_last());
        match uri_line_path(trim(lines.last())) {
            Some(p) => r.push(p),
            None => r,
        }
    }
}

fn starts_with_file_scheme(l: &Vec<char>) -> (r: bool)
    ensures
        r == (l@.len() >= 7 && l@.take(7) == "file://"@),
{
    let scheme = chars_of("file://");
    proof {
        reveal_strlit("file://");
    }
    if l.len() < 7 {
        return false;
    }
    let mut i: usize = 0;
    while i < 7
        invariant
            i <= 7,
            scheme@ == "file://"@,
            scheme@.len() == 7,
            l@.len() >= 7,
            forall|j: int| 0 <= j < i ==> l@[j] == scheme@[j],
        decreases 7 - i,
    {
        if l[i] != scheme[i] {
            proof {
                reveal_strlit("file://");
                assert(l@.take(7)[i as int] != "file://"@[i as int]);
            }
            return false;
        }
        i = i + 1;
    }
    proof {
        reveal_strlit("file://");
        assert(l@.take(7) =~= "file://"@);
    }
    true
}

/// The paths that a clipboard text names when it reads as a `text/uri-list`, in
/// order; whether each exists is for the caller to check.
pub fn uri_list_candidates(text: &str) -> (r: Vec<String>)
    ensures
        r@.map_values(|p: String| p@) == uri_paths(split_on(text@, '\n')),
{
    let cs = chars_of(text);
    let lines = split_on_exec(&cs, '\n');
    let ghost lv = pieces_view(lines@);
    let mut out: Vec<String> = Vec::new();
    let n = lines.len();
    for i in 0..n
        invariant
            n == lines@.len(),
            lv == pieces_view(lines@),
            lv == split_on(text@, '\n'),
            out@.map_values(|p: String| p@) == uri_paths(lv.take(i as int)),
    {
        proof {
            assert(lv.take(i as int + 1).drop_last() =~= lv.take(i as int));
            assert(lv.take(i as int + 1).last() == lines@[i as int]@);
        }
        let l = trim_exec(&lines[i]);
        let ghost before = out@.map_values(|p: String| p@);
        if l.len() == 0 || l[0] == '#' {
        } else if starts_with_file_scheme(&l) {
            let mut rest: Vec<char> = Vec::new();
            let mut k: usize = 7;
            while k < l.len()
                invariant
                    7 <= k <= l@.len(),
                    rest@ == l@.subrange(7, k as int),
                decreases l@.len() - k,
            {
                rest.push(l[k]);
                k = k + 1;
                assert(rest@ =~= l@.subrange(7, k as int));
            }
            let rs = string_of(&rest);
            proof {
                assert(rest@ =~= l@.skip(7));
            }
            let p = percent_decode(rs.as_str());
            out.push(p);
            assert(out@.map_values(|p: String| p@) =~= before.push(p@));
        } else if l[0] == '/' {
            let p = string_of(&l);
            out.push(p);
            assert(out@.map_values(|p: String| p@) =~= before.push(p@));
        }
    }
    assert(lv.take(n as int) =~= lv);
    out
}


// ---------------------------------------------------------------------------
// Path components, as `Path::components` gives them on Unix.

/// The named pieces among path pieces (empty pieces and `.` dropped).
pub open spec fn named_pieces(ps: Seq<Seq<char>>) -> Seq<Seq<char>>
    decreases ps.len(),
{
    if ps.len() == 0 {
        Seq::empty()
    } else if is_named(ps.last()) {
        named_pieces(ps.drop_last()).push(ps.last())
    } else {
        named_pieces(ps.drop_last())
    }
}

/// Components of a path: `/` for the root, `.` for a leading current-directory
/// mark, then the named pieces.
pub open spec fn path_components(p: Seq<char>) -> Seq<Seq<char>> {
    let named = named_pieces(split_by(p, false));
    if p.len() > 0 && p[0] == '/' {
        seq![seq!['/']] + named
    } else if p.len() > 0 && p[0] == '.' && (p.len() == 1 || p[1] == '/') {
        seq![seq!['.']] + named
    } else {
        named
    }
}

/// Whether `p` lies within `base`, component by component (`Path::starts_with`).
pub open spec fn path_starts_with(p: Seq<char>, base: Seq<char>) -> bool {
    path_components(base).is_prefix_of(path_components(p))
}

fn is_named_exec(p: &Vec<char>) -> (r: bool)
    ensures
        r == is_named(p@),
{
    if p.len() == 0 {
        return false;
    }
    if p.len() == 1 && p[0] == '.' {
        assert(p@ =~= crate::names::dot());
        return false;
    }
    assert(p@ != crate::names::dot()) by {
        if p@.len() == 1 {
            assert(p@[0] != '.');
        }
    }
    true
}

fn path_components_exec(p: &str) -> (r: Vec<Vec<char>>)
    ensures
        pieces_view(r@) == path_components(p@),
{
    let cs = chars_of(p);
    let segs = crate::names::split_chars(&cs, false);
    let mut out: Vec<Vec<char>> = Vec::new();
    let ghost pre: Seq<Seq<char>>;
    if cs.len() > 0 && cs[0] == '/' {
        let mut root: Vec<char> = Vec::new();
        root.push('/');
        out.push(root);
        proof { pre = seq![seq!['/']]; }
    } else if cs.len() > 0 && cs[0] == '.' && (cs.len() == 1 || cs[1] == '/') {
        let mut cur: Vec<char> = Vec::new();
        cur.push('.');
        out.push(cur);
        proof { pre = seq![seq!['.']]; }
    } else {
        proof { pre = Seq::empty(); }
    }
    assert(pieces_view(out@) =~= pre);
    let ghost sv = pieces_view(segs@);
    let n = segs.len();
    let mut segs = segs;
    let mut i: usize = 0;
    while i < n
        invariant
            n == segs@.len(),
            i <= n,
            sv == pieces_view(segs@),
            sv == split_by(p@, false),
            pieces_view(out@) == pre + named_pieces(sv.take(i as int)),
        decreases n - i,
    {
        proof {
            assert(sv.take(i as int + 1).drop_last() =~= sv.take(i as int));
            assert(sv.take(i as int + 1).last() == segs@[i as int]@);
        }
        if is_named_exec(&segs[i]) {
            let piece = crate::text::string_of(&segs[i]);
            let pc = chars_of(piece.as_str());
            let ghost before = pieces_view(out@);
            out.push(pc);
            proof {
                assert(pieces_view(out@) =~= before.push(sv[i as int]));
                assert(pre + named_pieces(sv.take(i as int)).push(sv[i as int])
                    =~= pre + named_pieces(sv.take(i as int + 1)));
            }
        }
        i = i + 1;
    }
    assert(sv.take(n as int) =~= sv);
    out
}

fn chars_eq(a: &Vec<char>, b: &Vec<char>) -> (r: bool)
    ensures
        r == (a@ == b@),
{
    if a.len() != b.len() {
        return false;
    }
    let n = a.len();
    let mut i: usize = 0;
    while i < n
        invariant
            n == a@.len(),
            n == b@.len(),
            i <= n,
            forall|j: int| 0 <= j < i ==> a@[j] == b@[j],
        decreases n - i,
    {
        if a[i] != b[i] {
            return false;
        }
        i = i + 1;
    }
    assert(a@ =~= b@);
    true
}

/// Whether path `p` lies within `base`, component by component.
pub fn path_starts_with_exec(p: &str, base: &str) -> (r: bool)
    ensures
        r == path_starts_with(p@, base@),
{
    let pc = path_components_exec(p);
    let bc = path_components_exec(base);
    let ghost pv = pieces_view(pc@);
    let ghost bv = pieces_view(bc@);
    assert(pv.len() == pc@.len() && bv.len() == bc@.len());
    if bc.len() > pc.len() {
        assert(path_components(base@).len() > path_components(p@).len());
        return false;
    }
    let mut i: usize = 0;
    while i < bc.len()
        invariant
            i <= bc@.len(),
            bc@.len() <= pc@.len(),
            pv == pieces_view(pc@),
            bv == pieces_view(bc@),
            bv == path_components(base@),
            pv == path_components(p@),
            forall|j: int| 0 <= j < i ==> bv[j] == pv[j],
        decreases bc@.len() - i,
    {
        if !chars_eq(&bc[i], &pc[i]) {
            assert(bv[i as int] != pv[i as int]);
            assert(pv.subrange(0, bv.len() as int)[i as int] == pv[i as int]);
            return false;
        }
        i = i + 1;
    }
    assert(bv =~= pv.subrange(0, bv.len() as int));
    true
}

/// The name under which a copied path is offered: its last component, or `item`.
pub open spec fn item_name(path: Seq<char>) -> Seq<char> {
    match last_named(split_by(path, false)) {
        Some(c) => if c == dotdot() { "item"@ } else { c },
        None => "item"@,
    }
}

/// The name under which a copied path is offered.
pub fn item_name_exec(path: &str) -> (r: String)
    ensures
        r@ == item_name(path@),
{
    let cs = chars_of(path);
    let segs = crate::names::split_chars(&cs, false);
    let ghost sv = pieces_view(segs@);
    let mut i: usize = segs.len();
    while i > 0
        invariant
            i <= segs@.len(),
            sv == pieces_view(segs@),
            sv == split_by(path@, false),
            forall|k: int| i <= k < sv.len() ==> !is_named(sv[k]),
        decreases i,
    {
        if is_named_exec(&segs[i - 1]) {
            proof {
                assert(sv[i - 1] == segs@[i - 1]@);
                crate::names::lemma_last_named_found(sv, i - 1);
            }
            let p = &segs[i - 1];
            if p.len() == 2 && p[0] == '.' && p[1] == '.' {
                assert(p@ =~= dotdot());
                return owned("item");
            }
            assert(p@ != dotdot()) by {
                if p@.len() == 2 {
                    assert(p@[0] != '.' || p@[1] != '.');
                }
            }
            return string_of(p);
        }
        proof {
            assert(sv[i - 1] == segs@[i - 1]@);
        }
        i = i - 1;
    }
    proof {
        crate::names::lemma_last_named_none(sv);
    }
    owned("item")
}


// ---------------------------------------------------------------------------
// Ordering text the way `String`'s `Ord` does (code point by code point, which is
// the byte order of UTF-8).

/// Lexicographic `<=` on text.
pub open spec fn lex_le(a: Seq<char>, b: Seq<char>) -> bool
    decreases a.len(),
{
    if a.len() == 0 {
        true
    } else if b.len() == 0 {
        false
    } else if a[0] != b[0] {
        (a[0] as u32) < (b[0] as u32)
    } else {
        lex_le(a.drop_first(), b.drop_first())
    }
}

/// [`lex_le`] as a relation.
pub open spec fn text_order() -> spec_fn(Seq<char>, Seq<char>) -> bool {
    |a: Seq<char>, b: Seq<char>| lex_le(a, b)
}

proof fn lemma_lex_refl(a: Seq<char>)
    ensures
        lex_le(a, a),
    decreases a.len(),
{
    if a.len() > 0 {
        lemma_lex_refl(a.drop_first());
    }
}

proof fn lemma_lex_antisym(a: Seq<char>, b: Seq<char>)
    requires
        lex_le(a, b),
        lex_le(b, a),
    ensures
        a == b,
    decreases a.len(),
{
    if a.len() == 0 {
        assert(b.len() == 0);
        assert(a =~= b);
    } else {
        assert(b.len() > 0);
        if a[0] == b[0] {
            lemma_lex_antisym(a.drop_first(), b.drop_first());
            assert(a =~= seq![a[0]] + a.drop_first());
            assert(b =~= seq![b[0]] + b.drop_first());
        } else {
            assert((a[0] as u32) != (b[0] as u32)) by {
                vstd::utf8::char_u32_cast(a[0], a[0] as u32);
            }
        }
    }
}

proof fn lemma_lex_trans(a: Seq<char>, b: Seq<char>, c: Seq<char>)
    requires
        lex_le(a, b),
        lex_le(b, c),
    ensures
        lex_le(a, c),
    decreases a.len(),
{
    if a.len() > 0 {
        assert(b.len() > 0);
        assert(c.len() > 0);
        if a[0] == b[0] && b[0] == c[0] {
            lemma_lex_trans(a.drop_first(), b.drop_first(), c.drop_first());
        } else if a[0] == c[0] {
            assert((a[0] as u32) == (c[0] as u32));
        }
    }
}

proof fn lemma_lex_total(a: Seq<char>, b: Seq<char>)
    ensures
        lex_le(a, b) || lex_le(b, a),
    decreases a.len(),
{
    if a.len() > 0 && b.len() > 0 {
        if a[0] == b[0] {
            lemma_lex_total(a.drop_first(), b.drop_first());
        } else {
            assert((a[0] as u32) != (b[0] as u32)) by {
                if (a[0] as u32) == (b[0] as u32) {
                    vstd::utf8::char_u32_cast(a[0], a[0] as u32);
                    vstd::utf8::char_u32_cast(b[0], b[0] as u32);
                }
            }
        }
    }
}

/// Lexicographic order on text is a total order.
pub proof fn law_text_order_total()
    ensures
        vstd::relations::total_ordering(text_order()),
{
    let r = text_order();
    assert forall|x: Seq<char>| #[trigger] r(x, x) by {
        lemma_lex_refl(x);
    }
    assert forall|x: Seq<char>, y: Seq<char>| #[trigger] r(x, y) && #[trigger] r(y, x) implies x == y by {
        lemma_lex_antisym(x, y);
    }
    assert forall|x: Seq<char>, y: Seq<char>, z: Seq<char>|
        #[trigger] r(x, y) && #[trigger] r(y, z) implies r(x, z) by {
        lemma_lex_trans(x, y, z);
    }
    assert forall|x: Seq<char>, y: Seq<char>| #[trigger] r(x, y) || #[trigger] r(y, x) by {
        lemma_lex_total(x, y);
    }
}

fn lex_le_exec(a: &Vec<char>, b: &Vec<char>) -> (r: bool)
    ensures
        r == lex_le(a@, b@),
{
    let mut i: usize = 0;
    assert(a@.skip(0) =~= a@);
    assert(b@.skip(0) =~= b@);
    while i < a.len() && i < b.len()
        invariant
            i <= a@.len(),
            i <= b@.len(),
            lex_le(a@.skip(i as int), b@.skip(i as int)) == lex_le(a@, b@),
        decreases a@.len() - i,
    {
        proof {
            assert(a@.skip(i as int)[0] == a@[i as int]);
            assert(b@.skip(i as int)[0] == b@[i as int]);
        }
        if a[i] != b[i] {
            return (a[i] as u32) < (b[i] as u32);
        }
        proof {
            assert(a@.skip(i as int).drop_first() =~= a@.skip(i + 1));
            assert(b@.skip(i as int).drop_first() =~= b@.skip(i + 1));
        }
        i = i + 1;
    }
    i == a.len()
}

/// Text pieces in the order `String`'s `Ord` gives them.
pub fn sort_texts(v: Vec<Vec<char>>) -> (out: Vec<Vec<char>>)
    ensures
        pieces_view(out@) == pieces_view(v@).sort_by(text_order()),
{
    broadcast use {vstd::seq_lib::group_to_multiset_ensures, vstd::multiset::group_multiset_axioms};
    let ghost src = pieces_view(v@);
    let ghost leq = text_order();
    proof {
        law_text_order_total();
    }
    let mut out: Vec<Vec<char>> = Vec::new();
    assert(src.take(0) =~= Seq::<Seq<char>>::empty());
    for x in it: v
        invariant
            it.seq() == v@,
            src == pieces_view(v@),
            leq == text_order(),
            vstd::relations::total_ordering(leq),
            vstd::relations::sorted_by(pieces_view(out@), leq),
            pieces_view(out@).to_multiset() == src.take(it.index() as int).to_multiset(),
    {
        let ghost before = pieces_view(out@);
        let ghost k = it.index() as int;
        let mut j: usize = 0;
        while j < out.len() && lex_le_exec(&out[j], &x)
            invariant
                j <= out@.len(),
                before == pieces_view(out@),
                forall|m: int| 0 <= m < j ==> lex_le(#[trigger] before[m], x@),
            decreases out@.len() - j,
        {
            j = j + 1;
        }
        proof {
            assert(x@ == src[k]);
            assert(src.take(k + 1) =~= src.take(k).push(src[k]));
            if j < out@.len() {
                assert(!lex_le(before[j as int], x@));
                lemma_lex_total(before[j as int], x@);
            }
        }
        out.insert(j, x);
        proof {
            let after = pieces_view(out@);
            assert(after =~= before.insert(j as int, x@));
            vstd::seq_lib::to_multiset_insert(before, j as int, x@);
            vstd::seq_lib::to_multiset_build(src.take(k), src[k]);
            assert forall|a: int, b: int| 0 <= a < b < after.len() implies #[trigger] leq(after[a], after[b]) by {
                if b < j {
                    assert(leq(before[a], before[b]));
                } else if b == j {
                    assert(lex_le(before[a], x@));
                } else if a < j {
                    assert(leq(before[a], before[b - 1]));
                } else if a == j {
                    if j < before.len() {
                        lemma_lex_total(before[j as int], x@);
                        if b - 1 > j {
                            assert(leq(before[j as int], before[b - 1]));
                            lemma_lex_trans(x@, before[j as int], before[b - 1]);
                        }
                    }
                } else {
                    assert(leq(before[a - 1], before[b - 1]));
                }
            }
        }
    }
    proof {
        assert(src.take(src.len() as int) =~= src);
        src.lemma_sort_by_ensures(leq);
        vstd::seq_lib::lemma_sorted_unique(pieces_view(out@), src.sort_by(leq), leq);
    }
    out
}

// ---------------------------------------------------------------------------
// Fingerprints.

/// Pieces joined by `|`.
pub open spec fn join_bar(ps: Seq<Seq<char>>) -> Seq<char>
    decreases ps.len(),
{
    if ps.len() == 0 {
        Seq::empty()
    } else if ps.len() == 1 {
        ps[0]
    } else {
        join_bar(ps.drop_last()) + seq!['|'] + ps.last()
    }
}

/// The fingerprint piece of one flattened entry: `rel:size:dir` with `dir` as 0 or 1.
pub open spec fn entry_part(e: crate::peer::ClipEntry) -> Seq<char> {
    e.rel@ + ":"@ + decimal(e.size as nat) + ":"@ + (if e.dir { "1"@ } else { "0"@ })
}

/// The fingerprint pieces of flattened entries, in entry order.
pub open spec fn entry_parts(es: Seq<crate::peer::ClipEntry>) -> Seq<Seq<char>> {
    es.map_values(|e: crate::peer::ClipEntry| entry_part(e))
}

/// Whether every path of a non-empty list lies in the inbox.
pub open spec fn all_in_inbox(paths: Seq<String>, inbox: Seq<char>) -> bool {
    paths.len() > 0 && forall|i: int| 0 <= i < paths.len() ==> path_starts_with(#[trigger] paths[i]@, inbox)
}

/// The fingerprint of a snapshot; `entries` is the flattened file list of a `Files`
/// snapshot (empty when it could not be flattened).
pub open spec fn snap_fingerprint(snap: LocalSnap, inbox: Seq<char>, entries: Seq<crate::peer::ClipEntry>) -> Seq<char> {
    match snap {
        LocalSnap::Empty => Seq::empty(),
        LocalSnap::Text(t) => "t:"@ + decimal(vstd::utf8::encode_utf8(t@).len()) + ":"@
            + decimal(fnv1a(vstd::utf8::encode_utf8(t@)) as nat),
        LocalSnap::Image { width, height, rgba } => "i:"@ + decimal(width as nat) + "x"@ + decimal(height as nat)
            + ":"@ + decimal(rgba@.len()) + ":"@ + decimal(fnv1a(rgba@) as nat),
        LocalSnap::Files(paths) => if all_in_inbox(paths@, inbox) {
            "inbox:"@ + decimal(paths@.len())
        } else {
            "f:"@ + join_bar(entry_parts(entries).sort_by(text_order()))
        },
    }
}

fn entry_part_exec(e: &crate::peer::ClipEntry) -> (r: Vec<char>)
    ensures
        r@ == entry_part(*e),
{
    let mut s = owned(e.rel.as_str());
    s.push_str(":");
    push_decimal(&mut s, e.size);
    s.push_str(":");
    if e.dir {
        s.push_str("1");
    } else {
        s.push_str("0");
    }
    chars_of(s.as_str())
}

fn join_bar_exec(ps: &Vec<Vec<char>>) -> (r: String)
    ensures
        r@ == join_bar(pieces_view(ps@)),
{
    let ghost pv = pieces_view(ps@);
    let mut out = String::new();
    let n = ps.len();
    for i in 0..n
        invariant
            n == ps@.len(),
            pv == pieces_view(ps@),
            out@ == join_bar(pv.take(i as int)),
    {
        proof {
            assert(pv.take(i as int + 1).drop_last() =~= pv.take(i as int));
            assert(pv.take(i as int + 1).last() == ps@[i as int]@);
        }
        if i > 0 {
            out.push('|');
        }
        let piece = string_of(&ps[i]);
        out.push_str(piece.as_str());
        proof {
            if i == 0 {
                assert(pv.take(1) =~= seq![pv[0]]);
            }
            assert(out@ =~= join_bar(pv.take(i as int + 1)));
        }
    }
    assert(pv.take(n as int) =~= pv);
    out
}

/// The fingerprint of a snapshot, by which an unchanged or just-received clipboard
/// is recognised; `entries` is the flattened file list of a `Files` snapshot.
pub fn fingerprint(snap: &LocalSnap, inbox: &str, entries: &Vec<crate::peer::ClipEntry>) -> (r: String)
    ensures
        r@ == snap_fingerprint(*snap, inbox@, entries@),
{
    match snap {
        LocalSnap::Empty => String::new(),
        LocalSnap::Text(t) => {
            let bytes = t.as_str().as_bytes();
            let mut s = owned("t:");
            push_decimal(&mut s, bytes.len() as u64);
            s.push_str(":");
            push_decimal(&mut s, simple_hash(bytes));
            s
        },
        LocalSnap::Image { width, height, rgba } => {
            let mut s = owned("i:");
            push_decimal(&mut s, *width as u64);
            s.push_str("x");
            push_decimal(&mut s, *height as u64);
            s.push_str(":");
            push_decimal(&mut s, rgba.len() as u64);
            s.push_str(":");
            push_decimal(&mut s, simple_hash(rgba.as_slice()));
            s
        },
        LocalSnap::Files(paths) => {
            let mut all = paths.len() > 0;
            let mut i: usize = 0;
            while i < paths.len()
                invariant
                    i <= paths@.len(),
                    all == (paths@.len() > 0 && forall|j: int| 0 <= j < i ==> path_starts_with(#[trigger] paths@[j]@, inbox@)),
                decreases paths@.len() - i,
            {
                if !path_starts_with_exec(paths[i].as_str(), inbox) {
                    all = false;
                }
                i = i + 1;
            }
            if all {
                let mut s = owned("inbox:");
                push_decimal(&mut s, paths.len() as u64);
                return s;
            }
            let mut parts: Vec<Vec<char>> = Vec::new();
            let mut k: usize = 0;
            while k < entries.len()
                invariant
                    k <= entries@.len(),
                    pieces_view(parts@) == entry_parts(entries@.take(k as int)),
                decreases entries@.len() - k,
            {
                let piece = entry_part_exec(&entries[k]);
                proof {
                    assert(entries@.take(k as int + 1) =~= entries@.take(k as int).push(entries@[k as int]));
                    assert(entry_parts(entries@.take(k as int + 1)) =~= entry_parts(entries@.take(k as int)).push(
                        entry_part(entries@[k as int])));
                }
                let ghost prev = pieces_view(parts@);
                parts.push(piece);
                k = k + 1;
                assert(pieces_view(parts@) =~= prev.push(piece@));
            }
            assert(entries@.take(k as int) =~= entries@);
            let sorted = sort_texts(parts);
            let mut s = owned("f:");
            let joined = join_bar_exec(&sorted);
            s.push_str(joined.as_str());
            s
        },
    }
}

/// The fingerprint recorded once received files are on the clipboard.
pub fn inbox_fingerprint(count: usize) -> (r: String)
    ensures
        r@ == "inbox:"@ + decimal(count as nat),
{
    let mut s = owned("inbox:");
    push_decimal(&mut s, count as u64);
    s
}


// ---------------------------------------------------------------------------
// Images.

#[verifier::external_type_specification]
#[verifier::external_body]
pub struct ExImageError(image::ImageError);

/// The PNG that the `image` crate's `PngEncoder` writes for an RGBA8 buffer, if it writes one.
pub uninterp spec fn png_encoding(width: u32, height: u32, rgba: Seq<u8>) -> Option<Seq<u8>>;

/// What `image::load_from_memory(..)?.to_rgba8()` makes of encoded image bytes:
/// width, height and RGBA8 pixels.
pub uninterp spec fn rgba_decoding(bytes: Seq<u8>) -> Option<(nat, nat, Seq<u8>)>;

/// `PngEncoder::new(..).write_image(rgba, width, height, Rgba8)`; the encoder panics
/// unless the buffer holds exactly `4 * width * height` bytes. PNG is lossless, so what
/// decodes from its output is the buffer that went in.
#[verifier::external_body]
fn png_encode_rgba8(width: u32, height: u32, rgba: &[u8]) -> (r: Result<Vec<u8>, image::ImageError>)
    requires
        rgba@.len() == 4 * width * height,
    ensures
        r is Ok <==> png_encoding(width, height, rgba@) is Some,
        r is Ok ==> r->Ok_0@ == png_encoding(width, height, rgba@)->0,
        r is Ok && rgba_decoding(r->Ok_0@) is Some ==> rgba_decoding(r->Ok_0@) == Some(
            (width as nat, height as nat, rgba@),
        ),
{
    let mut out = Vec::new();
    let encoder = image::codecs::png::PngEncoder::new(&mut out);
    match encoder.write_image(rgba, width, height, image::ExtendedColorType::Rgba8) {
        Ok(()) => Ok(out),
        Err(e) => Err(e),
    }
}

/// `image::load_from_memory(bytes)` then `to_rgba8()`: width, height and pixels.
#[verifier::external_body]
fn decode_rgba8(bytes: &[u8]) -> (r: Result<(usize, usize, Vec<u8>), image::ImageError>)
    ensures
        r is Ok <==> rgba_decoding(bytes@) is Some,
        r is Ok ==> rgba_decoding(bytes@) == Some((r->Ok_0.0 as nat, r->Ok_0.1 as nat, r->Ok_0.2@)),
{
    match image::load_from_memory(bytes) {
        Ok(img) => {
            let rgba = img.to_rgba8();
            Ok((rgba.width() as usize, rgba.height() as usize, rgba.into_raw()))
        },
        Err(e) => Err(e),
    }
}

/// Encodes an RGBA8 buffer of `width` by `height` pixels as PNG.
pub fn rgba_to_png(width: u32, height: u32, rgba: &[u8]) -> (r: Result<Vec<u8>, String>)
    requires
        rgba@.len() == 4 * width * height,
    ensures
        r is Ok <==> png_encoding(width, height, rgba@) is Some,
        r is Ok ==> r->Ok_0@ == png_encoding(width, height, rgba@)->0,
        r is Err ==> r->Err_0@ == "png encode failed"@,
        r is Ok && rgba_decoding(r->Ok_0@) is Some
            ==> rgba_decoding(r->Ok_0@) == Some((width as nat, height as nat, rgba@)),
{
    match png_encode_rgba8(width, height, rgba) {
        Ok(png) => Ok(png),
        Err(_) => Err("png encode failed".to_owned()),
    }
}

/// Decodes an image (PNG or another supported format) into width, height and RGBA8 pixels.
pub fn png_to_rgba(png: &[u8]) -> (r: Result<(usize, usize, Vec<u8>), String>)
    ensures
        r is Ok <==> rgba_decoding(png@) is Some,
        r is Ok ==> rgba_decoding(png@) == Some((r->Ok_0.0 as nat, r->Ok_0.1 as nat, r->Ok_0.2@)),
        r is Err ==> r->Err_0@ == "image decode failed"@,
{
    match decode_rgba8(png) {
        Ok(t) => Ok(t),
        Err(_) => Err("image decode failed".to_owned()),
    }
}

/// The extension of a path's last component (`Path::extension`), if it has one.
pub open spec fn path_extension(path: Seq<char>) -> Option<Seq<char>> {
    match last_named(split_by(path, false)) {
        Some(name) => if name == dotdot() {
            None
        } else {
            match last_dot(name) {
                Some(i) => if i == 0 { None } else { Some(name.skip(i + 1)) },
                None => None,
            }
        },
        None => None,
    }
}

/// Index of the last `.` in a name.
pub open spec fn last_dot(name: Seq<char>) -> Option<int>
    decreases name.len(),
{
    if name.len() == 0 {
        None
    } else if name.last() == '.' {
        Some(name.len() - 1)
    } else {
        last_dot(name.drop_last())
    }
}


/// ASCII upper-case letters made lower-case (`str::to_ascii_lowercase`).
pub open spec fn ascii_lower(s: Seq<char>) -> Seq<char> {
    Seq::new(s.len(), |i: int| if 'A' <= s[i] <= 'Z' { ((s[i] as u32) + 32) as char } else { s[i] })
}

/// Whether a path's extension names an image format that is read as an image.
pub open spec fn image_ext(path: Seq<char>) -> bool {
    let e = ascii_lower(match path_extension(path) { Some(x) => x, None => Seq::empty() });
    e == "png"@ || e == "jpg"@ || e == "jpeg"@ || e == "webp"@ || e == "bmp"@ || e == "gif"@
}

/// The extensions of files that are read and sent as images: `png`, `jpg`, `jpeg`,
/// `webp`, `bmp` and `gif`, in any letter case.
pub open spec fn image_extension_listed(e: Seq<char>) -> bool {
    let l = Seq::new(e.len(), |i: int| if 'A' <= e[i] <= 'Z' { ((e[i] as u32) + 32) as char } else { e[i] });
    ||| l == seq!['p', 'n', 'g']
    ||| l == seq!['j', 'p', 'g']
    ||| l == seq!['j', 'p', 'e', 'g']
    ||| l == seq!['w', 'e', 'b', 'p']
    ||| l == seq!['b', 'm', 'p']
    ||| l == seq!['g', 'i', 'f']
}

proof fn lemma_last_dot_after(x: Seq<char>, e: Seq<char>)
    requires
        forall|i: int| 0 <= i < e.len() ==> e[i] != '.',
    ensures
        last_dot(x.push('.') + e) == Some(x.len() as int),
    decreases e.len(),
{
    if e.len() == 0 {
        assert(x.push('.') + e =~= x.push('.'));
    } else {
        let e1 = e.drop_last();
        lemma_last_dot_after(x, e1);
        let n = x.push('.') + e;
        assert(n.drop_last() =~= x.push('.') + e1);
        assert(n.last() == e.last());
    }
}

/// A file `stem.ext` in any directory is sent as an image exactly when its extension,
/// lower-cased, is one of the listed image formats: the stem may hold further dots,
/// and only the part after the last dot counts.
pub proof fn law_image_files_by_extension(dir: Seq<char>, stem: Seq<char>, ext: Seq<char>)
    requires
        stem.len() > 0,
        ext.len() > 0,
        forall|i: int| 0 <= i < stem.len() ==> stem[i] != '/',
        forall|i: int| 0 <= i < ext.len() ==> ext[i] != '/' && ext[i] != '.',
    ensures
        image_ext(dir.push('/') + (stem.push('.') + ext)) == image_extension_listed(ext),
{
    let name = stem.push('.') + ext;
    assert forall|i: int| 0 <= i < name.len() implies !crate::names::is_sep(name[i], false) by {
        if i < stem.len() {
            assert(name[i] == stem[i]);
        } else if i > stem.len() {
            assert(name[i] == ext[i - stem.len() - 1]);
        }
    }
    crate::names::lemma_split_append(dir, name);
    let ps = split_by(dir.push('/') + name, false);
    assert(ps.last() == name);
    assert(name.len() >= 3);
    assert(is_named(name));
    assert(name != dotdot());
    lemma_last_dot_after(stem, ext);
    assert(name.skip(stem.len() as int + 1) =~= ext);
    assert(ascii_lower(ext) =~= Seq::new(ext.len(), |i: int| if 'A' <= ext[i] <= 'Z' { ((ext[i] as u32) + 32) as char } else { ext[i] }));
    reveal_strlit("png");
    reveal_strlit("jpg");
    reveal_strlit("jpeg");
    reveal_strlit("webp");
    reveal_strlit("bmp");
    reveal_strlit("gif");
    assert("png"@ =~= seq!['p', 'n', 'g']);
    assert("jpg"@ =~= seq!['j', 'p', 'g']);
    assert("jpeg"@ =~= seq!['j', 'p', 'e', 'g']);
    assert("webp"@ =~= seq!['w', 'e', 'b', 'p']);
    assert("bmp"@ =~= seq!['b', 'm', 'p']);
    assert("gif"@ =~= seq!['g', 'i', 'f']);
}

/// Every path is sent as an image exactly when it has an extension (as
/// `Path::extension` finds it) that is one of the listed image formats.
pub proof fn law_image_ext_listed(path: Seq<char>)
    ensures
        image_ext(path) == (path_extension(path) matches Some(e) && image_extension_listed(e)),
{
    reveal_strlit("png");
    reveal_strlit("jpg");
    reveal_strlit("jpeg");
    reveal_strlit("webp");
    reveal_strlit("bmp");
    reveal_strlit("gif");
    assert("png"@ =~= seq!['p', 'n', 'g']);
    assert("jpg"@ =~= seq!['j', 'p', 'g']);
    assert("jpeg"@ =~= seq!['j', 'p', 'e', 'g']);
    assert("webp"@ =~= seq!['w', 'e', 'b', 'p']);
    assert("bmp"@ =~= seq!['b', 'm', 'p']);
    assert("gif"@ =~= seq!['g', 'i', 'f']);
    match path_extension(path) {
        None => {
            assert(ascii_lower(Seq::<char>::empty()) =~= Seq::<char>::empty());
        },
        Some(e) => {
            assert(ascii_lower(e) =~= Seq::new(e.len(), |i: int| if 'A' <= e[i] <= 'Z' { ((e[i] as u32) + 32) as char } else { e[i] }));
        },
    }
}

proof fn lemma_last_dot_bound(name: Seq<char>)
    ensures
        last_dot(name) matches Some(i) ==> 0 <= i < name.len(),
    decreases name.len(),
{
    if name.len() > 0 && name.last() != '.' {
        lemma_last_dot_bound(name.drop_last());
    }
}

fn last_dot_exec(name: &Vec<char>) -> (r: Option<usize>)
    ensures
        r is Some <==> last_dot(name@) is Some,
        r is Some ==> r->0 == last_dot(name@)->0,
        r is Some ==> r->0 < name@.len(),
{
    proof {
        lemma_last_dot_bound(name@);
    }
    let mut i: usize = name.len();
    assert(name@.take(i as int) =~= name@);
    while i > 0
        invariant
            i <= name@.len(),
            last_dot(name@.take(i as int)) == last_dot(name@),
        decreases i,
    {
        proof {
            assert(name@.take(i as int).drop_last() =~= name@.take(i - 1));
        }
        if name[i - 1] == '.' {
            return Some(i - 1);
        }
        i = i - 1;
    }
    None
}

fn text_is(v: &Vec<char>, lit: &str) -> (r: bool)
    ensures
        r == (v@ == lit@),
{
    let l = chars_of(lit);
    chars_eq(v, &l)
}

/// Whether a copied path names an image file that is sent as an image.
pub fn image_ext_ok(path: &str) -> (r: bool)
    ensures
        r == image_ext(path@),
        r == (path_extension(path@) matches Some(e) && image_extension_listed(e)),
{
    proof {
        law_image_ext_listed(path@);
    }
    let cs = chars_of(path);
    let segs = crate::names::split_chars(&cs, false);
    let ghost sv = pieces_view(segs@);
    let mut i: usize = segs.len();
    while i > 0 && !is_named_exec(&segs[i - 1])
        invariant
            i <= segs@.len(),
            sv == pieces_view(segs@),
            sv == split_by(path@, false),
            forall|k: int| i <= k < sv.len() ==> !is_named(sv[k]),
        decreases i,
    {
        proof {
            assert(sv[i - 1] == segs@[i - 1]@);
        }
        i = i - 1;
    }
    let mut ext: Vec<char> = Vec::new();
    if i == 0 {
        proof {
            crate::names::lemma_last_named_none(sv);
        }
    } else {
        proof {
            assert(sv[i - 1] == segs@[i - 1]@);
            crate::names::lemma_last_named_found(sv, i - 1);
        }
        let name = &segs[i - 1];
        let is_up = name.len() == 2 && name[0] == '.' && name[1] == '.';
        proof {
            if is_up {
                assert(name@ =~= dotdot());
            } else if name@.len() == 2 {
                assert(name@ != dotdot());
            }
        }
        if !is_up {
            match last_dot_exec(name) {
                Some(d) => {
                    if d > 0 {
                        let mut k: usize = d + 1;
                        while k < name.len()
                            invariant
                                d + 1 <= k <= name@.len(),
                                ext@ == name@.subrange(d + 1, k as int),
                            decreases name@.len() - k,
                        {
                            ext.push(name[k]);
                            k = k + 1;
                            assert(ext@ =~= name@.subrange(d + 1, k as int));
                        }
                        assert(ext@ =~= name@.skip(d + 1));
                    }
                },
                None => {},
            }
        }
    }
    let ghost e0 = match path_extension(path@) { Some(x) => x, None => Seq::<char>::empty() };
    assert(ext@ == e0);
    let mut lower: Vec<char> = Vec::new();
    let n = ext.len();
    for j in 0..n
        invariant
            n == ext@.len(),
            lower@ == ascii_lower(ext@).take(j as int),
    {
        let c = ext[j];
        let lc = if c >= 'A' && c <= 'Z' {
            let u: u32 = (c as u32) + 32;
            let b: u8 = u as u8;
            b as char
        } else {
            c
        };
        lower.push(lc);
        assert(lower@ =~= ascii_lower(ext@).take(j as int + 1));
    }
    assert(lower@ =~= ascii_lower(ext@));
    text_is(&lower, "png") || text_is(&lower, "jpg") || text_is(&lower, "jpeg") || text_is(&lower, "webp")
        || text_is(&lower, "bmp") || text_is(&lower, "gif")
}

/// The image snapshot that the bytes of a copied image file give, if they decode
/// into a non-empty picture no larger than the image limit.
pub fn image_snap_from_bytes(bytes: &[u8]) -> (r: Option<LocalSnap>)
    ensures
        bytes@.len() == 0 || bytes@.len() > crate::peer::CLIP_MAX_PNG ==> r is None,
        bytes@.len() > 0 && bytes@.len() <= crate::peer::CLIP_MAX_PNG ==> match rgba_decoding(bytes@) {
            None => r is None,
            Some(d) => if d.0 == 0 || d.1 == 0 {
                r is None
            } else {
                r matches Some(LocalSnap::Image { width, height, rgba })
                    && width == d.0 && height == d.1 && rgba@ == d.2
            },
        },
{
    if bytes.len() == 0 || bytes.len() as u64 > crate::peer::CLIP_MAX_PNG {
        return None;
    }
    let (w, h, rgba) = match png_to_rgba(bytes) {
        Ok(t) => t,
        Err(_) => return None,
    };
    if w == 0 || h == 0 {
        return None;
    }
    Some(LocalSnap::Image { width: w, height: h, rgba })
}

/// Whether an image snapshot's buffer holds exactly its pixels.
pub open spec fn image_well_formed(snap: LocalSnap) -> bool {
    snap matches LocalSnap::Image { width, height, rgba } ==> width <= u32::MAX && height <= u32::MAX
        && rgba@.len() == 4 * width * height
}

/// The payload to send for a snapshot, if any. For a `Files` snapshot, `files` are the
/// copied paths that still exist as files or folders, as (name, path) pairs, and
/// `files_fit` says whether they flatten within the transfer limits.
pub fn snap_to_out(snap: LocalSnap, files: Vec<(String, String)>, files_fit: bool) -> (r: Option<ClipOut>)
    requires
        image_well_formed(snap),
    ensures
        snap is Empty ==> r is None,
        (snap matches LocalSnap::Text(t) ==> (vstd::utf8::encode_utf8(t@).len() > CLIP_MAX_TEXT ==> r is None)
            && (vstd::utf8::encode_utf8(t@).len() <= CLIP_MAX_TEXT ==> (r matches Some(ClipOut::Text(o)) && o@ == t@))),
        (snap matches LocalSnap::Image { width, height, rgba } ==> match png_encoding(width as u32, height as u32, rgba@) {
            None => r is None,
            Some(png) => if png.len() <= crate::peer::CLIP_MAX_PNG {
                r matches Some(ClipOut::Png(p)) && p@ == png
            } else {
                r is None
            },
        }),
        (snap is Files ==> (files@.len() == 0 || !files_fit ==> r is None)
            && (files@.len() > 0 && files_fit ==> (r matches Some(ClipOut::Files(f)) && f@ == files@))),
{
    match snap {
        LocalSnap::Empty => None,
        LocalSnap::Text(t) => {
            if t.as_str().as_bytes().len() as u64 > CLIP_MAX_TEXT {
                return None;
            }
            Some(ClipOut::Text(t))
        },
        LocalSnap::Image { width, height, rgba } => {
            match rgba_to_png(width as u32, height as u32, rgba.as_slice()) {
                Ok(png) => {
                    if png.len() as u64 <= crate::peer::CLIP_MAX_PNG {
                        Some(ClipOut::Png(png))
                    } else {
                        None
                    }
                },
                Err(_) => None,
            }
        },
        LocalSnap::Files(_) => {
            if files.len() == 0 {
                return None;
            }
            if !files_fit {
                return None;
            }
            Some(ClipOut::Files(files))
        },
    }
}


// ---------------------------------------------------------------------------
// Laws.

/// Files that were received into the inbox, once on the clipboard, have the same
/// fingerprint that was recorded when they were applied, so they are not sent back.
pub proof fn law_inbox_files_not_echoed(paths: Vec<String>, inbox: Seq<char>, entries: Seq<crate::peer::ClipEntry>)
    requires
        all_in_inbox(paths@, inbox),
    ensures
        snap_fingerprint(LocalSnap::Files(paths), inbox, entries) == "inbox:"@ + decimal(paths@.len()),
{
}

/// The fingerprint of a file list does not depend on the order of its entries.
pub proof fn law_files_fingerprint_order_free(a: Seq<crate::peer::ClipEntry>, b: Seq<crate::peer::ClipEntry>)
    requires
        entry_parts(a).to_multiset() == entry_parts(b).to_multiset(),
    ensures
        join_bar(entry_parts(a).sort_by(text_order())) == join_bar(entry_parts(b).sort_by(text_order())),
{
    law_text_order_total();
    entry_parts(a).lemma_sort_by_ensures(text_order());
    entry_parts(b).lemma_sort_by_ensures(text_order());
    vstd::seq_lib::lemma_sorted_unique(
        entry_parts(a).sort_by(text_order()),
        entry_parts(b).sort_by(text_order()),
        text_order(),
    );
}

proof fn lemma_escape_front(b: Seq<u8>)
    requires
        b.len() > 0,
    ensures
        uri_escape(b) == uri_byte(b[0]) + uri_escape(b.drop_first()),
    decreases b.len(),
{
    if b.len() == 1 {
        assert(b.drop_last() =~= Seq::<u8>::empty());
        assert(b.drop_first() =~= Seq::<u8>::empty());
        assert(uri_escape(b.drop_last()) == Seq::<char>::empty());
        assert(uri_escape(b.drop_first()) == Seq::<char>::empty());
        assert(b.last() == b[0]);
        assert(uri_escape(b) =~= uri_byte(b[0]));
    } else {
        lemma_escape_front(b.drop_last());
        assert(b.drop_first().drop_last() =~= b.drop_last().drop_first());
        assert(b.drop_last()[0] == b[0]);
        assert(b.drop_first().last() == b.last());
        assert(uri_escape(b) =~= uri_byte(b[0]) + uri_escape(b.drop_first()));
    }
}

proof fn lemma_escape_ascii(b: Seq<u8>)
    ensures
        forall|i: int| 0 <= i < uri_escape(b).len() ==> (#[trigger] uri_escape(b)[i] as u32) < 128,
    decreases b.len(),
{
    if b.len() > 0 {
        lemma_escape_ascii(b.drop_last());
        let x = b.last();
        assert forall|i: int| 0 <= i < uri_byte(x).len() implies (#[trigger] uri_byte(x)[i] as u32) < 128 by {
            if !uri_keep(x) {
                assert(x / 16 < 16);
                assert(x % 16 < 16);
            }
        }
        let l = uri_escape(b.drop_last());
        assert forall|i: int| 0 <= i < uri_escape(b).len() implies (#[trigger] uri_escape(b)[i] as u32) < 128 by {
            if i < l.len() {
                assert(uri_escape(b)[i] == l[i]);
            } else {
                assert(uri_escape(b)[i] == uri_byte(x)[i - l.len()]);
            }
        }
    }
}

spec fn ascii_bytes(cs: Seq<char>) -> Seq<u8> {
    Seq::new(cs.len(), |i: int| (cs[i] as u32) as u8)
}

proof fn lemma_pct_decode_escape(b: Seq<u8>)
    ensures
        pct_decode(ascii_bytes(uri_escape(b))) == b,
    decreases b.len(),
{
    if b.len() == 0 {
        assert(ascii_bytes(uri_escape(b)) =~= Seq::<u8>::empty());
    } else {
        lemma_escape_front(b);
        let x = b[0];
        let head = uri_byte(x);
        let tail = uri_escape(b.drop_first());
        let all = ascii_bytes(uri_escape(b));
        lemma_pct_decode_escape(b.drop_first());
        if uri_keep(x) {
            assert(all[0] == x);
            assert(all.skip(1) =~= ascii_bytes(tail));
            assert(b =~= seq![x] + b.drop_first());
        } else {
            let hi = (x / 16) as int;
            let lo = (x % 16) as int;
            assert(all[0] == 37);
            assert(all[1] == (upper_hex(hi) as u32) as u8);
            assert(all[2] == (upper_hex(lo) as u32) as u8);
            assert(crate::hexcodec::hex_val(all[1]) == hi);
            assert(crate::hexcodec::hex_val(all[2]) == lo);
            assert(all.skip(3) =~= ascii_bytes(tail));
            assert((16 * hi + lo) as u8 == x);
            assert(b =~= seq![x] + b.drop_first());
        }
    }
}

/// A path written into a `text/uri-list` by [`path_to_uri`] is read back by
/// [`uri_list_candidates`] as the same bytes: percent-decoding undoes the escaping.
pub proof fn law_uri_escape_roundtrip(b: Seq<u8>)
    ensures
        pct_decode(vstd::utf8::encode_utf8(uri_escape(b))) == b,
{
    lemma_escape_ascii(b);
    crate::hexcodec::lemma_ascii_utf8(uri_escape(b));
    assert(vstd::utf8::encode_utf8(uri_escape(b)) =~= ascii_bytes(uri_escape(b)));
    lemma_pct_decode_escape(b);
}

/// The path a `file://` URI made by [`path_to_uri`] names is read back unchanged:
/// the decoded bytes are valid UTF-8 (so [`percent_decode`] reads them exactly) and
/// they spell the original path.
pub proof fn law_path_uri_roundtrip(p: Seq<char>)
    ensures
        vstd::utf8::valid_utf8(pct_decode(vstd::utf8::encode_utf8(uri_escape(vstd::utf8::encode_utf8(p))))),
        vstd::utf8::decode_utf8(pct_decode(vstd::utf8::encode_utf8(uri_escape(vstd::utf8::encode_utf8(p))))) == p,
{
    law_uri_escape_roundtrip(vstd::utf8::encode_utf8(p));
    vstd::utf8::encode_utf8_valid_utf8(p);
    vstd::utf8::encode_utf8_decode_utf8(p);
}

// ---------------------------------------------------------------------------
// Retrying a failed send.

/// Seconds to wait before sending the same clipboard again after `fails` failures in
/// a row: 2, 4, 8, ... at most 60.
pub open spec fn retry_secs(fails: u32) -> nat {
    let p = if fails - 1 >= 32 { u32::MAX as nat } else { vstd::arithmetic::power2::pow2((fails - 1) as nat) };
    if 2 * p > 60 { 60 } else { 2 * p }
}

/// The clipboard content whose send failed, how often in a row, and when
/// (monotonic nanoseconds) it may be tried again.
#[derive(Debug, Clone)]
pub struct SendGate {
    pub fp: String,
    pub fails: u32,
    pub next_try: u128,
}

/// Whether a pending retry holds back sending content with fingerprint `fp` at `now`.
pub fn held_back(gate: &Option<SendGate>, fp: &str, now: u128) -> (r: bool)
    ensures
        r == (gate is Some && gate->0.fp@ == fp@ && now < gate->0.next_try),
{
    match gate {
        Some(g) => str_eq(g.fp.as_str(), fp) && now < g.next_try,
        None => false,
    }
}

/// The retry state after sending content with fingerprint `fp` failed at `now`.
pub fn after_failure(gate: &Option<SendGate>, fp: &str, now: u128) -> (r: SendGate)
    requires
        gate is Some && gate->0.fp@ == fp@ ==> gate->0.fails < u32::MAX,
        now <= u128::MAX - 60_000_000_000,
    ensures
        r.fp@ == fp@,
        (gate is Some && gate->0.fp@ == fp@) ==> r.fails == gate->0.fails + 1,
        !(gate is Some && gate->0.fp@ == fp@) ==> r.fails == 1,
        r.next_try == now + retry_secs(r.fails) * 1_000_000_000,
{
    let fails: u32 = match gate {
        Some(g) => if str_eq(g.fp.as_str(), fp) { g.fails + 1 } else { 1 },
        None => 1,
    };
    let e: u32 = fails - 1;
    let mut p: u64 = 1;
    let capped: u32 = if e > 5 { 5 } else { e };
    let mut k: u32 = 0;
    proof {
        vstd::arithmetic::power2::lemma2_to64();
    }
    while k < capped
        invariant
            k <= capped <= 5,
            p == vstd::arithmetic::power2::pow2(k as nat),
        decreases capped - k,
    {
        proof {
            vstd::arithmetic::power2::lemma_pow2_adds(k as nat, 1);
            vstd::arithmetic::power2::lemma2_to64();
        }
        p = p * 2;
        k = k + 1;
    }
    proof {
        if e > 5 && e < 32 {
            vstd::arithmetic::power2::lemma_pow2_strictly_increases(5, e as nat);
        }
    }
    let secs: u64 = if e > 5 || 2 * p > 60 { 60 } else { 2 * p };
    SendGate { fp: owned(fp), fails, next_try: now + (secs as u128) * 1_000_000_000 }
}


/// Claims content with fingerprint `fp` for sending at `now`: nothing is sent for an
/// empty fingerprint, for content held back by a pending retry, or for content that
/// was already sent last. Otherwise `last` becomes `fp` and its previous value comes
/// back, so a failed send can put it back.
pub fn claim_send(gate: &Option<SendGate>, last: &mut String, fp: &str, now: u128) -> (prev: Option<String>)
    ensures
        (fp@.len() == 0 || (gate is Some && gate->0.fp@ == fp@ && now < gate->0.next_try) || old(last)@ == fp@)
            ==> (prev is None && final(last)@ == old(last)@),
        !(fp@.len() == 0 || (gate is Some && gate->0.fp@ == fp@ && now < gate->0.next_try) || old(last)@ == fp@)
            ==> (prev matches Some(p) && p@ == old(last)@ && final(last)@ == fp@),
{
    if fp.is_empty() || held_back(gate, fp, now) || str_eq(last.as_str(), fp) {
        return None;
    }
    let p = owned(last.as_str());
    *last = owned(fp);
    Some(p)
}

/// After a failed send of `fp`, puts back the previously sent fingerprint, unless
/// `last` has moved on since.
pub fn release_claim(last: &mut String, fp: &str, prev: String)
    ensures
        old(last)@ == fp@ ==> final(last)@ == prev@,
        old(last)@ != fp@ ==> final(last)@ == old(last)@,
{
    if str_eq(last.as_str(), fp) {
        *last = prev;
    }
}

/// The retry state once a send of `fp` has finished at `now`: cleared after success,
/// advanced by [`after_failure`] after a failure.
pub fn gate_after_send(gate: &Option<SendGate>, fp: &str, now: u128, failed: bool) -> (r: Option<SendGate>)
    requires
        failed && gate is Some && gate->0.fp@ == fp@ ==> gate->0.fails < u32::MAX,
        failed ==> now <= u128::MAX - 60_000_000_000,
    ensures
        !failed ==> r is None,
        failed ==> (r matches Some(g) && g.fp@ == fp@
            && ((gate is Some && gate->0.fp@ == fp@) ==> g.fails == gate->0.fails + 1)
            && (!(gate is Some && gate->0.fp@ == fp@) ==> g.fails == 1)
            && g.next_try == now + retry_secs(g.fails) * 1_000_000_000),
{
    if failed {
        Some(after_failure(gate, fp, now))
    } else {
        None
    }
}

} // verus!
