//! The desktop runtime's bookkeeping: where its files live, how service logs are
//! cleaned and summarised, and when a crashed service may be restarted.

use vstd::prelude::*;
use vstd::string::StringSliceAdditionalSpecFns;
use crate::peer::{join_path, path_join};
use crate::text::{chars_of, owned, string_of};
use crate::clip::{split_on, split_on_exec, trim, trim_exec};
use crate::names::pieces_view;

verus! {

/// What this machine runs as.
#[derive(Debug, Clone, Copy, PartialEq, Eq, Structural)]
pub enum Role {
    Host,
    Client,
}

/// Name of the boot-time system unit of a role.
pub open spec fn spec_unit_name(role: Role) -> Seq<char> {
    match role {
        Role::Host => "nexuskvm-host.service"@,
        Role::Client => "nexuskvm-client.service"@,
    }
}

/// Name of the boot-time system unit of a role.
pub fn unit_name(role: Role) -> (r: &'static str)
    ensures
        r@ == spec_unit_name(role),
{
    match role {
        Role::Host => "nexuskvm-host.service",
        Role::Client => "nexuskvm-client.service",
    }
}

// ---------------------------------------------------------------------------
// Files in the data directory.

/// Saved role and server.
pub fn state_path(dir: &str) -> (r: String)
    ensures
        r@ == path_join(dir@, "state.json"@),
{
    join_path(dir, "state.json")
}

/// The pairing password.
pub fn password_path(dir: &str) -> (r: String)
    ensures
        r@ == path_join(dir@, "password"@),
{
    join_path(dir, "password")
}

/// The server certificate.
pub fn cert_path(dir: &str) -> (r: String)
    ensures
        r@ == path_join(dir@, "certificate.pem"@),
{
    join_path(dir, "certificate.pem")
}

/// The server key.
pub fn key_path(dir: &str) -> (r: String)
    ensures
        r@ == path_join(dir@, "key.pem"@),
{
    join_path(dir, "key.pem")
}

/// The input daemon's configuration.
pub fn daemon_config_path(dir: &str) -> (r: String)
    ensures
        r@ == path_join(dir@, "daemon.toml"@),
{
    join_path(dir, "daemon.toml")
}

/// The input client's configuration.
pub fn client_config_path(dir: &str) -> (r: String)
    ensures
        r@ == path_join(dir@, "client.toml"@),
{
    join_path(dir, "client.toml")
}

/// The client certificate issued to a paired client.
pub fn client_cert_path(dir: &str) -> (r: String)
    ensures
        r@ == path_join(dir@, "client-cert.pem"@),
{
    join_path(dir, "client-cert.pem")
}

/// The key of the client certificate.
pub fn client_key_path(dir: &str) -> (r: String)
    ensures
        r@ == path_join(dir@, "client-key.pem"@),
{
    join_path(dir, "client-key.pem")
}

/// The directory of service logs.
pub fn logs_dir(dir: &str) -> (r: String)
    ensures
        r@ == path_join(dir@, "logs"@),
{
    join_path(dir, "logs")
}

/// The log of the service a role runs.
pub fn service_log_path(dir: &str, role: Option<Role>) -> (r: Option<String>)
    ensures
        role is None ==> r is None,
        role == Some(Role::Host) ==> (r is Some && r->0@ == path_join(path_join(dir@, "logs"@), "nexus-kvmd.log"@)),
        role == Some(Role::Client) ==> (r is Some && r->0@ == path_join(path_join(dir@, "logs"@), "rkvm-client.log"@)),
{
    match role {
        Some(Role::Host) => {
            let l = logs_dir(dir);
            Some(join_path(l.as_str(), "nexus-kvmd.log"))
        },
        Some(Role::Client) => {
            let l = logs_dir(dir);
            Some(join_path(l.as_str(), "rkvm-client.log"))
        },
        None => None,
    }
}

/// The name a full log is moved to when it is rotated.
pub fn rotated_path(path: &str) -> (r: String)
    ensures
        r@ == path@ + ".1"@,
{
    let mut s = owned(path);
    s.push_str(".1");
    s
}

/// Where a binary built in the source tree may be found, below the app's directory.
pub fn push_workspace_bins(candidates: &mut Vec<String>, root: &str, name: &str)
    ensures
        final(candidates)@.map_values(|p: String| p@) == old(candidates)@.map_values(|p: String| p@)
            + seq![
                path_join(path_join(root@, "../target/debug"@), name@),
                path_join(path_join(root@, "../target/release"@), name@),
                path_join(path_join(root@, "../rkvm-master/target/debug"@), name@),
                path_join(path_join(root@, "../rkvm-master/target/release"@), name@),
            ],
{
    let ghost before = candidates@.map_values(|p: String| p@);
    let a = join_path(root, "../target/debug");
    candidates.push(join_path(a.as_str(), name));
    let b = join_path(root, "../target/release");
    candidates.push(join_path(b.as_str(), name));
    let c = join_path(root, "../rkvm-master/target/debug");
    candidates.push(join_path(c.as_str(), name));
    let d = join_path(root, "../rkvm-master/target/release");
    candidates.push(join_path(d.as_str(), name));
    assert(candidates@.map_values(|p: String| p@) =~= before + seq![
        path_join(path_join(root@, "../target/debug"@), name@),
        path_join(path_join(root@, "../target/release"@), name@),
        path_join(path_join(root@, "../rkvm-master/target/debug"@), name@),
        path_join(path_join(root@, "../rkvm-master/target/release"@), name@),
    ]);
}

/// Where a binary named `name` may be found in `dir`: plainly, and with the target
/// triple the app was built for appended, when there is one.
pub fn push_named(candidates: &mut Vec<String>, dir: &str, name: &str, triple: &str)
    ensures
        triple@.len() == 0 ==> final(candidates)@.map_values(|p: String| p@)
            == old(candidates)@.map_values(|p: String| p@).push(path_join(dir@, name@)),
        triple@.len() > 0 ==> final(candidates)@.map_values(|p: String| p@)
            == old(candidates)@.map_values(|p: String| p@).push(path_join(dir@, name@)).push(
                path_join(dir@, name@ + "-"@ + triple@),
            ),
{
    let ghost before = candidates@.map_values(|p: String| p@);
    candidates.push(join_path(dir, name));
    if !triple.is_empty() {
        let mut n = owned(name);
        n.push_str("-");
        n.push_str(triple);
        candidates.push(join_path(dir, n.as_str()));
        assert(candidates@.map_values(|p: String| p@) =~= before.push(path_join(dir@, name@)).push(
            path_join(dir@, name@ + "-"@ + triple@),
        ));
    } else {
        assert(candidates@.map_values(|p: String| p@) =~= before.push(path_join(dir@, name@)));
    }
}


// ---------------------------------------------------------------------------
// Cleaning service logs.

/// Whether a byte is an ASCII digit.
pub open spec fn is_digit(b: u8) -> bool {
    48 <= b <= 57
}

/// Index just past the final byte (`@` to `~`) of a control sequence whose
/// parameters start at `k`; the end of the text when there is none.
pub open spec fn csi_end(bs: Seq<u8>, k: int) -> int
    decreases bs.len() - k,
{
    if k >= bs.len() {
        bs.len() as int
    } else if 64 <= bs[k] <= 126 {
        k + 1
    } else {
        csi_end(bs, k + 1)
    }
}

/// Index of the first byte at or after `k` that is neither a digit nor `;`.
pub open spec fn params_end(bs: Seq<u8>, k: int) -> int
    decreases bs.len() - k,
{
    if k < bs.len() && (is_digit(bs[k]) || bs[k] == 59) {
        params_end(bs, k + 1)
    } else {
        k
    }
}

pub proof fn lemma_csi_end_bounds(bs: Seq<u8>, k: int)
    requires
        0 <= k <= bs.len(),
    ensures
        k <= csi_end(bs, k) <= bs.len(),
        k < bs.len() ==> k < csi_end(bs, k),
    decreases bs.len() - k,
{
    if k < bs.len() && !(64 <= bs[k] <= 126) {
        lemma_csi_end_bounds(bs, k + 1);
    }
}

pub proof fn lemma_params_end_bounds(bs: Seq<u8>, k: int)
    requires
        0 <= k <= bs.len(),
    ensures
        k <= params_end(bs, k) <= bs.len(),
    decreases bs.len() - k,
{
    if k < bs.len() && (is_digit(bs[k]) || bs[k] == 59) {
        lemma_params_end_bounds(bs, k + 1);
    }
}

/// The text from byte `i` on with terminal colour codes removed: `ESC [ ... final`
/// sequences, and stray `[digits;...m` or `[digits;...K` left without their `ESC`.
/// Each kept byte becomes the character with that code.
pub open spec fn strip_from(bs: Seq<u8>, i: int) -> Seq<char>
    decreases bs.len() - i,
{
    if i < 0 || i >= bs.len() {
        Seq::empty()
    } else if bs[i] == 0x1b && i + 1 < bs.len() && bs[i + 1] == 91 {
        proof {
            lemma_csi_end_bounds(bs, i + 2);
        }
        strip_from(bs, csi_end(bs, i + 2))
    } else if bs[i] == 91 && i + 1 < bs.len() && is_digit(bs[i + 1]) && params_end(bs, i + 1) < bs.len()
        && (bs[params_end(bs, i + 1)] == 109 || bs[params_end(bs, i + 1)] == 75) {
        proof {
            lemma_params_end_bounds(bs, i + 1);
        }
        strip_from(bs, params_end(bs, i + 1) + 1)
    } else {
        seq![bs[i] as char] + strip_from(bs, i + 1)
    }
}

/// Removes terminal colour codes from a service log.
pub fn strip_ansi(s: &str) -> (r: String)
    ensures
        r@ == strip_from(s.spec_bytes(), 0),
{
    let bytes = s.as_bytes();
    let n = bytes.len();
    let mut out = String::new();
    let mut i: usize = 0;
    while i < n
        invariant
            n == bytes@.len(),
            i <= n,
            out@ + strip_from(bytes@, i as int) == strip_from(bytes@, 0),
        decreases n - i,
    {
        let ghost at = i as int;
        if bytes[i] == 0x1b && i + 1 < n && bytes[i + 1] == 91 {
            i = i + 2;
            while i < n
                invariant_except_break
                    n == bytes@.len(),
                    at + 2 <= i <= n,
                    csi_end(bytes@, i as int) == csi_end(bytes@, at + 2),
                ensures
                    n == bytes@.len(),
                    i == csi_end(bytes@, at + 2),
                decreases n - i,
            {
                let c = bytes[i];
                i = i + 1;
                if c >= 64 && c <= 126 {
                    break;
                }
            }
            proof {
                lemma_csi_end_bounds(bytes@, at + 2);
            }
            continue;
        }
        if bytes[i] == 91 && i + 1 < n && bytes[i + 1] >= 48 && bytes[i + 1] <= 57 {
            let start = i;
            i = i + 1;
            while i < n && ((bytes[i] >= 48 && bytes[i] <= 57) || bytes[i] == 59)
                invariant
                    n == bytes@.len(),
                    start + 1 <= i <= n,
                    params_end(bytes@, i as int) == params_end(bytes@, start + 1),
                decreases n - i,
            {
                i = i + 1;
            }
            if i < n && (bytes[i] == 109 || bytes[i] == 75) {
                i = i + 1;
                continue;
            }
            i = start;
        }
        let c = bytes[i] as char;
        proof {
            assert(out@.push(c) + strip_from(bytes@, i + 1) =~= out@ + strip_from(bytes@, i as int));
        }
        out.push(c);
        i = i + 1;
    }
    proof {
        assert(out@ + Seq::<char>::empty() =~= out@);
    }
    out
}

/// The message shown when a service exits right after it was started.
pub fn child_failure(dir: &str, service: &str, tail: &str) -> (r: String)
    ensures
        tail@.len() == 0 ==> r@ == service@ + " exited on startup. Check "@ + dir@ + "/logs/"@ + service@ + ".log"@,
        tail@.len() > 0 ==> r@ == service@ + " exited on startup. Log:\n"@ + tail@,
{
    let mut s = owned(service);
    if tail.is_empty() {
        s.push_str(" exited on startup. Check ");
        s.push_str(dir);
        s.push_str("/logs/");
        s.push_str(service);
        s.push_str(".log");
    } else {
        s.push_str(" exited on startup. Log:\n");
        s.push_str(tail);
    }
    s
}

/// Whether this session may use the virtual input device, and why not.
pub fn session_preflight(in_input_group: bool, uinput_accessible: bool) -> (r: Result<(), String>)
    ensures
        !in_input_group ==> (r is Err && r->Err_0@ == "Your user still lacks permission on /dev/uinput. Log out and back in (or reboot) after installing NexusKVM."@),
        in_input_group && !uinput_accessible ==> (r is Err && r->Err_0@ == "Cannot open /dev/uinput. Restart your session; if it still fails, check that the package installed the udev rules (input group)."@),
        in_input_group && uinput_accessible ==> r is Ok,
{
    if !in_input_group {
        return Err(
            "Your user still lacks permission on /dev/uinput. Log out and back in (or reboot) after installing NexusKVM.".to_owned(),
        );
    }
    if !uinput_accessible {
        return Err(
            "Cannot open /dev/uinput. Restart your session; if it still fails, check that the package installed the udev rules (input group).".to_owned(),
        );
    }
    Ok(())
}

// ---------------------------------------------------------------------------
// Restart backoff.

/// Restart bookkeeping of one supervised service: how many restarts were tried since it
/// was last seen alive, and when (monotonic clock, nanoseconds) the last one was tried.
#[derive(Debug, Clone, Copy)]
pub struct Backoff {
    pub fails: u32,
    pub last: Option<u128>,
}

/// Seconds to wait after `fails` restarts: doubling from 1, at most 30.
pub open spec fn backoff_secs(fails: u32) -> nat {
    let a = if fails > 5 { 5 } else { fails };
    let p = vstd::arithmetic::power2::pow2(a as nat);
    if p > 30 { 30 } else { p }
}

/// Time elapsed from `last` to `now`, zero if the clock reads earlier.
pub open spec fn elapsed(last: u128, now: u128) -> int {
    if now >= last { now - last } else { 0 }
}

/// Whether a restart may be tried at `now`.
pub open spec fn may_attempt(b: Backoff, now: u128) -> bool {
    match b.last {
        Some(t) => elapsed(t, now) >= backoff_secs(b.fails) * 1_000_000_000,
        None => true,
    }
}

impl Backoff {
    /// A service that was never restarted.
    pub fn new() -> (b: Backoff)
        ensures
            b.fails == 0,
            b.last is None,
    {
        Backoff { fails: 0, last: None }
    }

    /// The service was seen alive: the next failure waits the shortest time again.
    pub fn reset(&mut self)
        ensures
            final(self).fails == 0,
            final(self).last == old(self).last,
    {
        self.fails = 0;
    }

    /// Whether to try a restart at `now`; trying one counts it and remembers when.
    pub fn should_attempt(&mut self, now: u128) -> (r: bool)
        requires
            old(self).fails < u32::MAX,
        ensures
            r == may_attempt(*old(self), now),
            r ==> final(self).fails == old(self).fails + 1 && final(self).last == Some(now),
            !r ==> *final(self) == *old(self),
    {
        let attempts: u32 = if self.fails > 5 { 5 } else { self.fails };
        let mut p: u64 = 1;
        let mut k: u32 = 0;
        proof {
            vstd::arithmetic::power2::lemma2_to64();
        }
        while k < attempts
            invariant
                k <= attempts <= 5,
                p == vstd::arithmetic::power2::pow2(k as nat),
            decreases attempts - k,
        {
            proof {
                vstd::arithmetic::power2::lemma_pow2_adds(k as nat, 1);
                vstd::arithmetic::power2::lemma2_to64();
            }
            p = p * 2;
            k = k + 1;
        }
        let secs: u64 = if p > 30 { 30 } else { p };
        let wait: u128 = (secs as u128) * 1_000_000_000;
        if let Some(t) = self.last {
            let gone: u128 = if now >= t { now - t } else { 0 };
            if gone < wait {
                return false;
            }
        }
        self.last = Some(now);
        self.fails = self.fails + 1;
        true
    }
}

impl Default for Backoff {
    fn default() -> (b: Backoff)
        ensures
            b.fails == 0,
            b.last is None,
    {
        Backoff::new()
    }
}

/// Right after a restart was tried, another one is refused until the wait has passed.
pub proof fn law_no_immediate_retry(b: Backoff, now: u128)
    requires
        b.last == Some(now),
    ensures
        !may_attempt(b, now),
{
    let a = if b.fails > 5 { 5 } else { b.fails };
    vstd::arithmetic::power2::lemma_pow2_pos(a as nat);
}


// ---------------------------------------------------------------------------
// Supervised services.

/// The name under which the service of a role is supervised and logged.
pub fn service_key(role: Role) -> (r: &'static str)
    ensures
        role == Role::Host ==> r@ == "nexus-kvmd"@,
        role == Role::Client ==> r@ == "rkvm-client"@,
{
    match role {
        Role::Host => "nexus-kvmd",
        Role::Client => "rkvm-client",
    }
}

/// The log filter the service of a role is started with.
pub fn log_filter(role: Role) -> (r: &'static str)
    ensures
        role == Role::Host ==> r@ == "nexus=info,rkvm_server=info,rkvm_input=info"@,
        role == Role::Client ==> r@ == "rkvm_client=info,rkvm_input=info"@,
{
    match role {
        Role::Host => "nexus=info,rkvm_server=info,rkvm_input=info",
        Role::Client => "rkvm_client=info,rkvm_input=info",
    }
}

/// The arguments the service of a role is started with: the daemon takes its
/// configuration after `--config`, the client takes it as its only argument.
pub fn launch_args(role: Role, config: &str) -> (r: Vec<String>)
    ensures
        role == Role::Host ==> r@.map_values(|a: String| a@) == seq!["--config"@, config@],
        role == Role::Client ==> r@.map_values(|a: String| a@) == seq![config@],
{
    let mut v: Vec<String> = Vec::new();
    match role {
        Role::Host => {
            v.push(owned("--config"));
            v.push(owned(config));
        },
        Role::Client => {
            v.push(owned(config));
        },
    }
    assert(role == Role::Host ==> v@.map_values(|a: String| a@) =~= seq!["--config"@, config@]);
    assert(role == Role::Client ==> v@.map_values(|a: String| a@) =~= seq![config@]);
    v
}

/// The configuration file of the service a role runs.
pub fn service_config_path(dir: &str, role: Role) -> (r: String)
    ensures
        role == Role::Host ==> r@ == path_join(dir@, "daemon.toml"@),
        role == Role::Client ==> r@ == path_join(dir@, "client.toml"@),
{
    match role {
        Role::Host => daemon_config_path(dir),
        Role::Client => client_config_path(dir),
    }
}


// ---------------------------------------------------------------------------
// The tail of a service log.

/// Whether `pat` occurs in `s`.
pub open spec fn contains_text(s: Seq<char>, pat: Seq<char>) -> bool {
    exists|i: int| 0 <= i && i + pat.len() <= s.len() && #[trigger] s.subrange(i, i + pat.len()) == pat
}

fn contains_exec(s: &Vec<char>, pat: &Vec<char>) -> (r: bool)
    ensures
        r == contains_text(s@, pat@),
{
    if pat.len() == 0 {
        assert(s@.subrange(0int, 0int + pat@.len()) =~= pat@);
        return true;
    }
    if pat.len() > s.len() {
        return false;
    }
    let last = s.len() - pat.len();
    let mut i: usize = 0;
    while i < last + 1
        invariant
            last == s@.len() - pat@.len(),
            0 < pat@.len() <= s@.len(),
            s@.len() <= usize::MAX,
            i <= last + 1,
            forall|k: int| 0 <= k < i ==> #[trigger] s@.subrange(k, k + pat@.len()) != pat@,
        decreases last + 1 - i,
    {
        let mut j: usize = 0;
        while j < pat.len() && s[i + j] == pat[j]
            invariant
                i <= last,
                last == s@.len() - pat@.len(),
                pat@.len() <= s@.len(),
                s@.len() <= usize::MAX,
                j <= pat@.len(),
                forall|m: int| 0 <= m < j ==> s@[i + m] == pat@[m],
            decreases pat@.len() - j,
        {
            j = j + 1;
        }
        if j == pat.len() {
            assert(s@.subrange(i as int, i + pat@.len()) =~= pat@);
            return true;
        }
        assert(s@.subrange(i as int, i + pat@.len())[j as int] != pat@[j as int]);
        i = i + 1;
    }
    proof {
        assert forall|k: int| 0 <= k && k + pat@.len() <= s@.len() implies #[trigger] s@.subrange(k, k + pat@.len()) != pat@ by {
            assert(k < i);
        }
    }
    false
}

/// The lines of a text as `str::lines` gives them: split at `\n`, a `\r` before a
/// `\n` dropped, and no empty line after a final `\n`.
pub open spec fn text_lines(s: Seq<char>) -> Seq<Seq<char>> {
    let ps = crate::clip::split_on(s, '\n');
    let body = Seq::new((ps.len() - 1) as nat, |i: int| if ps[i].len() > 0 && ps[i].last() == '\r' { ps[i].drop_last() } else { ps[i] });
    if ps.last().len() > 0 { body.push(ps.last()) } else { body }
}

/// Whether a log line is worth showing: not blank, and not keep-alive chatter.
pub open spec fn worth_showing(l: Seq<char>) -> bool {
    let t = crate::clip::trim(l);
    t.len() > 0 && !contains_text(t, "Received ping"@) && !contains_text(t, "Sent pong"@)
}

/// The lines worth showing, in order.
pub open spec fn shown_lines(ls: Seq<Seq<char>>) -> Seq<Seq<char>>
    decreases ls.len(),
{
    if ls.len() == 0 {
        Seq::empty()
    } else if worth_showing(ls.last()) {
        shown_lines(ls.drop_last()).push(ls.last())
    } else {
        shown_lines(ls.drop_last())
    }
}

/// Lines joined by `\n`.
pub open spec fn join_lines(ls: Seq<Seq<char>>) -> Seq<char>
    decreases ls.len(),
{
    if ls.len() == 0 {
        Seq::empty()
    } else if ls.len() == 1 {
        ls[0]
    } else {
        join_lines(ls.drop_last()) + seq!['\n'] + ls.last()
    }
}

/// The last `max_lines` lines worth showing of a log text, colour codes removed.
pub open spec fn log_tail_text(raw: Seq<u8>, max_lines: nat) -> Seq<char> {
    let shown = shown_lines(text_lines(strip_from(raw, 0)));
    if shown.len() <= max_lines {
        join_lines(shown)
    } else {
        join_lines(shown.skip(shown.len() - max_lines))
    }
}

/// The last `max_lines` lines worth showing of a service log, colour codes removed.
pub fn log_tail(raw: &str, max_lines: usize) -> (r: String)
    ensures
        r@ == log_tail_text(raw.spec_bytes(), max_lines as nat),
{
    let cleaned = strip_ansi(raw);
    let cs = crate::text::chars_of(cleaned.as_str());
    let pieces = crate::clip::split_on_exec(&cs, '\n');
    let ghost pv = crate::names::pieces_view(pieces@);
    let ghost lines = text_lines(cs@);
    let ping = crate::text::chars_of("Received ping");
    let pong = crate::text::chars_of("Sent pong");
    proof {
        crate::clip::lemma_split_on_len(cs@, '\n');
    }
    let n = pieces.len();
    let mut shown: Vec<Vec<char>> = Vec::new();
    let mut i: usize = 0;
    while i < n
        invariant
            n == pieces@.len(),
            n >= 1,
            pv == crate::names::pieces_view(pieces@),
            pv == crate::clip::split_on(cs@, '\n'),
            lines == text_lines(cs@),
            ping@ == "Received ping"@,
            pong@ == "Sent pong"@,
            i <= n,
            crate::names::pieces_view(shown@) == shown_lines(
                if i < n { lines.take(i as int) } else { lines }
            ),
        decreases n - i,
    {
        let p = &pieces[i];
        let ghost pi = pv[i as int];
        let is_last = i + 1 == n;
        let line: Vec<char> = if !is_last && p.len() > 0 && p[p.len() - 1] == '\r' {
            let mut l: Vec<char> = Vec::new();
            let mut k: usize = 0;
            let stop: usize = p.len() - 1;
            while k < stop
                invariant
                    stop == p@.len() - 1,
                    k <= stop,
                    l@ == p@.subrange(0, k as int),
                decreases stop - k,
            {
                l.push(p[k]);
                k = k + 1;
                assert(l@ =~= p@.subrange(0, k as int));
            }
            assert(l@ =~= p@.drop_last());
            l
        } else {
            let mut l: Vec<char> = Vec::new();
            let mut k: usize = 0;
            while k < p.len()
                invariant
                    k <= p@.len(),
                    l@ == p@.subrange(0, k as int),
                decreases p@.len() - k,
            {
                l.push(p[k]);
                k = k + 1;
                assert(l@ =~= p@.subrange(0, k as int));
            }
            assert(l@ =~= p@);
            l
        };
        let counted = !is_last || line.len() > 0;
        let ghost target = if i + 1 < n { lines.take(i + 1) } else { lines };
        proof {
            assert(pieces@[i as int]@ == pi);
            let ps = crate::clip::split_on(cs@, '\n');
            assert(ps.len() == n);
            assert(lines.len() == (if ps.last().len() > 0 { n as int } else { n - 1 }));
            if !is_last {
                assert(lines[i as int] == line@);
                assert(lines.take(i + 1) =~= lines.take(i as int).push(line@));
            } else {
                if line@.len() > 0 {
                    assert(lines =~= lines.take(i as int).push(line@));
                } else {
                    assert(lines =~= lines.take(i as int));
                }
            }
        }
        if counted {
            proof {
                assert(target =~= lines.take(i as int).push(line@));
                assert(target.drop_last() =~= lines.take(i as int));
                assert(target.last() == line@);
            }
            let t = crate::clip::trim_exec(&line);
            let keep = t.len() > 0 && !contains_exec(&t, &ping) && !contains_exec(&t, &pong);
            assert(keep == worth_showing(line@));
            if keep {
                let ghost before = crate::names::pieces_view(shown@);
                shown.push(line);
                assert(crate::names::pieces_view(shown@) =~= before.push(target.last()));
            }
        } else {
            assert(target =~= lines.take(i as int));
        }
        i = i + 1;
    }
    let ghost sv = crate::names::pieces_view(shown@);
    let start: usize = if shown.len() <= max_lines { 0 } else { shown.len() - max_lines };
    let mut out = String::new();
    let mut k: usize = start;
    assert(sv.skip(start as int).take(0) =~= Seq::<Seq<char>>::empty());
    while k < shown.len()
        invariant
            start <= k <= shown@.len(),
            sv == crate::names::pieces_view(shown@),
            out@ == join_lines(sv.skip(start as int).take(k - start)),
        decreases shown@.len() - k,
    {
        proof {
            assert(sv.skip(start as int).take(k - start + 1).drop_last() =~= sv.skip(start as int).take(k - start));
            assert(sv.skip(start as int).take(k - start + 1).last() == shown@[k as int]@);
        }
        if k > start {
            out.push('\n');
        }
        let piece = crate::text::string_of(&shown[k]);
        out.push_str(piece.as_str());
        proof {
            if k == start {
                assert(sv.skip(start as int).take(1) =~= seq![sv.skip(start as int)[0]]);
            }
            assert(out@ =~= join_lines(sv.skip(start as int).take(k - start + 1)));
        }
        k = k + 1;
    }
    proof {
        assert(sv.skip(start as int).take(shown@.len() - start) =~= sv.skip(start as int));
        if start == 0 {
            assert(sv.skip(0) =~= sv);
        }
    }
    out
}

// ---------------------------------------------------------------------------
// The client configuration.

/// Text without leading `"` characters.
pub open spec fn strip_quotes_start(s: Seq<char>) -> Seq<char>
    decreases s.len(),
{
    if s.len() > 0 && s[0] == '"' {
        strip_quotes_start(s.drop_first())
    } else {
        s
    }
}

/// Text without trailing `"` characters.
pub open spec fn strip_quotes_end(s: Seq<char>) -> Seq<char>
    decreases s.len(),
{
    if s.len() > 0 && s.last() == '"' {
        strip_quotes_end(s.drop_last())
    } else {
        s
    }
}

/// Text without leading and trailing `"` characters (`str::trim_matches('"')`).
pub open spec fn strip_quotes(s: Seq<char>) -> Seq<char> {
    strip_quotes_end(strip_quotes_start(s))
}

/// The value a `server = ...` line of the client configuration sets, quotes removed.
pub open spec fn server_setting(line: Seq<char>) -> Option<Seq<char>> {
    let t = trim(line);
    if t.len() >= 6 && t.take(6) == "server"@ {
        let r = trim(t.skip(6));
        if r.len() >= 1 && r[0] == '=' {
            Some(strip_quotes(trim(r.skip(1))))
        } else {
            None
        }
    } else {
        None
    }
}

/// The value of the first `server = ...` line among `lines`.
pub open spec fn first_server(lines: Seq<Seq<char>>) -> Option<Seq<char>>
    decreases lines.len(),
{
    if lines.len() == 0 {
        None
    } else {
        match server_setting(lines[0]) {
            Some(v) => Some(v),
            None => first_server(lines.drop_first()),
        }
    }
}

fn tail_from(v: &Vec<char>, k: usize) -> (r: Vec<char>)
    requires
        k <= v@.len(),
    ensures
        r@ == v@.skip(k as int),
{
    let mut out: Vec<char> = Vec::new();
    let mut i: usize = k;
    while i < v.len()
        invariant
            k <= i <= v@.len(),
            out@ == v@.subrange(k as int, i as int),
        decreases v@.len() - i,
    {
        out.push(v[i]);
        i = i + 1;
        assert(out@ =~= v@.subrange(k as int, i as int));
    }
    assert(out@ =~= v@.skip(k as int));
    out
}

fn strip_quotes_exec(v: &Vec<char>) -> (r: Vec<char>)
    ensures
        r@ == strip_quotes(v@),
{
    let n = v.len();
    let mut a: usize = 0;
    assert(v@.subrange(0, n as int) =~= v@);
    while a < n && v[a] == '"'
        invariant
            n == v@.len(),
            a <= n,
            strip_quotes_start(v@.subrange(a as int, n as int)) == strip_quotes_start(v@),
        decreases n - a,
    {
        proof {
            assert(v@.subrange(a as int, n as int).drop_first() =~= v@.subrange(a + 1, n as int));
        }
        a = a + 1;
    }
    let mut b: usize = n;
    let ghost ts = v@.subrange(a as int, n as int);
    assert(strip_quotes_start(ts) == ts);
    while b > a && v[b - 1] == '"'
        invariant
            n == v@.len(),
            a <= b <= n,
            ts == v@.subrange(a as int, n as int),
            strip_quotes_end(v@.subrange(a as int, b as int)) == strip_quotes_end(ts),
        decreases b - a,
    {
        proof {
            assert(v@.subrange(a as int, b as int).drop_last() =~= v@.subrange(a as int, b - 1));
        }
        b = b - 1;
    }
    let mut out: Vec<char> = Vec::new();
    let mut k: usize = a;
    while k < b
        invariant
            a <= k <= b,
            b <= n,
            n == v@.len(),
            out@ == v@.subrange(a as int, k as int),
        decreases b - k,
    {
        out.push(v[k]);
        k = k + 1;
        assert(out@ =~= v@.subrange(a as int, k as int));
    }
    out
}

fn server_setting_exec(line: &Vec<char>) -> (r: Option<Vec<char>>)
    ensures
        r is None ==> server_setting(line@) is None,
        r matches Some(v) ==> server_setting(line@) == Some(v@),
{
    let t = trim_exec(line);
    let key = chars_of("server");
    proof {
        reveal_strlit("server");
    }
    if t.len() < 6 {
        return None;
    }
    let mut i: usize = 0;
    while i < 6
        invariant
            i <= 6,
            key@ == "server"@,
            key@.len() == 6,
            t@ == trim(line@),
            t@.len() >= 6,
            forall|j: int| 0 <= j < i ==> t@[j] == key@[j],
        decreases 6 - i,
    {
        if t[i] != key[i] {
            proof {
                reveal_strlit("server");
                assert(t@.take(6)[i as int] != "server"@[i as int]);
                assert(t@.take(6) != "server"@);
            }
            return None;
        }
        i = i + 1;
    }
    assert(t@.take(6) =~= "server"@);
    let r = trim_exec(&tail_from(&t, 6));
    if r.len() < 1 || r[0] != '=' {
        return None;
    }
    let v = trim_exec(&tail_from(&r, 1));
    Some(strip_quotes_exec(&v))
}

/// The server address that a client configuration names: the value of its first
/// `server = ...` line, surrounding quotes removed.
pub fn server_from_config(text: &str) -> (r: Option<String>)
    ensures
        r is None ==> first_server(split_on(text@, '\n')) is None,
        r matches Some(v) ==> first_server(split_on(text@, '\n')) == Some(v@),
{
    let v = chars_of(text);
    let lines = split_on_exec(&v, '\n');
    let ghost ls = pieces_view(lines@);
    let mut i: usize = 0;
    assert(ls.skip(0) =~= ls);
    while i < lines.len()
        invariant
            i <= lines@.len(),
            ls == pieces_view(lines@),
            ls == split_on(text@, '\n'),
            first_server(ls.skip(i as int)) == first_server(ls),
        decreases lines@.len() - i,
    {
        let ghost rest = ls.skip(i as int);
        assert(rest[0] == lines@[i as int]@);
        match server_setting_exec(&lines[i]) {
            Some(val) => {
                return Some(string_of(&val));
            },
            None => {
                assert(rest.drop_first() =~= ls.skip(i + 1));
            },
        }
        i = i + 1;
    }
    assert(ls.skip(i as int).len() == 0);
    None
}

} // verus!
