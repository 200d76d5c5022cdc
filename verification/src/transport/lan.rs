//! The LAN TCP transport: pairing with a six-digit code, then pushing and
//! pulling snapshots over the `BC/1` line protocol.
//!
//! Sockets, threads and the pairing state live with the caller. The
//! library parses and answers the protocol's lines, checks codes and
//! secrets, and draws the pairing code and secrets from the generator.
use vstd::prelude::*;

use super::trusted_peers::{self, TrustedPeer, TrustedPeersFile, peer_views};
use crate::paths;
use crate::text::{self, split_ws, starts_with, trim, views};

verus! {

/// The protocol's greeting line.
pub open spec fn proto() -> Seq<char> {
    "BC/1"@
}

/// A pairing offer: the six-digit code this device shows, and the secret a
/// device that enters it receives.
#[derive(Debug)]
pub struct PendingPairing {
    pub code: String,
    pub secret: String,
    pub created_at_ms: i64,
}

impl Clone for PendingPairing {
    fn clone(&self) -> (r: Self)
        ensures
            r.code@ == self.code@,
            r.secret@ == self.secret@,
            r.created_at_ms == self.created_at_ms,
    {
        PendingPairing {
            code: self.code.clone(),
            secret: self.secret.clone(),
            created_at_ms: self.created_at_ms,
        }
    }
}

/// What a pairing answer carries.
#[derive(Debug, PartialEq)]
pub struct PairResult {
    pub device_id: String,
    pub secret: String,
    pub device_name: String,
}

/// The tokens of `parts` joined by single spaces.
pub open spec fn join_space(parts: Seq<Seq<char>>) -> Seq<char>
    decreases parts.len(),
{
    if parts.len() == 0 {
        seq![]
    } else if parts.len() == 1 {
        parts[0]
    } else {
        join_space(parts.drop_last()) + " "@ + parts.last()
    }
}

fn join_tokens(parts: &Vec<Vec<char>>, from: usize) -> (r: String)
    requires
        from <= parts@.len(),
    ensures
        r@ == join_space(parts@.map_values(|t: Vec<char>| t@).skip(from as int)),
{
    let ghost pv = parts@.map_values(|t: Vec<char>| t@).skip(from as int);
    let mut out: Vec<char> = Vec::new();
    let mut i: usize = from;
    proof {
        assert(pv.take(0) =~= Seq::<Seq<char>>::empty());
        reveal_strlit(" ");
    }
    while i < parts.len()
        invariant
            from <= i <= parts@.len(),
            pv == parts@.map_values(|t: Vec<char>| t@).skip(from as int),
            out@ == join_space(pv.take(i - from)),
        decreases parts.len() - i,
    {
        let ghost k = i - from;
        proof {
            assert(pv.take(k + 1).drop_last() =~= pv.take(k));
            assert(pv.take(k + 1).last() == parts@[i as int]@);
        }
        if i > from {
            out.push(' ');
        }
        let t = &parts[i];
        let mut j: usize = 0;
        let ghost base = out@;
        while j < t.len()
            invariant
                j <= t@.len(),
                out@ == base + t@.take(j as int),
            decreases t.len() - j,
        {
            out.push(t[j]);
            assert(t@.take(j + 1) =~= t@.take(j as int).push(t@[j as int]));
            j = j + 1;
        }
        proof {
            assert(t@.take(j as int) =~= t@);
            if k == 0 {
                assert(out@ =~= t@);
            } else {
                reveal_strlit(" ");
                assert(out@ =~= join_space(pv.take(k)) + " "@ + t@);
            }
        }
        i = i + 1;
    }
    proof {
        assert(pv.take(i - from) =~= pv);
    }
    text::from_chars(&out)
}

/// The answer to a `PAIR2`: `OK PAIR2 <id> <secret> <name…>`; a blank name
/// becomes `bettercursor-peer`.
pub open spec fn pair_v2_spec(line: Seq<char>) -> Option<(Seq<char>, Seq<char>, Seq<char>)> {
    let parts = split_ws(line);
    if !starts_with(line, "OK PAIR2 "@) || parts.len() < 4 {
        None
    } else {
        let name = join_space(parts.skip(4));
        Some((parts[2], parts[3], if trim(name).len() > 0 { name } else { "bettercursor-peer"@ }))
    }
}

/// `parse_pair_v2_response`.
pub fn parse_pair_v2_response(line: &str) -> (r: Result<PairResult, String>)
    ensures
        match pair_v2_spec(line@) {
            Some((id, secret, name)) => r is Ok && r->Ok_0.device_id@ == id && r->Ok_0.secret@
                == secret && r->Ok_0.device_name@ == name,
            None => r is Err,
        },
        !starts_with(line@, "OK PAIR2 "@) ==> r is Err && r->Err_0@ == "pair rejected: "@ + line@,
{
    if !text::str_starts_with(line, "OK PAIR2 ") {
        return Err(text::concat2("pair rejected: ", line));
    }
    let cs = text::to_chars(line);
    let parts = text::split_whitespace(&cs);
    let ghost pv = parts@.map_values(|t: Vec<char>| t@);
    proof {
        assert(pv =~= split_ws(line@));
    }
    if parts.len() < 3 {
        return Err(text::owned("missing device_id in PAIR2 response"));
    }
    if parts.len() < 4 {
        return Err(text::owned("missing secret in PAIR2 response"));
    }
    let name = join_tokens(&parts, 4);
    let device_name = if text::str_is_blank(name.as_str()) {
        text::owned("bettercursor-peer")
    } else {
        name
    };
    Ok(PairResult {
        device_id: text::from_chars(&parts[2]),
        secret: text::from_chars(&parts[3]),
        device_name,
    })
}

/// The answer to a legacy `PAIR`: `OK PAIR <id> <secret>`; the peer is
/// named after the host of the address it was reached at.
pub open spec fn pair_legacy_spec(line: Seq<char>, lan_addr: Seq<char>) -> Option<
    (Seq<char>, Seq<char>, Seq<char>),
> {
    let parts = split_ws(line);
    if !starts_with(line, "OK PAIR "@) || parts.len() < 4 {
        None
    } else {
        Some((parts[2], parts[3], trusted_peers::fallback_name_spec(lan_addr)))
    }
}

/// `parse_pair_legacy_response`.
pub fn parse_pair_legacy_response(line: &str, lan_addr: &str) -> (r: Result<PairResult, String>)
    ensures
        match pair_legacy_spec(line@, lan_addr@) {
            Some((id, secret, name)) => r is Ok && r->Ok_0.device_id@ == id && r->Ok_0.secret@
                == secret && r->Ok_0.device_name@ == name,
            None => r is Err,
        },
        !starts_with(line@, "OK PAIR "@) ==> r is Err && r->Err_0@ == "pair rejected: "@ + line@,
{
    if !text::str_starts_with(line, "OK PAIR ") {
        return Err(text::concat2("pair rejected: ", line));
    }
    let cs = text::to_chars(line);
    let parts = text::split_whitespace(&cs);
    if parts.len() < 3 {
        return Err(text::owned("missing device_id in legacy pair response"));
    }
    if parts.len() < 4 {
        return Err(text::owned("missing secret in legacy pair response"));
    }
    Ok(PairResult {
        device_id: text::from_chars(&parts[2]),
        secret: text::from_chars(&parts[3]),
        device_name: trusted_peers::fallback_device_name(lan_addr),
    })
}

/// The transport to one paired peer.
#[derive(Debug)]
pub struct LanTcpTransport {
    pub peer: TrustedPeer,
}

impl LanTcpTransport {
    /// `new`.
    pub fn new(peer: TrustedPeer) -> (r: LanTcpTransport)
        ensures
            r.peer@ == peer@,
    {
        LanTcpTransport { peer }
    }

    /// `endpoint_id`: the peer's id.
    pub fn endpoint_id(&self) -> (r: &str)
        ensures
            r@ == self.peer.id@,
    {
        self.peer.id.as_str()
    }
}

/// `snapshots_incoming_dir`: `~/.bettercursor/snapshots_incoming`.
pub fn snapshots_incoming_dir(home: Option<&str>) -> (r: String)
    ensures
        r@ == paths::join(paths::state_dir_spec(paths::opt_view(home)), "snapshots_incoming"@),
{
    let d = paths::bettercursor_dir(home);
    paths::path_join(&d, "snapshots_incoming")
}

/// `auth_secret`: some trusted peer holds the secret.
pub fn auth_secret(peers: &TrustedPeersFile, secret: &str) -> (r: bool)
    ensures
        r == exists|k: int|
            0 <= k < peers.peers@.len() && (#[trigger] peer_views(peers.peers@)[k]).pairing_secret
                == secret@,
{
    let mut i: usize = 0;
    while i < peers.peers.len()
        invariant
            i <= peers.peers@.len(),
            forall|k: int| 0 <= k < i ==> peer_views(peers.peers@)[k].pairing_secret != secret@,
        decreases peers.peers.len() - i,
    {
        assert(peer_views(peers.peers@)[i as int] == peers.peers@[i as int]@);
        if text::str_eq(peers.peers[i].pairing_secret.as_str(), secret) {
            return true;
        }
        i = i + 1;
    }
    false
}

/// One request of the protocol, as the server reads it.
#[derive(Debug, PartialEq)]
pub enum LanRequest {
    /// `PAIR <code> <device_name…>`.
    Pair { code: String, device_name: String },
    /// `PAIR2 <code> <device_id> <device_name…>`.
    Pair2 { code: String, device_id: String, device_name: String },
    /// `PUSH <secret> <len>`; `len` is `None` when it is not a number.
    Push { secret: String, len: Option<usize> },
    /// `PULL <secret> [since_ms]`.
    Pull { secret: String, since_ms: i64 },
    /// A request the server answers with `ERR <message>`.
    Reject(String),
}

/// `usize` parsed from decimal text.
pub open spec fn parse_usize_spec(s: Seq<char>) -> Option<usize> {
    match text::parse_u32(s) {
        Some(n) => Some(n as usize),
        None => None,
    }
}

/// `handle_connection`'s dispatch: the request of a greeting line and a
/// command line.
pub fn parse_request(greeting: &str, cmd_line: &str) -> (r: LanRequest)
    ensures
        greeting@ != proto() ==> r == LanRequest::Reject(r->Reject_0) && r->Reject_0@
            == "bad protocol"@,
{
    if !text::str_eq(greeting, "BC/1") {
        return LanRequest::Reject(text::owned("bad protocol"));
    }
    let cs = text::to_chars(cmd_line);
    let parts = text::split_whitespace(&cs);
    if parts.len() == 0 {
        return LanRequest::Reject(text::owned("unknown command"));
    }
    let head = text::from_chars(&parts[0]);
    let n = parts.len();
    if text::str_eq(head.as_str(), "PAIR2") {
        if n < 4 {
            return LanRequest::Reject(text::owned("PAIR2 needs code, device_id and device_name"));
        }
        LanRequest::Pair2 {
            code: text::from_chars(&parts[1]),
            device_id: text::from_chars(&parts[2]),
            device_name: join_tokens(&parts, 3),
        }
    } else if text::str_eq(head.as_str(), "PAIR") {
        if n < 3 {
            return LanRequest::Reject(text::owned("PAIR needs code and device_name"));
        }
        LanRequest::Pair { code: text::from_chars(&parts[1]), device_name: join_tokens(&parts, 2) }
    } else if text::str_eq(head.as_str(), "PUSH") {
        if n < 3 {
            return LanRequest::Reject(text::owned("PUSH needs secret and len"));
        }
        let len = match text::parse_u32_chars(&parts[2]) {
            Some(v) => Some(v as usize),
            None => None,
        };
        LanRequest::Push { secret: text::from_chars(&parts[1]), len }
    } else if text::str_eq(head.as_str(), "PULL") {
        if n < 2 {
            return LanRequest::Reject(text::owned("PULL needs secret"));
        }
        let since_ms: i64 = if n >= 3 {
            match text::parse_u32_chars(&parts[2]) {
                Some(v) => v as i64,
                None => 0,
            }
        } else {
            0
        };
        LanRequest::Pull { secret: text::from_chars(&parts[1]), since_ms }
    } else {
        LanRequest::Reject(text::owned("unknown command"))
    }
}

/// Whether a pairing request may proceed: a pairing offer is open and the
/// code matches; otherwise the message the server answers with.
pub fn check_pairing(pending: &Option<PendingPairing>, code: &str) -> (r: Result<(), String>)
    ensures
        pending is None ==> r is Err && r->Err_0@ == "pairing not active"@,
        pending is Some && pending->0.code@ != code@ ==> r is Err && r->Err_0@ == "invalid code"@,
        pending is Some && pending->0.code@ == code@ ==> r is Ok,
{
    match pending {
        None => Err(text::owned("pairing not active")),
        Some(p) => if text::str_eq(p.code.as_str(), code) {
            Ok(())
        } else {
            Err(text::owned("invalid code"))
        },
    }
}

/// The server's answer to an accepted `PAIR`.
pub fn pair_ok_line(local_device_id: &str, secret: &str) -> (r: String)
    ensures
        r@ == "OK PAIR "@ + local_device_id@ + " "@ + secret@,
{
    let a = text::concat3("OK PAIR ", local_device_id, " ");
    text::concat2(a.as_str(), secret)
}

/// The server's answer to an accepted `PAIR2`.
pub fn pair2_ok_line(local_device_id: &str, secret: &str, local_device_name: &str) -> (r: String)
    ensures
        r@ == "OK PAIR2 "@ + local_device_id@ + " "@ + secret@ + " "@ + local_device_name@,
{
    let a = text::concat3("OK PAIR2 ", local_device_id, " ");
    let b = text::concat3(a.as_str(), secret, " ");
    text::concat2(b.as_str(), local_device_name)
}

// ── The generator ─────────────────────────────────────────────

/// One xorshift step.
pub open spec fn xorshift(x: u64) -> u64 {
    let a = x ^ ((x << 13u64) as u64);
    let b = a ^ (a >> 7u64);
    b ^ ((b << 17u64) as u64)
}

/// The `k`-th state after `seed`.
pub open spec fn xorshift_n(seed: u64, k: nat) -> u64
    decreases k,
{
    if k == 0 {
        seed
    } else {
        xorshift(xorshift_n(seed, (k - 1) as nat))
    }
}

/// `rand_bytes`: `n` bytes from the xorshift generator seeded with `seed`
/// (the caller seeds it with the clock): the low byte of each state after
/// the first.
pub fn rand_bytes(seed: u64, n: usize) -> (r: Vec<u8>)
    ensures
        r@.len() == n,
        forall|k: int| 0 <= k < n ==> r@[k] == (xorshift_n(seed, (k + 1) as nat) & 0xFF) as u8,
{
    let mut out: Vec<u8> = Vec::new();
    let mut x = seed;
    let mut i: usize = 0;
    while i < n
        invariant
            i <= n,
            out@.len() == i,
            x == xorshift_n(seed, i as nat),
            forall|k: int| 0 <= k < i ==> out@[k] == (xorshift_n(seed, (k + 1) as nat) & 0xFF) as u8,
        decreases n - i,
    {
        x = x ^ (x << 13u64);
        x = x ^ (x >> 7u64);
        x = x ^ (x << 17u64);
        out.push((x & 0xFF) as u8);
        i = i + 1;
    }
    out
}

/// `rand_digit`: an ASCII decimal digit from the generator.
pub fn rand_digit(seed: u64) -> (r: u8)
    ensures
        r == ((xorshift_n(seed, 1) & 0xFF) as u8) % 10 + 48,
        48 <= r <= 57,
{
    let b = rand_bytes(seed, 1);
    (b[0] % 10) + 48
}

/// The pairing code drawn from six seeds: one digit each.
pub fn pairing_code(seeds: &[u64; 6]) -> (r: String)
    ensures
        r@.len() == 6,
        forall|k: int| 0 <= k < 6 ==> (#[trigger] r@[k]) as int == ((xorshift_n(seeds@[k], 1)
            & 0xFF) as u8) % 10 + 48,
{
    let mut v: Vec<char> = Vec::new();
    let mut i: usize = 0;
    while i < 6
        invariant
            i <= 6,
            v@.len() == i,
            forall|k: int| 0 <= k < i ==> (#[trigger] v@[k]) as int == ((xorshift_n(seeds@[k], 1)
                & 0xFF) as u8) % 10 + 48,
        decreases 6 - i,
    {
        let d = rand_digit(seeds[i]);
        v.push(d as char);
        i = i + 1;
    }
    text::from_chars(&v)
}

} // verus!
