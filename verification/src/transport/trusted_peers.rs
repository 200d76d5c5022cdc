//! Paired, trusted devices: the peer store of the LAN transport.
//!
//! Loading and saving `trusted_peers.json` is the caller's part; the store's
//! rules (lookup, upsert, and the cleanup that reconciles stored peers with
//! what discovery sees) are here.
use vstd::prelude::*;

use crate::discovery::{DeviceV, DiscoveredDevice, device_views};
use crate::paths;
use crate::text::{self, decimal, trim};

verus! {

/// One paired device.
#[derive(Debug)]
pub struct TrustedPeer {
    pub id: String,
    pub device_name: String,
    /// `host:port` of its LAN TCP service.
    pub lan_addr: String,
    /// Shared secret from pairing (hex).
    pub pairing_secret: String,
    pub trusted_at_ms: i64,
}

/// Model of a peer.
pub struct PeerV {
    pub id: Seq<char>,
    pub device_name: Seq<char>,
    pub lan_addr: Seq<char>,
    pub pairing_secret: Seq<char>,
    pub trusted_at_ms: i64,
}

impl View for TrustedPeer {
    type V = PeerV;

    open spec fn view(&self) -> PeerV {
        PeerV {
            id: self.id@,
            device_name: self.device_name@,
            lan_addr: self.lan_addr@,
            pairing_secret: self.pairing_secret@,
            trusted_at_ms: self.trusted_at_ms,
        }
    }
}

impl Clone for TrustedPeer {
    fn clone(&self) -> (r: Self)
        ensures
            r@ == self@,
    {
        TrustedPeer {
            id: self.id.clone(),
            device_name: self.device_name.clone(),
            lan_addr: self.lan_addr.clone(),
            pairing_secret: self.pairing_secret.clone(),
            trusted_at_ms: self.trusted_at_ms,
        }
    }
}

/// The models of peers.
pub open spec fn peer_views(s: Seq<TrustedPeer>) -> Seq<PeerV> {
    s.map_values(|p: TrustedPeer| p@)
}

fn peer_eq(a: &TrustedPeer, b: &TrustedPeer) -> (r: bool)
    ensures
        r == (a@ == b@),
{
    a.id == b.id && a.device_name == b.device_name && a.lan_addr == b.lan_addr
        && a.pairing_secret == b.pairing_secret && a.trusted_at_ms == b.trusted_at_ms
}

/// The peers stored in `trusted_peers.json`.
#[derive(Debug)]
pub struct TrustedPeersFile {
    pub peers: Vec<TrustedPeer>,
}

/// The first peer of `s` with the id.
pub open spec fn find_peer(s: Seq<PeerV>, id: Seq<char>) -> Option<PeerV>
    decreases s.len(),
{
    if s.len() == 0 {
        None
    } else if s[0].id == id {
        Some(s[0])
    } else {
        find_peer(s.drop_first(), id)
    }
}

/// The position of the first peer of `s` with the id, `-1` when none.
pub open spec fn peer_pos(s: Seq<PeerV>, id: Seq<char>) -> int
    decreases s.len(),
{
    if s.len() == 0 {
        -1
    } else if s[0].id == id {
        0
    } else {
        let p = peer_pos(s.drop_first(), id);
        if p < 0 {
            -1
        } else {
            p + 1
        }
    }
}

/// The peers after an upsert: the first peer with the same id is replaced,
/// or the peer is appended.
pub open spec fn upsert_spec(s: Seq<PeerV>, p: PeerV) -> Seq<PeerV> {
    let k = peer_pos(s, p.id);
    if k < 0 {
        s.push(p)
    } else {
        s.update(k, p)
    }
}

proof fn lemma_peer_pos(s: Seq<PeerV>, id: Seq<char>)
    ensures
        -1 <= peer_pos(s, id) < s.len(),
        peer_pos(s, id) >= 0 ==> s[peer_pos(s, id)].id == id && find_peer(s, id) == Some(
            s[peer_pos(s, id)],
        ),
        peer_pos(s, id) >= 0 ==> forall|j: int| 0 <= j < peer_pos(s, id) ==> s[j].id != id,
        peer_pos(s, id) < 0 ==> find_peer(s, id) is None && forall|j: int|
            0 <= j < s.len() ==> s[j].id != id,
    decreases s.len(),
{
    if s.len() > 0 {
        lemma_peer_pos(s.drop_first(), id);
        if s[0].id != id {
            assert forall|j: int| 1 <= j < s.len() implies s[j] == s.drop_first()[j - 1] by {}
        }
    }
}

/// Reading back after an upsert gives the peer that was upserted, and any
/// other id reads as before.
pub proof fn lemma_upsert_then_peer(s: Seq<PeerV>, p: PeerV, other: Seq<char>)
    ensures
        find_peer(upsert_spec(s, p), p.id) == Some(p),
        other != p.id ==> find_peer(upsert_spec(s, p), other) == find_peer(s, other),
{
    lemma_peer_pos(s, p.id);
    lemma_peer_pos(s, other);
    let t = upsert_spec(s, p);
    lemma_peer_pos(t, p.id);
    lemma_peer_pos(t, other);
    let k = peer_pos(s, p.id);
    if k < 0 {
        assert(t[s.len() as int].id == p.id);
        assert(forall|j: int| 0 <= j < s.len() ==> t[j] == s[j]);
    } else {
        assert(t[k].id == p.id);
    }
    let kt = peer_pos(t, p.id);
    assert(kt == k || k < 0);
    if k < 0 {
        assert(kt == s.len());
    }
    let ko = peer_pos(s, other);
    let kto = peer_pos(t, other);
    if other != p.id {
        if ko >= 0 {
            assert(t[ko] == s[ko]);
            assert(kto <= ko);
            if kto < ko {
                assert(t[kto] == s[kto]);
            }
        } else {
            if kto >= 0 {
                if kto < s.len() {
                    assert(t[kto] == s[kto]);
                }
            }
        }
    }
}

impl TrustedPeersFile {
    /// An empty store (`Default`).
    pub fn new() -> (r: TrustedPeersFile)
        ensures
            r.peers@.len() == 0,
    {
        TrustedPeersFile { peers: Vec::new() }
    }

    /// `path`: `~/.bettercursor/trusted_peers.json`.
    pub fn path(home: Option<&str>) -> (r: String)
        ensures
            r@ == paths::join(paths::state_dir_spec(paths::opt_view(home)), "trusted_peers.json"@),
    {
        let d = paths::bettercursor_dir(home);
        paths::path_join(&d, "trusted_peers.json")
    }

    fn position(&self, id: &str) -> (r: Option<usize>)
        ensures
            match r {
                Some(k) => k as int == peer_pos(peer_views(self.peers@), id@),
                None => peer_pos(peer_views(self.peers@), id@) < 0,
            },
    {
        let ghost pv = peer_views(self.peers@);
        let mut i: usize = 0;
        proof {
            assert(pv.skip(0) =~= pv);
            lemma_peer_pos(pv, id@);
        }
        while i < self.peers.len()
            invariant
                i <= self.peers@.len() == pv.len(),
                pv == peer_views(self.peers@),
                forall|j: int| 0 <= j < i ==> pv[j].id != id@,
                -1 <= peer_pos(pv, id@) < pv.len(),
                peer_pos(pv, id@) >= 0 ==> pv[peer_pos(pv, id@)].id == id@ && forall|j: int|
                    0 <= j < peer_pos(pv, id@) ==> pv[j].id != id@,
                peer_pos(pv, id@) < 0 ==> forall|j: int| 0 <= j < pv.len() ==> pv[j].id != id@,
            decreases self.peers.len() - i,
        {
            assert(pv[i as int] == self.peers@[i as int]@);
            if text::str_eq(self.peers[i].id.as_str(), id) {
                return Some(i);
            }
            i = i + 1;
        }
        None
    }

    /// `peer`: the first stored peer with the id.
    pub fn peer(&self, id: &str) -> (r: Option<&TrustedPeer>)
        ensures
            match r {
                Some(p) => find_peer(peer_views(self.peers@), id@) == Some(p@),
                None => find_peer(peer_views(self.peers@), id@) is None,
            },
    {
        proof {
            lemma_peer_pos(peer_views(self.peers@), id@);
        }
        match self.position(id) {
            Some(k) => {
                assert(peer_views(self.peers@)[k as int] == self.peers@[k as int]@);
                Some(&self.peers[k])
            },
            None => None,
        }
    }

    /// `upsert`: replaces the first peer with the same id, or appends.
    pub fn upsert(&mut self, peer: TrustedPeer)
        ensures
            peer_views(final(self).peers@) == upsert_spec(peer_views(old(self).peers@), peer@),
    {
        let ghost pv = peer@;
        proof {
            lemma_peer_pos(peer_views(self.peers@), peer@.id);
        }
        match self.position(peer.id.as_str()) {
            Some(k) => {
                self.peers.set(k, peer);
                assert(peer_views(self.peers@) =~= peer_views(old(self).peers@).update(k as int, pv));
            },
            None => {
                self.peers.push(peer);
                assert(peer_views(self.peers@) =~= peer_views(old(self).peers@).push(pv));
            },
        }
    }
}

// ── Cleanup against discovery ─────────────────────────────────

/// The name a peer falls back to: the host part of `host:port` when it is
/// not blank, else the whole address.
pub open spec fn fallback_name_spec(lan_addr: Seq<char>) -> Seq<char> {
    let k = last_colon(lan_addr);
    if k >= 0 && trim(lan_addr.take(k)).len() > 0 {
        lan_addr.take(k)
    } else {
        lan_addr
    }
}

/// The position of the last `:` of `s`, `-1` when there is none.
pub open spec fn last_colon(s: Seq<char>) -> int
    decreases s.len(),
{
    if s.len() == 0 {
        -1
    } else if s.last() == ':' {
        s.len() - 1
    } else {
        last_colon(s.drop_last())
    }
}

/// `fallback_device_name`.
pub fn fallback_device_name(lan_addr: &str) -> (r: String)
    ensures
        r@ == fallback_name_spec(lan_addr@),
{
    let cs = text::to_chars(lan_addr);
    let mut j: usize = cs.len();
    assert(cs@.take(j as int) =~= cs@);
    while j > 0
        invariant
            j <= cs@.len(),
            cs@ == lan_addr@,
            last_colon(lan_addr@) == last_colon(cs@.take(j as int)),
        decreases j,
    {
        assert(cs@.take(j as int).drop_last() =~= cs@.take(j - 1));
        if cs[j - 1] == ':' {
            let host = text::take_chars(&cs, j - 1);
            if !text::is_blank(&host) {
                return text::from_chars(&host);
            }
            return text::owned(lan_addr);
        }
        j = j - 1;
    }
    text::owned(lan_addr)
}

/// The address a discovered device is reached at, `host:port`.
pub open spec fn device_addr(d: DeviceV) -> Seq<char> {
    d.host + ":"@ + decimal(d.port as nat)
}

/// The peer is the device: same id, or same address.
pub open spec fn matches_spec(p: PeerV, d: DeviceV) -> bool {
    p.id == d.device_id || p.lan_addr == device_addr(d)
}

/// The first device of `ds` the peer matches.
pub open spec fn first_match(p: PeerV, ds: Seq<DeviceV>) -> Option<DeviceV>
    decreases ds.len(),
{
    if ds.len() == 0 {
        None
    } else if matches_spec(p, ds[0]) {
        Some(ds[0])
    } else {
        first_match(p, ds.drop_first())
    }
}

/// One stored peer after cleanup: a blank name, or this device's own name
/// on another id (written by older versions), falls back to the address's
/// host; a matching discovered device then supplies the id (where not
/// blank), the name and the address.
pub open spec fn cleaned_peer(
    p: PeerV,
    ds: Seq<DeviceV>,
    local_id: Seq<char>,
    local_name: Seq<char>,
) -> PeerV {
    let p1 = if trim(p.device_name).len() == 0 || (p.device_name == local_name && p.id != local_id) {
        PeerV { device_name: fallback_name_spec(p.lan_addr), ..p }
    } else {
        p
    };
    match first_match(p1, ds) {
        None => p1,
        Some(d) => PeerV {
            id: if trim(d.device_id).len() > 0 {
                d.device_id
            } else {
                p1.id
            },
            device_name: d.device_name,
            lan_addr: device_addr(d),
            ..p1
        },
    }
}

/// `merge_peer`: the newer record's id, address, secret and time win; a
/// non-blank incoming name wins.
pub open spec fn merge_peer_spec(e: PeerV, inc: PeerV) -> PeerV {
    let e1 = if inc.trusted_at_ms >= e.trusted_at_ms {
        PeerV {
            id: inc.id,
            lan_addr: inc.lan_addr,
            pairing_secret: inc.pairing_secret,
            trusted_at_ms: inc.trusted_at_ms,
            ..e
        }
    } else {
        e
    };
    if trim(inc.device_name).len() > 0 {
        PeerV { device_name: inc.device_name, ..e1 }
    } else {
        e1
    }
}

/// The first peer of `d` that shares the id or the address of `p`, `-1`
/// when none.
pub open spec fn dup_pos(d: Seq<PeerV>, p: PeerV) -> int
    decreases d.len(),
{
    if d.len() == 0 {
        -1
    } else if d[0].id == p.id || d[0].lan_addr == p.lan_addr {
        0
    } else {
        let k = dup_pos(d.drop_first(), p);
        if k < 0 {
            -1
        } else {
            k + 1
        }
    }
}

/// `dedupe_peers`: each peer, in order, merged into the first kept peer
/// with its id or address, or kept.
pub open spec fn dedupe_spec(s: Seq<PeerV>) -> Seq<PeerV>
    decreases s.len(),
{
    if s.len() == 0 {
        seq![]
    } else {
        let d = dedupe_spec(s.drop_last());
        let k = dup_pos(d, s.last());
        if k < 0 {
            d.push(s.last())
        } else {
            d.update(k, merge_peer_spec(d[k], s.last()))
        }
    }
}

proof fn lemma_dup_pos(d: Seq<PeerV>, p: PeerV)
    ensures
        -1 <= dup_pos(d, p) < d.len(),
    decreases d.len(),
{
    if d.len() > 0 {
        lemma_dup_pos(d.drop_first(), p);
    }
}

/// What `cleanup_with_discovery` did.
#[derive(Debug)]
pub struct Cleanup {
    /// Some peer changed, or duplicates were merged.
    pub changed: bool,
    /// The peers whose id changed, `(old, new)` in store order: their
    /// outbox directories are to be renamed.
    pub migrations: Vec<(String, String)>,
}

/// The id changes of a cleanup, in store order.
pub open spec fn migrations_spec(before: Seq<PeerV>, after: Seq<PeerV>) -> Seq<(Seq<char>, Seq<char>)>
    decreases before.len(),
{
    if before.len() == 0 || after.len() != before.len() {
        seq![]
    } else {
        let rest = migrations_spec(before.drop_last(), after.drop_last());
        if before.last().id != after.last().id {
            rest.push((before.last().id, after.last().id))
        } else {
            rest
        }
    }
}

fn first_matching_device(p: &TrustedPeer, ds: &[DiscoveredDevice]) -> (r: Option<usize>)
    ensures
        match r {
            Some(k) => k < ds@.len() && first_match(p@, device_views(ds@)) == Some(ds@[k as int]@),
            None => first_match(p@, device_views(ds@)) is None,
        },
{
    let ghost dv = device_views(ds@);
    let mut i: usize = 0;
    assert(dv.skip(0) =~= dv);
    while i < ds.len()
        invariant
            i <= ds@.len() == dv.len(),
            dv == device_views(ds@),
            first_match(p@, dv) == first_match(p@, dv.skip(i as int)),
        decreases ds.len() - i,
    {
        assert(dv.skip(i as int).drop_first() =~= dv.skip(i + 1));
        assert(dv.skip(i as int)[0] == ds@[i as int]@);
        let d = &ds[i];
        let port = text::u64_decimal(d.port as u64);
        let a = text::concat3(d.host.as_str(), ":", port.as_str());
        if p.id == d.device_id || p.lan_addr == a {
            return Some(i);
        }
        i = i + 1;
    }
    None
}

fn clean_one(p: &TrustedPeer, ds: &[DiscoveredDevice], local_id: &str, local_name: &str) -> (r:
    TrustedPeer)
    ensures
        r@ == cleaned_peer(p@, device_views(ds@), local_id@, local_name@),
{
    let mut q = p.clone();
    if text::str_is_blank(q.device_name.as_str()) || (text::str_eq(q.device_name.as_str(), local_name)
        && !text::str_eq(q.id.as_str(), local_id)) {
        q.device_name = fallback_device_name(q.lan_addr.as_str());
    }
    match first_matching_device(&q, ds) {
        None => {},
        Some(k) => {
            let d = &ds[k];
            if !text::str_is_blank(d.device_id.as_str()) {
                q.id = d.device_id.clone();
            }
            q.device_name = d.device_name.clone();
            let port = text::u64_decimal(d.port as u64);
            q.lan_addr = text::concat3(d.host.as_str(), ":", port.as_str());
        },
    }
    q
}

fn merge_peer(existing: &TrustedPeer, incoming: &TrustedPeer) -> (r: TrustedPeer)
    ensures
        r@ == merge_peer_spec(existing@, incoming@),
{
    let mut e = existing.clone();
    if incoming.trusted_at_ms >= e.trusted_at_ms {
        e.id = incoming.id.clone();
        e.lan_addr = incoming.lan_addr.clone();
        e.pairing_secret = incoming.pairing_secret.clone();
        e.trusted_at_ms = incoming.trusted_at_ms;
    }
    if !text::str_is_blank(incoming.device_name.as_str()) {
        e.device_name = incoming.device_name.clone();
    }
    e
}

fn peers_equal(a: &Vec<TrustedPeer>, b: &Vec<TrustedPeer>) -> (r: bool)
    ensures
        r == (peer_views(a@) == peer_views(b@)),
{
    if a.len() != b.len() {
        assert(peer_views(a@).len() != peer_views(b@).len());
        return false;
    }
    let mut j: usize = 0;
    while j < a.len()
        invariant
            j <= a@.len() == b@.len(),
            forall|k: int| 0 <= k < j ==> a@[k]@ == b@[k]@,
        decreases a.len() - j,
    {
        if !peer_eq(&a[j], &b[j]) {
            assert(peer_views(a@)[j as int] != peer_views(b@)[j as int]);
            return false;
        }
        j = j + 1;
    }
    assert(peer_views(a@) =~= peer_views(b@));
    true
}

fn find_dup(d: &Vec<TrustedPeer>, p: &TrustedPeer) -> (r: Option<usize>)
    ensures
        match r {
            Some(k) => k as int == dup_pos(peer_views(d@), p@),
            None => dup_pos(peer_views(d@), p@) < 0,
        },
{
    let ghost dv = peer_views(d@);
    let mut i: usize = 0;
    assert(dv.skip(0) =~= dv);
    while i < d.len()
        invariant
            i <= d@.len() == dv.len(),
            dv == peer_views(d@),
            dup_pos(dv, p@) == (if dup_pos(dv.skip(i as int), p@) < 0 {
                -1
            } else {
                dup_pos(dv.skip(i as int), p@) + i
            }),
        decreases d.len() - i,
    {
        assert(dv.skip(i as int).drop_first() =~= dv.skip(i + 1));
        assert(dv.skip(i as int)[0] == d@[i as int]@);
        if d[i].id == p.id || d[i].lan_addr == p.lan_addr {
            return Some(i);
        }
        i = i + 1;
    }
    None
}

/// `dedupe_peers`: merges the peers that share an id or an address;
/// returns whether the list changed.
pub fn dedupe_peers(peers: &mut Vec<TrustedPeer>) -> (changed: bool)
    ensures
        peer_views(final(peers)@) == dedupe_spec(peer_views(old(peers)@)),
        changed == (dedupe_spec(peer_views(old(peers)@)) != peer_views(old(peers)@)),
{
    let ghost src = peer_views(peers@);
    let mut out: Vec<TrustedPeer> = Vec::new();
    let mut i: usize = 0;
    proof {
        assert(src.take(0) =~= Seq::<PeerV>::empty());
        assert(peer_views(out@) =~= Seq::<PeerV>::empty());
    }
    while i < peers.len()
        invariant
            i <= peers@.len() == src.len(),
            src == peer_views(peers@),
            peers@ == old(peers)@,
            peer_views(out@) == dedupe_spec(src.take(i as int)),
        decreases peers.len() - i,
    {
        proof {
            assert(src.take(i + 1).drop_last() =~= src.take(i as int));
            assert(src.take(i + 1).last() == peers@[i as int]@);
        }
        let p = &peers[i];
        match find_dup(&out, p) {
            Some(k) => {
                proof {
                    lemma_dup_pos(peer_views(out@), p@);
                    assert(peer_views(out@)[k as int] == out@[k as int]@);
                }
                let m = merge_peer(&out[k], p);
                let ghost before = peer_views(out@);
                let ghost mv = m@;
                out.set(k, m);
                assert(peer_views(out@) =~= before.update(k as int, mv));
            },
            None => {
                let c = p.clone();
                let ghost before = peer_views(out@);
                let ghost cv = c@;
                out.push(c);
                assert(peer_views(out@) =~= before.push(cv));
            },
        }
        i = i + 1;
    }
    proof {
        assert(src.take(i as int) =~= src);
    }
    let changed = !peers_equal(&out, peers);
    *peers = out;
    changed
}

/// The peers after the per-peer cleanup, before duplicates are merged.
pub open spec fn cleaned_all(
    s: Seq<PeerV>,
    ds: Seq<DeviceV>,
    local_id: Seq<char>,
    local_name: Seq<char>,
) -> Seq<PeerV> {
    s.map_values(|p: PeerV| cleaned_peer(p, ds, local_id, local_name))
}

impl TrustedPeersFile {
    /// `cleanup_with_discovery`: repairs names and ids that older versions
    /// wrote, aligns stored peers with the devices discovery found, and
    /// merges duplicates. Renaming the outbox directories of the peers whose
    /// id changed (`migrations`) is the caller's part, when `changed`.
    pub fn cleanup_with_discovery(
        &mut self,
        discovered: &[DiscoveredDevice],
        local_device_id: &str,
        local_device_name: &str,
    ) -> (r: Cleanup)
        ensures
            ({
                let before = peer_views(old(self).peers@);
                let mid = cleaned_all(before, device_views(discovered@), local_device_id@, local_device_name@);
                &&& peer_views(final(self).peers@) == dedupe_spec(mid)
                &&& r.changed == (mid != before || dedupe_spec(mid) != mid)
                &&& r.migrations@.map_values(|m: (String, String)| (m.0@, m.1@))
                    == migrations_spec(before, mid)
            }),
    {
        let ghost before = peer_views(self.peers@);
        let ghost dv = device_views(discovered@);
        let ghost mid = cleaned_all(before, dv, local_device_id@, local_device_name@);
        let mut cleaned: Vec<TrustedPeer> = Vec::new();
        let mut migrations: Vec<(String, String)> = Vec::new();
        let mut changed = false;
        let mut i: usize = 0;
        proof {
            assert(peer_views(cleaned@) =~= Seq::<PeerV>::empty());
            assert(migrations@.map_values(|m: (String, String)| (m.0@, m.1@)) =~= Seq::<(Seq<char>, Seq<char>)>::empty());
            assert(mid.take(0) =~= before.take(0));
        }
        while i < self.peers.len()
            invariant
                i <= self.peers@.len() == before.len() == mid.len(),
                before == peer_views(self.peers@),
                dv == device_views(discovered@),
                mid == cleaned_all(before, dv, local_device_id@, local_device_name@),
                peer_views(cleaned@) == mid.take(i as int),
                changed == (mid.take(i as int) != before.take(i as int)),
                migrations@.map_values(|m: (String, String)| (m.0@, m.1@)) == migrations_spec(
                    before.take(i as int),
                    mid.take(i as int),
                ),
            decreases self.peers.len() - i,
        {
            let p = &self.peers[i];
            let q = clean_one(p, discovered, local_device_id, local_device_name);
            let ghost qv = q@;
            proof {
                assert(before[i as int] == p@);
                assert(mid[i as int] == qv);
                assert(mid.take(i + 1) =~= mid.take(i as int).push(qv));
                assert(before.take(i + 1) =~= before.take(i as int).push(p@));
                assert(mid.take(i + 1).drop_last() =~= mid.take(i as int));
                assert(before.take(i + 1).drop_last() =~= before.take(i as int));
            }
            let differs = !peer_eq(&q, p);
            if !text::str_eq(p.id.as_str(), q.id.as_str()) {
                let ghost mb = migrations@.map_values(|m: (String, String)| (m.0@, m.1@));
                let pair = (p.id.clone(), q.id.clone());
                migrations.push(pair);
                assert(migrations@.map_values(|m: (String, String)| (m.0@, m.1@)) =~= mb.push(
                    (p@.id, qv.id),
                ));
            }
            proof {
                if mid.take(i as int) != before.take(i as int) {
                    if mid.take(i + 1) =~= before.take(i + 1) {
                        assert(mid.take(i as int) =~= before.take(i as int));
                    }
                }
                if qv != p@ {
                    assert(mid.take(i + 1)[i as int] != before.take(i + 1)[i as int]);
                }
                if mid.take(i as int) == before.take(i as int) && qv == p@ {
                    assert(mid.take(i + 1) =~= before.take(i + 1));
                }
            }
            changed = changed || differs;
            let ghost cb = peer_views(cleaned@);
            cleaned.push(q);
            assert(peer_views(cleaned@) =~= cb.push(qv));
            i = i + 1;
        }
        proof {
            assert(mid.take(i as int) =~= mid);
            assert(before.take(i as int) =~= before);
        }
        let deduped = dedupe_peers(&mut cleaned);
        self.peers = cleaned;
        Cleanup { changed: changed || deduped, migrations }
    }
}

} // verus!
