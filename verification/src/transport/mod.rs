//! The transports that carry session snapshots between devices, and what
//! they share: the payloads, the reports, and how a peer id is resolved.
use vstd::prelude::*;

pub mod config;
pub mod lan;
pub mod outbox;
pub mod snapshot_meta;
pub mod ssh;
pub mod trusted_peers;

use crate::snapshot;
use crate::text;
use config::{PeerConfig, PeerConfigV, TransportConfigFile, config_views, find_config};
use trusted_peers::{PeerV, TrustedPeer, TrustedPeersFile, find_peer, peer_views};

verus! {

/// What a push sends: a full v4 snapshot, or the metadata-only one.
#[derive(Debug)]
pub enum PushSnapshot {
    V4(snapshot::SessionSnapshot),
    Meta(snapshot_meta::SessionSnapshot),
}

impl PushSnapshot {
    /// `uuid`: the session the payload carries.
    pub fn uuid(&self) -> (r: &str)
        ensures
            r@ == match self {
                PushSnapshot::V4(s) => s.composer.composer_id@,
                PushSnapshot::Meta(m) => m.uuid@,
            },
    {
        match self {
            PushSnapshot::V4(s) => s.composer.composer_id.as_str(),
            PushSnapshot::Meta(m) => m.uuid.as_str(),
        }
    }

    /// `host_namespace`: the machine the payload comes from.
    pub fn host_namespace(&self) -> (r: &str)
        ensures
            r@ == match self {
                PushSnapshot::V4(s) => s.source_endpoint.host@,
                PushSnapshot::Meta(m) => m.host@,
            },
    {
        match self {
            PushSnapshot::V4(s) => s.source_endpoint.host.as_str(),
            PushSnapshot::Meta(m) => m.host.as_str(),
        }
    }
}

/// What a pull brings: a full v4 snapshot, or the metadata-only one.
#[derive(Debug)]
pub enum RemoteSnapshot {
    V4(snapshot::SessionSnapshot),
    Meta(snapshot_meta::SessionSnapshot),
}

/// The outcome of one push.
#[derive(Debug)]
pub struct PushReport {
    pub uuid: String,
    pub bytes_written: u64,
    pub duration_ms: u64,
}

/// One session a peer offers.
#[derive(Debug)]
pub struct RemoteSessionMeta {
    pub uuid: String,
    pub host: String,
    pub last_updated_at_ms: i64,
    pub project_slug: String,
    pub source_path: String,
}

impl RemoteSessionMeta {
    /// The listing entry of a pulled snapshot (`list_remote`): a v4
    /// snapshot lists its project path as the source path.
    pub fn of(s: &RemoteSnapshot) -> (r: RemoteSessionMeta)
        ensures
            match s {
                RemoteSnapshot::V4(v) => r.uuid@ == v.composer.composer_id@ && r.host@
                    == v.source_endpoint.host@ && r.last_updated_at_ms == v.composer.last_updated_at
                    && r.project_slug@ == v.composer.project_slug@ && r.source_path@
                    == v.composer.project_path@,
                RemoteSnapshot::Meta(m) => r.uuid@ == m.uuid@ && r.host@ == m.host@
                    && r.last_updated_at_ms == m.last_updated_at_ms && r.project_slug@
                    == m.project_slug@ && r.source_path@ == m.source_path@,
            },
    {
        match s {
            RemoteSnapshot::V4(v) => RemoteSessionMeta {
                uuid: v.composer.composer_id.clone(),
                host: v.source_endpoint.host.clone(),
                last_updated_at_ms: v.composer.last_updated_at,
                project_slug: v.composer.project_slug.clone(),
                source_path: v.composer.project_path.clone(),
            },
            RemoteSnapshot::Meta(m) => RemoteSessionMeta {
                uuid: m.uuid.clone(),
                host: m.host.clone(),
                last_updated_at_ms: m.last_updated_at_ms,
                project_slug: m.project_slug.clone(),
                source_path: m.source_path.clone(),
            },
        }
    }
}

/// A configured peer as the UI lists it.
#[derive(Debug)]
pub struct PeerSummary {
    pub id: String,
    pub kind: String,
    pub host: String,
    pub port: u16,
    pub identity_file: String,
    pub remote_snap_dir: String,
    pub remote_hostname: String,
}

impl PeerSummary {
    /// `from`: every field of the configuration, as it is.
    pub fn from(c: PeerConfig) -> (r: PeerSummary)
        ensures
            r.id@ == c.id@ && r.kind@ == c.kind@ && r.host@ == c.host@ && r.port == c.port
                && r.identity_file@ == c.identity_file@ && r.remote_snap_dir@
                == c.remote_snap_dir@ && r.remote_hostname@ == c.remote_hostname@,
    {
        PeerSummary {
            id: c.id,
            kind: c.kind,
            host: c.host,
            port: c.port,
            identity_file: c.identity_file,
            remote_snap_dir: c.remote_snap_dir,
            remote_hostname: c.remote_hostname,
        }
    }
}

/// A peer id resolved to the transport that reaches it.
#[derive(Debug)]
pub enum ResolvedPeer {
    Ssh(PeerConfig),
    Lan(TrustedPeer),
}

/// `resolve_peer`: a paired LAN peer with the id wins (`trusted`, the
/// trusted peer store, `None` when it could not be read); otherwise the
/// SSH peer configured with the id; otherwise an error.
pub fn resolve_peer(
    trusted: Option<&TrustedPeersFile>,
    config: &TransportConfigFile,
    peer_id: &str,
) -> (r: Result<ResolvedPeer, String>)
    ensures
        ({
            let lan = match trusted {
                Some(t) => find_peer(peer_views(t.peers@), peer_id@),
                None => None,
            };
            let ssh = find_config(config_views(config.peers@), peer_id@);
            if lan is Some {
                r is Ok && (r->Ok_0 matches ResolvedPeer::Lan(p) && p@ == lan->0)
            } else if ssh is Some {
                r is Ok && (r->Ok_0 matches ResolvedPeer::Ssh(c) && c@ == ssh->0)
            } else {
                r is Err && r->Err_0@ == "peer '"@ + peer_id@ + "' not found"@
            }
        }),
{
    match trusted {
        Some(t) => match t.peer(peer_id) {
            Some(p) => return Ok(ResolvedPeer::Lan(p.clone())),
            None => {},
        },
        None => {},
    }
    match config.peer(peer_id) {
        Some(c) => Ok(ResolvedPeer::Ssh(c.clone())),
        None => Err(text::concat3("peer '", peer_id, "' not found")),
    }
}

} // verus!
