//! `~/.bettercursor/transports.json`: the SSH peers.
//!
//! Reading and writing the file is the caller's part.
use vstd::prelude::*;

use crate::paths;
use crate::text;

verus! {

/// One configured SSH peer.
#[derive(Debug)]
pub struct PeerConfig {
    /// Human-readable id, the key of the peer list.
    pub id: String,
    /// Transport kind (`ssh`).
    pub kind: String,
    /// OpenSSH host (`user@host` or `host`).
    pub host: String,
    pub port: u16,
    /// Absolute path of the private key.
    pub identity_file: String,
    /// The remote snapshot root; `~` is left for the remote shell.
    pub remote_snap_dir: String,
    /// The remote machine's hostname, carried as metadata.
    pub remote_hostname: String,
}

/// Model of a peer configuration.
pub struct PeerConfigV {
    pub id: Seq<char>,
    pub kind: Seq<char>,
    pub host: Seq<char>,
    pub port: u16,
    pub identity_file: Seq<char>,
    pub remote_snap_dir: Seq<char>,
    pub remote_hostname: Seq<char>,
}

impl View for PeerConfig {
    type V = PeerConfigV;

    open spec fn view(&self) -> PeerConfigV {
        PeerConfigV {
            id: self.id@,
            kind: self.kind@,
            host: self.host@,
            port: self.port,
            identity_file: self.identity_file@,
            remote_snap_dir: self.remote_snap_dir@,
            remote_hostname: self.remote_hostname@,
        }
    }
}

impl Clone for PeerConfig {
    fn clone(&self) -> (r: Self)
        ensures
            r@ == self@,
    {
        PeerConfig {
            id: self.id.clone(),
            kind: self.kind.clone(),
            host: self.host.clone(),
            port: self.port,
            identity_file: self.identity_file.clone(),
            remote_snap_dir: self.remote_snap_dir.clone(),
            remote_hostname: self.remote_hostname.clone(),
        }
    }
}

/// The models of peer configurations.
pub open spec fn config_views(s: Seq<PeerConfig>) -> Seq<PeerConfigV> {
    s.map_values(|p: PeerConfig| p@)
}

/// The first configured peer with the id.
pub open spec fn find_config(s: Seq<PeerConfigV>, id: Seq<char>) -> Option<PeerConfigV>
    decreases s.len(),
{
    if s.len() == 0 {
        None
    } else if s[0].id == id {
        Some(s[0])
    } else {
        find_config(s.drop_first(), id)
    }
}

/// The contents of `transports.json`.
#[derive(Debug)]
pub struct TransportConfigFile {
    pub peers: Vec<PeerConfig>,
}

impl TransportConfigFile {
    /// No peers (the file is absent on a first run).
    pub fn new() -> (r: TransportConfigFile)
        ensures
            r.peers@.len() == 0,
    {
        TransportConfigFile { peers: Vec::new() }
    }

    /// `peer`: the first configured peer with the id.
    pub fn peer(&self, id: &str) -> (r: Option<&PeerConfig>)
        ensures
            match r {
                Some(p) => find_config(config_views(self.peers@), id@) == Some(p@),
                None => find_config(config_views(self.peers@), id@) is None,
            },
    {
        let ghost cv = config_views(self.peers@);
        let mut i: usize = 0;
        assert(cv.skip(0) =~= cv);
        while i < self.peers.len()
            invariant
                i <= self.peers@.len() == cv.len(),
                cv == config_views(self.peers@),
                find_config(cv, id@) == find_config(cv.skip(i as int), id@),
            decreases self.peers.len() - i,
        {
            assert(cv.skip(i as int).drop_first() =~= cv.skip(i + 1));
            assert(cv.skip(i as int)[0] == self.peers@[i as int]@);
            if text::str_eq(self.peers[i].id.as_str(), id) {
                return Some(&self.peers[i]);
            }
            i = i + 1;
        }
        None
    }
}

/// `transports_json_path`: `~/.bettercursor/transports.json`.
pub fn transports_json_path(home: Option<&str>) -> (r: String)
    ensures
        r@ == paths::join(paths::state_dir_spec(paths::opt_view(home)), "transports.json"@),
{
    let d = paths::bettercursor_dir(home);
    paths::path_join(&d, "transports.json")
}

} // verus!
