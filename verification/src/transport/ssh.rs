//! The SSH + rsync transport: what it runs, and how it reads the outcome.
//!
//! Spawning `ssh` and `rsync` is the caller's part. The library builds
//! every argument list and remote command, and turns an exit status into
//! the transport's result.
use vstd::prelude::*;

use super::config::{PeerConfig, PeerConfigV};
use crate::text::{self, decimal, views};

verus! {

/// How a spawned command ended, as the caller observed it.
#[derive(Debug)]
pub struct CommandOutcome {
    /// The process could be started at all.
    pub started: bool,
    /// It exited with status 0.
    pub success: bool,
    /// Its exit status, as text.
    pub status: String,
    pub stdout: String,
    pub stderr: String,
}

/// The SSH + rsync transport to one configured peer.
#[derive(Debug)]
pub struct SshRsyncTransport {
    pub config: PeerConfig,
    /// The `ssh` program (a fake one in tests).
    pub ssh_bin: String,
    /// The `rsync` program.
    pub rsync_bin: String,
}

impl SshRsyncTransport {
    /// `new`: `ssh` and `rsync` from `PATH`.
    pub fn new(config: PeerConfig) -> (r: SshRsyncTransport)
        ensures
            r.config@ == config@,
            r.ssh_bin@ == "ssh"@,
            r.rsync_bin@ == "rsync"@,
    {
        SshRsyncTransport { config, ssh_bin: text::owned("ssh"), rsync_bin: text::owned("rsync") }
    }

    /// `with_bins`: the given programs in place of `ssh` and `rsync`.
    pub fn with_bins(config: PeerConfig, ssh_bin: &str, rsync_bin: &str) -> (r: SshRsyncTransport)
        ensures
            r.config@ == config@,
            r.ssh_bin@ == ssh_bin@,
            r.rsync_bin@ == rsync_bin@,
    {
        SshRsyncTransport { config, ssh_bin: text::owned(ssh_bin), rsync_bin: text::owned(rsync_bin) }
    }

    /// `endpoint_id`: the peer's configured id, as it is.
    pub fn endpoint_id(&self) -> (r: &str)
        ensures
            r@ == self.config.id@,
    {
        self.config.id.as_str()
    }

    /// The options every `ssh` call carries: no prompts, new host keys
    /// accepted and changed ones refused, the identity file and the port.
    pub open spec fn ssh_options(c: PeerConfigV) -> Seq<Seq<char>> {
        seq![
            "-o"@,
            "BatchMode=yes"@,
            "-o"@,
            "StrictHostKeyChecking=accept-new"@,
            "-i"@,
            c.identity_file,
            "-p"@,
            decimal(c.port as nat),
        ]
    }

    /// `ssh_cmd`'s arguments.
    pub fn ssh_args(&self) -> (r: Vec<String>)
        ensures
            views(r@) == Self::ssh_options(self.config@),
    {
        let r = vec![
            text::owned("-o"),
            text::owned("BatchMode=yes"),
            text::owned("-o"),
            text::owned("StrictHostKeyChecking=accept-new"),
            text::owned("-i"),
            self.config.identity_file.clone(),
            text::owned("-p"),
            text::u64_decimal(self.config.port as u64),
        ];
        assert(views(r@) =~= Self::ssh_options(self.config@));
        r
    }

    /// The arguments of `ssh <peer> <remote_cmd>`.
    pub fn ssh_run_args(&self, remote_cmd: &str) -> (r: Vec<String>)
        ensures
            views(r@) == Self::ssh_options(self.config@).push(self.config.host@).push(remote_cmd@),
    {
        let mut r = self.ssh_args();
        let ghost a = r@;
        let h = self.config.host.clone();
        r.push(h);
        proof {
            text::lemma_views_push(a, h);
        }
        let ghost b = r@;
        let c = text::owned(remote_cmd);
        r.push(c);
        proof {
            text::lemma_views_push(b, c);
        }
        r
    }

    /// `test_connection`: the result of `ssh <peer> true`, from how it ended.
    pub fn test_connection(&self, outcome: &CommandOutcome) -> (r: Result<(), String>)
        ensures
            r is Ok <==> outcome.started && outcome.success,
            !outcome.started ==> r is Err && r->Err_0@ == "ssh to "@ + self.config.host@
                + " failed to start"@,
            outcome.started && !outcome.success ==> r is Err && r->Err_0@ == exit_message(
                self.config.host@,
                outcome.status@,
                outcome.stderr@,
            ),
    {
        ssh_result(&self.config.host, outcome)
    }

    /// The remote path a pushed snapshot goes to:
    /// `<remote_snap_dir>/<host>/<uuid>.json`.
    pub fn push_remote_path(&self, host: &str, uuid: &str) -> (r: String)
        ensures
            r@ == self.config.remote_snap_dir@ + "/"@ + host@ + "/"@ + uuid@ + ".json"@,
    {
        let a = text::concat3(self.config.remote_snap_dir.as_str(), "/", host);
        let b = text::concat3(a.as_str(), "/", uuid);
        text::concat2(b.as_str(), ".json")
    }

    /// The arguments of the `rsync` that fetches `<host>`'s snapshots into
    /// `local_dir`.
    pub fn rsync_args(&self, host: &str, local_dir: &str) -> (r: Vec<String>)
        ensures
            views(r@) == seq![
                "-az"@,
                "--include=*/"@,
                "--include=*.json"@,
                "--exclude=*"@,
                "-e"@,
                "ssh -p "@ + decimal(self.config.port as nat) + " -i "@ + self.config.identity_file@
                    + " -o BatchMode=yes -o StrictHostKeyChecking=accept-new"@,
                self.config.host@ + ":"@ + self.config.remote_snap_dir@ + "/"@ + host@ + "/"@,
                local_dir@ + "/"@,
            ],
    {
        let port = text::u64_decimal(self.config.port as u64);
        let p1 = text::concat3("ssh -p ", port.as_str(), " -i ");
        let proxy = text::concat3(
            p1.as_str(),
            self.config.identity_file.as_str(),
            " -o BatchMode=yes -o StrictHostKeyChecking=accept-new",
        );
        let g1 = text::concat3(self.config.host.as_str(), ":", self.config.remote_snap_dir.as_str());
        let g2 = text::concat3(g1.as_str(), "/", host);
        let glob = text::concat2(g2.as_str(), "/");
        let dest = text::concat2(local_dir, "/");
        let r = vec![
            text::owned("-az"),
            text::owned("--include=*/"),
            text::owned("--include=*.json"),
            text::owned("--exclude=*"),
            text::owned("-e"),
            proxy,
            glob,
            dest,
        ];
        assert(views(r@) =~= seq![
            "-az"@,
            "--include=*/"@,
            "--include=*.json"@,
            "--exclude=*"@,
            "-e"@,
            "ssh -p "@ + decimal(self.config.port as nat) + " -i "@ + self.config.identity_file@
                + " -o BatchMode=yes -o StrictHostKeyChecking=accept-new"@,
            self.config.host@ + ":"@ + self.config.remote_snap_dir@ + "/"@ + host@ + "/"@,
            local_dir@ + "/"@,
        ]);
        r
    }
}

/// The error of a command that ran and failed.
pub open spec fn exit_message(host: Seq<char>, status: Seq<char>, stderr: Seq<char>) -> Seq<char> {
    "ssh to "@ + host + " exited with "@ + status + ": "@ + stderr
}

/// The result of one `ssh` call to `host`.
pub fn ssh_result(host: &String, outcome: &CommandOutcome) -> (r: Result<(), String>)
    ensures
        r is Ok <==> outcome.started && outcome.success,
        !outcome.started ==> r is Err && r->Err_0@ == "ssh to "@ + host@ + " failed to start"@,
        outcome.started && !outcome.success ==> r is Err && r->Err_0@ == exit_message(
            host@,
            outcome.status@,
            outcome.stderr@,
        ),
{
    if !outcome.started {
        return Err(text::concat3("ssh to ", host.as_str(), " failed to start"));
    }
    if !outcome.success {
        let a = text::concat3("ssh to ", host.as_str(), " exited with ");
        let b = text::concat3(a.as_str(), outcome.status.as_str(), ": ");
        return Err(text::concat2(b.as_str(), outcome.stderr.as_str()));
    }
    Ok(())
}

/// The directory part of a remote path: before its last `/`, `.` without
/// one.
pub open spec fn remote_parent_spec(path: Seq<char>) -> Seq<char> {
    let k = last_slash(path);
    if k >= 0 {
        path.take(k)
    } else {
        "."@
    }
}

/// The position of the last `/`, `-1` without one.
pub open spec fn last_slash(s: Seq<char>) -> int
    decreases s.len(),
{
    if s.len() == 0 {
        -1
    } else if s.last() == '/' {
        s.len() - 1
    } else {
        last_slash(s.drop_last())
    }
}

/// `remote_path.rsplit_once('/')`'s first half, or `.`.
pub fn remote_parent(path: &str) -> (r: String)
    ensures
        r@ == remote_parent_spec(path@),
{
    let cs = text::to_chars(path);
    let mut j: usize = cs.len();
    assert(cs@.take(j as int) =~= cs@);
    while j > 0
        invariant
            j <= cs@.len(),
            cs@ == path@,
            last_slash(path@) == last_slash(cs@.take(j as int)),
        decreases j,
    {
        assert(cs@.take(j as int).drop_last() =~= cs@.take(j - 1));
        if cs[j - 1] == '/' {
            let p = text::take_chars(&cs, j - 1);
            return text::from_chars(&p);
        }
        j = j - 1;
    }
    proof {
        reveal_strlit(".");
    }
    text::owned(".")
}

/// `ssh_write_atomic`'s three remote commands: create the parent
/// directory, write `<path>.tmp` through a quoted heredoc, rename it into
/// place.
pub fn write_atomic_commands(remote_path: &str, body: &str) -> (r: (String, String, String))
    ensures
        r.0@ == "mkdir -p '"@ + remote_parent_spec(remote_path@) + "'"@,
        r.1@ == "cat > '"@ + remote_path@ + ".tmp"@ + "' <<'__BC_EOF__'\n"@ + body@
            + "\n__BC_EOF__"@,
        r.2@ == "mv '"@ + remote_path@ + ".tmp"@ + "' '"@ + remote_path@ + "'"@,
{
    let dir = remote_parent(remote_path);
    let mkdir = text::concat3("mkdir -p '", dir.as_str(), "'");
    let tmp = text::concat2(remote_path, ".tmp");
    let a = text::concat3("cat > '", tmp.as_str(), "' <<'__BC_EOF__'\n");
    let cat = text::concat3(a.as_str(), body, "\n__BC_EOF__");
    let b = text::concat3("mv '", tmp.as_str(), "' '");
    let mv = text::concat3(b.as_str(), remote_path, "'");
    proof {
        assert(cat@ =~= "cat > '"@ + remote_path@ + ".tmp"@ + "' <<'__BC_EOF__'\n"@ + body@
            + "\n__BC_EOF__"@);
        assert(mv@ =~= "mv '"@ + remote_path@ + ".tmp"@ + "' '"@ + remote_path@ + "'"@);
    }
    (mkdir, cat, mv)
}

} // verus!
