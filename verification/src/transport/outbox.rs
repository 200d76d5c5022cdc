//! The offline outbox: `~/.bettercursor/outbox/<peer_id>/`, a queue of
//! snapshot JSON files for peers that were unreachable.
//!
//! Writing, listing and moving the files is the caller's part.
use vstd::prelude::*;

use crate::paths::{self, join};
use crate::text;

verus! {

/// `~/.bettercursor/outbox`.
pub open spec fn outbox_spec(home: Option<Seq<char>>) -> Seq<char> {
    join(paths::state_dir_spec(home), "outbox"@)
}

/// `outbox_dir`.
pub fn outbox_dir(home: Option<&str>) -> (r: String)
    ensures
        r@ == outbox_spec(paths::opt_view(home)),
{
    let d = paths::bettercursor_dir(home);
    paths::path_join(&d, "outbox")
}

/// `peer_outbox_dir`: the queue of one peer.
pub fn peer_outbox_dir(home: Option<&str>, peer_id: &str) -> (r: String)
    ensures
        r@ == join(outbox_spec(paths::opt_view(home)), peer_id@),
{
    let d = outbox_dir(home);
    paths::path_join(&d, peer_id)
}

/// `processed_dir`: where a peer's flushed files are moved.
pub fn processed_dir(home: Option<&str>, peer_id: &str) -> (r: String)
    ensures
        r@ == join(join(outbox_spec(paths::opt_view(home)), peer_id@), ".processed"@),
{
    let d = peer_outbox_dir(home, peer_id);
    paths::path_join(&d, ".processed")
}

/// The name of a queued file: `<uuid>-<timestamp>.json`.
pub open spec fn queued_name(uuid: Seq<char>, ts: i64) -> Seq<char> {
    uuid + "-"@ + text::signed_decimal(ts as int) + ".json"@
}

/// The file name `enqueue` gives a snapshot queued at `ts`.
pub fn queued_file_name(uuid: &str, ts: i64) -> (r: String)
    ensures
        r@ == queued_name(uuid@, ts),
{
    let n = text::i64_decimal(ts);
    let a = text::concat3(uuid, "-", n.as_str());
    text::concat2(a.as_str(), ".json")
}

} // verus!
