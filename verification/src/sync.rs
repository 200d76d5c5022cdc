//! Synchronising one session across Layers 2 and 3, repairing sessions
//! whose root blob id was lost, and deleting a session's files.
//!
//! Opening databases, writing files and removing directories is the
//! caller's part. What is written, what is repaired, and what the reports
//! say, is decided here.
use vstd::prelude::*;

use crate::bubble::{Bubble, BubbleV, bubble_views};
use crate::codec;
use crate::compose::{int_json, jint};
use crate::digest;
use crate::inject;
use crate::json::{self, Json, JsonV};
use crate::json_codec;
use crate::paths;
use crate::text::{self, views};

verus! {

/// The outcome of one sync, as the UI shows it.
#[derive(Debug)]
pub struct SyncReport {
    pub uuid: String,
    /// Layer 2's `store.db` was written.
    pub wrote_layer2: bool,
    /// Layer 3's `state.vscdb` was written.
    pub wrote_layer3: bool,
    /// Why a layer was skipped (`cursor_running`, `no_cwd`, …).
    pub skipped: Vec<String>,
    /// The root blob id patched into Layer 2's meta row.
    pub root_blob_id: Option<String>,
    pub duration_ms: u64,
}

// ── Repairing lost root blob ids ──────────────────────────────

/// The outcome of a repair pass over every Layer 2 store.
#[derive(Debug)]
pub struct FixOrphansReport {
    /// Repaired sessions, with the first characters of the new root.
    pub fixed: Vec<String>,
    /// Sessions that could not be repaired, with the reason.
    pub skipped: Vec<String>,
    /// Stores inspected.
    pub scanned: u32,
}

/// What reading a store's `meta[0].latestRootBlobId` gave.
#[derive(Debug)]
pub enum RootRead {
    /// The id (possibly empty).
    Present(String),
    /// No meta row, or no string id in it.
    Missing,
    /// The meta row could not be read.
    Failed(String),
}

/// A store needs repair exactly when its root id is present and empty.
pub open spec fn needs_fix(r: RootRead) -> bool {
    r matches RootRead::Present(s) && s@.len() == 0
}

/// `needs_fix`.
pub fn root_needs_fix(r: &RootRead) -> (b: bool)
    ensures
        b == needs_fix(*r),
{
    match r {
        RootRead::Present(s) => text::str_is_empty(s.as_str()),
        _ => false,
    }
}

/// The message of a refused hex string, as a failed read reports it.
pub open spec fn hex_error_text(e: codec::HexError) -> Seq<char> {
    match e {
        codec::HexError::OddLength => "odd-length hex string"@,
        codec::HexError::InvalidChar(b) => "invalid hex char: "@ + text::decimal(b as nat),
    }
}

/// `HexError`'s message.
pub fn hex_error_message(e: &codec::HexError) -> (r: String)
    ensures
        r@ == hex_error_text(*e),
{
    match e {
        codec::HexError::OddLength => text::owned("odd-length hex string"),
        codec::HexError::InvalidChar(b) => {
            let d = text::u64_decimal(*b as u64);
            text::concat2("invalid hex char: ", d.as_str())
        },
    }
}

/// What a store's `meta[0]` cell, read as the hex text `hex`, says of
/// the root blob id: `Failed` where the text is no hex or the bytes no
/// JSON, else the string `latestRootBlobId` where there is one.
pub fn root_read_of_meta(hex: &str) -> (r: RootRead)
    ensures
        match codec::hex_decode_spec(hex@) {
            Err(e) => r matches RootRead::Failed(m) && m@ == hex_error_text(e),
            Ok(bytes) => match json_codec::parsed_json_bytes(bytes) {
                None => r matches RootRead::Failed(m) && m@ == "meta[0] is not valid JSON"@,
                Some(v) => match json::get_str(v, "latestRootBlobId"@) {
                    Some(s) => r matches RootRead::Present(p) && p@ == s,
                    None => r is Missing,
                },
            },
        },
{
    let bytes = match codec::hex_decode(hex) {
        Ok(b) => b,
        Err(e) => return RootRead::Failed(hex_error_message(&e)),
    };
    match json_codec::parse_json_slice(bytes.as_slice()) {
        Some(v) => match v.get_str("latestRootBlobId") {
            Some(s) => RootRead::Present(s),
            None => RootRead::Missing,
        },
        None => RootRead::Failed(text::owned("meta[0] is not valid JSON")),
    }
}

/// The first eight characters of a root id (fewer when it is shorter).
pub open spec fn root_short(root: Seq<char>) -> Seq<char> {
    root.take(if root.len() < 8 { root.len() as int } else { 8 })
}

impl FixOrphansReport {
    /// Nothing inspected yet.
    pub fn new() -> (r: FixOrphansReport)
        ensures
            r.fixed@.len() == 0 && r.skipped@.len() == 0 && r.scanned == 0,
    {
        FixOrphansReport { fixed: Vec::new(), skipped: Vec::new(), scanned: 0 }
    }

    /// Records one inspected store of session `uuid`: what reading its root
    /// id gave and, where it needed repair, what the repair gave (the new
    /// root, or why it failed). Healthy stores and stores without a meta row
    /// are counted and left alone.
    pub fn record(&mut self, uuid: &str, read: &RootRead, repair: Option<Result<String, String>>)
        requires
            old(self).scanned < u32::MAX,
        ensures
            final(self).scanned == old(self).scanned + 1,
            match read {
                RootRead::Failed(e) => views(final(self).skipped@) == views(old(self).skipped@).push(
                    uuid@ + ": read meta[0] failed: "@ + e@,
                ) && final(self).fixed@ == old(self).fixed@,
                _ => if needs_fix(*read) {
                    match repair {
                        Some(Ok(root)) => views(final(self).fixed@) == views(old(self).fixed@).push(
                            uuid@ + " (root="@ + root_short(root@) + ")"@,
                        ) && final(self).skipped@ == old(self).skipped@,
                        Some(Err(e)) => views(final(self).skipped@) == views(old(self).skipped@).push(
                            uuid@ + ": "@ + e@,
                        ) && final(self).fixed@ == old(self).fixed@,
                        None => final(self).fixed@ == old(self).fixed@ && final(self).skipped@
                            == old(self).skipped@,
                    }
                } else {
                    final(self).fixed@ == old(self).fixed@ && final(self).skipped@
                        == old(self).skipped@
                },
            },
    {
        self.scanned = self.scanned + 1;
        match read {
            RootRead::Failed(e) => {
                let a = text::concat3(uuid, ": read meta[0] failed: ", e.as_str());
                let ghost before = self.skipped@;
                self.skipped.push(a);
                proof {
                    text::lemma_views_push(before, a);
                }
                return;
            },
            _ => {},
        }
        if !root_needs_fix(read) {
            return;
        }
        match repair {
            Some(Ok(root)) => {
                let rc = text::to_chars(root.as_str());
                let short = text::take_chars(&rc, 8);
                let s = text::from_chars(&short);
                let a = text::concat3(uuid, " (root=", s.as_str());
                let line = text::concat2(a.as_str(), ")");
                let ghost before = self.fixed@;
                self.fixed.push(line);
                proof {
                    text::lemma_views_push(before, line);
                }
            },
            Some(Err(e)) => {
                let line = text::concat3(uuid, ": ", e.as_str());
                let ghost before = self.skipped@;
                self.skipped.push(line);
                proof {
                    text::lemma_views_push(before, line);
                }
            },
            None => {},
        }
    }
}

/// The meta row with `latestRootBlobId` set: the member replaced where it
/// is, or added at the end.
pub open spec fn with_root(entries: Seq<(Seq<char>, JsonV)>, root: Seq<char>) -> Seq<(Seq<char>, JsonV)> {
    let k = json_key_pos(entries, "latestRootBlobId"@);
    if k < 0 {
        entries.push(("latestRootBlobId"@, JsonV::Str(root)))
    } else {
        entries.update(k, ("latestRootBlobId"@, JsonV::Str(root)))
    }
}

/// The position of the first member with the key, `-1` when none.
pub open spec fn json_key_pos(entries: Seq<(Seq<char>, JsonV)>, key: Seq<char>) -> int
    decreases entries.len(),
{
    if entries.len() == 0 {
        -1
    } else if entries[0].0 == key {
        0
    } else {
        let k = json_key_pos(entries.drop_first(), key);
        if k < 0 {
            -1
        } else {
            k + 1
        }
    }
}

proof fn lemma_json_key_pos(entries: Seq<(Seq<char>, JsonV)>, key: Seq<char>)
    ensures
        -1 <= json_key_pos(entries, key) < entries.len(),
    decreases entries.len(),
{
    if entries.len() > 0 {
        lemma_json_key_pos(entries.drop_first(), key);
    }
}

fn key_position(entries: &Vec<(String, Json)>, key: &String) -> (r: Option<usize>)
    ensures
        ({
            let ev = json::entries_view(entries@);
            match r {
                Some(k) => k as int == json_key_pos(ev, key@) && k < entries@.len(),
                None => json_key_pos(ev, key@) < 0,
            }
        }),
{
    let ghost ev = json::entries_view(entries@);
    proof {
        json::lemma_entries_view(entries@);
        assert(ev.skip(0) =~= ev);
    }
    let mut i: usize = 0;
    while i < entries.len()
        invariant
            i <= entries@.len() == ev.len(),
            ev == json::entries_view(entries@),
            forall|k: int| 0 <= k < entries@.len() ==> #[trigger] ev[k] == (entries@[k].0@, json::json_view(entries@[k].1)),
            json_key_pos(ev, key@) == (if json_key_pos(ev.skip(i as int), key@) < 0 {
                -1
            } else {
                json_key_pos(ev.skip(i as int), key@) + i
            }),
        decreases entries.len() - i,
    {
        assert(ev.skip(i as int).drop_first() =~= ev.skip(i + 1));
        assert(ev.skip(i as int)[0] == ev[i as int]);
        if entries[i].0 == *key {
            return Some(i);
        }
        i = i + 1;
    }
    None
}

/// `fix_latest_root`'s edit of the meta row: `latestRootBlobId` set to the
/// root; an error when the row is not a JSON object.
pub fn patch_latest_root(meta: Json, root: &str) -> (r: Result<Json, String>)
    ensures
        match meta@ {
            JsonV::Object(entries) => r is Ok && r->Ok_0@ == JsonV::Object(with_root(entries, root@)),
            _ => r is Err && r->Err_0@ == "meta[0] is not a JSON object"@,
        },
{
    match meta {
        Json::Object(mut entries) => {
            let ghost ev = json::entries_view(entries@);
            proof {
                json::lemma_entries_view(entries@);
                lemma_json_key_pos(ev, "latestRootBlobId"@);
                assert(ev.skip(0) =~= ev);
            }
            let key = text::owned("latestRootBlobId");
            let found = key_position(&entries, &key);
            let v = Json::Str(text::owned(root));
            let ghost vv = v@;
            match found {
                Some(k) => {
                    entries.set(k, (key, v));
                },
                None => {
                    entries.push((key, v));
                },
            }
            proof {
                json::lemma_entries_view(entries@);
                lemma_json_key_pos(ev, "latestRootBlobId"@);
                assert(json::entries_view(entries@) =~= with_root(ev, root@));
            }
            Ok(Json::Object(entries))
        },
        _ => Err(text::owned("meta[0] is not a JSON object")),
    }
}

/// The hex text `fix_latest_root` writes back into `meta[0]` for the cell
/// `hex`: the decoded row with the root set, as compact JSON, hex-encoded;
/// or why the cell could not be patched.
pub open spec fn patched_meta_spec(hex: Seq<char>, root: Seq<char>) -> Result<Seq<char>, Seq<char>> {
    match codec::hex_decode_spec(hex) {
        Err(e) => Err(hex_error_text(e)),
        Ok(bytes) => match json_codec::parsed_json_bytes(bytes) {
            None => Err("meta[0] is not valid JSON"@),
            Some(JsonV::Object(entries)) => Ok(
                codec::hex_of(
                    vstd::utf8::encode_utf8(json_codec::compact_json(JsonV::Object(with_root(entries, root)))),
                ),
            ),
            Some(_) => Err("meta[0] is not a JSON object"@),
        },
    }
}

/// `fix_latest_root`'s rewrite of the `meta[0]` cell `hex` so that its
/// `latestRootBlobId` is `root`.
pub fn patched_meta_hex(hex: &str, root: &str) -> (r: Result<String, String>)
    ensures
        match r {
            Ok(s) => patched_meta_spec(hex@, root@) == Ok::<Seq<char>, Seq<char>>(s@),
            Err(e) => patched_meta_spec(hex@, root@) == Err::<Seq<char>, Seq<char>>(e@),
        },
{
    let bytes = match codec::hex_decode(hex) {
        Ok(b) => b,
        Err(e) => return Err(hex_error_message(&e)),
    };
    let meta = match json_codec::parse_json_slice(bytes.as_slice()) {
        Some(v) => v,
        None => return Err(text::owned("meta[0] is not valid JSON")),
    };
    let patched = match patch_latest_root(meta, root) {
        Ok(p) => p,
        Err(e) => return Err(e),
    };
    let body = json_codec::to_compact(&patched);
    Ok(codec::hex_encode(body.as_str().as_bytes()))
}

// ── Deleting a session ────────────────────────────────────────

/// The outcome of deleting a session's Layer 1 and Layer 2 files (Layer 3
/// is never touched).
#[derive(Debug)]
pub struct DeleteReport {
    pub uuid: String,
    pub removed_l1: bool,
    pub removed_l2: bool,
    /// Why Layer 1 was not removed.
    pub skipped_l1: Option<String>,
    /// Why Layer 2 was not removed.
    pub skipped_l2: Option<String>,
    /// Cursor was running: nothing was deleted.
    pub cursor_running: bool,
    pub running_processes: Vec<String>,
}

/// A slug that cannot leave the projects directory: ASCII letters and
/// digits, `-` and `_` only.
pub open spec fn safe_slug(slug: Seq<char>) -> bool {
    forall|k: int|
        0 <= k < slug.len() ==> {
            let c = #[trigger] slug[k];
            ('a' <= c <= 'z') || ('A' <= c <= 'Z') || ('0' <= c <= '9') || c == '-' || c == '_'
        }
}

/// Whether the slug is safe to build a path from.
pub fn slug_is_safe(slug: &str) -> (r: bool)
    ensures
        r == safe_slug(slug@),
{
    let cs = text::to_chars(slug);
    let mut i: usize = 0;
    while i < cs.len()
        invariant
            i <= cs@.len(),
            cs@ == slug@,
            forall|k: int|
                0 <= k < i ==> {
                    let c = #[trigger] cs@[k];
                    ('a' <= c <= 'z') || ('A' <= c <= 'Z') || ('0' <= c <= '9') || c == '-' || c
                        == '_'
                },
        decreases cs.len() - i,
    {
        let c = cs[i];
        if !(('a' <= c && c <= 'z') || ('A' <= c && c <= 'Z') || ('0' <= c && c <= '9') || c == '-'
            || c == '_') {
            return false;
        }
        i = i + 1;
    }
    true
}

/// Where the Layer 1 files of a session are, or why they are left alone.
pub open spec fn l1_target_spec(home: Option<Seq<char>>, slug: Option<Seq<char>>, uuid: Seq<char>) -> Result<
    Seq<char>,
    Seq<char>,
> {
    match slug {
        Some(s) => if s.len() == 0 {
            Err("slug_not_provided"@)
        } else if !safe_slug(s) {
            Err("invalid_slug"@)
        } else {
            Ok(
                paths::join(
                    paths::join(paths::join(paths::projects_dir_spec(home), s), "agent-transcripts"@),
                    uuid,
                ),
            )
        },
        None => Err("slug_not_provided"@),
    }
}

/// `delete_session`'s Layer 1 target: `<projects>/<slug>/agent-transcripts/<uuid>`
/// when the slug is given and safe; else the skip reason.
pub fn l1_delete_target(home: Option<&str>, project_slug: Option<&str>, uuid: &str) -> (r: Result<
    String,
    String,
>)
    ensures
        match l1_target_spec(paths::opt_view(home), paths::opt_view(project_slug), uuid@) {
            Ok(p) => r is Ok && r->Ok_0@ == p,
            Err(e) => r is Err && r->Err_0@ == e,
        },
{
    match project_slug {
        Some(slug) => {
            if text::str_is_empty(slug) {
                return Err(text::owned("slug_not_provided"));
            }
            if !slug_is_safe(slug) {
                return Err(text::owned("invalid_slug"));
            }
            let p = paths::cursor_projects_dir(home);
            let a = paths::path_join(p.as_str(), slug);
            let b = paths::path_join(a.as_str(), "agent-transcripts");
            Ok(paths::path_join(b.as_str(), uuid))
        },
        None => Err(text::owned("slug_not_provided")),
    }
}

/// `delete_session`'s Layer 2 target: `~/.cursor/chats/<md5(cwd)>/<uuid>`.
pub fn l2_delete_target(home: Option<&str>, cwd: &str, uuid: &str) -> (r: String)
    ensures
        r@ == paths::chat_dir_spec(paths::opt_view(home), cwd@, uuid@),
{
    paths::chat_dir_for(home, cwd, uuid)
}

/// What happened to one layer's directory.
#[derive(Debug)]
pub enum Removal {
    Removed,
    /// The directory was not there.
    NotPresent,
    /// Removing it failed.
    IoError(String),
    /// Left alone, for the reason given.
    Skipped(String),
}

/// The report's fields for one layer: removed, and the skip reason.
pub open spec fn removal_fields(r: Removal, absent: Seq<char>) -> (bool, Option<Seq<char>>) {
    match r {
        Removal::Removed => (true, None),
        Removal::NotPresent => (false, Some(absent)),
        Removal::IoError(e) => (false, Some("io_error: "@ + e@)),
        Removal::Skipped(s) => (false, Some(s@)),
    }
}

fn removal_report(r: Removal, absent: &str) -> (out: (bool, Option<String>))
    ensures
        out.0 == removal_fields(r, absent@).0,
        match (out.1, removal_fields(r, absent@).1) {
            (Some(a), Some(b)) => a@ == b,
            (None, None) => true,
            _ => false,
        },
{
    match r {
        Removal::Removed => (true, None),
        Removal::NotPresent => (false, Some(text::owned(absent))),
        Removal::IoError(e) => (false, Some(text::concat2("io_error: ", e.as_str()))),
        Removal::Skipped(s) => (false, Some(s)),
    }
}

impl DeleteReport {
    /// Cursor is running: nothing is deleted, and the processes are listed.
    pub fn busy(uuid: &str, running: Vec<String>) -> (r: DeleteReport)
        ensures
            r.uuid@ == uuid@,
            !r.removed_l1 && !r.removed_l2,
            r.skipped_l1 is None && r.skipped_l2 is None,
            r.cursor_running,
            r.running_processes@ == running@,
    {
        DeleteReport {
            uuid: text::owned(uuid),
            removed_l1: false,
            removed_l2: false,
            skipped_l1: None,
            skipped_l2: None,
            cursor_running: true,
            running_processes: running,
        }
    }

    /// The report of a deletion that ran.
    pub fn finished(uuid: &str, l1: Removal, l2: Removal) -> (r: DeleteReport)
        ensures
            r.uuid@ == uuid@,
            r.removed_l1 == removal_fields(l1, "l1_not_present"@).0,
            r.removed_l2 == removal_fields(l2, "l2_not_present"@).0,
            match (r.skipped_l1, removal_fields(l1, "l1_not_present"@).1) {
                (Some(a), Some(b)) => a@ == b,
                (None, None) => true,
                _ => false,
            },
            match (r.skipped_l2, removal_fields(l2, "l2_not_present"@).1) {
                (Some(a), Some(b)) => a@ == b,
                (None, None) => true,
                _ => false,
            },
            !r.cursor_running,
            r.running_processes@.len() == 0,
    {
        let (removed_l1, skipped_l1) = removal_report(l1, "l1_not_present");
        let (removed_l2, skipped_l2) = removal_report(l2, "l2_not_present");
        DeleteReport {
            uuid: text::owned(uuid),
            removed_l1,
            removed_l2,
            skipped_l1,
            skipped_l2,
            cursor_running: false,
            running_processes: Vec::new(),
        }
    }
}

// ── What a Layer 3 write carries ──────────────────────────────

/// The first user bubble.
pub open spec fn first_user(bs: Seq<BubbleV>) -> Option<BubbleV>
    decreases bs.len(),
{
    if bs.len() == 0 {
        None
    } else if bs[0].role == "user"@ {
        Some(bs[0])
    } else {
        first_user(bs.drop_first())
    }
}

/// The first positive bubble time, 0 when none.
pub open spec fn first_time(bs: Seq<BubbleV>) -> i64
    decreases bs.len(),
{
    if bs.len() == 0 {
        0
    } else if bs[0].created_at_ms > 0 {
        bs[0].created_at_ms
    } else {
        first_time(bs.drop_first())
    }
}

/// The latest bubble time.
pub open spec fn latest_time(bs: Seq<BubbleV>) -> i64
    recommends
        bs.len() > 0,
    decreases bs.len(),
{
    if bs.len() <= 1 {
        bs[0].created_at_ms
    } else {
        let rest = latest_time(bs.drop_first());
        if bs[0].created_at_ms >= rest {
            bs[0].created_at_ms
        } else {
            rest
        }
    }
}

/// The header a synthesized Layer 3 session gets.
#[derive(Debug)]
pub struct Layer3Header {
    /// The title: the first user message's, else `CLI 会话`.
    pub name: String,
    /// The subtitle: the first user message's title again, else the name.
    pub subtitle: String,
    pub created_at_ms: i64,
    pub last_updated_ms: i64,
    /// The Layer 1 slug of the project, `cli-<uuid>` without one.
    pub project_slug: String,
}

/// `write_layer3`'s header: an error without bubbles.
pub fn layer3_header(uuid: &str, cwd: &str, bubbles: &[Bubble]) -> (r: Result<Layer3Header, String>)
    ensures
        bubbles@.len() == 0 <==> r is Err,
        r is Err ==> r->Err_0@ == "no Layer 1 bubbles to synthesize Layer 3 from"@,
        r is Ok ==> ({
            let h = r->Ok_0;
            let bs = bubble_views(bubbles@);
            &&& h.name@ == match first_user(bs) {
                Some(b) => inject::title_of(b.text),
                None => "CLI 会话"@,
            }
            &&& h.subtitle@ == h.name@
            &&& h.created_at_ms == first_time(bs)
            &&& h.last_updated_ms == latest_time(bs)
            &&& h.project_slug@ == (if cwd@.len() == 0 {
                "cli-"@ + uuid@
            } else {
                paths::dash_separators(text::trim_matches(cwd@, '/'))
            })
        }),
{
    if bubbles.len() == 0 {
        return Err(text::owned("no Layer 1 bubbles to synthesize Layer 3 from"));
    }
    let ghost bs = bubble_views(bubbles@);
    let mut name: Option<String> = None;
    let mut created: i64 = 0;
    let mut created_found = false;
    let mut latest: i64 = bubbles[bubbles.len() - 1].created_at_ms;
    proof {
        assert(bs.skip(bubbles@.len() - 1) =~= seq![bs[bubbles@.len() - 1]]);
        assert(bs[bubbles@.len() - 1] == bubbles@[bubbles@.len() - 1]@);
    }
    let mut i: usize = bubbles.len() - 1;
    while i > 0
        invariant
            0 <= i < bubbles@.len(),
            bs == bubble_views(bubbles@),
            latest == latest_time(bs.skip(i as int)),
        decreases i,
    {
        let t = bubbles[i - 1].created_at_ms;
        proof {
            assert(bs.skip(i - 1).drop_first() =~= bs.skip(i as int));
            assert(bs.skip(i - 1)[0] == bubbles@[i - 1]@);
        }
        if t >= latest {
            latest = t;
        }
        i = i - 1;
    }
    proof {
        assert(bs.skip(0) =~= bs);
    }
    let mut j: usize = 0;
    while j < bubbles.len()
        invariant
            j <= bubbles@.len(),
            bs == bubble_views(bubbles@),
            created_found ==> first_time(bs) == created,
            !created_found ==> created == 0,
            !created_found ==> first_time(bs) == first_time(bs.skip(j as int)),
            name is Some ==> first_user(bs) is Some && name->0@ == inject::title_of(first_user(bs)->0.text),
            name is None ==> first_user(bs) == first_user(bs.skip(j as int)),
        decreases bubbles.len() - j,
    {
        let b = &bubbles[j];
        proof {
            assert(bs.skip(j as int).drop_first() =~= bs.skip(j + 1));
            assert(bs.skip(j as int)[0] == b@);
        }
        if !created_found && b.created_at_ms > 0 {
            created = b.created_at_ms;
            created_found = true;
        }
        if name.is_none() && text::str_eq(b.role.as_str(), "user") {
            name = Some(inject::truncate_to_title_pub(b.text.as_str()));
        }
        j = j + 1;
    }
    proof {
        assert(bs.skip(j as int) =~= Seq::<BubbleV>::empty());
    }
    let name = match name {
        Some(n) => n,
        None => text::owned("CLI 会话"),
    };
    let subtitle = name.clone();
    let project_slug = if text::str_is_empty(cwd) {
        text::concat2("cli-", uuid)
    } else {
        paths::sanitize_project_path(cwd)
    };
    Ok(Layer3Header { name, subtitle, created_at_ms: created, last_updated_ms: latest, project_slug })
}

/// `with_sidecar_suffix`: the path with `-wal` or `-shm` appended.
pub fn with_sidecar_suffix(path: &str, suffix: &str) -> (r: String)
    ensures
        r@ == path@ + suffix@,
{
    text::concat2(path, suffix)
}

// ── Sync decisions ────────────────────────────────────────────

/// What `sync_session` does, from what it found.
#[derive(Debug, PartialEq, Eq)]
pub enum SyncPlan {
    /// Cursor is running: nothing is written; the reason is reported.
    Busy(String),
    /// Both layers already hold the session.
    AlreadySynced,
    /// Neither Layer 3 nor Layer 1 has anything to build from.
    NoSource,
    /// Write the layers marked.
    Write { layer2: bool, layer3: bool },
}

/// `sync_session`'s decision: Cursor running blocks everything; nothing is
/// written when both layers hold the session, or when there is nothing to
/// build from; otherwise the missing layers are written.
pub fn sync_plan(
    running: &Vec<String>,
    layer2_exists: bool,
    layer3_present: bool,
    has_layer1_bubbles: bool,
) -> (r: SyncPlan)
    ensures
        running@.len() > 0 ==> (r matches SyncPlan::Busy(m) && m@ == "cursor_running("@
            + text::decimal(running@.len() as nat) + " proc, e.g. "@ + running@[0]@ + ")"@),
        running@.len() == 0 && layer2_exists && layer3_present ==> r == SyncPlan::AlreadySynced,
        running@.len() == 0 && !(layer2_exists && layer3_present) && !layer3_present
            && !has_layer1_bubbles ==> r == SyncPlan::NoSource,
        running@.len() == 0 && !(layer2_exists && layer3_present) && (layer3_present
            || has_layer1_bubbles) ==> r == (SyncPlan::Write {
            layer2: !layer2_exists,
            layer3: !layer3_present,
        }),
{
    if running.len() > 0 {
        let n = text::u64_decimal(running.len() as u64);
        let a = text::concat3("cursor_running(", n.as_str(), " proc, e.g. ");
        let b = text::concat3(a.as_str(), running[0].as_str(), ")");
        return SyncPlan::Busy(b);
    }
    if layer2_exists && layer3_present {
        return SyncPlan::AlreadySynced;
    }
    if !layer3_present && !has_layer1_bubbles {
        return SyncPlan::NoSource;
    }
    SyncPlan::Write { layer2: !layer2_exists, layer3: !layer3_present }
}

/// What Layer 3 holds of a session that a Layer 2 write reuses.
#[derive(Debug)]
pub struct Layer3Data {
    /// The name, `New Agent` when absent.
    pub name: String,
    pub created_at_ms: i64,
    /// The mode, `default` when absent.
    pub force_mode: String,
    pub is_run_everything: bool,
    /// The base64 of the conversation state, without its leading `~`
    /// marks; `None` when absent or empty.
    pub conversation_state_b64: Option<String>,
}

impl Layer3Data {
    /// `read_layer3_composer_data`, from the session's `composerData` row.
    pub fn from_composer(v: &Json) -> (r: Layer3Data)
        ensures
            r.name@ == json::str_or(json::get_str(v@, "name"@), "New Agent"@),
            r.created_at_ms == json::i64_or(json::get_i64(v@, "createdAt"@), 0),
            r.force_mode@ == json::str_or(json::get_str(v@, "forceMode"@), "default"@),
            r.is_run_everything == match json::get_bool(v@, "isRunEverything"@) {
                Some(b) => b,
                None => false,
            },
            match json::get_str(v@, "conversationState"@) {
                Some(s) => if text::strip_leading(s, '~').len() > 0 {
                    r.conversation_state_b64 is Some && r.conversation_state_b64->0@
                        == text::strip_leading(s, '~')
                } else {
                    r.conversation_state_b64 is None
                },
                None => r.conversation_state_b64 is None,
            },
    {
        let name = match v.get_str("name") {
            Some(s) => s,
            None => text::owned("New Agent"),
        };
        let created_at_ms = match v.get_i64("createdAt") {
            Some(x) => x,
            None => 0,
        };
        let force_mode = match v.get_str("forceMode") {
            Some(s) => s,
            None => text::owned("default"),
        };
        let is_run_everything = match v.get_bool("isRunEverything") {
            Some(b) => b,
            None => false,
        };
        let conversation_state_b64 = match v.get_str("conversationState") {
            Some(s) => {
                let cs = text::to_chars(s.as_str());
                let t = strip_leading_tildes(&cs);
                if t.len() > 0 {
                    Some(text::from_chars(&t))
                } else {
                    None
                }
            },
            None => None,
        };
        Layer3Data { name, created_at_ms, force_mode, is_run_everything, conversation_state_b64 }
    }
}

fn strip_leading_tildes(s: &Vec<char>) -> (r: Vec<char>)
    ensures
        r@ == text::strip_leading(s@, '~'),
{
    let mut i: usize = 0;
    assert(s@.skip(0) =~= s@);
    while i < s.len() && s[i] == '~'
        invariant
            i <= s@.len(),
            text::strip_leading(s@, '~') == text::strip_leading(s@.skip(i as int), '~'),
        decreases s.len() - i,
    {
        assert(s@.skip(i as int).drop_first() =~= s@.skip(i + 1));
        i = i + 1;
    }
    proof {
        if i < s@.len() {
            assert(s@.skip(i as int)[0] == s@[i as int]);
        }
    }
    let r = text::slice_of(s, i, s.len());
    assert(r@ =~= s@.skip(i as int));
    r
}

/// The meta row fields of a Layer 2 write: from Layer 3 where it holds the
/// session; else the first user message's title (`New Agent` without one),
/// the first positive bubble time, mode `default`, not run-everything.
pub fn layer2_meta_fields(l3: &Option<Layer3Data>, bubbles: &[Bubble]) -> (r: (String, i64, String, bool))
    ensures
        match l3 {
            Some(d) => r.0@ == d.name@ && r.1 == d.created_at_ms && r.2@ == d.force_mode@ && r.3
                == d.is_run_everything,
            None => r.0@ == match first_user(bubble_views(bubbles@)) {
                Some(b) => inject::title_of(b.text),
                None => "New Agent"@,
            } && r.1 == first_time(bubble_views(bubbles@)) && r.2@ == "default"@ && !r.3,
        },
{
    match l3 {
        Some(d) => (d.name.clone(), d.created_at_ms, d.force_mode.clone(), d.is_run_everything),
        None => {
            let ghost bs = bubble_views(bubbles@);
            let mut name: Option<String> = None;
            let mut created: i64 = 0;
            let mut found = false;
            let mut j: usize = 0;
            assert(bs.skip(0) =~= bs);
            while j < bubbles.len()
                invariant
                    j <= bubbles@.len(),
                    bs == bubble_views(bubbles@),
                    found ==> first_time(bs) == created,
                    !found ==> created == 0 && first_time(bs) == first_time(bs.skip(j as int)),
                    name is Some ==> first_user(bs) is Some && name->0@ == inject::title_of(
                        first_user(bs)->0.text,
                    ),
                    name is None ==> first_user(bs) == first_user(bs.skip(j as int)),
                decreases bubbles.len() - j,
            {
                let b = &bubbles[j];
                proof {
                    assert(bs.skip(j as int).drop_first() =~= bs.skip(j + 1));
                    assert(bs.skip(j as int)[0] == b@);
                }
                if !found && b.created_at_ms > 0 {
                    created = b.created_at_ms;
                    found = true;
                }
                if name.is_none() && text::str_eq(b.role.as_str(), "user") {
                    name = Some(inject::truncate_to_title_pub(b.text.as_str()));
                }
                j = j + 1;
            }
            proof {
                assert(bs.skip(j as int) =~= Seq::<BubbleV>::empty());
            }
            let name = match name {
                Some(n) => n,
                None => text::owned("New Agent"),
            };
            (name, created, text::owned("default"), false)
        },
    }
}

/// The JSON document a synthesized Layer 2 blob carries for one bubble:
/// `{"role":…,"text":…,"createdAt":…}`.
pub open spec fn bubble_blob_json(b: BubbleV) -> JsonV {
    JsonV::Object(
        seq![
            ("role"@, JsonV::Str(b.role)),
            ("text"@, JsonV::Str(b.text)),
            ("createdAt"@, jint(b.created_at_ms)),
        ],
    )
}

/// The bytes of that blob: the document's compact JSON text.
pub open spec fn bubble_blob_bytes(b: BubbleV) -> Seq<u8> {
    vstd::utf8::encode_utf8(json_codec::compact_json(bubble_blob_json(b)))
}

/// The id of a blob: the lowercase hex SHA-256 of its bytes.
pub open spec fn blob_id(data: Seq<u8>) -> Seq<char> {
    codec::hex_of(digest::sha256_digest(data))
}

/// The root blob that references each bubble blob: field 1, length 32,
/// the id's bytes, in order.
pub open spec fn root_blob(ids: Seq<Seq<u8>>) -> Seq<u8>
    decreases ids.len(),
{
    if ids.len() == 0 {
        seq![]
    } else {
        root_blob(ids.drop_last()) + seq![0x0Au8, 32u8] + ids.last()
    }
}

fn blob_json(b: &Bubble) -> (r: Json)
    ensures
        r@ == bubble_blob_json(b@),
{
    let mut e: Vec<(String, Json)> = Vec::new();
    proof {
        json::lemma_entries_view(e@);
    }
    json::push_member(&mut e, "role", Json::Str(b.role.clone()));
    json::push_member(&mut e, "text", Json::Str(b.text.clone()));
    json::push_member(&mut e, "createdAt", int_json(b.created_at_ms));
    assert(json::entries_view(e@) =~= bubble_blob_json(b@)->Object_0);
    Json::Object(e)
}

/// The blobs a Layer 2 write stores, `(id, bytes)`: the decoded
/// conversation state of Layer 3 when it decodes; otherwise one blob per
/// bubble and a root blob referencing them all (none without bubbles).
pub fn layer2_blobs(l3: &Option<Layer3Data>, bubbles: &[Bubble]) -> (r: Vec<(String, Vec<u8>)>)
    ensures
        ({
            let decoded = match l3 {
                Some(d) => match d.conversation_state_b64 {
                    Some(s) => match codec::b64_decode_bytes(vstd::utf8::encode_utf8(s@)) {
                        Ok(bytes) => Some(bytes),
                        Err(_) => None,
                    },
                    None => None,
                },
                None => None,
            };
            match decoded {
                Some(bytes) => r@.len() == 1 && r@[0].0@ == blob_id(bytes) && r@[0].1@ == bytes,
                None => if bubbles@.len() == 0 {
                    r@.len() == 0
                } else {
                    let bs = bubble_views(bubbles@);
                    let datas = bs.map_values(|b: BubbleV| bubble_blob_bytes(b));
                    let ids = datas.map_values(|d: Seq<u8>| digest::sha256_digest(d));
                    &&& r@.len() == bs.len() + 1
                    &&& forall|k: int| 0 <= k < bs.len() ==> (#[trigger] r@[k]).1@ == datas[k] && r@[k].0@ == codec::hex_of(ids[k])
                    &&& r@[bs.len() as int].1@ == root_blob(ids)
                    &&& r@[bs.len() as int].0@ == blob_id(root_blob(ids))
                }
            }
        }),
{
    let mut blobs: Vec<(String, Vec<u8>)> = Vec::new();
    match l3 {
        Some(d) => match &d.conversation_state_b64 {
            Some(s) => match codec::base64_decode(s.as_str()) {
                Ok(bytes) => {
                    let digest = digest::sha256(&bytes);
                    let id = codec::hex_encode(&digest);
                    blobs.push((id, bytes));
                    return blobs;
                },
                Err(_) => {},
            },
            None => {},
        },
        None => {},
    }
    if bubbles.len() == 0 {
        return blobs;
    }
    let ghost bs = bubble_views(bubbles@);
    let ghost datas = bs.map_values(|b: BubbleV| bubble_blob_bytes(b));
    let ghost ids = datas.map_values(|d: Seq<u8>| digest::sha256_digest(d));
    let mut root: Vec<u8> = Vec::new();
    let mut i: usize = 0;
    proof {
        assert(ids.take(0) =~= Seq::<Seq<u8>>::empty());
    }
    while i < bubbles.len()
        invariant
            i <= bubbles@.len() == bs.len() == datas.len() == ids.len(),
            bs == bubble_views(bubbles@),
            datas == bs.map_values(|b: BubbleV| bubble_blob_bytes(b)),
            ids == datas.map_values(|d: Seq<u8>| digest::sha256_digest(d)),
            blobs@.len() == i,
            forall|k: int| 0 <= k < i ==> (#[trigger] blobs@[k]).1@ == datas[k] && blobs@[k].0@ == codec::hex_of(ids[k]),
            root@ == root_blob(ids.take(i as int)),
        decreases bubbles.len() - i,
    {
        let doc = blob_json(&bubbles[i]);
        let t = json_codec::to_compact(&doc);
        let bytes = crate::bubble::str_bytes(t.as_str());
        proof {
            assert(bs[i as int] == bubbles@[i as int]@);
        }
        let digest = digest::sha256(&bytes);
        let id = codec::hex_encode(&digest);
        root.push(0x0Au8);
        root.push(32u8);
        let mut k: usize = 0;
        let ghost base = root@;
        while k < digest.len()
            invariant
                k <= digest@.len(),
                root@ == base + digest@.take(k as int),
            decreases digest.len() - k,
        {
            root.push(digest[k]);
            assert(digest@.take(k + 1) =~= digest@.take(k as int).push(digest@[k as int]));
            k = k + 1;
        }
        proof {
            assert(digest@.take(k as int) =~= digest@);
            assert(ids.take(i + 1).drop_last() =~= ids.take(i as int));
            assert(ids.take(i + 1).last() == ids[i as int]);
            assert(root@ =~= root_blob(ids.take(i + 1)));
        }
        blobs.push((id, bytes));
        i = i + 1;
    }
    proof {
        assert(ids.take(i as int) =~= ids);
    }
    let rd = digest::sha256(&root);
    let rid = codec::hex_encode(&rd);
    blobs.push((rid, root));
    blobs
}

/// The JSON document of a new Layer 2 meta row: agent id, empty root id,
/// name, mode, run-everything flag and creation time.
pub open spec fn meta_row_json(uuid: Seq<char>, name: Seq<char>, mode: Seq<char>, run: bool, created: i64) -> JsonV {
    JsonV::Object(
        seq![
            ("agentId"@, JsonV::Str(uuid)),
            ("latestRootBlobId"@, JsonV::Str(seq![])),
            ("name"@, JsonV::Str(name)),
            ("mode"@, JsonV::Str(mode)),
            ("isRunEverything"@, JsonV::Bool(run)),
            ("createdAt"@, jint(created)),
        ],
    )
}

/// The meta row `write_layer2` stores, hex-encoded, before the root is
/// patched in: the hex of the document's compact JSON text.
pub fn layer2_meta_hex(uuid: &str, name: &str, mode: &str, run: bool, created: i64) -> (r: String)
    ensures
        r@ == codec::hex_of(
            vstd::utf8::encode_utf8(json_codec::compact_json(meta_row_json(uuid@, name@, mode@, run, created))),
        ),
{
    proof {
        reveal_strlit("");
        assert(""@ =~= Seq::<char>::empty());
    }
    let mut e: Vec<(String, Json)> = Vec::new();
    proof {
        json::lemma_entries_view(e@);
    }
    json::push_member(&mut e, "agentId", Json::Str(text::owned(uuid)));
    json::push_member(&mut e, "latestRootBlobId", Json::Str(text::owned("")));
    json::push_member(&mut e, "name", Json::Str(text::owned(name)));
    json::push_member(&mut e, "mode", Json::Str(text::owned(mode)));
    json::push_member(&mut e, "isRunEverything", Json::Bool(run));
    json::push_member(&mut e, "createdAt", int_json(created));
    assert(json::entries_view(e@) =~= meta_row_json(uuid@, name@, mode@, run, created)->Object_0);
    let doc = Json::Object(e);
    let body = json_codec::to_compact(&doc);
    codec::hex_encode(body.as_str().as_bytes())
}

} // verus!
