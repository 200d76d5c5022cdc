//! The v4 session snapshot: a session and its bubbles as plain JSON, the
//! unit that transports carry between devices.
//!
//! Encoding to and decoding from JSON text is the caller's part; the
//! library builds snapshots from sessions, maps their bubbles both ways and
//! checks what was decoded.
use vstd::prelude::*;

use crate::bubble::{self, Bubble, BubbleToolUse, BubbleV, ToolUseV, bubble_views, tool_views};
use crate::canonical::{self, CanonicalSession};
use crate::json::{self, Json, JsonV};
use crate::text::{self, views};

verus! {

/// The snapshot format version this library writes and reads.
pub const SNAPSHOT_VERSION: u32 = 4;

/// Which machine and endpoint produced a snapshot.
#[derive(Debug)]
pub struct SourceEndpoint {
    pub host: String,
    pub os: String,
    pub user: String,
    pub endpoint_kind: String,
    pub cursor_version: Option<String>,
}

/// The session's header in a snapshot.
#[derive(Debug)]
pub struct ComposerMeta {
    pub composer_id: String,
    pub last_updated_at: i64,
    pub project_path: String,
    pub project_slug: String,
    pub workspace_id: String,
    pub chat_root: String,
}

/// A tool call in a snapshot (`null` input where there was none).
#[derive(Debug)]
pub struct SnapshotToolUse {
    pub name: String,
    pub input: Json,
}

/// A bubble in a snapshot.
#[derive(Debug)]
pub struct SnapshotBubble {
    pub id: String,
    pub role: String,
    pub text: String,
    pub tool_calls: Vec<SnapshotToolUse>,
    pub files: Vec<String>,
    pub ts_ms: i64,
    pub parent_bubble_id: Option<String>,
}

/// A v4 snapshot.
#[derive(Debug)]
pub struct SessionSnapshot {
    pub version: u32,
    pub exported_at: i64,
    pub source_endpoint: SourceEndpoint,
    pub composer: ComposerMeta,
    pub bubbles: Vec<SnapshotBubble>,
    pub blob_refs: Vec<String>,
    /// Raw Layer 2 blobs by id (hex), each id once.
    pub raw_blobs: Vec<(String, String)>,
}

/// Model of a snapshot tool call.
pub open spec fn snap_tool_view(t: SnapshotToolUse) -> ToolUseV {
    ToolUseV { name: t.name@, input: Some(t.input@) }
}

/// The model of a snapshot bubble, as a bubble without images.
pub open spec fn snap_bubble_view(b: SnapshotBubble) -> BubbleV {
    BubbleV {
        id: b.id@,
        role: b.role@,
        text: b.text@,
        tool_calls: b.tool_calls@.map_values(|t: SnapshotToolUse| snap_tool_view(t)),
        files: views(b.files@),
        images: seq![],
        created_at_ms: b.ts_ms,
        parent_bubble_id: match b.parent_bubble_id {
            Some(p) => Some(p@),
            None => None,
        },
    }
}

/// A tool call as a snapshot carries it: no input becomes `null`.
pub open spec fn to_snapshot_tool(t: ToolUseV) -> ToolUseV {
    ToolUseV {
        name: t.name,
        input: match t.input {
            Some(j) => Some(j),
            None => Some(JsonV::Null),
        },
    }
}

/// A tool call read back from a snapshot: `null` input becomes none.
pub open spec fn from_snapshot_tool(t: ToolUseV) -> ToolUseV {
    ToolUseV {
        name: t.name,
        input: match t.input {
            Some(JsonV::Null) => None,
            other => other,
        },
    }
}

/// A bubble survives a trip through a snapshot: carried in
/// (`SnapshotBubble::from_canonical`) and read back (`Bubble::from_snapshot`),
/// it is the same bubble, wherever it has no images and no tool call with
/// an explicit `null` input (those two are what a snapshot does not keep).
pub proof fn lemma_snapshot_bubble_round_trip(b: BubbleV)
    requires
        b.images.len() == 0,
        forall|i: int| 0 <= i < b.tool_calls.len() ==> (#[trigger] b.tool_calls[i]).input != Some(JsonV::Null),
    ensures
        ({
            let s = BubbleV {
                tool_calls: b.tool_calls.map_values(|t: ToolUseV| to_snapshot_tool(t)),
                images: seq![],
                ..b
            };
            (BubbleV { tool_calls: s.tool_calls.map_values(|t: ToolUseV| from_snapshot_tool(t)), ..s }) == b
        }),
{
    let s = b.tool_calls.map_values(|t: ToolUseV| to_snapshot_tool(t));
    let back = s.map_values(|t: ToolUseV| from_snapshot_tool(t));
    assert forall|i: int| 0 <= i < b.tool_calls.len() implies back[i] == b.tool_calls[i] by {
        let t = b.tool_calls[i];
        match t.input {
            Some(j) => {
                assert(j != JsonV::Null);
            },
            None => {},
        }
    }
    assert(back =~= b.tool_calls);
    assert(b.images =~= seq![]);
}

impl SnapshotBubble {
    /// `from_canonical`: the bubble as a snapshot carries it (images are not
    /// carried; a missing tool input becomes `null`).
    pub fn from_canonical(b: &Bubble) -> (r: SnapshotBubble)
        ensures
            snap_bubble_view(r) == (BubbleV {
                tool_calls: b@.tool_calls.map_values(|t: ToolUseV| to_snapshot_tool(t)),
                images: seq![],
                ..b@
            }),
    {
        let mut tools: Vec<SnapshotToolUse> = Vec::new();
        let mut i: usize = 0;
        while i < b.tool_calls.len()
            invariant
                i <= b.tool_calls@.len(),
                tools@.map_values(|t: SnapshotToolUse| snap_tool_view(t)) == tool_views(
                    b.tool_calls@,
                ).take(i as int).map_values(|t: ToolUseV| to_snapshot_tool(t)),
            decreases b.tool_calls.len() - i,
        {
            let t = &b.tool_calls[i];
            let input = match &t.input {
                Some(j) => j.clone(),
                None => Json::Null,
            };
            let st = SnapshotToolUse { name: t.name.clone(), input };
            let ghost before = tools@;
            tools.push(st);
            proof {
                let tv = tool_views(b.tool_calls@);
                assert(tv[i as int] == t@);
                assert(tools@.map_values(|t: SnapshotToolUse| snap_tool_view(t)) =~= before.map_values(
                    |t: SnapshotToolUse| snap_tool_view(t),
                ).push(to_snapshot_tool(t@)));
                assert(tv.take(i + 1).map_values(|t: ToolUseV| to_snapshot_tool(t)) =~= tv.take(
                    i as int,
                ).map_values(|t: ToolUseV| to_snapshot_tool(t)).push(to_snapshot_tool(t@)));
            }
            i = i + 1;
        }
        proof {
            assert(tool_views(b.tool_calls@).take(i as int) =~= tool_views(b.tool_calls@));
        }
        SnapshotBubble {
            id: b.id.clone(),
            role: b.role.clone(),
            text: b.text.clone(),
            tool_calls: tools,
            files: bubble::clone_strings(&b.files),
            ts_ms: b.created_at_ms,
            parent_bubble_id: match &b.parent_bubble_id {
                Some(p) => Some(p.clone()),
                None => None,
            },
        }
    }
}

impl Bubble {
    /// `from_snapshot`: the bubble a snapshot carries (no images; a `null`
    /// tool input becomes none).
    pub fn from_snapshot(b: &SnapshotBubble) -> (r: Bubble)
        ensures
            r@ == (BubbleV {
                tool_calls: snap_bubble_view(*b).tool_calls.map_values(
                    |t: ToolUseV| from_snapshot_tool(t),
                ),
                ..snap_bubble_view(*b)
            }),
    {
        let ghost sv = b.tool_calls@.map_values(|t: SnapshotToolUse| snap_tool_view(t));
        let mut tools: Vec<BubbleToolUse> = Vec::new();
        let mut i: usize = 0;
        while i < b.tool_calls.len()
            invariant
                i <= b.tool_calls@.len(),
                sv == b.tool_calls@.map_values(|t: SnapshotToolUse| snap_tool_view(t)),
                tool_views(tools@) == sv.take(i as int).map_values(
                    |t: ToolUseV| from_snapshot_tool(t),
                ),
            decreases b.tool_calls.len() - i,
        {
            let t = &b.tool_calls[i];
            let input = match &t.input {
                Json::Null => None,
                j => Some(j.clone()),
            };
            let bt = BubbleToolUse { name: t.name.clone(), input };
            let ghost before = tools@;
            tools.push(bt);
            proof {
                assert(sv[i as int] == snap_tool_view(*t));
                assert(tool_views(tools@) =~= tool_views(before).push(bt@));
                assert(sv.take(i + 1).map_values(|t: ToolUseV| from_snapshot_tool(t)) =~= sv.take(
                    i as int,
                ).map_values(|t: ToolUseV| from_snapshot_tool(t)).push(
                    from_snapshot_tool(sv[i as int]),
                ));
            }
            i = i + 1;
        }
        proof {
            assert(sv.take(i as int) =~= sv);
        }
        let images: Vec<bubble::BubbleImage> = Vec::new();
        let r = Bubble {
            id: b.id.clone(),
            role: b.role.clone(),
            text: b.text.clone(),
            tool_calls: tools,
            files: bubble::clone_strings(&b.files),
            images,
            created_at_ms: b.ts_ms,
            parent_bubble_id: match &b.parent_bubble_id {
                Some(p) => Some(p.clone()),
                None => None,
            },
        };
        assert(bubble::image_views(images@) =~= Seq::<bubble::ImageV>::empty());
        r
    }
}

/// The workspace id a snapshot records: `workspaceIdentifier.id` of the
/// session's `composerData`, else `empty-window`.
pub open spec fn workspace_id_of(composer: Option<JsonV>) -> Seq<char> {
    match composer {
        Some(v) => match json::get(v, "workspaceIdentifier"@) {
            Some(wi) => match json::get_str(wi, "id"@) {
                Some(s) => s,
                None => "empty-window"@,
            },
            None => "empty-window"@,
        },
        None => "empty-window"@,
    }
}

/// The bubbles a snapshot carries, each as the bubble it stands for.
pub open spec fn snapshot_bubble_views(s: Seq<SnapshotBubble>) -> Seq<BubbleV> {
    Seq::new(
        s.len(),
        |k: int|
            BubbleV {
                tool_calls: snap_bubble_view(s[k]).tool_calls.map_values(|t: ToolUseV| from_snapshot_tool(t)),
                ..snap_bubble_view(s[k])
            },
    )
}

impl SessionSnapshot {
    /// `from_canonical_v4`: the snapshot of a session and its bubbles,
    /// exported from `host` (running `os` as `user`, as the caller read
    /// them) at `exported_at_ms`. `composer` is the session's
    /// `composerData` JSON as parsed by the caller (`None` when there is none
    /// or it did not parse).
    pub fn from_canonical_v4(
        session: &CanonicalSession,
        bubbles: &[Bubble],
        host: &str,
        exported_at_ms: i64,
        os: &str,
        user: &str,
        composer: Option<&Json>,
    ) -> (r: SessionSnapshot)
        ensures
            r.version == SNAPSHOT_VERSION,
            r.exported_at == exported_at_ms,
            r.source_endpoint.host@ == host@,
            r.source_endpoint.os@ == os@,
            r.source_endpoint.user@ == user@,
            r.source_endpoint.endpoint_kind@ == canonical::endpoint_kind_of(session@.sources),
            r.source_endpoint.cursor_version is None,
            r.composer.composer_id@ == match session@.composer_id {
                Some(c) => c,
                None => session@.uuid,
            },
            r.composer.last_updated_at == session.last_updated_at,
            r.composer.project_path@ == session.project_path@,
            r.composer.project_slug@ == session.project_slug@,
            r.composer.workspace_id@ == workspace_id_of(
                match composer {
                    Some(j) => Some(j@),
                    None => None,
                },
            ),
            r.composer.chat_root@ == session.chat_root@,
            r.bubbles@.len() == bubbles@.len(),
            forall|k: int|
                0 <= k < bubbles@.len() ==> snap_bubble_view(#[trigger] r.bubbles@[k]) == (BubbleV {
                    tool_calls: bubbles@[k]@.tool_calls.map_values(|t: ToolUseV| to_snapshot_tool(t)),
                    images: seq![],
                    ..bubbles@[k]@
                }),
            r.blob_refs@.len() == 0,
            r.raw_blobs@.len() == 0,
    {
        let endpoint_kind = session.sources.preferred_endpoint_kind();
        proof {
            reveal_strlit("empty-window");
        }
        let workspace_id = match composer {
            Some(v) => match v.get("workspaceIdentifier") {
                Some(wi) => match wi.get_str("id") {
                    Some(s) => s,
                    None => text::owned("empty-window"),
                },
                None => text::owned("empty-window"),
            },
            None => text::owned("empty-window"),
        };
        let composer_id = match &session.composer_id {
            Some(c) => c.clone(),
            None => session.uuid.clone(),
        };
        let mut out: Vec<SnapshotBubble> = Vec::new();
        let mut i: usize = 0;
        while i < bubbles.len()
            invariant
                i <= bubbles@.len(),
                out@.len() == i,
                forall|k: int|
                    0 <= k < i ==> snap_bubble_view(#[trigger] out@[k]) == (BubbleV {
                        tool_calls: bubbles@[k]@.tool_calls.map_values(
                            |t: ToolUseV| to_snapshot_tool(t),
                        ),
                        images: seq![],
                        ..bubbles@[k]@
                    }),
            decreases bubbles.len() - i,
        {
            out.push(SnapshotBubble::from_canonical(&bubbles[i]));
            i = i + 1;
        }
        SessionSnapshot {
            version: SNAPSHOT_VERSION,
            exported_at: exported_at_ms,
            source_endpoint: SourceEndpoint {
                host: text::owned(host),
                os: text::owned(os),
                user: text::owned(user),
                endpoint_kind,
                cursor_version: None,
            },
            composer: ComposerMeta {
                composer_id,
                last_updated_at: session.last_updated_at,
                project_path: session.project_path.clone(),
                project_slug: session.project_slug.clone(),
                workspace_id,
                chat_root: session.chat_root.clone(),
            },
            bubbles: out,
            blob_refs: Vec::new(),
            raw_blobs: Vec::new(),
        }
    }

    /// `content_hash`: the content hash of the bubbles the snapshot
    /// carries, taken as bubbles.
    pub fn content_hash(&self) -> (r: String)
        ensures
            r@ == crate::conflict::content_hash_of(snapshot_bubble_views(self.bubbles@)),
            r@.len() == 64,
            forall|k: int| 0 <= k < r@.len() ==> crate::codec::is_lower_hex(#[trigger] r@[k]),
    {
        let canonical = self.canonical_bubbles();
        assert(bubble_views(canonical@) =~= snapshot_bubble_views(self.bubbles@));
        crate::conflict::content_hash_from_bubbles(canonical.as_slice())
    }

    /// The bubbles the snapshot carries, as bubbles.
    pub fn canonical_bubbles(&self) -> (r: Vec<Bubble>)
        ensures
            r@.len() == self.bubbles@.len(),
            forall|k: int|
                0 <= k < r@.len() ==> (#[trigger] r@[k])@ == (BubbleV {
                    tool_calls: snap_bubble_view(self.bubbles@[k]).tool_calls.map_values(
                        |t: ToolUseV| from_snapshot_tool(t),
                    ),
                    ..snap_bubble_view(self.bubbles@[k])
                }),
    {
        let mut out: Vec<Bubble> = Vec::new();
        let mut i: usize = 0;
        while i < self.bubbles.len()
            invariant
                i <= self.bubbles@.len(),
                out@.len() == i,
                forall|k: int|
                    0 <= k < i ==> (#[trigger] out@[k])@ == (BubbleV {
                        tool_calls: snap_bubble_view(self.bubbles@[k]).tool_calls.map_values(
                            |t: ToolUseV| from_snapshot_tool(t),
                        ),
                        ..snap_bubble_view(self.bubbles@[k])
                    }),
            decreases self.bubbles.len() - i,
        {
            out.push(Bubble::from_snapshot(&self.bubbles[i]));
            i = i + 1;
        }
        out
    }
}

/// `decode_snapshot`'s check on a decoded snapshot: the version must be
/// the one this library reads.
pub fn check_snapshot_version(version: u32) -> (r: Result<(), String>)
    ensures
        r is Ok <==> version == SNAPSHOT_VERSION,
        r is Err ==> r->Err_0@ == "unsupported snapshot version "@ + text::decimal(version as nat)
            + " (expected 4)"@,
{
    if version != SNAPSHOT_VERSION {
        let n = text::u64_decimal(version as u64);
        let a = text::concat3("unsupported snapshot version ", n.as_str(), " (expected 4)");
        return Err(a);
    }
    Ok(())
}

/// The file `write_snapshot_file` writes a snapshot to, under its host's
/// directory: `<composer_id>-<exported_at>.json`.
pub fn snapshot_file_name(composer_id: &str, exported_at: i64) -> (r: String)
    ensures
        r@ == composer_id@ + "-"@ + text::signed_decimal(exported_at as int) + ".json"@,
{
    let n = text::i64_decimal(exported_at);
    let a = text::concat3(composer_id, "-", n.as_str());
    text::concat2(a.as_str(), ".json")
}

} // verus!
