//! The rows of `~/.bettercursor/unified.db`: one per session, per bubble
//! and per classified conflict, and how a scanned session or an incoming
//! snapshot becomes a session row.
use vstd::prelude::*;

use crate::bubble::{Bubble, bubble_views};
use crate::canonical::{self, CanonicalSession};
use crate::conflict;
use crate::snapshot::SessionSnapshot;
use crate::text;

verus! {

/// One row of the `sessions` table.
#[derive(Debug)]
pub struct SessionRow {
    pub uuid: String,
    pub host: String,
    pub endpoint_kind: String,
    pub project_slug: String,
    pub project_path: Option<String>,
    pub source_path: String,
    pub last_updated_at_ms: i64,
    pub bubble_count: u32,
    pub content_hash: String,
    pub is_broken: bool,
    pub sources_json: String,
    pub first_seen_at_ms: i64,
    pub last_rebuilt_at_ms: i64,
}

/// One row of the `bubbles` table; tool calls and files as JSON text.
#[derive(Debug)]
pub struct BubbleRow {
    pub id: String,
    pub session_uuid: String,
    pub role: String,
    pub text: String,
    pub tool_calls_json: Option<String>,
    pub files_json: Option<String>,
    pub ts_ms: i64,
    pub parent_bubble_id: Option<String>,
}

/// One row of the `conflicts` table.
#[derive(Debug)]
pub struct ConflictRow {
    pub id: i64,
    pub session_uuid: String,
    pub class: String,
    pub local_content_hash: Option<String>,
    pub incoming_content_hash: Option<String>,
    pub classified_at_ms: i64,
    pub resolved_at_ms: Option<i64>,
    pub resolved_how: Option<String>,
}

/// The content hash a session row records for its bubbles.
pub open spec fn bubbles_hash(bubbles: Seq<Bubble>) -> Seq<char> {
    conflict::content_hash_of(bubble_views(bubbles))
}

impl SessionRow {
    /// The row `rebuild_from_cursor_state` writes for a scanned session:
    /// its preferred endpoint and source, its merged bubbles' count and
    /// hash, first seen and rebuilt now. `sources_json` is the session's
    /// sources as JSON.
    pub fn from_canonical(
        s: &CanonicalSession,
        host: &str,
        bubbles: &Vec<Bubble>,
        sources_json: String,
        now_ms: i64,
    ) -> (r: SessionRow)
        ensures
            r.uuid@ == s.uuid@,
            r.host@ == host@,
            r.endpoint_kind@ == canonical::endpoint_kind_of(s.sources@),
            r.project_slug@ == s.project_slug@,
            r.project_path is Some && r.project_path->0@ == s.project_path@,
            r.source_path@ == canonical::source_path_of(s.sources@),
            r.last_updated_at_ms == s.last_updated_at,
            r.bubble_count == bubbles@.len() as u32,
            r.content_hash@ == bubbles_hash(bubbles@),
            r.is_broken == s.is_broken,
            r.sources_json@ == sources_json@,
            r.first_seen_at_ms == now_ms,
            r.last_rebuilt_at_ms == now_ms,
    {
        SessionRow {
            uuid: s.uuid.clone(),
            host: text::owned(host),
            endpoint_kind: s.sources.preferred_endpoint_kind(),
            project_slug: s.project_slug.clone(),
            project_path: Some(s.project_path.clone()),
            source_path: s.sources.preferred_source_path(),
            last_updated_at_ms: s.last_updated_at,
            bubble_count: bubbles.len() as u32,
            content_hash: conflict::content_hash_from_bubbles(bubbles.as_slice()),
            is_broken: s.is_broken,
            sources_json,
            first_seen_at_ms: now_ms,
            last_rebuilt_at_ms: now_ms,
        }
    }

    /// The row `upsert_session_from_snapshot` writes for an incoming
    /// snapshot: its origin's host and endpoint, its project (no path when
    /// empty), its bubbles' count and hash, never broken, no sources; first
    /// seen when the row was first written (now for a new row).
    pub fn from_snapshot(
        snap: &SessionSnapshot,
        bubbles: &Vec<Bubble>,
        first_seen_at_ms: Option<i64>,
        now_ms: i64,
    ) -> (r: SessionRow)
        ensures
            r.uuid@ == snap.composer.composer_id@,
            r.host@ == snap.source_endpoint.host@,
            r.endpoint_kind@ == snap.source_endpoint.endpoint_kind@,
            r.project_slug@ == snap.composer.project_slug@,
            snap.composer.project_path@.len() == 0 ==> r.project_path is None,
            snap.composer.project_path@.len() > 0 ==> r.project_path is Some
                && r.project_path->0@ == snap.composer.project_path@,
            r.source_path@ == snap.composer.project_path@,
            r.last_updated_at_ms == snap.composer.last_updated_at,
            r.bubble_count == bubbles@.len() as u32,
            r.content_hash@ == bubbles_hash(bubbles@),
            !r.is_broken,
            r.sources_json@ == "{}"@,
            r.first_seen_at_ms == match first_seen_at_ms {
                Some(t) => t,
                None => now_ms,
            },
            r.last_rebuilt_at_ms == now_ms,
    {
        let project_path = if text::str_is_empty(snap.composer.project_path.as_str()) {
            None
        } else {
            Some(snap.composer.project_path.clone())
        };
        SessionRow {
            uuid: snap.composer.composer_id.clone(),
            host: snap.source_endpoint.host.clone(),
            endpoint_kind: snap.source_endpoint.endpoint_kind.clone(),
            project_slug: snap.composer.project_slug.clone(),
            project_path,
            source_path: snap.composer.project_path.clone(),
            last_updated_at_ms: snap.composer.last_updated_at,
            bubble_count: bubbles.len() as u32,
            content_hash: conflict::content_hash_from_bubbles(bubbles.as_slice()),
            is_broken: false,
            sources_json: text::owned("{}"),
            first_seen_at_ms: match first_seen_at_ms {
                Some(t) => t,
                None => now_ms,
            },
            last_rebuilt_at_ms: now_ms,
        }
    }
}

impl BubbleRow {
    /// The row a bubble of session `session_uuid` is stored as; its tool
    /// calls and files given as JSON text.
    pub fn from_bubble(
        session_uuid: &str,
        b: &Bubble,
        tool_calls_json: Option<String>,
        files_json: Option<String>,
    ) -> (r: BubbleRow)
        ensures
            r.id@ == b.id@,
            r.session_uuid@ == session_uuid@,
            r.role@ == b.role@,
            r.text@ == b.text@,
            r.tool_calls_json == tool_calls_json,
            r.files_json == files_json,
            r.ts_ms == b.created_at_ms,
            r.parent_bubble_id == b.parent_bubble_id,
    {
        BubbleRow {
            id: b.id.clone(),
            session_uuid: text::owned(session_uuid),
            role: b.role.clone(),
            text: b.text.clone(),
            tool_calls_json,
            files_json,
            ts_ms: b.created_at_ms,
            parent_bubble_id: match &b.parent_bubble_id {
                Some(p) => Some(p.clone()),
                None => None,
            },
        }
    }
}

} // verus!
