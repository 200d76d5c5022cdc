//! The metadata-only snapshot of the SSH transport: eight fields, no
//! bubbles.
use vstd::prelude::*;

use crate::canonical::{self, CanonicalSession};
use crate::text;

verus! {

/// A metadata-only snapshot.
#[derive(Debug, PartialEq, Eq)]
pub struct SessionSnapshot {
    pub uuid: String,
    pub last_updated_at_ms: i64,
    /// The machine that produced it; the remote side namespaces by it.
    pub host: String,
    pub project_slug: String,
    pub project_path: String,
    /// Where the session lives on the source machine.
    pub source_path: String,
    /// The first user message, at most `PREVIEW_CHARS` characters.
    pub text_preview: String,
    pub bubble_count: u32,
}

/// The longest preview a snapshot carries, in characters.
pub const PREVIEW_CHARS: usize = 280;

/// `s` cut to its first `max` characters.
pub open spec fn truncated(s: Seq<char>, max: nat) -> Seq<char> {
    if s.len() <= max {
        s
    } else {
        s.take(max as int)
    }
}

/// `truncate_chars`: the first `max` characters.
pub fn truncate_chars(s: &str, max: usize) -> (r: String)
    ensures
        r@ == truncated(s@, max as nat),
{
    let cs = text::to_chars(s);
    let t = text::take_chars(&cs, max);
    text::from_chars(&t)
}

impl SessionSnapshot {
    /// `from_canonical`: the snapshot of a session made on `host`; its
    /// source path is the preferred one (`mac`, then `linux_desktop`, then
    /// `linux_cli`).
    pub fn from_canonical(c: &CanonicalSession, host: &str) -> (r: SessionSnapshot)
        ensures
            r.uuid@ == c.uuid@,
            r.last_updated_at_ms == c.last_updated_at,
            r.host@ == host@,
            r.project_slug@ == c.project_slug@,
            r.project_path@ == c.project_path@,
            r.source_path@ == canonical::source_path_of(c@.sources),
            r.text_preview@ == truncated(c.first_user_message_preview@, PREVIEW_CHARS as nat),
            r.bubble_count == c.bubble_count,
    {
        SessionSnapshot {
            uuid: c.uuid.clone(),
            last_updated_at_ms: c.last_updated_at,
            host: text::owned(host),
            project_slug: c.project_slug.clone(),
            project_path: c.project_path.clone(),
            source_path: c.sources.preferred_source_path(),
            text_preview: truncate_chars(c.first_user_message_preview.as_str(), PREVIEW_CHARS),
            bubble_count: c.bubble_count,
        }
    }
}

} // verus!
