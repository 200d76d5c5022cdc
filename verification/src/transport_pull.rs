//! Pulling from a peer: each incoming v4 snapshot is classified against
//! the local copy, stored, and applied to Layers 2 and 3 when needed.
//!
//! The database and the layer writes are the caller's part. The library
//! decides, per snapshot, what is to be done, and tallies the outcome.
use vstd::prelude::*;

use crate::conflict::ConflictClass;
use crate::text::{self, views};
use crate::transport::RemoteSessionMeta;

verus! {

/// The outcome of one pulled session.
#[derive(Debug)]
pub struct SessionPullResult {
    pub uuid: String,
    pub conflict_class: String,
    pub applied_l2: bool,
    pub applied_l3: bool,
    pub skipped: Vec<String>,
    pub error: Option<String>,
}

/// The outcome of a pull.
#[derive(Debug)]
pub struct PullReport {
    pub peer_id: String,
    pub count: usize,
    pub snapshots: Vec<RemoteSessionMeta>,
    pub results: Vec<SessionPullResult>,
    pub applied: usize,
    pub skipped_count: usize,
    pub failed: usize,
}

/// The label a pull result gives a class (snake case).
pub open spec fn class_label(c: ConflictClass) -> Seq<char> {
    match c {
        ConflictClass::New => "new"@,
        ConflictClass::Identical => "identical"@,
        ConflictClass::IncomingNewer => "incoming_newer"@,
        ConflictClass::LocalAhead => "local_ahead"@,
        ConflictClass::Diverged => "diverged"@,
    }
}

/// `conflict_class_label`.
pub fn conflict_class_label(class: ConflictClass) -> (r: String)
    ensures
        r@ == class_label(class),
{
    let s = match class {
        ConflictClass::New => "new",
        ConflictClass::Identical => "identical",
        ConflictClass::IncomingNewer => "incoming_newer",
        ConflictClass::LocalAhead => "local_ahead",
        ConflictClass::Diverged => "diverged",
    };
    text::owned(s)
}

/// What `apply_v4_snapshot` does with an incoming snapshot of a class.
#[derive(Debug, PartialEq, Eq, Structural)]
pub enum V4Plan {
    /// The local copy is ahead: nothing is written; the result is skipped as
    /// `local_ahead`.
    SkipLocalAhead,
    /// The incoming copy replaces the local one (archived first when
    /// there is one) and is applied to the layers.
    Overwrite { archive_local: bool },
    /// Same content: the store is refreshed, and the layers are rewritten
    /// only where they are not fully synced.
    RefreshIfStale,
    /// Both changed: the local and incoming bubbles are merged
    /// incoming-first (the local bubbles are loaded when there is a local
    /// copy), the local copy is archived, the conflict is recorded, and the
    /// merge is stored and applied.
    Merge { load_local: bool },
}

/// `apply_v4_snapshot`'s decision for a class, given whether the store
/// holds a local copy.
pub fn v4_plan(class: ConflictClass, has_local: bool) -> (r: V4Plan)
    ensures
        r == match class {
            ConflictClass::LocalAhead => V4Plan::SkipLocalAhead,
            ConflictClass::New | ConflictClass::IncomingNewer => V4Plan::Overwrite {
                archive_local: has_local,
            },
            ConflictClass::Identical => V4Plan::RefreshIfStale,
            ConflictClass::Diverged => V4Plan::Merge { load_local: has_local },
        },
{
    match class {
        ConflictClass::LocalAhead => V4Plan::SkipLocalAhead,
        ConflictClass::New | ConflictClass::IncomingNewer => V4Plan::Overwrite {
            archive_local: has_local,
        },
        ConflictClass::Identical => V4Plan::RefreshIfStale,
        ConflictClass::Diverged => V4Plan::Merge { load_local: has_local },
    }
}

/// The result of a session that was not applied because the local copy
/// is ahead.
pub fn local_ahead_result(uuid: String) -> (r: SessionPullResult)
    ensures
        r.uuid@ == uuid@,
        r.conflict_class@ == class_label(ConflictClass::LocalAhead),
        !r.applied_l2 && !r.applied_l3,
        views(r.skipped@) == seq!["local_ahead"@],
        r.error is None,
{
    let skipped = vec![text::owned("local_ahead")];
    assert(views(skipped@) =~= seq!["local_ahead"@]);
    SessionPullResult {
        uuid,
        conflict_class: conflict_class_label(ConflictClass::LocalAhead),
        applied_l2: false,
        applied_l3: false,
        skipped,
        error: None,
    }
}

/// The running counts of a pull.
#[derive(Debug, Clone, Copy, PartialEq, Eq, Structural)]
pub struct PullTally {
    /// Sessions whose store update went through.
    pub processed: u32,
    /// Sessions whose store update failed.
    pub failed_db: u32,
    pub applied: usize,
    pub skipped_count: usize,
    pub failed: usize,
}

/// How one session's outcome counts: applied when a layer was written;
/// skipped when nothing was written and no error came (skips listed or
/// not); failed when an error came.
pub open spec fn tally_step(t: PullTally, ok: bool, applied: bool, has_error: bool) -> PullTally {
    if !ok {
        PullTally { failed_db: (t.failed_db + 1) as u32, failed: (t.failed + 1) as usize, ..t }
    } else if applied {
        PullTally { processed: (t.processed + 1) as u32, applied: (t.applied + 1) as usize, ..t }
    } else if has_error {
        PullTally { processed: (t.processed + 1) as u32, failed: (t.failed + 1) as usize, ..t }
    } else {
        PullTally {
            processed: (t.processed + 1) as u32,
            skipped_count: (t.skipped_count + 1) as usize,
            ..t
        }
    }
}

impl PullTally {
    /// Nothing counted yet.
    pub fn new() -> (r: PullTally)
        ensures
            r == (PullTally { processed: 0, failed_db: 0, applied: 0, skipped_count: 0, failed: 0 }),
    {
        PullTally { processed: 0, failed_db: 0, applied: 0, skipped_count: 0, failed: 0 }
    }

    /// Counts one session: `result` is `None` when its store update failed.
    pub fn count(&mut self, result: Option<&SessionPullResult>)
        requires
            old(self).processed < u32::MAX,
            old(self).failed_db < u32::MAX,
            old(self).applied < usize::MAX,
            old(self).skipped_count < usize::MAX,
            old(self).failed < usize::MAX,
        ensures
            *final(self) == match result {
                None => tally_step(*old(self), false, false, false),
                Some(r) => tally_step(*old(self), true, r.applied_l2 || r.applied_l3, r.error is Some),
            },
    {
        match result {
            None => {
                self.failed_db = self.failed_db + 1;
                self.failed = self.failed + 1;
            },
            Some(r) => {
                self.processed = self.processed + 1;
                if r.applied_l2 || r.applied_l3 {
                    self.applied = self.applied + 1;
                } else if r.error.is_none() {
                    self.skipped_count = self.skipped_count + 1;
                } else {
                    self.failed = self.failed + 1;
                }
            },
        }
    }
}

} // verus!
