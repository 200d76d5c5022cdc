//! The directories the file watcher follows, and how they are labelled.
use vstd::prelude::*;

use crate::paths::{self, join, user_dir_on};
use crate::text;

verus! {

/// The directories worth watching, before the existence check: Layer 1's
/// projects, Layer 2's chats, Layer 3's global storage and workspace
/// storage (empty where the platform has none).
pub open spec fn watch_candidates_v(home: Option<Seq<char>>, os: Seq<char>) -> Seq<Seq<char>> {
    let (global, workspaces) = match home {
        Some(h) => match user_dir_on(h, os) {
            Some(u) => (join(u, "globalStorage"@), join(u, "workspaceStorage"@)),
            None => (seq![], seq![]),
        },
        None => (seq![], seq![]),
    };
    seq![paths::projects_dir_spec(home), paths::chats_dir_spec(home), global, workspaces]
}

/// The candidate directories for the watcher on platform `os`.
pub fn watch_candidates(home: Option<&str>, os: &str) -> (r: Vec<String>)
    ensures
        text::views(r@) == watch_candidates_v(paths::opt_view(home), os@),
{
    let mut out: Vec<String> = Vec::new();
    out.push(paths::cursor_projects_dir(home));
    out.push(paths::chats_dir(home));
    match paths::cursor_user_dir(home, os) {
        Ok(u) => {
            out.push(paths::path_join(&u, "globalStorage"));
            out.push(paths::path_join(&u, "workspaceStorage"));
        },
        Err(_) => {
            out.push(String::new());
            out.push(String::new());
        },
    }
    assert(text::views(out@) =~= watch_candidates_v(paths::opt_view(home), os@));
    out
}

/// `watched_dirs`: the candidates that are named and exist, in order.
pub fn watched_dirs(candidates: &Vec<(String, bool)>) -> (r: Vec<String>)
    ensures
        text::views(r@) == candidates@.filter(|c: (String, bool)| c.0@.len() > 0 && c.1).map_values(
            |c: (String, bool)| c.0@,
        ),
{
    let ghost keep = |c: (String, bool)| c.0@.len() > 0 && c.1;
    let ghost name = |c: (String, bool)| c.0@;
    let mut out: Vec<String> = Vec::new();
    let mut i: usize = 0;
    proof {
        assert(text::views(out@) =~= candidates@.take(0).filter(keep).map_values(name));
    }
    while i < candidates.len()
        invariant
            i <= candidates@.len(),
            keep == (|c: (String, bool)| c.0@.len() > 0 && c.1),
            name == (|c: (String, bool)| c.0@),
            text::views(out@) == candidates@.take(i as int).filter(keep).map_values(name),
        decreases candidates.len() - i,
    {
        proof {
            text::lemma_filter_take_step(candidates@, keep, i as int);
        }
        if !text::str_is_empty(candidates[i].0.as_str()) && candidates[i].1 {
            let ghost before = out@;
            let c = candidates[i].0.clone();
            out.push(c);
            proof {
                text::lemma_views_push(before, c);
                assert(candidates@.take(i + 1).filter(keep).map_values(name) =~= candidates@.take(
                    i as int,
                ).filter(keep).map_values(name).push(candidates@[i as int].0@));
            }
        }
        i = i + 1;
    }
    assert(candidates@.take(i as int) =~= candidates@);
    out
}

/// A watched directory as diagnostics show it: `~` in place of the home
/// directory it starts with.
pub open spec fn dir_label_v(p: Seq<char>, home: Option<Seq<char>>) -> Seq<char> {
    match home {
        Some(h) => if text::starts_with(p, h) {
            "~"@ + p.skip(h.len() as int)
        } else {
            p
        },
        None => p,
    }
}

/// `dir_label`.
pub fn dir_label(p: &str, home: Option<&str>) -> (r: String)
    ensures
        r@ == dir_label_v(p@, paths::opt_view(home)),
{
    match home {
        Some(h) => {
            if text::str_starts_with(p, h) {
                let rest = text::strip_prefix_or_same(p, h);
                return text::concat2("~", rest.as_str());
            }
            text::owned(p)
        },
        None => text::owned(p),
    }
}

} // verus!
