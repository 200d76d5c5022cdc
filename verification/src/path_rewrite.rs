//! Cross-device project paths: a remote `project_path` (say `/Users/…` on
//! a Mac) mapped to a local working directory before a snapshot is
//! applied, and path prefixes rewritten inside JSON.
//!
//! Which directories exist is the caller's knowledge; it hands it over.
use vstd::prelude::*;

use crate::canonical::{CanonicalSession, SessionV, session_views};
use crate::json::{self, Json, JsonV};
use crate::text::{self, starts_with, trim};

verus! {

// ── Path mappings ─────────────────────────────────────────────

/// The pairs of a mapping list, as strings.
pub open spec fn pair_views(m: Seq<(String, String)>) -> Seq<(Seq<char>, Seq<char>)> {
    m.map_values(|p: (String, String)| (p.0@, p.1@))
}

/// The position of the mapping whose prefix of `path` is longest (the
/// first of equally long ones), looking at the first `n` mappings; `-1`
/// when none is a prefix.
pub open spec fn best_mapping(path: Seq<char>, m: Seq<(Seq<char>, Seq<char>)>, n: int) -> int
    decreases n,
{
    if n <= 0 {
        -1
    } else {
        let b = best_mapping(path, m, n - 1);
        let k = n - 1;
        if starts_with(path, m[k].0) && (b < 0 || m[k].0.len() > m[b].0.len()) {
            k
        } else {
            b
        }
    }
}

/// `path` with the longest matching prefix replaced by its target (without
/// trailing slashes); `None` when no prefix matches.
pub open spec fn mapped_path(path: Seq<char>, m: Seq<(Seq<char>, Seq<char>)>) -> Option<Seq<char>> {
    let b = best_mapping(path, m, m.len() as int);
    if b < 0 {
        None
    } else {
        Some(text::strip_trailing(m[b].1, '/') + path.skip(m[b].0.len() as int))
    }
}

proof fn lemma_best_mapping(path: Seq<char>, m: Seq<(Seq<char>, Seq<char>)>, n: int)
    requires
        0 <= n <= m.len(),
    ensures
        -1 <= best_mapping(path, m, n) < n,
        best_mapping(path, m, n) >= 0 ==> starts_with(path, m[best_mapping(path, m, n)].0),
    decreases n,
{
    if n > 0 {
        lemma_best_mapping(path, m, n - 1);
    }
}

proof fn lemma_best_mapping_longest(path: Seq<char>, m: Seq<(Seq<char>, Seq<char>)>, n: int)
    requires
        0 <= n <= m.len(),
    ensures
        best_mapping(path, m, n) < 0 ==> forall|j: int| 0 <= j < n ==> !starts_with(path, #[trigger] m[j].0),
        best_mapping(path, m, n) >= 0 ==> forall|j: int|
            0 <= j < n && starts_with(path, #[trigger] m[j].0) ==> m[j].0.len() <= m[best_mapping(
                path,
                m,
                n,
            )].0.len(),
    decreases n,
{
    if n > 0 {
        lemma_best_mapping_longest(path, m, n - 1);
        lemma_best_mapping(path, m, n - 1);
    }
}

/// Mapping a path picks the longest mapping prefix of it: no mapping
/// applies exactly when none is a prefix of the path; otherwise the path
/// is rewritten under a mapping that is a prefix of it and at least as long
/// as every other mapping prefix of it.
pub proof fn lemma_mapped_path_longest(path: Seq<char>, m: Seq<(Seq<char>, Seq<char>)>)
    ensures
        (mapped_path(path, m) is None) <==> (forall|k: int| 0 <= k < m.len() ==> !starts_with(path, #[trigger] m[k].0)),
        mapped_path(path, m) is Some ==> exists|k: int|
            #![trigger m[k]]
            0 <= k < m.len() && starts_with(path, m[k].0) && mapped_path(path, m) == Some(
                text::strip_trailing(m[k].1, '/') + path.skip(m[k].0.len() as int),
            ) && forall|j: int| 0 <= j < m.len() && starts_with(path, #[trigger] m[j].0) ==> m[j].0.len() <= m[k].0.len(),
{
    let n = m.len() as int;
    lemma_best_mapping(path, m, n);
    lemma_best_mapping_longest(path, m, n);
    let b = best_mapping(path, m, n);
    if b >= 0 {
        assert(m[b] == m[b]);
    }
}

/// Two prefixes of one path of the same length are the same prefix.
proof fn lemma_prefixes_same_length(path: Seq<char>, p: Seq<char>, q: Seq<char>)
    requires
        starts_with(path, p),
        starts_with(path, q),
        p.len() == q.len(),
    ensures
        p == q,
{
    assert(p =~= path.subrange(0, p.len() as int));
    assert(q =~= path.subrange(0, q.len() as int));
}

/// The order of the mappings does not matter: two lists holding the same
/// mappings, no prefix twice, map every path alike.
pub proof fn lemma_mapped_path_order_free(
    path: Seq<char>,
    m1: Seq<(Seq<char>, Seq<char>)>,
    m2: Seq<(Seq<char>, Seq<char>)>,
)
    requires
        m1.to_multiset() == m2.to_multiset(),
        forall|i: int, j: int| 0 <= i < m1.len() && 0 <= j < m1.len() && i != j ==> (#[trigger] m1[i]).0 != (#[trigger] m1[j]).0,
    ensures
        mapped_path(path, m1) == mapped_path(path, m2),
{
    broadcast use vstd::seq_lib::group_to_multiset_ensures;

    lemma_mapped_path_longest(path, m1);
    lemma_mapped_path_longest(path, m2);
    if mapped_path(path, m1) is Some {
        let k1 = choose|k: int|
            #![trigger m1[k]]
            0 <= k < m1.len() && starts_with(path, m1[k].0) && mapped_path(path, m1) == Some(
                text::strip_trailing(m1[k].1, '/') + path.skip(m1[k].0.len() as int),
            ) && forall|j: int| 0 <= j < m1.len() && starts_with(path, #[trigger] m1[j].0) ==> m1[j].0.len() <= m1[k].0.len();
        assert(m1.contains(m1[k1]));
        assert(m2.to_multiset().count(m1[k1]) > 0);
        let j2 = choose|j: int| 0 <= j < m2.len() && m2[j] == m1[k1];
        assert(starts_with(path, m2[j2].0));
        assert(mapped_path(path, m2) is Some);
        let k2 = choose|k: int|
            #![trigger m2[k]]
            0 <= k < m2.len() && starts_with(path, m2[k].0) && mapped_path(path, m2) == Some(
                text::strip_trailing(m2[k].1, '/') + path.skip(m2[k].0.len() as int),
            ) && forall|j: int| 0 <= j < m2.len() && starts_with(path, #[trigger] m2[j].0) ==> m2[j].0.len() <= m2[k].0.len();
        assert(m2.contains(m2[k2]));
        assert(m1.to_multiset().count(m2[k2]) > 0);
        let j1 = choose|j: int| 0 <= j < m1.len() && m1[j] == m2[k2];
        assert(m1[j1].0.len() <= m1[k1].0.len());
        assert(m2[j2].0.len() <= m2[k2].0.len());
        lemma_prefixes_same_length(path, m1[k1].0, m2[k2].0);
        assert(m1[j1].0 == m1[k1].0);
        assert(j1 == k1);
        assert(m1[k1] == m2[k2]);
    } else {
        if mapped_path(path, m2) is Some {
            let k2 = choose|k: int|
                #![trigger m2[k]]
                0 <= k < m2.len() && starts_with(path, m2[k].0) && mapped_path(path, m2) == Some(
                    text::strip_trailing(m2[k].1, '/') + path.skip(m2[k].0.len() as int),
                ) && forall|j: int| 0 <= j < m2.len() && starts_with(path, #[trigger] m2[j].0) ==> m2[j].0.len() <= m2[k].0.len();
            assert(m2.contains(m2[k2]));
            assert(m1.to_multiset().count(m2[k2]) > 0);
            let j1 = choose|j: int| 0 <= j < m1.len() && m1[j] == m2[k2];
            assert(starts_with(path, m1[j1].0));
        }
    }
}

/// `apply_path_mappings`: the path under the mapping with the longest
/// matching prefix.
pub fn apply_path_mappings(path: &str, mappings: &Vec<(String, String)>) -> (r: Option<String>)
    ensures
        match r {
            Some(s) => mapped_path(path@, pair_views(mappings@)) == Some(s@),
            None => mapped_path(path@, pair_views(mappings@)) is None,
        },
{
    let ghost mv = pair_views(mappings@);
    let mut best: Option<usize> = None;
    let mut i: usize = 0;
    while i < mappings.len()
        invariant
            i <= mappings@.len() == mv.len(),
            mv == pair_views(mappings@),
            match best {
                Some(b) => b < i && best_mapping(path@, mv, i as int) == b as int,
                None => best_mapping(path@, mv, i as int) == -1,
            },
        decreases mappings.len() - i,
    {
        let from = &mappings[i].0;
        assert(mv[i as int].0 == from@);
        if text::str_starts_with(path, from.as_str()) {
            let better = match best {
                None => true,
                Some(b) => {
                    assert(mv[b as int].0 == mappings@[b as int].0@);
                    text::to_chars(from.as_str()).len() > text::to_chars(mappings[b].0.as_str()).len()
                },
            };
            if better {
                best = Some(i);
            }
        }
        i = i + 1;
    }
    match best {
        None => None,
        Some(b) => {
            proof {
                lemma_best_mapping(path@, mv, mv.len() as int);
                assert(mv[b as int] == (mappings@[b as int].0@, mappings@[b as int].1@));
            }
            let from = &mappings[b].0;
            let to = &mappings[b].1;
            let pc = text::to_chars(path);
            let fc = text::to_chars(from.as_str());
            let rest = text::slice_of(&pc, fc.len(), pc.len());
            let tc = text::to_chars(to.as_str());
            let t = strip_trailing_slashes(&tc);
            let r = text::from_chars(&t);
            let rs = text::from_chars(&rest);
            assert(rest@ =~= path@.skip(from@.len() as int));
            Some(text::concat2(r.as_str(), rs.as_str()))
        },
    }
}

pub(crate) fn strip_trailing_slashes(s: &Vec<char>) -> (r: Vec<char>)
    ensures
        r@ == text::strip_trailing(s@, '/'),
{
    let mut j: usize = s.len();
    assert(s@.take(j as int) =~= s@);
    while j > 0 && s[j - 1] == '/'
        invariant
            j <= s@.len(),
            text::strip_trailing(s@, '/') == text::strip_trailing(s@.take(j as int), '/'),
        decreases j,
    {
        assert(s@.take(j as int).drop_last() =~= s@.take(j - 1));
        j = j - 1;
    }
    proof {
        if j > 0 {
            assert(s@.take(j as int).last() == s@[j - 1]);
        }
    }
    text::take_chars(s, j)
}

// ── The local directory of a remote project ───────────────────

/// The first session of `s` with the slug and a non-empty path that `ok`
/// admits.
pub open spec fn session_path_for(s: Seq<SessionV>, slug: Seq<char>, ok: spec_fn(Seq<char>) -> bool) -> Option<
    Seq<char>,
>
    decreases s.len(),
{
    if s.len() == 0 {
        None
    } else if s[0].project_slug == slug && s[0].project_path.len() > 0 && ok(s[0].project_path) {
        Some(s[0].project_path)
    } else {
        session_path_for(s.drop_first(), slug, ok)
    }
}

/// Where `lookup_by_slug` finds a project: a session of the slug whose path
/// is an existing directory; else, when the Layer 1 directory of the slug
/// exists, any session of the slug with a path. Blank slugs and
/// `no-workspace` find nothing.
pub open spec fn by_slug_spec(
    slug: Seq<char>,
    sessions: Seq<SessionV>,
    dirs: Seq<Seq<char>>,
    slug_dir_exists: bool,
) -> Option<Seq<char>> {
    let t = trim(slug);
    if t.len() == 0 || t == "no-workspace"@ {
        None
    } else {
        let first = session_path_for(sessions, t, |p: Seq<char>| dirs.contains(p));
        if first is Some {
            first
        } else if slug_dir_exists {
            session_path_for(sessions, t, |p: Seq<char>| true)
        } else {
            None
        }
    }
}

fn find_session_path(
    sessions: &Vec<CanonicalSession>,
    slug: &String,
    dirs: &Vec<String>,
    require_dir: bool,
) -> (r: Option<String>)
    ensures
        ({
            let ok = if require_dir {
                |p: Seq<char>| text::views(dirs@).contains(p)
            } else {
                |p: Seq<char>| true
            };
            match r {
                Some(s) => session_path_for(session_views(sessions@), slug@, ok) == Some(s@),
                None => session_path_for(session_views(sessions@), slug@, ok) is None,
            }
        }),
{
    let ghost ok = if require_dir {
        |p: Seq<char>| text::views(dirs@).contains(p)
    } else {
        |p: Seq<char>| true
    };
    let ghost sv = session_views(sessions@);
    let mut i: usize = 0;
    assert(sv.skip(0) =~= sv);
    while i < sessions.len()
        invariant
            i <= sessions@.len() == sv.len(),
            sv == session_views(sessions@),
            ok == (if require_dir {
                |p: Seq<char>| text::views(dirs@).contains(p)
            } else {
                |p: Seq<char>| true
            }),
            session_path_for(sv, slug@, ok) == session_path_for(sv.skip(i as int), slug@, ok),
        decreases sessions.len() - i,
    {
        assert(sv.skip(i as int).drop_first() =~= sv.skip(i + 1));
        assert(sv.skip(i as int)[0] == sessions@[i as int]@);
        let s = &sessions[i];
        if text::str_eq(s.project_slug.as_str(), slug.as_str()) && !text::str_is_empty(
            s.project_path.as_str(),
        ) {
            let good = if require_dir {
                text::strings_contain(dirs, &s.project_path)
            } else {
                true
            };
            if good {
                return Some(s.project_path.clone());
            }
        }
        i = i + 1;
    }
    None
}

/// `lookup_by_slug`: the local directory of a project, from the sessions
/// the scan found (`sessions`), the session paths that are existing
/// directories (`dirs`), and whether `~/.cursor/projects/<slug>` exists.
pub fn lookup_by_slug(
    project_slug: &str,
    sessions: &Vec<CanonicalSession>,
    dirs: &Vec<String>,
    slug_dir_exists: bool,
) -> (r: Option<String>)
    ensures
        match r {
            Some(s) => by_slug_spec(project_slug@, session_views(sessions@), text::views(dirs@), slug_dir_exists) == Some(s@),
            None => by_slug_spec(project_slug@, session_views(sessions@), text::views(dirs@), slug_dir_exists) is None,
        },
{
    let slug = text::str_trim(project_slug);
    if text::str_is_empty(slug.as_str()) || text::str_eq(slug.as_str(), "no-workspace") {
        return None;
    }
    match find_session_path(sessions, &slug, dirs, true) {
        Some(p) => return Some(p),
        None => {},
    }
    if slug_dir_exists {
        find_session_path(sessions, &slug, dirs, false)
    } else {
        None
    }
}

/// `rewrite_project_path`: the local working directory for a remote
/// project path. A blank path goes by the slug (`by_slug`, what
/// `lookup_by_slug` found; empty when nothing). An existing directory
/// (`remote_is_dir`, for the trimmed path) is kept. Else the mapped path
/// (`apply_path_mappings` on the trimmed path) when it exists
/// (`mapped_is_dir`), else the slug's directory, else the trimmed path.
pub fn rewrite_project_path(
    remote_path: &str,
    mappings: &Vec<(String, String)>,
    remote_is_dir: bool,
    mapped_is_dir: bool,
    by_slug: Option<String>,
) -> (r: String)
    ensures
        ({
            let remote = trim(remote_path@);
            let mapped = mapped_path(remote, pair_views(mappings@));
            let slug_path = match by_slug {
                Some(s) => Some(s@),
                None => None,
            };
            if remote.len() == 0 {
                r@ == json::str_or(slug_path, seq![])
            } else if remote_is_dir {
                r@ == remote
            } else if mapped is Some && mapped_is_dir {
                r@ == mapped->0
            } else if slug_path is Some {
                r@ == slug_path->0
            } else {
                r@ == remote
            }
        }),
{
    let remote = text::str_trim(remote_path);
    if text::str_is_empty(remote.as_str()) {
        return match by_slug {
            Some(s) => s,
            None => String::new(),
        };
    }
    if remote_is_dir {
        return remote;
    }
    match apply_path_mappings(remote.as_str(), mappings) {
        Some(m) => if mapped_is_dir {
            return m;
        },
        None => {},
    }
    match by_slug {
        Some(s) => s,
        None => remote,
    }
}

// ── Rewriting JSON ────────────────────────────────────────────

/// `s` with every occurrence of `old` (left to right, not overlapping)
/// replaced by `new` (`str::replace`); `old` is not empty.
pub open spec fn replace_all(s: Seq<char>, old: Seq<char>, new: Seq<char>) -> Seq<char>
    decreases s.len(),
{
    if old.len() == 0 || s.len() == 0 {
        s
    } else if text::occurs_at(s, old, 0) {
        new + replace_all(s.skip(old.len() as int), old, new)
    } else {
        seq![s[0]] + replace_all(s.drop_first(), old, new)
    }
}

fn replace_chars(s: &[char], old: &[char], new: &[char]) -> (r: Vec<char>)
    requires
        old@.len() > 0,
    ensures
        r@ == replace_all(s@, old@, new@),
{
    let mut out: Vec<char> = Vec::new();
    let mut i: usize = 0;
    assert(s@.skip(0) =~= s@);
    while i < s.len()
        invariant
            i <= s@.len(),
            old@.len() > 0,
            out@ + replace_all(s@.skip(i as int), old@, new@) == replace_all(s@, old@, new@),
        decreases s.len() - i,
    {
        let ghost rest = s@.skip(i as int);
        if text::chars_occur_at(s, old, i) {
            proof {
                assert(text::occurs_at(rest, old@, 0)) by {
                    assert(rest.subrange(0, old@.len() as int) =~= s@.subrange(i as int, i + old@.len()));
                }
                assert(rest.skip(old@.len() as int) =~= s@.skip(i + old@.len()));
            }
            let mut j: usize = 0;
            let ghost base = out@;
            while j < new.len()
                invariant
                    j <= new@.len(),
                    out@ == base + new@.take(j as int),
                decreases new.len() - j,
            {
                out.push(new[j]);
                assert(new@.take(j + 1) =~= new@.take(j as int).push(new@[j as int]));
                j = j + 1;
            }
            proof {
                assert(new@.take(j as int) =~= new@);
                assert(base + (new@ + replace_all(s@.skip(i + old@.len()), old@, new@)) =~= out@ + replace_all(s@.skip(i + old@.len()), old@, new@));
            }
            i = i + old.len();
        } else {
            proof {
                assert(!text::occurs_at(rest, old@, 0)) by {
                    if i + old@.len() <= s@.len() {
                        assert(rest.subrange(0, old@.len() as int) =~= s@.subrange(i as int, i + old@.len()));
                    }
                }
                assert(rest.drop_first() =~= s@.skip(i + 1));
                assert(rest[0] == s@[i as int]);
            }
            let ghost base = out@;
            out.push(s[i]);
            proof {
                assert(base + (seq![s@[i as int]] + replace_all(s@.skip(i + 1), old@, new@)) =~= out@ + replace_all(s@.skip(i + 1), old@, new@));
            }
            i = i + 1;
        }
    }
    proof {
        assert(s@.skip(i as int) =~= Seq::<char>::empty());
        assert(out@ + replace_all(s@.skip(i as int), old@, new@) =~= out@);
    }
    out
}

/// `rewrite_paths_in_data`'s rewrite of one value: every string has `old`
/// replaced by `new`, through arrays and objects, except under
/// `conversationState` keys (base64 protobuf).
pub open spec fn rewrite_json(v: JsonV, old: Seq<char>, new: Seq<char>) -> JsonV
    decreases v,
{
    match v {
        JsonV::Str(s) => JsonV::Str(replace_all(s, old, new)),
        JsonV::Array(items) => JsonV::Array(
            Seq::new(items.len(), |k: int| if 0 <= k < items.len() { rewrite_json(items[k], old, new) } else { JsonV::Null }),
        ),
        JsonV::Object(entries) => JsonV::Object(
            Seq::new(
                entries.len(),
                |k: int|
                    if 0 <= k < entries.len() {
                        (
                            entries[k].0,
                            if entries[k].0 == "conversationState"@ {
                                entries[k].1
                            } else {
                                rewrite_json(entries[k].1, old, new)
                            },
                        )
                    } else {
                        (seq![], JsonV::Null)
                    },
            ),
        ),
        other => other,
    }
}

#[verifier::loop_isolation(false)]
fn rewrite_value(data: &Json, old: &Vec<char>, new: &Vec<char>) -> (r: Json)
    requires
        old@.len() > 0,
    ensures
        r@ == rewrite_json(data@, old@, new@),
    decreases data,
{
    match data {
        Json::Str(s) => {
            let cs = text::to_chars(s.as_str());
            let t = replace_chars(&cs, old, new);
            let r = Json::Str(text::from_chars(&t));
            assert(data@ == JsonV::Str(s@));
            assert(r@ == JsonV::Str(t@));
            assert(r@ == rewrite_json(data@, old@, new@));
            r
        },
        Json::Array(items) => {
            let mut out: Vec<Json> = Vec::new();
            let mut i: usize = 0;
            proof {
                json::lemma_items_view(items@);
            }
            while i < items.len()
                invariant
                    i <= items@.len(),
                    out@.len() == i,
                    forall|k: int| 0 <= k < i ==> #[trigger] json::json_view(out@[k]) == rewrite_json(json::json_view(items@[k]), old@, new@),
                decreases items.len() - i,
            {
                proof {
                    broadcast use vstd::std_specs::vec::axiom_vec_index_decreases;
                    assert(decreases_to!(items => items[i as int]));
                    assert(decreases_to!(*data => items[i as int]));
                }
                let c = rewrite_value(&items[i], old, new);
                out.push(c);
                i = i + 1;
            }
            proof {
                json::lemma_items_view(out@);
                let iv = json::items_view(items@);
                assert(json::items_view(out@) =~= Seq::new(iv.len(), |k: int| if 0 <= k < iv.len() { rewrite_json(iv[k], old@, new@) } else { JsonV::Null }));
                assert(data@ == JsonV::Array(iv));
                let rw = rewrite_json(data@, old@, new@);
                assert(json::items_view(out@) =~= rw->Array_0);
            }
            let r = Json::Array(out);
            assert(r@ == JsonV::Array(json::items_view(out@)));
            r
        },
        Json::Object(entries) => {
            let mut out: Vec<(String, Json)> = Vec::new();
            let mut i: usize = 0;
            proof {
                json::lemma_entries_view(entries@);
                reveal_strlit("conversationState");
            }
            while i < entries.len()
                invariant
                    i <= entries@.len(),
                    out@.len() == i,
                    forall|k: int| 0 <= k < i ==> (#[trigger] out@[k]).0@ == entries@[k].0@ && json::json_view(out@[k].1) == (if entries@[k].0@ == "conversationState"@ {
                        json::json_view(entries@[k].1)
                    } else {
                        rewrite_json(json::json_view(entries@[k].1), old@, new@)
                    }),
                decreases entries.len() - i,
            {
                proof {
                    broadcast use vstd::std_specs::vec::axiom_vec_index_decreases;
                    assert(decreases_to!(entries => entries[i as int]));
                    assert(decreases_to!(entries[i as int] => entries[i as int].1));
                    assert(decreases_to!(*data => entries[i as int].1));
                }
                let k = entries[i].0.clone();
                let v = if text::str_eq(k.as_str(), "conversationState") {
                    entries[i].1.clone()
                } else {
                    rewrite_value(&entries[i].1, old, new)
                };
                out.push((k, v));
                i = i + 1;
            }
            proof {
                json::lemma_entries_view(out@);
                let ev = json::entries_view(entries@);
                assert(json::entries_view(out@) =~= Seq::new(
                    ev.len(),
                    |k: int|
                        if 0 <= k < ev.len() {
                            (
                                ev[k].0,
                                if ev[k].0 == "conversationState"@ {
                                    ev[k].1
                                } else {
                                    rewrite_json(ev[k].1, old@, new@)
                                },
                            )
                        } else {
                            (seq![], JsonV::Null)
                        },
                ));
                assert(data@ == JsonV::Object(ev));
                let rw = rewrite_json(data@, old@, new@);
                assert(json::entries_view(out@) =~= rw->Object_0);
            }
            let r = Json::Object(out);
            assert(r@ == JsonV::Object(json::entries_view(out@)));
            r
        },
        Json::Null => {
            assert(rewrite_json(data@, old@, new@) == data@);
            Json::Null
        },
        Json::Bool(b) => {
            let r = Json::Bool(*b);
            assert(rewrite_json(data@, old@, new@) == data@);
            r
        },
        Json::Number(n) => {
            let r = Json::Number(n.clone());
            assert(r@ == data@);
            assert(rewrite_json(data@, old@, new@) == data@);
            r
        },
    }
}

/// `rewrite_paths_in_data`: the value with `old_prefix` replaced by
/// `new_prefix` in its strings (`rewrite_json`); unchanged when
/// `old_prefix` is empty or equal to `new_prefix`.
pub fn rewrite_paths_in_data(data: &Json, old_prefix: &str, new_prefix: &str) -> (r: Json)
    ensures
        old_prefix@.len() == 0 || old_prefix@ == new_prefix@ ==> r@ == data@,
        !(old_prefix@.len() == 0 || old_prefix@ == new_prefix@) ==> r@ == rewrite_json(
            data@,
            old_prefix@,
            new_prefix@,
        ),
{
    let old = text::to_chars(old_prefix);
    if old.len() == 0 || text::str_eq(old_prefix, new_prefix) {
        return data.clone();
    }
    let new = text::to_chars(new_prefix);
    rewrite_value(data, &old, &new)
}

} // verus!
