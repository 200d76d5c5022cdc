//! Where Cursor keeps its storage layers, and where bettercursor keeps its
//! own state, as paths built from the home directory.
//!
//! Reading the home directory and the platform name is the caller's part;
//! every function here takes them as arguments. Paths are `/`-separated
//! strings joined the way `Path::join` joins them on Unix.
use vstd::prelude::*;

use crate::codec;
use crate::text;

verus! {

/// Why the Cursor user directory could not be named.
#[derive(Debug)]
pub enum PathError {
    /// No home directory is known.
    NoHome,
    /// The platform is none of macOS, Linux and Windows.
    UnsupportedPlatform(String),
}

// ── Models ────────────────────────────────────────────────────

/// `base` joined with `part` as `Path::join` does on Unix: an absolute
/// `part` replaces `base`; otherwise one `/` separates the two, unless
/// `base` is empty or already ends with one.
pub open spec fn join(base: Seq<char>, part: Seq<char>) -> Seq<char> {
    if part.len() > 0 && part[0] == '/' {
        part
    } else if base.len() == 0 {
        part
    } else if base.last() == '/' {
        base + part
    } else {
        base + seq!['/'] + part
    }
}

/// The home directory, or `.` where none is known.
pub open spec fn home_or_dot(home: Option<Seq<char>>) -> Seq<char> {
    match home {
        Some(h) => h,
        None => seq!['.'],
    }
}

/// The Cursor `User` directory under `home` on platform `os`.
pub open spec fn user_dir_on(home: Seq<char>, os: Seq<char>) -> Option<Seq<char>> {
    if os == "macos"@ {
        Some(
            join(
                join(join(join(home, "Library"@), "Application Support"@), "Cursor"@),
                "User"@,
            ),
        )
    } else if os == "linux"@ {
        Some(join(join(join(home, ".config"@), "Cursor"@), "User"@))
    } else if os == "windows"@ {
        Some(join(join(join(join(home, "AppData"@), "Roaming"@), "Cursor"@), "User"@))
    } else {
        None
    }
}

/// `~/.cursor/projects`.
pub open spec fn projects_dir_spec(home: Option<Seq<char>>) -> Seq<char> {
    join(join(home_or_dot(home), ".cursor"@), "projects"@)
}

/// `~/.cursor/chats`.
pub open spec fn chats_dir_spec(home: Option<Seq<char>>) -> Seq<char> {
    join(join(home_or_dot(home), ".cursor"@), "chats"@)
}

/// `~/.bettercursor`.
pub open spec fn state_dir_spec(home: Option<Seq<char>>) -> Seq<char> {
    join(home_or_dot(home), ".bettercursor"@)
}

/// The MD5 digest of `data`, as `md5::compute` gives it.
pub uninterp spec fn md5_digest(data: Seq<u8>) -> Seq<u8>;

/// The Layer 2 root name of a project: the MD5 of its path, in lowercase hex.
pub open spec fn chat_root_spec(cwd: Seq<char>) -> Seq<char> {
    codec::hex_of(md5_digest(vstd::utf8::encode_utf8(cwd)))
}

/// `~/.cursor/chats/<md5(cwd)>/<composer_id>`.
pub open spec fn chat_dir_spec(home: Option<Seq<char>>, cwd: Seq<char>, id: Seq<char>) -> Seq<
    char,
> {
    join(join(chats_dir_spec(home), chat_root_spec(cwd)), id)
}

/// A path separator as `sanitize_project_path` sees one.
pub open spec fn dash_separator(c: char) -> char {
    if c == '/' || c == '\\' {
        '-'
    } else {
        c
    }
}

/// Each separator of `s` replaced by `-`.
pub open spec fn dash_separators(s: Seq<char>) -> Seq<char> {
    s.map_values(|c: char| dash_separator(c))
}

// ── Joining ───────────────────────────────────────────────────

/// `Path::new(base).join(part)`, on `/`-separated strings.
pub fn path_join(base: &str, part: &str) -> (r: String)
    ensures
        r@ == join(base@, part@),
{
    let b = text::to_chars(base);
    let p = text::to_chars(part);
    if p.len() > 0 && p[0] == '/' {
        return text::owned(part);
    }
    if b.len() == 0 {
        return text::owned(part);
    }
    if b[b.len() - 1] == '/' {
        return text::concat2(base, part);
    }
    proof {
        reveal_strlit("/");
    }
    text::concat3(base, "/", part)
}

/// The home directory, or `.` where none is known.
pub fn home_or_current(home: Option<&str>) -> (r: String)
    ensures
        r@ == home_or_dot(
            match home {
                Some(h) => Some(h@),
                None => None,
            },
        ),
{
    match home {
        Some(h) => text::owned(h),
        None => {
            proof {
                reveal_strlit(".");
            }
            text::owned(".")
        },
    }
}

/// The view of an optional string.
pub open spec fn opt_view(o: Option<&str>) -> Option<Seq<char>> {
    match o {
        Some(h) => Some(h@),
        None => None,
    }
}

// ── Cursor's layers ───────────────────────────────────────────

/// `cursor_user_dir`: the Cursor `User` directory for the platform `os`
/// (the value of `std::env::consts::OS`).
pub fn cursor_user_dir(home: Option<&str>, os: &str) -> (r: Result<String, PathError>)
    ensures
        home is None ==> r is Err && r->Err_0 is NoHome,
        home is Some ==> match user_dir_on(home->0@, os@) {
            Some(p) => r is Ok && r->Ok_0@ == p,
            None => r is Err && (r->Err_0 matches PathError::UnsupportedPlatform(o) && o@ == os@),
        },
{
    let h = match home {
        Some(h) => h,
        None => return Err(PathError::NoHome),
    };
    if text::str_eq(os, "macos") {
        let a = path_join(h, "Library");
        let b = path_join(&a, "Application Support");
        let c = path_join(&b, "Cursor");
        Ok(path_join(&c, "User"))
    } else if text::str_eq(os, "linux") {
        let a = path_join(h, ".config");
        let b = path_join(&a, "Cursor");
        Ok(path_join(&b, "User"))
    } else if text::str_eq(os, "windows") {
        let a = path_join(h, "AppData");
        let b = path_join(&a, "Roaming");
        let c = path_join(&b, "Cursor");
        Ok(path_join(&c, "User"))
    } else {
        Err(PathError::UnsupportedPlatform(text::owned(os)))
    }
}

/// `global_db_path`: Layer 3's `globalStorage/state.vscdb`.
pub fn global_db_path(home: Option<&str>, os: &str) -> (r: Result<String, PathError>)
    ensures
        home is None ==> r is Err && r->Err_0 is NoHome,
        home is Some ==> match user_dir_on(home->0@, os@) {
            Some(p) => r is Ok && r->Ok_0@ == join(join(p, "globalStorage"@), "state.vscdb"@),
            None => r is Err && r->Err_0 is UnsupportedPlatform,
        },
{
    let u = cursor_user_dir(home, os)?;
    let g = path_join(&u, "globalStorage");
    Ok(path_join(&g, "state.vscdb"))
}

/// `workspace_storage_dir`: Layer 3's per-workspace storage directory.
pub fn workspace_storage_dir(home: Option<&str>, os: &str) -> (r: Result<String, PathError>)
    ensures
        home is None ==> r is Err && r->Err_0 is NoHome,
        home is Some ==> match user_dir_on(home->0@, os@) {
            Some(p) => r is Ok && r->Ok_0@ == join(p, "workspaceStorage"@),
            None => r is Err && r->Err_0 is UnsupportedPlatform,
        },
{
    let u = cursor_user_dir(home, os)?;
    Ok(path_join(&u, "workspaceStorage"))
}

/// `workspace_db`: the `state.vscdb` of one workspace.
pub fn workspace_db(home: Option<&str>, os: &str, workspace_hash: &str) -> (r: Result<
    String,
    PathError,
>)
    ensures
        home is None ==> r is Err && r->Err_0 is NoHome,
        home is Some ==> match user_dir_on(home->0@, os@) {
            Some(p) => r is Ok && r->Ok_0@ == join(
                join(join(p, "workspaceStorage"@), workspace_hash@),
                "state.vscdb"@,
            ),
            None => r is Err && r->Err_0 is UnsupportedPlatform,
        },
{
    let w = workspace_storage_dir(home, os)?;
    let d = path_join(&w, workspace_hash);
    Ok(path_join(&d, "state.vscdb"))
}

/// `cursor_projects_dir`: `~/.cursor/projects`, the parent of every Layer 1
/// directory.
pub fn cursor_projects_dir(home: Option<&str>) -> (r: String)
    ensures
        r@ == projects_dir_spec(opt_view(home)),
{
    let h = home_or_current(home);
    let c = path_join(&h, ".cursor");
    path_join(&c, "projects")
}

/// `chats_dir`: `~/.cursor/chats`, the parent of every Layer 2 root.
pub fn chats_dir(home: Option<&str>) -> (r: String)
    ensures
        r@ == chats_dir_spec(opt_view(home)),
{
    let h = home_or_current(home);
    let c = path_join(&h, ".cursor");
    path_join(&c, "chats")
}

/// MD5 of `data` (`md5::compute`).
#[verifier::external_body]
fn md5_compute(data: &[u8]) -> (r: Vec<u8>)
    ensures
        r@ == md5_digest(data@),
        r@.len() == 16,
{
    md5::compute(data).0.to_vec()
}

/// `chat_root_for`: the lowercase hex MD5 of the project path, the name of
/// the project's Layer 2 root.
pub fn chat_root_for(cwd: &str) -> (r: String)
    ensures
        r@ == chat_root_spec(cwd@),
        r@.len() == 32,
{
    let digest = md5_compute(cwd.as_bytes());
    codec::hex_encode(&digest)
}

/// `chat_dir_for`: `~/.cursor/chats/<md5(cwd)>/<composer_id>`.
pub fn chat_dir_for(home: Option<&str>, cwd: &str, composer_id: &str) -> (r: String)
    ensures
        r@ == chat_dir_spec(opt_view(home), cwd@, composer_id@),
{
    let c = chats_dir(home);
    let root = chat_root_for(cwd);
    let d = path_join(&c, &root);
    path_join(&d, composer_id)
}

/// `store_db_for`: the `store.db` of one Layer 2 session.
pub fn store_db_for(home: Option<&str>, cwd: &str, composer_id: &str) -> (r: String)
    ensures
        r@ == join(chat_dir_spec(opt_view(home), cwd@, composer_id@), "store.db"@),
{
    let d = chat_dir_for(home, cwd, composer_id);
    path_join(&d, "store.db")
}

/// `resolve_store_db_for`: the session's `store.db` under `md5(cwd)` when
/// `cwd` is not blank and that file exists (`primary_is_file`, as the caller
/// found it at the path `store_db_for` names), else what the scan of the
/// chats directory found (`scanned`).
pub fn resolve_store_db_for(
    home: Option<&str>,
    uuid: &str,
    cwd: &str,
    primary_is_file: bool,
    scanned: Option<String>,
) -> (r: Option<String>)
    ensures
        text::trim(cwd@).len() > 0 && primary_is_file ==> r is Some && r->0@ == join(
            chat_dir_spec(opt_view(home), cwd@, uuid@),
            "store.db"@,
        ),
        !(text::trim(cwd@).len() > 0 && primary_is_file) ==> r == scanned,
{
    if !text::str_is_blank(cwd) && primary_is_file {
        return Some(store_db_for(home, cwd, uuid));
    }
    scanned
}

// ── bettercursor's own state ──────────────────────────────────

/// `bettercursor_dir`: `~/.bettercursor` (the caller creates it).
pub fn bettercursor_dir(home: Option<&str>) -> (r: String)
    ensures
        r@ == state_dir_spec(opt_view(home)),
{
    let h = home_or_current(home);
    path_join(&h, ".bettercursor")
}

/// `config_file`: `~/.bettercursor/config.json`.
pub fn config_file(home: Option<&str>) -> (r: String)
    ensures
        r@ == join(state_dir_spec(opt_view(home)), "config.json"@),
{
    let d = bettercursor_dir(home);
    path_join(&d, "config.json")
}

/// `unified_db_path`: `~/.bettercursor/unified.db`.
pub fn unified_db_path(home: Option<&str>) -> (r: String)
    ensures
        r@ == join(state_dir_spec(opt_view(home)), "unified.db"@),
{
    let d = bettercursor_dir(home);
    path_join(&d, "unified.db")
}

// ── Layer 1 segment names ─────────────────────────────────────

/// `sanitize_project_path`: `/Users/x/y` becomes `Users-x-y`, the Layer 1
/// directory name of a project: slashes trimmed from both ends, then every
/// `/` and `\` replaced by `-`.
pub fn sanitize_project_path(project_path: &str) -> (r: String)
    ensures
        r@ == dash_separators(text::trim_matches(project_path@, '/')),
        forall|k: int| 0 <= k < r@.len() ==> (#[trigger] r@[k]) != '/' && r@[k] != '\\',
{
    let cs = text::to_chars(project_path);
    let t = text::trim_matches_chars(&cs, '/');
    let mut out: Vec<char> = Vec::new();
    let mut i: usize = 0;
    while i < t.len()
        invariant
            i <= t@.len(),
            out@ == dash_separators(t@.take(i as int)),
        decreases t.len() - i,
    {
        let c = t[i];
        let d = if c == '/' || c == '\\' {
            '-'
        } else {
            c
        };
        out.push(d);
        assert(t@.take(i + 1) =~= t@.take(i as int).push(c));
        assert(dash_separators(t@.take(i + 1)) =~= dash_separators(t@.take(i as int)).push(d));
        i = i + 1;
    }
    assert(t@.take(i as int) =~= t@);
    text::from_chars(&out)
}

/// The two places a session's Layer 1 transcript can be under one project's
/// `agent-transcripts` directory: `<uuid>/<uuid>.jsonl`, then the older
/// flat `<uuid>.jsonl`.
pub fn layer1_jsonl_candidates(transcripts: &str, uuid: &str) -> (r: (String, String))
    ensures
        r.0@ == join(join(transcripts@, uuid@), uuid@ + ".jsonl"@),
        r.1@ == join(transcripts@, uuid@ + ".jsonl"@),
{
    let file = text::concat2(uuid, ".jsonl");
    let d = path_join(transcripts, uuid);
    (path_join(&d, &file), path_join(transcripts, &file))
}

} // verus!
