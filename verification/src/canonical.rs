//! The canonical session record: one entry per session uuid, merged from
//! Cursor's three storage layers.
//!
//! Reading the layers is the caller's part. The merge itself (which layer's
//! value wins, how timestamps combine, how a Layer 3 `composerData` row
//! becomes an entry) is here, over a `SessionIndex` that holds each uuid
//! once.
use vstd::prelude::*;

use crate::json::{self, Json, JsonV};
use crate::json_codec;
use crate::paths;
use crate::text::{self, starts_with};

verus! {

// ── Types ─────────────────────────────────────────────────────

/// One storage layer that produced a session record.
#[derive(PartialEq, Eq, Structural, Clone, Copy, Debug)]
pub enum SourceLayer {
    Mac,
    LinuxCli,
    LinuxDesktop,
}

/// Where and when one layer showed a session.
#[derive(Debug)]
pub struct SourceInfo {
    pub last_seen_at: i64,
    pub layer: String,
    pub path: String,
}

/// Model of a `SourceInfo`.
pub struct SourceInfoV {
    pub last_seen_at: i64,
    pub layer: Seq<char>,
    pub path: Seq<char>,
}

impl View for SourceInfo {
    type V = SourceInfoV;

    open spec fn view(&self) -> SourceInfoV {
        SourceInfoV { last_seen_at: self.last_seen_at, layer: self.layer@, path: self.path@ }
    }
}

impl Clone for SourceInfo {
    fn clone(&self) -> (r: Self)
        ensures
            r@ == self@,
    {
        SourceInfo {
            last_seen_at: self.last_seen_at,
            layer: self.layer.clone(),
            path: self.path.clone(),
        }
    }
}

/// The model of an optional `SourceInfo`.
pub open spec fn info_opt(o: Option<SourceInfo>) -> Option<SourceInfoV> {
    match o {
        Some(i) => Some(i@),
        None => None,
    }
}

fn clone_info_opt(o: &Option<SourceInfo>) -> (r: Option<SourceInfo>)
    ensures
        info_opt(r) == info_opt(*o),
{
    match o {
        Some(i) => Some(i.clone()),
        None => None,
    }
}

/// Which layers hold the session, one slot per kind of endpoint.
#[derive(Debug)]
pub struct Sources {
    pub mac: Option<SourceInfo>,
    pub linux_cli: Option<SourceInfo>,
    pub linux_desktop: Option<SourceInfo>,
}

/// Model of `Sources`.
pub struct SourcesV {
    pub mac: Option<SourceInfoV>,
    pub linux_cli: Option<SourceInfoV>,
    pub linux_desktop: Option<SourceInfoV>,
}

impl View for Sources {
    type V = SourcesV;

    open spec fn view(&self) -> SourcesV {
        SourcesV {
            mac: info_opt(self.mac),
            linux_cli: info_opt(self.linux_cli),
            linux_desktop: info_opt(self.linux_desktop),
        }
    }
}

impl Clone for Sources {
    fn clone(&self) -> (r: Self)
        ensures
            r@ == self@,
    {
        Sources {
            mac: clone_info_opt(&self.mac),
            linux_cli: clone_info_opt(&self.linux_cli),
            linux_desktop: clone_info_opt(&self.linux_desktop),
        }
    }
}

/// The endpoint kind a session is labelled with: `mac` over
/// `linux_desktop` over `linux_cli`, `unknown` without any source.
pub open spec fn endpoint_kind_of(s: SourcesV) -> Seq<char> {
    if s.mac is Some {
        "mac"@
    } else if s.linux_desktop is Some {
        "linux_desktop"@
    } else if s.linux_cli is Some {
        "linux_cli"@
    } else {
        "unknown"@
    }
}

/// The source path a session is listed under, by the same preference; empty
/// without any source.
pub open spec fn source_path_of(s: SourcesV) -> Seq<char> {
    if s.mac is Some {
        s.mac->0.path
    } else if s.linux_desktop is Some {
        s.linux_desktop->0.path
    } else if s.linux_cli is Some {
        s.linux_cli->0.path
    } else {
        seq![]
    }
}

impl Sources {
    /// No source at any layer (`Sources::default()`).
    pub fn new() -> (r: Sources)
        ensures
            r@.mac is None && r@.linux_cli is None && r@.linux_desktop is None,
    {
        Sources { mac: None, linux_cli: None, linux_desktop: None }
    }

    /// `preferred_endpoint_kind`: `mac`, else `linux_desktop`, else
    /// `linux_cli`, else `unknown`.
    pub fn preferred_endpoint_kind(&self) -> (r: String)
        ensures
            r@ == endpoint_kind_of(self@),
    {
        if self.mac.is_some() {
            text::owned("mac")
        } else if self.linux_desktop.is_some() {
            text::owned("linux_desktop")
        } else if self.linux_cli.is_some() {
            text::owned("linux_cli")
        } else {
            text::owned("unknown")
        }
    }

    /// `preferred_source_path`: the path of the preferred source, empty when
    /// there is none.
    pub fn preferred_source_path(&self) -> (r: String)
        ensures
            r@ == source_path_of(self@),
    {
        match &self.mac {
            Some(i) => return i.path.clone(),
            None => {},
        }
        match &self.linux_desktop {
            Some(i) => return i.path.clone(),
            None => {},
        }
        match &self.linux_cli {
            Some(i) => i.path.clone(),
            None => String::new(),
        }
    }
}

/// Layer 3's `composerData` JSON of a session, kept verbatim.
#[derive(Debug)]
pub struct ComposerData {
    pub full_json: String,
    pub subset_json: String,
}

/// Model of `ComposerData`.
pub struct ComposerDataV {
    pub full_json: Seq<char>,
    pub subset_json: Seq<char>,
}

impl View for ComposerData {
    type V = ComposerDataV;

    open spec fn view(&self) -> ComposerDataV {
        ComposerDataV { full_json: self.full_json@, subset_json: self.subset_json@ }
    }
}

/// The model of an optional string.
pub open spec fn str_opt(o: Option<String>) -> Option<Seq<char>> {
    match o {
        Some(s) => Some(s@),
        None => None,
    }
}

/// The model of optional composer data.
pub open spec fn composer_opt(o: Option<ComposerData>) -> Option<ComposerDataV> {
    match o {
        Some(c) => Some(c@),
        None => None,
    }
}

/// One session, merged across the layers.
#[derive(Debug)]
pub struct CanonicalSession {
    pub uuid: String,
    pub project_slug: String,
    pub project_path: String,
    pub chat_root: String,
    pub name: String,
    pub last_updated_at: i64,
    pub bubble_count: u32,
    pub is_empty_draft: bool,
    /// A data-correctness problem makes the session unusable; always paired
    /// with a `broken_reason`.
    pub is_broken: bool,
    pub broken_reason: Option<String>,
    pub sources: Sources,
    pub first_user_message_preview: String,
    pub files_referenced: Vec<String>,
    /// Text of the conversation for full-content search.
    pub indexable_text: String,
    /// Layer 3 holds a `composerData` row for the session.
    pub layer_3_present: bool,
    pub layer_3_needs_refresh: bool,
    pub layer_2_needs_refresh: bool,
    /// Layer 3's `composerData` JSON, captured at scan time.
    pub composer_data: Option<ComposerData>,
    /// The `composerId` of the Layer 3 row (the uuid today).
    pub composer_id: Option<String>,
    pub is_subagent: bool,
    pub subagent_info: Option<String>,
    /// The endpoint that created the session, once known.
    pub created_endpoint: Option<SourceLayer>,
    pub created_at_ms: Option<i64>,
}

/// Model of a `CanonicalSession`.
pub struct SessionV {
    pub uuid: Seq<char>,
    pub project_slug: Seq<char>,
    pub project_path: Seq<char>,
    pub chat_root: Seq<char>,
    pub name: Seq<char>,
    pub last_updated_at: i64,
    pub bubble_count: u32,
    pub is_empty_draft: bool,
    pub is_broken: bool,
    pub broken_reason: Option<Seq<char>>,
    pub sources: SourcesV,
    pub first_user_message_preview: Seq<char>,
    pub files_referenced: Seq<Seq<char>>,
    pub indexable_text: Seq<char>,
    pub layer_3_present: bool,
    pub layer_3_needs_refresh: bool,
    pub layer_2_needs_refresh: bool,
    pub composer_data: Option<ComposerDataV>,
    pub composer_id: Option<Seq<char>>,
    pub is_subagent: bool,
    pub subagent_info: Option<Seq<char>>,
    pub created_endpoint: Option<SourceLayer>,
    pub created_at_ms: Option<i64>,
}

impl View for CanonicalSession {
    type V = SessionV;

    open spec fn view(&self) -> SessionV {
        SessionV {
            uuid: self.uuid@,
            project_slug: self.project_slug@,
            project_path: self.project_path@,
            chat_root: self.chat_root@,
            name: self.name@,
            last_updated_at: self.last_updated_at,
            bubble_count: self.bubble_count,
            is_empty_draft: self.is_empty_draft,
            is_broken: self.is_broken,
            broken_reason: str_opt(self.broken_reason),
            sources: self.sources@,
            first_user_message_preview: self.first_user_message_preview@,
            files_referenced: text::views(self.files_referenced@),
            indexable_text: self.indexable_text@,
            layer_3_present: self.layer_3_present,
            layer_3_needs_refresh: self.layer_3_needs_refresh,
            layer_2_needs_refresh: self.layer_2_needs_refresh,
            composer_data: composer_opt(self.composer_data),
            composer_id: str_opt(self.composer_id),
            is_subagent: self.is_subagent,
            subagent_info: str_opt(self.subagent_info),
            created_endpoint: self.created_endpoint,
            created_at_ms: self.created_at_ms,
        }
    }
}

fn clone_str_opt(o: &Option<String>) -> (r: Option<String>)
    ensures
        str_opt(r) == str_opt(*o),
{
    match o {
        Some(s) => Some(s.clone()),
        None => None,
    }
}

fn clone_strings(v: &Vec<String>) -> (r: Vec<String>)
    ensures
        text::views(r@) == text::views(v@),
{
    let mut out: Vec<String> = Vec::new();
    let mut i: usize = 0;
    while i < v.len()
        invariant
            i <= v@.len(),
            text::views(out@) == text::views(v@.take(i as int)),
        decreases v.len() - i,
    {
        let c = v[i].clone();
        let ghost before = out@;
        out.push(c);
        proof {
            text::lemma_views_push(before, c);
            assert(v@.take(i + 1) =~= v@.take(i as int).push(v@[i as int]));
            text::lemma_views_push(v@.take(i as int), v@[i as int]);
        }
        i = i + 1;
    }
    assert(v@.take(i as int) =~= v@);
    out
}

impl Clone for ComposerData {
    fn clone(&self) -> (r: Self)
        ensures
            r@ == self@,
    {
        ComposerData { full_json: self.full_json.clone(), subset_json: self.subset_json.clone() }
    }
}

impl Clone for CanonicalSession {
    fn clone(&self) -> (r: Self)
        ensures
            r@ == self@,
    {
        CanonicalSession {
            uuid: self.uuid.clone(),
            project_slug: self.project_slug.clone(),
            project_path: self.project_path.clone(),
            chat_root: self.chat_root.clone(),
            name: self.name.clone(),
            last_updated_at: self.last_updated_at,
            bubble_count: self.bubble_count,
            is_empty_draft: self.is_empty_draft,
            is_broken: self.is_broken,
            broken_reason: clone_str_opt(&self.broken_reason),
            sources: self.sources.clone(),
            first_user_message_preview: self.first_user_message_preview.clone(),
            files_referenced: clone_strings(&self.files_referenced),
            indexable_text: self.indexable_text.clone(),
            layer_3_present: self.layer_3_present,
            layer_3_needs_refresh: self.layer_3_needs_refresh,
            layer_2_needs_refresh: self.layer_2_needs_refresh,
            composer_data: match &self.composer_data {
                Some(c) => Some(c.clone()),
                None => None,
            },
            composer_id: clone_str_opt(&self.composer_id),
            is_subagent: self.is_subagent,
            subagent_info: clone_str_opt(&self.subagent_info),
            created_endpoint: self.created_endpoint,
            created_at_ms: self.created_at_ms,
        }
    }
}

// ── Merging a source into an entry ────────────────────────────

/// The entry a session gets when a layer first shows it.
pub open spec fn fresh_entry(
    uuid: Seq<char>,
    slug: Seq<char>,
    name: Seq<char>,
    last_updated_at: i64,
    preview: Seq<char>,
) -> SessionV {
    SessionV {
        uuid,
        project_slug: slug,
        project_path: seq![],
        chat_root: seq![],
        name,
        last_updated_at,
        bubble_count: 0,
        is_empty_draft: false,
        is_broken: false,
        broken_reason: None,
        sources: SourcesV { mac: None, linux_cli: None, linux_desktop: None },
        first_user_message_preview: preview,
        files_referenced: seq![],
        indexable_text: seq![],
        layer_3_present: false,
        layer_3_needs_refresh: false,
        layer_2_needs_refresh: false,
        composer_data: None,
        composer_id: None,
        is_subagent: false,
        subagent_info: None,
        created_endpoint: None,
        created_at_ms: None,
    }
}

/// The sources with the slot of `layer` filled by `info` where it was empty.
pub open spec fn fill_slot(s: SourcesV, layer: SourceLayer, info: SourceInfoV) -> SourcesV {
    match layer {
        SourceLayer::Mac => SourcesV { mac: if s.mac is None { Some(info) } else { s.mac }, ..s },
        SourceLayer::LinuxCli => SourcesV {
            linux_cli: if s.linux_cli is None { Some(info) } else { s.linux_cli },
            ..s
        },
        SourceLayer::LinuxDesktop => SourcesV {
            linux_desktop: if s.linux_desktop is None { Some(info) } else { s.linux_desktop },
            ..s
        },
    }
}

/// `e` after one layer reported the session: the layer's slot is filled
/// where empty; a non-empty name replaces an empty one or the placeholder
/// `New Agent`; a non-empty preview fills an empty one; the slug fills an
/// empty one; the newer of the two timestamps is kept.
pub open spec fn merged(
    e: SessionV,
    info: SourceInfoV,
    layer: SourceLayer,
    slug: Seq<char>,
    name: Seq<char>,
    last_updated_at: i64,
    preview: Seq<char>,
) -> SessionV {
    SessionV {
        sources: fill_slot(e.sources, layer, info),
        name: if name.len() > 0 && (e.name.len() == 0 || e.name == "New Agent"@) {
            name
        } else {
            e.name
        },
        first_user_message_preview: if preview.len() > 0 && e.first_user_message_preview.len()
            == 0 {
            preview
        } else {
            e.first_user_message_preview
        },
        project_slug: if e.project_slug.len() == 0 {
            slug
        } else {
            e.project_slug
        },
        last_updated_at: if last_updated_at > e.last_updated_at {
            last_updated_at
        } else {
            e.last_updated_at
        },
        ..e
    }
}

fn is_empty_str(s: &String) -> (r: bool)
    ensures
        r == (s@.len() == 0),
{
    let cs = text::to_chars(s.as_str());
    cs.len() == 0
}

fn fresh_session(
    uuid: &str,
    project_slug: &str,
    name: &String,
    last_updated_at: i64,
    preview: &String,
) -> (r: CanonicalSession)
    ensures
        r@ == fresh_entry(uuid@, project_slug@, name@, last_updated_at, preview@),
{
    let files: Vec<String> = Vec::new();
    let r = CanonicalSession {
        uuid: text::owned(uuid),
        project_slug: text::owned(project_slug),
        project_path: String::new(),
        chat_root: String::new(),
        name: name.clone(),
        last_updated_at,
        bubble_count: 0,
        is_empty_draft: false,
        is_broken: false,
        broken_reason: None,
        sources: Sources::new(),
        first_user_message_preview: preview.clone(),
        files_referenced: files,
        indexable_text: String::new(),
        layer_3_present: false,
        layer_3_needs_refresh: false,
        layer_2_needs_refresh: false,
        composer_data: None,
        composer_id: None,
        is_subagent: false,
        subagent_info: None,
        created_endpoint: None,
        created_at_ms: None,
    };
    assert(text::views(files@) =~= Seq::<Seq<char>>::empty());
    r
}

fn merge_into_entry(
    e: CanonicalSession,
    info: SourceInfo,
    layer: SourceLayer,
    project_slug: &str,
    name: String,
    last_updated_at: i64,
    preview: String,
) -> (r: CanonicalSession)
    ensures
        r@ == merged(e@, info@, layer, project_slug@, name@, last_updated_at, preview@),
{
    let mut e = e;
    match layer {
        SourceLayer::Mac => {
            if e.sources.mac.is_none() {
                e.sources.mac = Some(info);
            }
        },
        SourceLayer::LinuxCli => {
            if e.sources.linux_cli.is_none() {
                e.sources.linux_cli = Some(info);
            }
        },
        SourceLayer::LinuxDesktop => {
            if e.sources.linux_desktop.is_none() {
                e.sources.linux_desktop = Some(info);
            }
        },
    }
    if !is_empty_str(&name) && (is_empty_str(&e.name) || text::str_eq(&e.name, "New Agent")) {
        e.name = name;
    }
    if !is_empty_str(&preview) && is_empty_str(&e.first_user_message_preview) {
        e.first_user_message_preview = preview;
    }
    if is_empty_str(&e.project_slug) {
        e.project_slug = text::owned(project_slug);
    }
    if last_updated_at > e.last_updated_at {
        e.last_updated_at = last_updated_at;
    }
    e
}

// ── The index ─────────────────────────────────────────────────

/// The sessions found so far, each uuid once, in the order first seen.
#[derive(Debug)]
pub struct SessionIndex {
    sessions: Vec<CanonicalSession>,
}

/// The models of a sequence of sessions.
pub open spec fn session_views(s: Seq<CanonicalSession>) -> Seq<SessionV> {
    s.map_values(|c: CanonicalSession| c@)
}

/// No uuid occurs twice.
pub open spec fn distinct_uuids(s: Seq<SessionV>) -> bool {
    forall|i: int, j: int|
        0 <= i < s.len() && 0 <= j < s.len() && i != j ==> #[trigger] s[i].uuid != #[trigger] s[j].uuid
}

/// Some session of `s` has the uuid.
pub open spec fn has_uuid(s: Seq<SessionV>, uuid: Seq<char>) -> bool {
    exists|i: int| 0 <= i < s.len() && #[trigger] s[i].uuid == uuid
}

impl View for SessionIndex {
    type V = Seq<SessionV>;

    closed spec fn view(&self) -> Seq<SessionV> {
        session_views(self.sessions@)
    }
}

impl SessionIndex {
    /// Each uuid is held once.
    pub closed spec fn wf(&self) -> bool {
        distinct_uuids(self@)
    }

    /// An empty index.
    pub fn new() -> (r: SessionIndex)
        ensures
            r.wf(),
            r@ == Seq::<SessionV>::empty(),
    {
        let r = SessionIndex { sessions: Vec::new() };
        assert(r@ =~= Seq::<SessionV>::empty());
        r
    }

    /// The number of sessions.
    pub fn len(&self) -> (r: usize)
        ensures
            r == self@.len(),
    {
        self.sessions.len()
    }

    /// The position of the session with this uuid.
    pub fn position(&self, uuid: &str) -> (r: Option<usize>)
        ensures
            match r {
                Some(i) => i < self@.len() && self@[i as int].uuid == uuid@,
                None => !has_uuid(self@, uuid@),
            },
    {
        let mut i: usize = 0;
        while i < self.sessions.len()
            invariant
                i <= self@.len() == self.sessions@.len(),
                forall|k: int| 0 <= k < i ==> self@[k].uuid != uuid@,
            decreases self.sessions.len() - i,
        {
            assert(self@[i as int] == self.sessions@[i as int]@);
            if text::str_eq(self.sessions[i].uuid.as_str(), uuid) {
                return Some(i);
            }
            i = i + 1;
        }
        None
    }

    /// The session with this uuid (`HashMap::get`).
    pub fn get(&self, uuid: &str) -> (r: Option<&CanonicalSession>)
        ensures
            match r {
                Some(s) => has_uuid(self@, uuid@) && s@.uuid == uuid@ && self@.contains(s@),
                None => !has_uuid(self@, uuid@),
            },
    {
        match self.position(uuid) {
            Some(i) => {
                assert(self@[i as int] == self.sessions@[i as int]@);
                Some(&self.sessions[i])
            },
            None => None,
        }
    }

    /// The session at position `i`.
    pub fn at(&self, i: usize) -> (r: &CanonicalSession)
        requires
            i < self@.len(),
        ensures
            r@ == self@[i as int],
    {
        &self.sessions[i]
    }

    /// Replaces the session at position `i` by one with the same uuid.
    pub fn replace(&mut self, i: usize, s: CanonicalSession)
        requires
            old(self).wf(),
            i < old(self)@.len(),
            s@.uuid == old(self)@[i as int].uuid,
        ensures
            final(self).wf(),
            final(self)@ == old(self)@.update(i as int, s@),
    {
        let ghost sv = s@;
        self.sessions.set(i, s);
        assert(self@ =~= old(self)@.update(i as int, sv));
    }

    /// Adds a session whose uuid is not held yet.
    pub fn insert_new(&mut self, s: CanonicalSession)
        requires
            old(self).wf(),
            !has_uuid(old(self)@, s@.uuid),
        ensures
            final(self).wf(),
            final(self)@ == old(self)@.push(s@),
    {
        let ghost sv = s@;
        self.sessions.push(s);
        assert(self@ =~= old(self)@.push(sv));
    }

    /// The sessions, in the order first seen.
    pub fn into_sessions(self) -> (r: Vec<CanonicalSession>)
        ensures
            session_views(r@) == self@,
    {
        self.sessions
    }
}

/// The index after `merge_source`: the session's entry, or a fresh one
/// appended when the uuid is new, merged with what the layer reported.
pub open spec fn merge_source_spec(
    idx: Seq<SessionV>,
    uuid: Seq<char>,
    info: SourceInfoV,
    layer: SourceLayer,
    slug: Seq<char>,
    name: Seq<char>,
    last_updated_at: i64,
    preview: Seq<char>,
) -> Seq<SessionV> {
    if has_uuid(idx, uuid) {
        idx.map_values(
            |e: SessionV|
                if e.uuid == uuid {
                    merged(e, info, layer, slug, name, last_updated_at, preview)
                } else {
                    e
                },
        )
    } else {
        idx.push(
            merged(
                fresh_entry(uuid, slug, name, last_updated_at, preview),
                info,
                layer,
                slug,
                name,
                last_updated_at,
                preview,
            ),
        )
    }
}

/// `merge_source`: records that one layer shows the session `uuid`.
pub fn merge_source(
    by_uuid: &mut SessionIndex,
    uuid: &str,
    info: SourceInfo,
    layer: SourceLayer,
    project_slug: &str,
    name: String,
    last_updated_at: i64,
    first_user_message_preview: String,
)
    requires
        old(by_uuid).wf(),
    ensures
        final(by_uuid).wf(),
        final(by_uuid)@ == merge_source_spec(
            old(by_uuid)@,
            uuid@,
            info@,
            layer,
            project_slug@,
            name@,
            last_updated_at,
            first_user_message_preview@,
        ),
{
    let ghost iv = info@;
    let ghost nv = name@;
    let ghost pv = first_user_message_preview@;
    match by_uuid.position(uuid) {
        Some(i) => {
            let e = by_uuid.at(i).clone();
            let m = merge_into_entry(
                e,
                info,
                layer,
                project_slug,
                name,
                last_updated_at,
                first_user_message_preview,
            );
            by_uuid.replace(i, m);
            proof {
                let o = old(by_uuid)@;
                assert forall|a: int, b: int| 0 <= a < o.len() && 0 <= b < o.len() && a != b
                    implies o[a].uuid != o[b].uuid by {
                    assert(distinct_uuids(o));
                }
                assert(by_uuid@ =~= merge_source_spec(
                    o,
                    uuid@,
                    iv,
                    layer,
                    project_slug@,
                    nv,
                    last_updated_at,
                    pv,
                ));
            }
        },
        None => {
            let e = fresh_session(
                uuid,
                project_slug,
                &name,
                last_updated_at,
                &first_user_message_preview,
            );
            let m = merge_into_entry(
                e,
                info,
                layer,
                project_slug,
                name,
                last_updated_at,
                first_user_message_preview,
            );
            by_uuid.insert_new(m);
        },
    }
}

// ── Reading Layer 3's composerData ────────────────────────────

/// The first of `fsPath`, `path`, `external` of `uri` that is a string.
pub open spec fn uri_path(uri: JsonV) -> Option<Seq<char>> {
    if json::get_str(uri, "fsPath"@) is Some {
        json::get_str(uri, "fsPath"@)
    } else if json::get_str(uri, "path"@) is Some {
        json::get_str(uri, "path"@)
    } else {
        json::get_str(uri, "external"@)
    }
}

/// `s` without a leading `file://`.
pub open spec fn strip_file_scheme(s: Seq<char>) -> Seq<char> {
    if starts_with(s, "file://"@) {
        s.skip(7)
    } else {
        s
    }
}

/// The project folder a `composerData` row names: `workspaceIdentifier`
/// as a string, or the first string among its `uri`'s `fsPath`, `path`
/// and `external` without a `file://` scheme; empty when neither shape is
/// there.
pub open spec fn workspace_path_of(v: JsonV) -> Seq<char> {
    match json::get(v, "workspaceIdentifier"@) {
        None => seq![],
        Some(wi) => match wi {
            JsonV::Str(s) => s,
            JsonV::Object(_) => match json::get(wi, "uri"@) {
                Some(uri) => match uri {
                    JsonV::Object(_) => match uri_path(uri) {
                        Some(s) => strip_file_scheme(s),
                        None => seq![],
                    },
                    _ => seq![],
                },
                None => seq![],
            },
            _ => seq![],
        },
    }
}

/// `extract_workspace_path`: the project folder of a `composerData` row.
pub fn extract_workspace_path(v: &Json) -> (r: String)
    ensures
        r@ == workspace_path_of(v@),
{
    let wi = match v.get("workspaceIdentifier") {
        Some(w) => w,
        None => return String::new(),
    };
    match wi {
        Json::Str(s) => return s.clone(),
        Json::Object(_) => {},
        _ => return String::new(),
    }
    let uri = match wi.get("uri") {
        Some(u) => u,
        None => return String::new(),
    };
    match uri {
        Json::Object(_) => {},
        _ => return String::new(),
    }
    let found = match uri.get_str("fsPath") {
        Some(s) => Some(s),
        None => match uri.get_str("path") {
            Some(s) => Some(s),
            None => uri.get_str("external"),
        },
    };
    proof {
        reveal_strlit("file://");
    }
    match found {
        Some(s) => text::strip_prefix_or_same(&s, "file://"),
        None => String::new(),
    }
}

/// The Layer 1 slug of a project folder, `fallback` when it is empty.
pub open spec fn slug_or(project_path: Seq<char>, fallback: Seq<char>) -> Seq<char> {
    if project_path.len() > 0 {
        paths::dash_separators(text::trim_matches(project_path, '/'))
    } else {
        fallback
    }
}

/// `Option<i64>` with a default.
pub open spec fn or_zero(o: Option<i64>) -> i64 {
    match o {
        Some(x) => x,
        None => 0,
    }
}

/// The larger of two timestamps.
pub open spec fn later(a: i64, b: i64) -> i64 {
    if a >= b {
        a
    } else {
        b
    }
}

/// When a `composerData` row was last touched: its own `lastUpdatedAt`,
/// or `createdAt` where that is later (never the file's shared mtime).
pub open spec fn row_last_updated(v: JsonV) -> i64 {
    later(or_zero(json::get_i64(v, "lastUpdatedAt"@)), or_zero(json::get_i64(v, "createdAt"@)))
}

/// The `bubbleCount` of a row, as a `u32` (`as u32`, truncating).
pub open spec fn row_bubble_count(v: JsonV) -> u32 {
    match json::get_u64(v, "bubbleCount"@) {
        Some(n) => n as u32,
        None => 0,
    }
}

/// What a Layer 3 row adds to its entry beyond `merge_source`.
pub open spec fn layer3_touch(
    e: SessionV,
    bubble_count: u32,
    project_path: Seq<char>,
    full_json: Seq<char>,
    uuid: Seq<char>,
) -> SessionV {
    SessionV {
        bubble_count: if bubble_count > e.bubble_count {
            bubble_count
        } else {
            e.bubble_count
        },
        project_path: if e.project_path.len() == 0 && project_path.len() > 0 {
            project_path
        } else {
            e.project_path
        },
        layer_3_present: true,
        composer_data: Some(ComposerDataV { full_json, subset_json: full_json }),
        composer_id: Some(uuid),
        ..e
    }
}

/// Applies `f` to the entry of `uuid`, leaving the others.
pub open spec fn touch_entry(
    idx: Seq<SessionV>,
    uuid: Seq<char>,
    f: spec_fn(SessionV) -> SessionV,
) -> Seq<SessionV> {
    idx.map_values(|e: SessionV| if e.uuid == uuid { f(e) } else { e })
}

/// The source layer of Layer 3: `mac` on macOS, `linux_desktop` elsewhere.
pub open spec fn desktop_layer(on_macos: bool) -> SourceLayer {
    if on_macos {
        SourceLayer::Mac
    } else {
        SourceLayer::LinuxDesktop
    }
}

/// The index after one `composerData:<uuid>` row of Layer 3.
pub open spec fn layer3_row_spec(
    idx: Seq<SessionV>,
    uuid: Seq<char>,
    v: JsonV,
    global_db: Seq<char>,
    modified: i64,
    on_macos: bool,
    full_json: Seq<char>,
) -> Seq<SessionV> {
    let pp = workspace_path_of(v);
    let merged_idx = merge_source_spec(
        idx,
        uuid,
        SourceInfoV { last_seen_at: modified, layer: "3"@, path: global_db },
        desktop_layer(on_macos),
        slug_or(pp, "no-workspace"@),
        json::str_or(json::get_str(v, "name"@), seq![]),
        row_last_updated(v),
        seq![],
    );
    touch_entry(
        merged_idx,
        uuid,
        |e: SessionV| layer3_touch(e, row_bubble_count(v), pp, full_json, uuid),
    )
}

fn str_or_empty(o: Option<String>) -> (r: String)
    ensures
        r@ == json::str_or(str_opt(o), seq![]),
{
    match o {
        Some(s) => s,
        None => String::new(),
    }
}

/// Applies one change to the entry of `uuid`, which the index holds.
fn update_entry(by_uuid: &mut SessionIndex, uuid: &str, bubble_count: u32, project_path: &String, full_json: &str)
    requires
        old(by_uuid).wf(),
        has_uuid(old(by_uuid)@, uuid@),
    ensures
        final(by_uuid).wf(),
        final(by_uuid)@ == touch_entry(
            old(by_uuid)@,
            uuid@,
            |e: SessionV| layer3_touch(e, bubble_count, project_path@, full_json@, uuid@),
        ),
{
    let i = match by_uuid.position(uuid) {
        Some(i) => i,
        None => return,
    };
    let mut e = by_uuid.at(i).clone();
    if bubble_count > e.bubble_count {
        e.bubble_count = bubble_count;
    }
    if text::str_is_empty(e.project_path.as_str()) && !text::str_is_empty(project_path.as_str()) {
        e.project_path = project_path.clone();
    }
    e.layer_3_present = true;
    e.composer_data = Some(ComposerData { full_json: text::owned(full_json), subset_json: text::owned(full_json) });
    e.composer_id = Some(text::owned(uuid));
    by_uuid.replace(i, e);
    proof {
        let o = old(by_uuid)@;
        assert(distinct_uuids(o));
        assert(by_uuid@ =~= touch_entry(
            o,
            uuid@,
            |e: SessionV| layer3_touch(e, bubble_count, project_path@, full_json@, uuid@),
        ));
    }
}

/// `scan_layer3_into`'s handling of one `composerData:` row: the row's
/// document `v`, kept as its compact JSON text, merged into the index.
pub fn merge_layer3_item(
    by_uuid: &mut SessionIndex,
    uuid: &str,
    v: &Json,
    global_db: &str,
    modified: i64,
    on_macos: bool,
)
    requires
        old(by_uuid).wf(),
    ensures
        final(by_uuid).wf(),
        final(by_uuid)@ == layer3_row_spec(
            old(by_uuid)@,
            uuid@,
            v@,
            global_db@,
            modified,
            on_macos,
            json_codec::compact_json(v@),
        ),
{
    let full_json = json_codec::to_compact(v);
    merge_layer3_row(by_uuid, uuid, v, global_db, modified, on_macos, full_json.as_str());
}

/// The per-row part of `scan_layer3_into`: merges the `composerData` row
/// `v` of session `uuid`, read from `global_db` (modified at `modified`),
/// into the index. `full_json` is the row serialised back to text.
pub fn merge_layer3_row(
    by_uuid: &mut SessionIndex,
    uuid: &str,
    v: &Json,
    global_db: &str,
    modified: i64,
    on_macos: bool,
    full_json: &str,
)
    requires
        old(by_uuid).wf(),
    ensures
        final(by_uuid).wf(),
        final(by_uuid)@ == layer3_row_spec(
            old(by_uuid)@,
            uuid@,
            v@,
            global_db@,
            modified,
            on_macos,
            full_json@,
        ),
{
    let name = str_or_empty(v.get_str("name"));
    let project_path = extract_workspace_path(v);
    proof {
        reveal_strlit("no-workspace");
        reveal_strlit("3");
    }
    let project_slug = if !text::str_is_empty(project_path.as_str()) {
        paths::sanitize_project_path(&project_path)
    } else {
        text::owned("no-workspace")
    };
    let created_at = match v.get_i64("createdAt") {
        Some(x) => x,
        None => 0,
    };
    let json_last = match v.get_i64("lastUpdatedAt") {
        Some(x) => x,
        None => 0,
    };
    let last_updated_at = if json_last >= created_at {
        json_last
    } else {
        created_at
    };
    let bubble_count: u32 = match v.get_u64("bubbleCount") {
        Some(n) => n as u32,
        None => 0,
    };
    let source = if on_macos {
        SourceLayer::Mac
    } else {
        SourceLayer::LinuxDesktop
    };
    let info = SourceInfo {
        last_seen_at: modified,
        layer: text::owned("3"),
        path: text::owned(global_db),
    };
    merge_source(
        by_uuid,
        uuid,
        info,
        source,
        &project_slug,
        name,
        last_updated_at,
        String::new(),
    );
    proof {
        let idx1 = by_uuid@;
        assert(has_uuid(idx1, uuid@)) by {
            let o = old(by_uuid)@;
            if has_uuid(o, uuid@) {
                let k = choose|k: int| 0 <= k < o.len() && #[trigger] o[k].uuid == uuid@;
                assert(idx1[k].uuid == uuid@);
            } else {
                assert(idx1[o.len() as int].uuid == uuid@);
            }
        }
    }
    update_entry(by_uuid, uuid, bubble_count, &project_path, full_json);
}


/// The legacy `allComposers` list of Layer 3's `composer.composerData`:
/// what one of its items adds to the index.
pub open spec fn composer_item_spec(
    idx: Seq<SessionV>,
    c: JsonV,
    global_db: Seq<char>,
    modified: i64,
    source: SourceLayer,
) -> Seq<SessionV> {
    match json::get_str(c, "composerId"@) {
        None => idx,
        Some(uuid) => merge_source_spec(
            idx,
            uuid,
            SourceInfoV { last_seen_at: modified, layer: "3"@, path: global_db },
            source,
            slug_or(workspace_path_of(c), "desktop-"@ + uuid),
            json::str_or(json::get_str(c, "name"@), seq![]),
            row_last_updated(c),
            seq![],
        ),
    }
}

/// The index after the items `items`, in order.
pub open spec fn composer_items_spec(
    idx: Seq<SessionV>,
    items: Seq<JsonV>,
    global_db: Seq<char>,
    modified: i64,
    source: SourceLayer,
) -> Seq<SessionV>
    decreases items.len(),
{
    if items.len() == 0 {
        idx
    } else {
        composer_item_spec(
            composer_items_spec(idx, items.drop_last(), global_db, modified, source),
            items.last(),
            global_db,
            modified,
            source,
        )
    }
}

/// `walk_composer_data`: merges every composer of the legacy
/// `allComposers` list into the index; nothing when the list is absent.
pub fn walk_composer_data(
    v: &Json,
    by_uuid: &mut SessionIndex,
    global_db: &str,
    modified: i64,
    source: SourceLayer,
)
    requires
        old(by_uuid).wf(),
    ensures
        final(by_uuid).wf(),
        final(by_uuid)@ == match json::get_array(v@, "allComposers"@) {
            Some(items) => composer_items_spec(old(by_uuid)@, items, global_db@, modified, source),
            None => old(by_uuid)@,
        },
{
    let all = match v.get_array("allComposers") {
        Some(a) => a,
        None => return,
    };
    let ghost items = json::items_view(all@);
    proof {
        json::lemma_items_view(all@);
        assert(items.take(0) =~= Seq::<JsonV>::empty());
    }
    proof {
        reveal_strlit("desktop-");
        reveal_strlit("3");
    }
    let mut i: usize = 0;
    while i < all.len()
        invariant
            i <= all@.len() == items.len(),
            items == json::items_view(all@),
            forall|k: int| 0 <= k < all@.len() ==> #[trigger] items[k] == json_view_of(all@[k]),
            json::get_array(v@, "allComposers"@) == Some(items),
            by_uuid.wf(),
            by_uuid@ == composer_items_spec(old(by_uuid)@, items.take(i as int), global_db@, modified, source),
        decreases all.len() - i,
    {
        let c = &all[i];
        proof {
            assert(items.take(i + 1).drop_last() =~= items.take(i as int));
            assert(items.take(i + 1).last() == c@);
        }
        match c.get_str("composerId") {
            None => {},
            Some(uuid) => {
                let name = str_or_empty(c.get_str("name"));
                let workspace = extract_workspace_path(c);
                let project_slug = if !text::str_is_empty(workspace.as_str()) {
                    paths::sanitize_project_path(&workspace)
                } else {
                    text::concat2("desktop-", uuid.as_str())
                };
                let created_at = match c.get_i64("createdAt") {
                    Some(x) => x,
                    None => 0,
                };
                let json_last = match c.get_i64("lastUpdatedAt") {
                    Some(x) => x,
                    None => 0,
                };
                let last_updated_at = if json_last >= created_at {
                    json_last
                } else {
                    created_at
                };
                let info = SourceInfo {
                    last_seen_at: modified,
                    layer: text::owned("3"),
                    path: text::owned(global_db),
                };
                merge_source(
                    by_uuid,
                    uuid.as_str(),
                    info,
                    source,
                    &project_slug,
                    name,
                    last_updated_at,
                    String::new(),
                );
            },
        }
        i = i + 1;
    }
    proof {
        assert(items.take(i as int) =~= items);
    }
}

/// The model of one JSON value (for triggers over vectors of them).
pub open spec fn json_view_of(j: Json) -> JsonV {
    j@
}

// ── Layer 2 and Layer 1 ───────────────────────────────────────

/// Why a session whose Layer 2 root blob id is empty is broken.
pub open spec fn empty_root_reason() -> Seq<char> {
    "Layer 2 latestRootBlobId 是空字符串 — `cursor-agent --resume` 会失败"@
}

/// What a Layer 2 `store.db` adds to its entry beyond `merge_source`: the
/// larger blob count, the newer timestamp, the chat root where none was
/// known, and the broken mark when the root blob id is the empty string.
pub open spec fn layer2_touch(
    e: SessionV,
    blob_count: u32,
    modified: i64,
    chat_root: Seq<char>,
    latest_root: Option<Seq<char>>,
) -> SessionV {
    let marks = latest_root == Some(Seq::<char>::empty()) && !e.is_broken;
    SessionV {
        bubble_count: if blob_count > e.bubble_count {
            blob_count
        } else {
            e.bubble_count
        },
        last_updated_at: if modified > e.last_updated_at {
            modified
        } else {
            e.last_updated_at
        },
        chat_root: if e.chat_root.len() == 0 {
            chat_root
        } else {
            e.chat_root
        },
        is_broken: if marks {
            true
        } else {
            e.is_broken
        },
        broken_reason: if marks {
            Some(empty_root_reason())
        } else {
            e.broken_reason
        },
        ..e
    }
}

/// The index after one Layer 2 session (`scan_layer2_into`'s loop body).
pub open spec fn layer2_row_spec(
    idx: Seq<SessionV>,
    uuid: Seq<char>,
    chat_root: Seq<char>,
    store_db: Seq<char>,
    name: Seq<char>,
    blob_count: u32,
    latest_root: Option<Seq<char>>,
    modified: i64,
    slug: Seq<char>,
) -> Seq<SessionV> {
    let m = merge_source_spec(
        idx,
        uuid,
        SourceInfoV { last_seen_at: modified, layer: "2"@, path: store_db },
        SourceLayer::LinuxCli,
        slug,
        name,
        modified,
        seq![],
    );
    touch_entry(m, uuid, |e: SessionV| layer2_touch(e, blob_count, modified, chat_root, latest_root))
}

proof fn lemma_merged_has(
    idx: Seq<SessionV>,
    uuid: Seq<char>,
    info: SourceInfoV,
    layer: SourceLayer,
    slug: Seq<char>,
    name: Seq<char>,
    lua: i64,
    preview: Seq<char>,
)
    ensures
        has_uuid(merge_source_spec(idx, uuid, info, layer, slug, name, lua, preview), uuid),
{
    let m = merge_source_spec(idx, uuid, info, layer, slug, name, lua, preview);
    if has_uuid(idx, uuid) {
        let k = choose|k: int| 0 <= k < idx.len() && #[trigger] idx[k].uuid == uuid;
        assert(m[k].uuid == uuid);
    } else {
        assert(m[idx.len() as int].uuid == uuid);
    }
}

/// The per-session part of `scan_layer2_into`: merges the Layer 2
/// `store.db` of session `uuid` under the chat root `chat_root`, with the
/// metadata `read_store_db_meta` gave and the file's modification time
/// (`mtime`; `created_at` stands in where it is unknown).
pub fn merge_layer2_store(
    by_uuid: &mut SessionIndex,
    uuid: &str,
    chat_root: &str,
    store_db: &str,
    meta: (String, i64, u32, Option<String>),
    mtime: Option<i64>,
    project_slug: &str,
)
    requires
        old(by_uuid).wf(),
    ensures
        final(by_uuid).wf(),
        final(by_uuid)@ == layer2_row_spec(
            old(by_uuid)@,
            uuid@,
            chat_root@,
            store_db@,
            meta.0@,
            meta.2,
            str_opt(meta.3),
            match mtime {
                Some(m) => m,
                None => meta.1,
            },
            project_slug@,
        ),
{
    let (name, created_at, blob_count, latest_root) = meta;
    let modified = match mtime {
        Some(m) => m,
        None => created_at,
    };
    proof {
        reveal_strlit("2");
    }
    let info = SourceInfo { last_seen_at: modified, layer: text::owned("2"), path: text::owned(store_db) };
    let ghost nv = name@;
    merge_source(by_uuid, uuid, info, SourceLayer::LinuxCli, project_slug, name, modified, String::new());
    proof {
        lemma_merged_has(
            old(by_uuid)@,
            uuid@,
            SourceInfoV { last_seen_at: modified, layer: "2"@, path: store_db@ },
            SourceLayer::LinuxCli,
            project_slug@,
            nv,
            modified,
            seq![],
        );
    }
    let i = match by_uuid.position(uuid) {
        Some(i) => i,
        None => return,
    };
    let mut e = by_uuid.at(i).clone();
    if blob_count > e.bubble_count {
        e.bubble_count = blob_count;
    }
    if modified > e.last_updated_at {
        e.last_updated_at = modified;
    }
    if text::str_is_empty(e.chat_root.as_str()) {
        e.chat_root = text::owned(chat_root);
    }
    let empty_root = match &latest_root {
        Some(s) => text::str_is_empty(s.as_str()),
        None => false,
    };
    if empty_root && !e.is_broken {
        e.is_broken = true;
        e.broken_reason = Some(text::owned("Layer 2 latestRootBlobId 是空字符串 — `cursor-agent --resume` 会失败"));
    }
    let ghost m = by_uuid@;
    by_uuid.replace(i, e);
    proof {
        assert(distinct_uuids(m));
        if latest_root is Some {
            let s = latest_root->0;
            assert(s@.len() == 0 ==> s@ =~= Seq::<char>::empty());
            assert(empty_root == (str_opt(latest_root) == Some(Seq::<char>::empty())));
        }
        assert(by_uuid@ =~= touch_entry(
            m,
            uuid@,
            |e: SessionV| layer2_touch(e, blob_count, modified, chat_root@, str_opt(latest_root)),
        ));
    }
}

/// `read_store_db_meta`: the name, creation time and root blob id that the
/// Layer 2 `meta` row `0` holds (`meta`, `None` when the store or the row
/// could not be read), and the number of blobs (`blob_count`, `None` when
/// they could not be listed; `as u32`, truncating).
pub fn read_store_db_meta(meta: Option<&Json>, blob_count: Option<usize>) -> (r: (
    String,
    i64,
    u32,
    Option<String>,
))
    ensures
        meta is None ==> r.0@.len() == 0 && r.1 == 0 && r.3 is None,
        meta is Some ==> r.0@ == json::str_or(json::get_str(meta->0@, "name"@), seq![]) && r.1
            == or_zero(json::get_i64(meta->0@, "createdAt"@)) && str_opt(r.3) == json::get_str(
            meta->0@,
            "latestRootBlobId"@,
        ),
        r.2 == match blob_count {
            Some(n) => n as u32,
            None => 0u32,
        },
{
    let (name, created_at, root) = match meta {
        Some(v) => {
            let name = str_or_empty(v.get_str("name"));
            let created_at = match v.get_i64("createdAt") {
                Some(x) => x,
                None => 0,
            };
            (name, created_at, v.get_str("latestRootBlobId"))
        },
        None => (String::new(), 0, None),
    };
    let n: u32 = match blob_count {
        Some(c) => c as u32,
        None => 0,
    };
    (name, created_at, n, root)
}

/// The first workspace storage directory whose `workspace.json` names a
/// (non-empty) folder with MD5 `chat_root`.
pub open spec fn reversed_chat_root(chat_root: Seq<char>, dirs: Seq<(Seq<char>, Option<JsonV>)>) -> Option<
    Seq<char>,
>
    decreases dirs.len(),
{
    if dirs.len() == 0 {
        None
    } else {
        match dirs[0].1 {
            Some(v) => {
                let p = crate::compose::folder_of(v);
                if p.len() > 0 && paths::chat_root_spec(p) == chat_root {
                    Some(dirs[0].0)
                } else {
                    reversed_chat_root(chat_root, dirs.drop_first())
                }
            },
            None => reversed_chat_root(chat_root, dirs.drop_first()),
        }
    }
}

/// `reverse_chat_root_via_workspace_storage`: the workspace storage
/// directory (by name) of the project whose MD5 is `chat_root`, from the
/// directories in the order listed, each with its parsed `workspace.json`.
pub fn reverse_chat_root_via_workspace_storage(chat_root: &str, dirs: &Vec<(String, Option<Json>)>) -> (r: Option<
    String,
>)
    ensures
        match r {
            Some(id) => reversed_chat_root(chat_root@, crate::layer3::row_views(dirs@)) == Some(id@),
            None => reversed_chat_root(chat_root@, crate::layer3::row_views(dirs@)) is None,
        },
{
    let ghost dv = crate::layer3::row_views(dirs@);
    let mut i: usize = 0;
    proof {
        assert(dv.skip(0) =~= dv);
    }
    while i < dirs.len()
        invariant
            i <= dirs@.len(),
            dv == crate::layer3::row_views(dirs@),
            dv.len() == dirs@.len(),
            reversed_chat_root(chat_root@, dv) == reversed_chat_root(chat_root@, dv.skip(i as int)),
        decreases dirs.len() - i,
    {
        proof {
            assert(dv.skip(i as int)[0] == (dirs@[i as int].0@, crate::layer3::opt_view(dirs@[i as int].1)));
            assert(dv.skip(i as int).drop_first() =~= dv.skip(i + 1));
        }
        match &dirs[i].1 {
            Some(v) => {
                let p = crate::compose::workspace_folder(v);
                if !text::str_is_empty(p.as_str()) {
                    let computed = paths::chat_root_for(p.as_str());
                    if text::str_eq(computed.as_str(), chat_root) {
                        return Some(dirs[i].0.clone());
                    }
                }
            },
            None => {},
        }
        i = i + 1;
    }
    proof {
        assert(dv.skip(i as int).len() == 0);
    }
    None
}

/// `get_resume_command`: the shell command that resumes a session: the
/// CLI's for a session whose source is `linux_cli`, Cursor Desktop's for
/// any other.
pub fn get_resume_command(uuid: &str, source: &str) -> (r: String)
    ensures
        r@ == if source@ == "linux_cli"@ {
            "cursor-agent --resume "@ + uuid@
        } else {
            "open -a Cursor --args --resume "@ + uuid@
        },
{
    if text::str_eq(source, "linux_cli") {
        text::concat2("cursor-agent --resume ", uuid)
    } else {
        text::concat2("open -a Cursor --args --resume ", uuid)
    }
}

/// `derive_slug_from_chat_root`: the sanitized project path whose MD5 is
/// `chat_root` (`reversed`, as the workspace storage lookup found it), else
/// `chat-<chat_root>`.
pub fn derive_slug_from_chat_root(chat_root: &str, reversed: Option<String>) -> (r: String)
    ensures
        r@ == match reversed {
            Some(s) => s@,
            None => "chat-"@ + chat_root@,
        },
{
    match reversed {
        Some(s) => s,
        None => text::concat2("chat-", chat_root),
    }
}

/// The entry Layer 1 seeds for a session no other layer has shown yet.
pub open spec fn layer1_fresh(uuid: Seq<char>, slug: Seq<char>, modified: i64) -> SessionV {
    SessionV { is_empty_draft: true, ..fresh_entry(uuid, slug, seq![], modified, seq![]) }
}

/// What a Layer 1 transcript adds to its entry: the preview and the
/// search text where there were none, the slug where it was empty, and the
/// newer timestamp. It tags no source layer.
pub open spec fn layer1_touch(
    e: SessionV,
    slug: Seq<char>,
    modified: i64,
    preview: Seq<char>,
    indexable: Seq<char>,
) -> SessionV {
    SessionV {
        first_user_message_preview: if preview.len() > 0 && e.first_user_message_preview.len()
            == 0 {
            preview
        } else {
            e.first_user_message_preview
        },
        project_slug: if e.project_slug.len() == 0 {
            slug
        } else {
            e.project_slug
        },
        last_updated_at: if modified > e.last_updated_at {
            modified
        } else {
            e.last_updated_at
        },
        indexable_text: if e.indexable_text.len() == 0 {
            indexable
        } else {
            e.indexable_text
        },
        ..e
    }
}

/// The index after one Layer 1 transcript.
pub open spec fn layer1_spec(
    idx: Seq<SessionV>,
    uuid: Seq<char>,
    slug: Seq<char>,
    modified: i64,
    preview: Seq<char>,
    indexable: Seq<char>,
) -> Seq<SessionV> {
    let seeded = if has_uuid(idx, uuid) {
        idx
    } else {
        idx.push(layer1_fresh(uuid, slug, modified))
    };
    touch_entry(seeded, uuid, |e: SessionV| layer1_touch(e, slug, modified, preview, indexable))
}

/// The per-transcript part of `scan_layer1_into`: Layer 1 seeds or
/// completes the entry of `uuid` from its JSONL transcript (modified at
/// `modified`, with the preview and search text read from it).
pub fn merge_layer1_transcript(
    by_uuid: &mut SessionIndex,
    uuid: &str,
    project_slug: &str,
    modified: i64,
    preview: String,
    indexable: String,
)
    requires
        old(by_uuid).wf(),
    ensures
        final(by_uuid).wf(),
        final(by_uuid)@ == layer1_spec(
            old(by_uuid)@,
            uuid@,
            project_slug@,
            modified,
            preview@,
            indexable@,
        ),
{
    let i = match by_uuid.position(uuid) {
        Some(i) => i,
        None => {
            let empty = String::new();
            let mut e = fresh_session(uuid, project_slug, &empty, modified, &empty);
            e.is_empty_draft = true;
            by_uuid.insert_new(e);
            by_uuid.len() - 1
        },
    };
    let ghost seeded = by_uuid@;
    proof {
        assert(seeded == (if has_uuid(old(by_uuid)@, uuid@) {
            old(by_uuid)@
        } else {
            old(by_uuid)@.push(layer1_fresh(uuid@, project_slug@, modified))
        }));
    }
    let mut e = by_uuid.at(i).clone();
    if !text::str_is_empty(preview.as_str()) && text::str_is_empty(
        e.first_user_message_preview.as_str(),
    ) {
        e.first_user_message_preview = preview;
    }
    if text::str_is_empty(e.project_slug.as_str()) {
        e.project_slug = text::owned(project_slug);
    }
    if modified > e.last_updated_at {
        e.last_updated_at = modified;
    }
    if text::str_is_empty(e.indexable_text.as_str()) {
        e.indexable_text = indexable;
    }
    by_uuid.replace(i, e);
    proof {
        assert(distinct_uuids(seeded));
        assert(seeded[i as int].uuid == uuid@);
        assert(by_uuid@ =~= touch_entry(
            seeded,
            uuid@,
            |e: SessionV| layer1_touch(e, project_slug@, modified, preview@, indexable@),
        ));
    }
}

// ── The merged list ───────────────────────────────────────────

/// An entry with `is_empty_draft` recomputed: no bubbles and no source at
/// any layer.
pub open spec fn reconciled(e: SessionV) -> SessionV {
    SessionV {
        is_empty_draft: e.bubble_count == 0 && e.sources.mac is None && e.sources.linux_cli is None
            && e.sources.linux_desktop is None,
        ..e
    }
}

/// Newest first.
pub open spec fn newest_first(s: Seq<SessionV>) -> bool {
    forall|i: int, j: int|
        0 <= i < j < s.len() ==> #[trigger] s[i].last_updated_at >= #[trigger] s[j].last_updated_at
}

proof fn lemma_insert_keeps_order(before: Seq<SessionV>, pos: int, ev: SessionV)
    requires
        0 <= pos <= before.len(),
        newest_first(before),
        forall|k: int| 0 <= k < pos ==> #[trigger] before[k].last_updated_at >= ev.last_updated_at,
        pos < before.len() ==> before[pos].last_updated_at < ev.last_updated_at,
    ensures
        newest_first(before.insert(pos, ev)),
{
    let now = before.insert(pos, ev);
    assert forall|a: int, b: int| 0 <= a < b < now.len() implies #[trigger] now[a].last_updated_at
        >= #[trigger] now[b].last_updated_at by {
        if b < pos {
            assert(now[a] == before[a] && now[b] == before[b]);
        } else if b == pos {
            assert(now[a] == before[a]);
        } else if a < pos {
            assert(now[a] == before[a]);
            assert(now[b] == before[b - 1]);
        } else if a == pos {
            assert(now[b] == before[b - 1]);
            if pos < b - 1 {
                assert(before[pos].last_updated_at >= before[b - 1].last_updated_at);
            }
        } else {
            assert(now[a] == before[a - 1]);
            assert(now[b] == before[b - 1]);
        }
    }
}

fn insert_newest_first(out: &mut Vec<CanonicalSession>, e: CanonicalSession)
    requires
        newest_first(session_views(old(out)@)),
    ensures
        newest_first(session_views(final(out)@)),
        session_views(final(out)@).to_multiset() == session_views(old(out)@).to_multiset().insert(
            e@,
        ),
{
    let mut pos: usize = 0;
    while pos < out.len() && out[pos].last_updated_at >= e.last_updated_at
        invariant
            pos <= out@.len(),
            forall|k: int| 0 <= k < pos ==> out@[k].last_updated_at >= e.last_updated_at,
        decreases out.len() - pos,
    {
        pos = pos + 1;
    }
    let ghost before = session_views(out@);
    let ghost ev = e@;
    proof {
        assert forall|k: int| 0 <= k < pos implies #[trigger] before[k].last_updated_at
            >= ev.last_updated_at by {
            assert(before[k] == out@[k]@);
        }
        if pos < out@.len() {
            assert(before[pos as int] == out@[pos as int]@);
        }
        lemma_insert_keeps_order(before, pos as int, ev);
        vstd::seq_lib::to_multiset_insert(before, pos as int, ev);
    }
    out.insert(pos, e);
    proof {
        assert(session_views(out@) =~= before.insert(pos as int, ev));
    }
}

/// `scan_all`, once the three layers have been merged into `by_uuid`: every
/// entry with `is_empty_draft` recomputed, sorted newest first.
pub fn scan_all(by_uuid: SessionIndex) -> (r: Vec<CanonicalSession>)
    ensures
        newest_first(session_views(r@)),
        session_views(r@).to_multiset() == by_uuid@.map_values(|e: SessionV| reconciled(e)).to_multiset(),
{
    let ghost src = by_uuid@;
    let all = by_uuid.into_sessions();
    let ghost rec = src.map_values(|e: SessionV| reconciled(e));
    let mut out: Vec<CanonicalSession> = Vec::new();
    let mut i: usize = 0;
    proof {
        assert(session_views(out@) =~= Seq::<SessionV>::empty());
        assert(rec.take(0) =~= Seq::<SessionV>::empty());
    }
    while i < all.len()
        invariant
            i <= all@.len() == src.len() == rec.len(),
            session_views(all@) == src,
            rec == src.map_values(|e: SessionV| reconciled(e)),
            newest_first(session_views(out@)),
            session_views(out@).to_multiset() == rec.take(i as int).to_multiset(),
        decreases all.len() - i,
    {
        let mut e = all[i].clone();
        let has_any = e.sources.mac.is_some() || e.sources.linux_cli.is_some()
            || e.sources.linux_desktop.is_some();
        e.is_empty_draft = e.bubble_count == 0 && !has_any;
        proof {
            assert(session_views(all@)[i as int] == all@[i as int]@);
            assert(e@ == rec[i as int]);
            assert(rec.take(i + 1) =~= rec.take(i as int).push(e@));
            vstd::seq_lib::to_multiset_build(rec.take(i as int), e@);
        }
        insert_newest_first(&mut out, e);
        i = i + 1;
    }
    proof {
        assert(rec.take(i as int) =~= rec);
    }
    out
}


/// Merging one layer's report never makes a session look older: after
/// `merge_source`, the session `uuid` has as its `last_updated_at` the
/// larger of what it had and what the layer reported (the reported time
/// for a session seen for the first time), and every other session is
/// unchanged.
pub proof fn lemma_merge_source_keeps_newest(
    idx: Seq<SessionV>,
    uuid: Seq<char>,
    info: SourceInfoV,
    layer: SourceLayer,
    slug: Seq<char>,
    name: Seq<char>,
    last_updated_at: i64,
    preview: Seq<char>,
)
    ensures
        ({
            let r = merge_source_spec(idx, uuid, info, layer, slug, name, last_updated_at, preview);
            &&& has_uuid(idx, uuid) ==> r.len() == idx.len()
            &&& !has_uuid(idx, uuid) ==> r.len() == idx.len() + 1 && r[idx.len() as int].uuid == uuid
                && r[idx.len() as int].last_updated_at == last_updated_at
            &&& forall|i: int|
                #![trigger r[i]]
                0 <= i < idx.len() ==> if idx[i].uuid == uuid {
                    &&& r[i].uuid == uuid
                    &&& r[i].last_updated_at >= idx[i].last_updated_at
                    &&& r[i].last_updated_at >= last_updated_at
                    &&& (r[i].last_updated_at == idx[i].last_updated_at || r[i].last_updated_at
                        == last_updated_at)
                } else {
                    r[i] == idx[i]
                }
        }),
{
}

} // verus!
