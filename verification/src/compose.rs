//! The JSON documents a Layer 3 write stores for a session that began in
//! the CLI: its `composerData`, its sidebar header, its bubble rows, as
//! Cursor Desktop's v3 storage expects them.
use vstd::prelude::*;

use chrono::TimeZone;

use crate::bubble::{self, Bubble, BubbleImage, BubbleToolUse, BubbleV, ImageV, ToolUseV, bubble_views};
use crate::codec;
use crate::inject::{self, Mutation};
use crate::path_rewrite;
use crate::paths;
use crate::protobuf;
use crate::json_codec;
use crate::json::{self, Json, JsonNumber, JsonV, NumV, entries_get, entries_view, items_view};
use crate::text;
use crate::transcript::{self, utf8_len};

verus! {

// ── Shorthand for models ──────────────────────────────────────

pub open spec fn jobj(e: Seq<(Seq<char>, JsonV)>) -> JsonV {
    JsonV::Object(e)
}

pub open spec fn jarr(e: Seq<JsonV>) -> JsonV {
    JsonV::Array(e)
}

pub open spec fn jnum(n: u64) -> JsonV {
    JsonV::Number(NumV::PosInt(n))
}

/// An `i64` as `serde_json` holds it.
pub open spec fn jint(n: i64) -> JsonV {
    if n >= 0 {
        JsonV::Number(NumV::PosInt(n as u64))
    } else {
        JsonV::Number(NumV::NegInt(n))
    }
}

pub open spec fn jstr(s: Seq<char>) -> JsonV {
    JsonV::Str(s)
}

pub open spec fn jbool(b: bool) -> JsonV {
    JsonV::Bool(b)
}

/// The float `0.0`.
pub open spec fn jzero() -> JsonV {
    JsonV::Number(NumV::Float("0.0"@))
}

fn num(n: u64) -> (r: Json)
    ensures
        r@ == jnum(n),
{
    Json::Number(JsonNumber::PosInt(n))
}

pub(crate) fn int_json(n: i64) -> (r: Json)
    ensures
        r@ == jint(n),
{
    if n >= 0 {
        Json::Number(JsonNumber::PosInt(n as u64))
    } else {
        Json::Number(JsonNumber::NegInt(n))
    }
}

fn str_json(s: &str) -> (r: Json)
    ensures
        r@ == jstr(s@),
{
    Json::Str(text::owned(s))
}

fn zero_float() -> (r: Json)
    ensures
        r@ == jzero(),
{
    Json::Number(JsonNumber::Float(text::owned("0.0")))
}

fn empty_object() -> (r: Json)
    ensures
        r@ == jobj(seq![]),
{
    let e: Vec<(String, Json)> = Vec::new();
    proof {
        json::lemma_entries_view(e@);
        assert(entries_view(e@) =~= Seq::<(Seq<char>, JsonV)>::empty());
    }
    Json::Object(e)
}

fn empty_array() -> (r: Json)
    ensures
        r@ == jarr(seq![]),
{
    let e: Vec<Json> = Vec::new();
    proof {
        json::lemma_items_view(e@);
        assert(items_view(e@) =~= Seq::<JsonV>::empty());
    }
    Json::Array(e)
}

// ── Defaults Desktop dereferences on load ─────────────────────

/// An empty array or object.
pub open spec fn empty_v(is_array: bool) -> JsonV {
    if is_array {
        jarr(seq![])
    } else {
        jobj(seq![])
    }
}

/// The views of `(key, is_array)` pairs.
pub open spec fn pair_views(k: Seq<(&str, bool)>) -> Seq<(Seq<char>, bool)> {
    k.map_values(|p: (&str, bool)| (p.0@, p.1))
}

/// Members that hold empty arrays or objects.
pub open spec fn empties(keys: Seq<(Seq<char>, bool)>) -> Seq<(Seq<char>, JsonV)> {
    keys.map_values(|p: (Seq<char>, bool)| (p.0, empty_v(p.1)))
}

fn empties_of(keys: &[(&str, bool)]) -> (r: Vec<(String, Json)>)
    ensures
        entries_view(r@) == empties(pair_views(keys@)),
{
    let ghost kv = pair_views(keys@);
    let mut out: Vec<(String, Json)> = Vec::new();
    proof {
        json::lemma_entries_view(out@);
        assert(entries_view(out@) =~= empties(kv.take(0)));
    }
    let mut i: usize = 0;
    while i < keys.len()
        invariant
            i <= keys@.len(),
            kv == pair_views(keys@),
            entries_view(out@) == empties(kv.take(i as int)),
        decreases keys.len() - i,
    {
        let (k, is_array) = keys[i];
        let v = if is_array {
            empty_array()
        } else {
            empty_object()
        };
        json::push_member(&mut out, k, v);
        assert(empties(kv.take(i + 1)) =~= empties(kv.take(i as int)).push((k@, empty_v(is_array))));
        i = i + 1;
    }
    assert(kv.take(i as int) =~= kv);
    out
}

/// The members of `context.mentions`.
pub open spec fn mention_keys() -> Seq<(Seq<char>, bool)> {
    seq![
        ("composers"@, false),
        ("selectedCommits"@, false),
        ("selectedPullRequests"@, false),
        ("gitDiff"@, true),
        ("gitDiffFromBranchToMain"@, true),
        ("selectedImages"@, false),
        ("selectedDocuments"@, false),
        ("selectedVideos"@, false),
        ("folderSelections"@, false),
        ("fileSelections"@, false),
        ("terminalFiles"@, false),
        ("selections"@, false),
        ("terminalSelections"@, false),
        ("selectedDocs"@, false),
        ("externalLinks"@, false),
        ("diffHistory"@, true),
        ("cursorRules"@, false),
        ("cursorCommands"@, false),
        ("uiElementSelections"@, true),
        ("consoleLogs"@, true),
        ("ideEditorsState"@, true),
        ("gitPRDiffSelections"@, false),
        ("subagentSelections"@, false),
        ("browserSelections"@, false),
    ]
}

/// The array members of `context`.
pub open spec fn context_keys() -> Seq<(Seq<char>, bool)> {
    seq![
        ("composers"@, true),
        ("selectedCommits"@, true),
        ("selectedPullRequests"@, true),
        ("selectedImages"@, true),
        ("selectedDocuments"@, true),
        ("selectedVideos"@, true),
        ("folderSelections"@, true),
        ("fileSelections"@, true),
        ("selections"@, true),
        ("terminalSelections"@, true),
        ("selectedDocs"@, true),
        ("externalLinks"@, true),
        ("cursorRules"@, true),
        ("cursorCommands"@, true),
        ("gitPRDiffSelections"@, true),
        ("subagentSelections"@, true),
        ("browserSelections"@, true),
        ("extraContext"@, true),
    ]
}

/// The members of an empty composer `context`.
pub open spec fn context_entries() -> Seq<(Seq<char>, JsonV)> {
    empties(context_keys()).push(("mentions"@, jobj(empties(mention_keys()))))
}

/// `default_composer_context`: an empty composer `context`, every
/// selection list empty.
pub fn default_composer_context() -> (r: Json)
    ensures
        r@ == jobj(context_entries()),
{
    let mk: [(&str, bool); 24] = [
        ("composers", false),
        ("selectedCommits", false),
        ("selectedPullRequests", false),
        ("gitDiff", true),
        ("gitDiffFromBranchToMain", true),
        ("selectedImages", false),
        ("selectedDocuments", false),
        ("selectedVideos", false),
        ("folderSelections", false),
        ("fileSelections", false),
        ("terminalFiles", false),
        ("selections", false),
        ("terminalSelections", false),
        ("selectedDocs", false),
        ("externalLinks", false),
        ("diffHistory", true),
        ("cursorRules", false),
        ("cursorCommands", false),
        ("uiElementSelections", true),
        ("consoleLogs", true),
        ("ideEditorsState", true),
        ("gitPRDiffSelections", false),
        ("subagentSelections", false),
        ("browserSelections", false),
    ];
    assert(pair_views(mk@) =~= mention_keys());
    let mentions = Json::Object(empties_of(&mk));
    let ck: [(&str, bool); 18] = [
        ("composers", true),
        ("selectedCommits", true),
        ("selectedPullRequests", true),
        ("selectedImages", true),
        ("selectedDocuments", true),
        ("selectedVideos", true),
        ("folderSelections", true),
        ("fileSelections", true),
        ("selections", true),
        ("terminalSelections", true),
        ("selectedDocs", true),
        ("externalLinks", true),
        ("cursorRules", true),
        ("cursorCommands", true),
        ("gitPRDiffSelections", true),
        ("subagentSelections", true),
        ("browserSelections", true),
        ("extraContext", true),
    ];
    assert(pair_views(ck@) =~= context_keys());
    let mut entries = empties_of(&ck);
    json::push_member(&mut entries, "mentions", mentions);
    Json::Object(entries)
}

/// One agent capability: its type and data.
pub open spec fn capability_v(t: u64, data: JsonV) -> JsonV {
    jobj(seq![("type"@, jnum(t)), ("data"@, data)])
}

/// The capabilities of an agent composer.
pub open spec fn capabilities_v() -> JsonV {
    jarr(
        seq![
            capability_v(15, jobj(seq![("bubbleDataMap"@, jstr("{}"@))])),
            capability_v(19, jobj(seq![])),
            capability_v(33, jobj(seq![])),
            capability_v(32, jobj(seq![])),
            capability_v(23, jobj(seq![])),
            capability_v(16, jobj(seq![])),
            capability_v(24, jobj(seq![])),
        ],
    )
}

/// The agent-mode members Desktop walks with `Object.entries` on load.
pub open spec fn agent_entries() -> Seq<(Seq<char>, JsonV)> {
    seq![
        ("conversationMap"@, jobj(seq![])),
        ("codeBlockData"@, jobj(seq![])),
        ("usageData"@, jobj(seq![])),
        ("originalFileStates"@, jobj(seq![])),
        ("capabilities"@, capabilities_v()),
        ("capabilityContexts"@, jarr(seq![])),
        ("todos"@, jarr(seq![])),
        ("queueItems"@, jarr(seq![])),
        ("isAgentic"@, jbool(true)),
        ("agentBackend"@, jstr("cursor-agent"@)),
        ("isNAL"@, jbool(true)),
        ("isQueueExpanded"@, jbool(true)),
        ("promptContextUsageTree"@, jobj(seq![("schemaVersion"@, jnum(1)), ("nodes"@, jarr(seq![]))])),
        (
            "promptTokenBreakdown"@,
            jobj(
                seq![
                    ("totalUsedTokens"@, jnum(0)),
                    ("maxTokens"@, jnum(200000)),
                    ("categories"@, jarr(seq![])),
                ],
            ),
        ),
        ("subComposerIds"@, jarr(seq![])),
        ("subagentComposerIds"@, jarr(seq![])),
        ("allAttachedFileCodeChunksUris"@, jarr(seq![])),
        ("newlyCreatedFiles"@, jarr(seq![])),
        ("newlyCreatedFolders"@, jarr(seq![])),
    ]
}

fn capability(t: u64, data: Json) -> (r: Json)
    ensures
        r@ == capability_v(t, data@),
{
    let mut e: Vec<(String, Json)> = Vec::new();
    proof {
        json::lemma_entries_view(e@);
    }
    json::push_member(&mut e, "type", num(t));
    json::push_member(&mut e, "data", data);
    let r = Json::Object(e);
    assert(r@ =~= capability_v(t, data@)) by {
        assert(entries_view(e@) =~= seq![("type"@, jnum(t)), ("data"@, data@)]);
    }
    r
}

fn capabilities() -> (r: Json)
    ensures
        r@ == capabilities_v(),
{
    let mut first: Vec<(String, Json)> = Vec::new();
    proof {
        json::lemma_entries_view(first@);
    }
    json::push_member(&mut first, "bubbleDataMap", str_json("{}"));
    let mut items: Vec<Json> = Vec::new();
    proof {
        json::lemma_items_view(items@);
    }
    json::push_item(&mut items, capability(15, Json::Object(first)));
    json::push_item(&mut items, capability(19, empty_object()));
    json::push_item(&mut items, capability(33, empty_object()));
    json::push_item(&mut items, capability(32, empty_object()));
    json::push_item(&mut items, capability(23, empty_object()));
    json::push_item(&mut items, capability(16, empty_object()));
    json::push_item(&mut items, capability(24, empty_object()));
    let r = Json::Array(items);
    assert(items_view(items@) =~= capabilities_v()->Array_0);
    r
}

fn usage_tree() -> (r: Json)
    ensures
        r@ == jobj(seq![("schemaVersion"@, jnum(1)), ("nodes"@, jarr(seq![]))]),
{
    let mut tree: Vec<(String, Json)> = Vec::new();
    proof {
        json::lemma_entries_view(tree@);
    }
    json::push_member(&mut tree, "schemaVersion", num(1));
    json::push_member(&mut tree, "nodes", empty_array());
    assert(entries_view(tree@) =~= seq![("schemaVersion"@, jnum(1)), ("nodes"@, jarr(seq![]))]);
    Json::Object(tree)
}

fn token_breakdown() -> (r: Json)
    ensures
        r@ == jobj(
            seq![
                ("totalUsedTokens"@, jnum(0)),
                ("maxTokens"@, jnum(200000)),
                ("categories"@, jarr(seq![])),
            ],
        ),
{
    let mut tokens: Vec<(String, Json)> = Vec::new();
    proof {
        json::lemma_entries_view(tokens@);
    }
    json::push_member(&mut tokens, "totalUsedTokens", num(0));
    json::push_member(&mut tokens, "maxTokens", num(200000));
    json::push_member(&mut tokens, "categories", empty_array());
    assert(entries_view(tokens@) =~= seq![
        ("totalUsedTokens"@, jnum(0)),
        ("maxTokens"@, jnum(200000)),
        ("categories"@, jarr(seq![])),
    ]);
    Json::Object(tokens)
}

/// `default_agent_composer_fields`: the agent-mode members Desktop reads
/// on load, empty.
#[verifier::rlimit(40)]
pub fn default_agent_composer_fields() -> (r: Json)
    ensures
        r@ == jobj(agent_entries()),
{
    let ghost a = agent_entries();
    let mut e: Vec<(String, Json)> = Vec::new();
    proof {
        json::lemma_entries_view(e@);
        assert(entries_view(e@) =~= a.take(0));
    }
    json::push_member(&mut e, "conversationMap", empty_object());
    json::push_member(&mut e, "codeBlockData", empty_object());
    json::push_member(&mut e, "usageData", empty_object());
    json::push_member(&mut e, "originalFileStates", empty_object());
    assert(entries_view(e@) =~= a.take(4));
    json::push_member(&mut e, "capabilities", capabilities());
    json::push_member(&mut e, "capabilityContexts", empty_array());
    json::push_member(&mut e, "todos", empty_array());
    json::push_member(&mut e, "queueItems", empty_array());
    assert(entries_view(e@) =~= a.take(8));
    json::push_member(&mut e, "isAgentic", Json::Bool(true));
    json::push_member(&mut e, "agentBackend", str_json("cursor-agent"));
    json::push_member(&mut e, "isNAL", Json::Bool(true));
    json::push_member(&mut e, "isQueueExpanded", Json::Bool(true));
    assert(entries_view(e@) =~= a.take(12));
    json::push_member(&mut e, "promptContextUsageTree", usage_tree());
    json::push_member(&mut e, "promptTokenBreakdown", token_breakdown());
    json::push_member(&mut e, "subComposerIds", empty_array());
    assert(entries_view(e@) =~= a.take(15));
    json::push_member(&mut e, "subagentComposerIds", empty_array());
    json::push_member(&mut e, "allAttachedFileCodeChunksUris", empty_array());
    json::push_member(&mut e, "newlyCreatedFiles", empty_array());
    json::push_member(&mut e, "newlyCreatedFolders", empty_array());
    assert(entries_view(e@) =~= a);
    Json::Object(e)
}

/// `defaults` added to `entries` where their keys are missing
/// (`entry(k).or_insert(v)` for each default, in order).
pub open spec fn insert_missing(
    entries: Seq<(Seq<char>, JsonV)>,
    defaults: Seq<(Seq<char>, JsonV)>,
) -> Seq<(Seq<char>, JsonV)>
    decreases defaults.len(),
{
    if defaults.len() == 0 {
        entries
    } else {
        let e = insert_missing(entries, defaults.drop_last());
        let d = defaults.last();
        if entries_get(e, d.0) is Some {
            e
        } else {
            e.push(d)
        }
    }
}

/// A composer completed for Desktop's loader: its `context` (replaced by
/// the default when it is not an object) and its agent members filled in
/// where missing; anything but an object stays as it is.
pub open spec fn loadable_composer(c: JsonV) -> JsonV {
    match c {
        JsonV::Object(e) => {
            let e1 = match entries_get(e, "context"@) {
                Some(JsonV::Object(ce)) => json::set_entry(
                    e,
                    "context"@,
                    jobj(insert_missing(ce, context_entries())),
                ),
                _ => json::set_entry(e, "context"@, jobj(context_entries())),
            };
            jobj(insert_missing(e1, agent_entries()))
        },
        _ => c,
    }
}

/// Looking a key up after `insert_missing`: the entry's own member where
/// it has one, else the first default under that key.
pub proof fn lemma_insert_missing_get(
    e: Seq<(Seq<char>, JsonV)>,
    d: Seq<(Seq<char>, JsonV)>,
    k: Seq<char>,
)
    ensures
        entries_get(insert_missing(e, d), k) == match entries_get(e, k) {
            Some(v) => Some(v),
            None => entries_get(d, k),
        },
    decreases d.len(),
{
    if d.len() == 0 {
        assert(entries_get(d, k) is None);
    } else {
        let dl = d.drop_last();
        let x = d.last();
        lemma_insert_missing_get(e, dl, k);
        let e2 = insert_missing(e, dl);
        json::lemma_entries_get_push(e2, x, k);
        assert(d =~= dl.push(x));
        json::lemma_entries_get_push(dl, x, k);
    }
}

proof fn lemma_get_own_key(d: Seq<(Seq<char>, JsonV)>, i: int)
    requires
        0 <= i < d.len(),
    ensures
        entries_get(d, d[i].0) is Some,
{
    json::lemma_key_index(d, d[i].0);
}

/// Every default key is there after `insert_missing`.
proof fn lemma_insert_missing_has(e: Seq<(Seq<char>, JsonV)>, d: Seq<(Seq<char>, JsonV)>, i: int)
    requires
        0 <= i < d.len(),
    ensures
        entries_get(insert_missing(e, d), d[i].0) is Some,
{
    lemma_insert_missing_get(e, d, d[i].0);
    lemma_get_own_key(d, i);
}

/// `insert_missing` adds nothing where every default key is there.
proof fn lemma_insert_missing_noop(e: Seq<(Seq<char>, JsonV)>, d: Seq<(Seq<char>, JsonV)>)
    requires
        forall|i: int| 0 <= i < d.len() ==> entries_get(e, (#[trigger] d[i]).0) is Some,
    ensures
        insert_missing(e, d) == e,
    decreases d.len(),
{
    if d.len() > 0 {
        let dl = d.drop_last();
        assert forall|i: int| 0 <= i < dl.len() implies entries_get(e, (#[trigger] dl[i]).0) is Some by {
            assert(dl[i] == d[i]);
        }
        lemma_insert_missing_noop(e, dl);
        assert(entries_get(e, d[d.len() - 1].0) is Some);
    }
}

/// The context members a loadable composer ends up with.
pub open spec fn loadable_context(e: Seq<(Seq<char>, JsonV)>) -> Seq<(Seq<char>, JsonV)> {
    match entries_get(e, "context"@) {
        Some(JsonV::Object(ce)) => insert_missing(ce, context_entries()),
        _ => context_entries(),
    }
}

proof fn lemma_loadable_shape(e: Seq<(Seq<char>, JsonV)>)
    ensures
        loadable_composer(jobj(e)) == jobj(
            insert_missing(json::set_entry(e, "context"@, jobj(loadable_context(e))), agent_entries()),
        ),
        forall|i: int|
            0 <= i < context_entries().len() ==> entries_get(
                loadable_context(e),
                (#[trigger] context_entries()[i]).0,
            ) is Some,
        entries_get(
            insert_missing(json::set_entry(e, "context"@, jobj(loadable_context(e))), agent_entries()),
            "context"@,
        ) == Some(jobj(loadable_context(e))),
{
    assert forall|i: int| 0 <= i < context_entries().len() implies entries_get(
        loadable_context(e),
        (#[trigger] context_entries()[i]).0,
    ) is Some by {
        match entries_get(e, "context"@) {
            Some(JsonV::Object(ce)) => lemma_insert_missing_has(ce, context_entries(), i),
            _ => lemma_get_own_key(context_entries(), i),
        }
    }
    let e1 = json::set_entry(e, "context"@, jobj(loadable_context(e)));
    json::lemma_set_entry_get(e, "context"@, jobj(loadable_context(e)), "context"@);
    lemma_insert_missing_get(e1, agent_entries(), "context"@);
}

/// Completing a composer twice is completing it once:
/// `ensure_desktop_loadable_composer` on its own output changes nothing.
pub proof fn lemma_loadable_composer_idempotent(c: JsonV)
    ensures
        loadable_composer(loadable_composer(c)) == loadable_composer(c),
{
    match c {
        JsonV::Object(e) => {
            lemma_loadable_shape(e);
            let x = loadable_context(e);
            let r = insert_missing(json::set_entry(e, "context"@, jobj(x)), agent_entries());
            lemma_loadable_shape(r);
            assert(loadable_context(r) == insert_missing(x, context_entries()));
            lemma_insert_missing_noop(x, context_entries());
            json::lemma_set_entry_same(r, "context"@, jobj(x));
            assert forall|i: int| 0 <= i < agent_entries().len() implies entries_get(
                r,
                (#[trigger] agent_entries()[i]).0,
            ) is Some by {
                lemma_insert_missing_has(json::set_entry(e, "context"@, jobj(x)), agent_entries(), i);
            }
            lemma_insert_missing_noop(r, agent_entries());
        },
        _ => {},
    }
}

/// What `ensure_desktop_loadable_composer` leaves in a composer object:
/// a `context` object holding every default context member, every agent
/// member, and, under every other key, the member it already had.
pub proof fn lemma_loadable_composer_fills(c: JsonV, k: Seq<char>)
    requires
        c is Object,
    ensures
        json::get(loadable_composer(c), "context"@) matches Some(JsonV::Object(ctx)) && forall|i: int|
            0 <= i < context_entries().len() ==> entries_get(ctx, (#[trigger] context_entries()[i]).0) is Some,
        forall|i: int|
            0 <= i < agent_entries().len() ==> json::get(loadable_composer(c), (#[trigger] agent_entries()[i]).0) is Some,
        k != "context"@ && json::get(c, k) is Some ==> json::get(loadable_composer(c), k) == json::get(c, k),
{
    let e = c->Object_0;
    lemma_loadable_shape(e);
    let e1 = json::set_entry(e, "context"@, jobj(loadable_context(e)));
    assert forall|i: int| 0 <= i < agent_entries().len() implies json::get(
        loadable_composer(c),
        (#[trigger] agent_entries()[i]).0,
    ) is Some by {
        lemma_insert_missing_has(e1, agent_entries(), i);
    }
    json::lemma_set_entry_get(e, "context"@, jobj(loadable_context(e)), k);
    lemma_insert_missing_get(e1, agent_entries(), k);
}

fn insert_missing_entries(entries: &mut Vec<(String, Json)>, defaults: &Vec<(String, Json)>)
    ensures
        entries_view(final(entries)@) == insert_missing(
            entries_view(old(entries)@),
            entries_view(defaults@),
        ),
{
    let ghost start = entries_view(entries@);
    let ghost dv = entries_view(defaults@);
    proof {
        json::lemma_entries_view(defaults@);
        assert(dv.take(0) =~= Seq::<(Seq<char>, JsonV)>::empty());
    }
    let mut i: usize = 0;
    while i < defaults.len()
        invariant
            i <= defaults@.len(),
            dv == entries_view(defaults@),
            dv.len() == defaults@.len(),
            forall|k: int| 0 <= k < defaults@.len() ==> #[trigger] dv[k] == (defaults@[k].0@, json::json_view(defaults@[k].1)),
            start == entries_view(old(entries)@),
            entries_view(entries@) == insert_missing(start, dv.take(i as int)),
        decreases defaults.len() - i,
    {
        proof {
            assert(dv.take(i + 1).drop_last() =~= dv.take(i as int));
            assert(dv.take(i + 1).last() == dv[i as int]);
        }
        if !json::has_member(entries, defaults[i].0.as_str()) {
            let v = defaults[i].1.clone();
            json::push_member(entries, defaults[i].0.as_str(), v);
        }
        i = i + 1;
    }
    proof {
        assert(dv.take(i as int) =~= dv);
    }
}

fn make_loadable(c: Json) -> (r: Json)
    ensures
        r@ == loadable_composer(c@),
{
    match c {
        Json::Object(entries) => {
            let mut entries = entries;
            let ghost e0 = entries_view(entries@);
            assert(c@ == jobj(e0));
            let ctx = match json::find_key(&entries, "context") {
                Some(i) => {
                    proof {
                        json::lemma_entries_view(entries@);
                        json::lemma_key_index(e0, "context"@);
                        assert(e0[i as int] == (entries@[i as int].0@, entries@[i as int].1@));
                        assert(entries_get(e0, "context"@) == Some(entries@[i as int].1@));
                    }
                    let x = entries[i].1.clone();
                    assert(entries_get(e0, "context"@) == Some(x@));
                    Some(x)
                },
                None => {
                    proof {
                        json::lemma_key_index(e0, "context"@);
                    }
                    None
                },
            };
            assert(match ctx {
                Some(x) => entries_get(e0, "context"@) == Some(x@),
                None => entries_get(e0, "context"@) is None,
            });
            let defaults = default_composer_context();
            let ghost e1 = match entries_get(e0, "context"@) {
                Some(JsonV::Object(ce)) => json::set_entry(
                    e0,
                    "context"@,
                    jobj(insert_missing(ce, context_entries())),
                ),
                _ => json::set_entry(e0, "context"@, jobj(context_entries())),
            };
            match ctx {
                Some(Json::Object(ce)) => {
                    let mut ce = ce;
                    match defaults {
                        Json::Object(d) => {
                            assert(entries_view(d@) == context_entries());
                            insert_missing_entries(&mut ce, &d);
                        },
                        _ => {
                            assert(false);
                        },
                    }
                    json::set_member(&mut entries, "context", Json::Object(ce));
                },
                _ => {
                    json::set_member(&mut entries, "context", defaults);
                },
            }
            assert(entries_view(entries@) == e1);
            let agent = default_agent_composer_fields();
            match agent {
                Json::Object(a) => {
                    assert(entries_view(a@) == agent_entries());
                    insert_missing_entries(&mut entries, &a);
                },
                _ => {
                    assert(false);
                },
            }
            Json::Object(entries)
        },
        other => other,
    }
}

/// `ensure_desktop_loadable_composer`: completes a composer for Desktop's
/// loader.
pub fn ensure_desktop_loadable_composer(composer: &mut Json)
    ensures
        final(composer)@ == loadable_composer(old(composer)@),
{
    let mut c = Json::Null;
    std::mem::swap(&mut c, composer);
    *composer = make_loadable(c);
}

/// Whether `context.fileSelections` is an array (Desktop dereferences it
/// unconditionally).
pub open spec fn context_valid(v: JsonV) -> bool {
    match json::get(v, "context"@) {
        Some(c) => match json::get(c, "fileSelections"@) {
            Some(x) => x is Array,
            None => false,
        },
        None => false,
    }
}

/// Whether member `key` is an object.
pub open spec fn member_is_object(v: JsonV, key: Seq<char>) -> bool {
    match json::get(v, key) {
        Some(x) => x is Object,
        None => false,
    }
}

/// Whether the agent members Desktop walks on load are there.
pub open spec fn agent_fields_valid(v: JsonV) -> bool {
    &&& member_is_object(v, "conversationMap"@)
    &&& member_is_object(v, "codeBlockData"@)
    &&& member_is_object(v, "usageData"@)
    &&& member_is_object(v, "originalFileStates"@)
    &&& match json::get(v, "capabilities"@) {
        Some(x) => x is Array,
        None => false,
    }
    &&& json::get_str(v, "agentBackend"@) is Some
}

/// Whether a header carries a non-empty `createdAt` string.
pub open spec fn header_has_time(h: JsonV) -> bool {
    match json::get_str(h, "createdAt"@) {
        Some(s) => s.len() > 0,
        None => false,
    }
}

/// Whether Desktop can open a composer: a conversation state longer than
/// two bytes, a positive `lastUpdatedAt`, headers that are empty or carry a
/// display time, a valid context and the agent members.
pub open spec fn desktop_loadable(v: JsonV) -> bool {
    let cs_ok = match json::get_str(v, "conversationState"@) {
        Some(s) => utf8_len(s) > 2,
        None => false,
    };
    let headers_ok = match json::get_array(v, "fullConversationHeadersOnly"@) {
        Some(hs) => hs.len() == 0 || exists|k: int| 0 <= k < hs.len() && header_has_time(#[trigger] hs[k]),
        None => true,
    };
    cs_ok && json::i64_or(json::get_i64(v, "lastUpdatedAt"@), 0) > 0 && headers_ok && context_valid(v)
        && agent_fields_valid(v)
}

fn is_object_member(v: &Json, key: &str) -> (r: bool)
    ensures
        r == member_is_object(v@, key@),
{
    match v.get(key) {
        Some(Json::Object(_)) => true,
        _ => false,
    }
}

/// `composer_is_desktop_loadable`.
pub fn composer_is_desktop_loadable(v: &Json) -> (r: bool)
    ensures
        r == desktop_loadable(v@),
{
    let cs_ok = match v.get_str("conversationState") {
        Some(s) => transcript::utf8_longer_than(s.as_str(), 2),
        None => false,
    };
    let last_updated = match v.get_i64("lastUpdatedAt") {
        Some(t) => t,
        None => 0,
    };
    let headers_ok = match v.get_array("fullConversationHeadersOnly") {
        Some(hs) => {
            proof {
                json::lemma_items_view(hs@);
            }
            if hs.len() == 0 {
                true
            } else {
                let ghost hv = json::items_view(hs@);
                let mut found = false;
                let mut k: usize = 0;
                while k < hs.len()
                    invariant
                        k <= hs@.len(),
                        hv == json::items_view(hs@),
                        hv.len() == hs@.len(),
                        forall|j: int| 0 <= j < hs@.len() ==> #[trigger] hv[j] == hs@[j]@,
                        found == exists|j: int| 0 <= j < k && header_has_time(#[trigger] hv[j]),
                    decreases hs.len() - k,
                {
                    let with_time = match hs[k].get_str("createdAt") {
                        Some(s) => !text::str_is_empty(s.as_str()),
                        None => false,
                    };
                    proof {
                        assert(hv[k as int] == hs@[k as int]@);
                        if with_time {
                            assert(header_has_time(hv[k as int]));
                        }
                        if !with_time && !found {
                            assert forall|j: int| 0 <= j < k + 1 implies !header_has_time(#[trigger] hv[j]) by {
                                if j < k {
                                } else {
                                    assert(hv[j] == hs@[k as int]@);
                                }
                            }
                        }
                    }
                    found = found || with_time;
                    k = k + 1;
                }
                found
            }
        },
        None => true,
    };
    cs_ok && last_updated > 0 && headers_ok && composer_context_is_valid(v) && composer_agent_fields_valid(v)
}

fn composer_context_is_valid(v: &Json) -> (r: bool)
    ensures
        r == context_valid(v@),
{
    match v.get("context") {
        Some(c) => match c.get("fileSelections") {
            Some(Json::Array(_)) => true,
            _ => false,
        },
        None => false,
    }
}

fn composer_agent_fields_valid(v: &Json) -> (r: bool)
    ensures
        r == agent_fields_valid(v@),
{
    let caps_ok = match v.get("capabilities") {
        Some(Json::Array(_)) => true,
        _ => false,
    };
    is_object_member(v, "conversationMap") && is_object_member(v, "codeBlockData")
        && is_object_member(v, "usageData") && is_object_member(v, "originalFileStates") && caps_ok
        && v.get_str("agentBackend").is_some()
}

// ── Times ─────────────────────────────────────────────────────

/// The RFC 3339 text (UTC, milliseconds, `Z` suffix) that chrono writes for
/// epoch milliseconds `ms`; empty where chrono holds no single time for
/// them.
pub uninterp spec fn rfc3339_millis(ms: i64) -> Seq<char>;

/// `Utc.timestamp_millis_opt(ms).single()` written by
/// `to_rfc3339_opts(SecondsFormat::Millis, true)`, empty when there is no
/// single time: a function of `ms` alone.
#[verifier::external_body]
fn chrono_rfc3339_millis(ms: i64) -> (r: String)
    ensures
        r@ == rfc3339_millis(ms),
{
    chrono::Utc.timestamp_millis_opt(ms).single().map(
        |dt| dt.to_rfc3339_opts(chrono::SecondsFormat::Millis, true),
    ).unwrap_or_default()
}

/// A display time as Desktop stores it: empty for no time.
pub open spec fn iso_of(ms: i64) -> Seq<char> {
    if ms <= 0 {
        seq![]
    } else {
        rfc3339_millis(ms)
    }
}

/// `ms_to_iso`.
pub fn ms_to_iso(ms: i64) -> (r: String)
    ensures
        r@ == iso_of(ms),
{
    if ms <= 0 {
        return String::new();
    }
    chrono_rfc3339_millis(ms)
}

// ── Bubble headers and rows ───────────────────────────────────

/// A bubble's id in Layer 3: its own, or the stable id of its role and
/// position.
pub open spec fn layer3_id(uuid: Seq<char>, b: BubbleV, idx: nat) -> Seq<char> {
    if b.id.len() > 0 {
        b.id
    } else {
        inject::bubble_id_spec(uuid, b.role, 0, idx as u64)
    }
}

/// A bubble's display time: its own, else the session's base plus its
/// position, else none.
pub open spec fn display_time(base: i64, idx: nat, b: BubbleV) -> i64 {
    if b.created_at_ms > 0 {
        b.created_at_ms
    } else if base > 0 {
        (base + idx) as i64
    } else {
        0
    }
}

/// Whether the display times of `n` bubbles fit in an `i64`.
pub open spec fn times_fit(base: i64, n: nat) -> bool {
    base > 0 ==> base + n <= i64::MAX
}

/// The Desktop type of a bubble: 1 for the user, 2 otherwise.
pub open spec fn bubble_type(b: BubbleV) -> u64 {
    if b.role == "user"@ {
        1
    } else {
        2
    }
}

/// The `grouping` of a header: render hints for user bubbles.
pub open spec fn grouping_v(b: BubbleV) -> JsonV {
    if b.role == "user"@ {
        jobj(
            seq![
                ("isRenderable"@, jbool(true)),
                ("hasText"@, jbool(true)),
                ("isShortPlainText"@, jbool(utf8_len(b.text) < 200)),
            ],
        )
    } else {
        jobj(seq![])
    }
}

/// The `fullConversationHeadersOnly` entry of bubble `idx`.
pub open spec fn header_v(uuid: Seq<char>, b: BubbleV, idx: nat, base: i64) -> JsonV {
    jobj(
        seq![
            ("bubbleId"@, jstr(layer3_id(uuid, b, idx))),
            ("type"@, jnum(bubble_type(b))),
            ("createdAt"@, jstr(iso_of(display_time(base, idx, b)))),
            ("grouping"@, grouping_v(b)),
        ],
    )
}

/// The headers of all bubbles, in order.
pub open spec fn headers_v(uuid: Seq<char>, bs: Seq<BubbleV>, base: i64) -> Seq<JsonV> {
    Seq::new(bs.len(), |k: int| header_v(uuid, bs[k], k as nat, base))
}

fn is_user(role: &str) -> (r: bool)
    ensures
        r == (role@ == "user"@),
{
    text::str_eq(role, "user")
}

fn grouping(b: &Bubble) -> (r: Json)
    ensures
        r@ == grouping_v(b@),
{
    if is_user(b.role.as_str()) {
        let mut e: Vec<(String, Json)> = Vec::new();
        proof {
            json::lemma_entries_view(e@);
        }
        json::push_member(&mut e, "isRenderable", Json::Bool(true));
        json::push_member(&mut e, "hasText", Json::Bool(true));
        let long = transcript::utf8_longer_than(b.text.as_str(), 199);
        json::push_member(&mut e, "isShortPlainText", Json::Bool(!long));
        assert(entries_view(e@) =~= grouping_v(b@)->Object_0);
        Json::Object(e)
    } else {
        empty_object()
    }
}

fn header_entry_json(uuid: &str, b: &Bubble, idx: usize, base: i64) -> (r: Json)
    requires
        times_fit(base, idx as nat),
    ensures
        r@ == header_v(uuid@, b@, idx as nat, base),
{
    let id = inject::bubble_id_for_layer3(uuid, b, idx);
    let ms = inject::bubble_display_timestamp(base, idx, b.created_at_ms);
    let typ: u64 = if is_user(b.role.as_str()) {
        1
    } else {
        2
    };
    let mut e: Vec<(String, Json)> = Vec::new();
    proof {
        json::lemma_entries_view(e@);
    }
    json::push_member(&mut e, "bubbleId", Json::Str(id));
    json::push_member(&mut e, "type", num(typ));
    json::push_member(&mut e, "createdAt", Json::Str(ms_to_iso(ms)));
    json::push_member(&mut e, "grouping", grouping(b));
    assert(entries_view(e@) =~= header_v(uuid@, b@, idx as nat, base)->Object_0);
    Json::Object(e)
}

fn headers_json(uuid: &str, bubbles: &Vec<Bubble>, base: i64) -> (r: Vec<Json>)
    requires
        times_fit(base, bubbles@.len()),
    ensures
        items_view(r@) == headers_v(uuid@, bubble_views(bubbles@), base),
{
    let ghost bv = bubble_views(bubbles@);
    let mut out: Vec<Json> = Vec::new();
    proof {
        json::lemma_items_view(out@);
        assert(items_view(out@) =~= headers_v(uuid@, bv.take(0), base));
    }
    let mut i: usize = 0;
    while i < bubbles.len()
        invariant
            i <= bubbles@.len(),
            bv == bubble_views(bubbles@),
            times_fit(base, bubbles@.len()),
            items_view(out@) == headers_v(uuid@, bv.take(i as int), base),
        decreases bubbles.len() - i,
    {
        let h = header_entry_json(uuid, &bubbles[i], i, base);
        json::push_item(&mut out, h);
        assert(headers_v(uuid@, bv.take(i + 1), base) =~= headers_v(uuid@, bv.take(i as int), base).push(
            header_v(uuid@, bubbles@[i as int]@, i as nat, base),
        ));
        i = i + 1;
    }
    assert(bv.take(i as int) =~= bv);
    out
}

// ── composerData ──────────────────────────────────────────────

/// The model configuration of a synthesized composer.
pub open spec fn model_config_v() -> JsonV {
    jobj(
        seq![
            ("modelName"@, jstr("default"@)),
            ("maxMode"@, jbool(false)),
            (
                "selectedModels"@,
                jarr(seq![jobj(seq![("modelId"@, jstr("default"@)), ("parameters"@, jarr(seq![]))])]),
            ),
        ],
    )
}

/// The value of an optional member: `null` when absent.
pub open spec fn or_null(o: Option<JsonV>) -> JsonV {
    match o {
        Some(v) => v,
        None => JsonV::Null,
    }
}

/// The fixed leading members of a synthesized `composerData`.
#[verifier::opaque]
pub open spec fn composer_head(uuid: Seq<char>, name: Seq<char>, last: i64) -> Seq<(Seq<char>, JsonV)> {
    seq![
        ("_v"@, jnum(16)),
        ("composerId"@, jstr(uuid)),
        ("richText"@, jstr(seq![])),
        ("hasLoaded"@, jbool(true)),
        ("text"@, jstr(seq![])),
        ("name"@, jstr(name)),
        ("context"@, jobj(context_entries())),
        ("contextUsagePercent"@, jzero()),
        ("lastUpdatedAt"@, jint(last)),
        ("unifiedMode"@, jstr("agent"@)),
        ("forceMode"@, jstr("edit"@)),
        ("hasUnreadMessages"@, jbool(false)),
        ("filesChangedCount"@, jnum(0)),
        ("totalLinesAdded"@, jnum(0)),
        ("totalLinesRemoved"@, jnum(0)),
        ("isArchived"@, jbool(false)),
        ("isDraft"@, jbool(false)),
        ("isWorktree"@, jbool(false)),
        ("worktreeStartedReadOnly"@, jbool(false)),
        ("isSpec"@, jbool(false)),
        ("isProject"@, jbool(false)),
        ("isBestOfNSubcomposer"@, jbool(false)),
        ("numSubComposers"@, jnum(0)),
        ("referencedPlans"@, jarr(seq![])),
    ]
}

/// The members of a synthesized `composerData`, before its times and the
/// loader's defaults.
pub open spec fn composer_entries(
    uuid: Seq<char>,
    name: Seq<char>,
    last: i64,
    wid: Option<JsonV>,
    repos: Seq<JsonV>,
    headers: Seq<JsonV>,
) -> Seq<(Seq<char>, JsonV)> {
    composer_head(uuid, name, last) + seq![
        ("trackedGitRepos"@, jarr(repos)),
        ("workspaceIdentifier"@, or_null(wid)),
        ("fullConversationHeadersOnly"@, jarr(headers)),
        ("status"@, jstr("completed"@)),
        ("generatingBubbleIds"@, jarr(seq![])),
        ("isContinuationInProgress"@, jbool(false)),
        ("modelConfig"@, model_config_v()),
    ]
}

fn composer_head_entries(uuid: &str, name: &str, last_updated_ms: i64) -> (r: Vec<(String, Json)>)
    ensures
        entries_view(r@) == composer_head(uuid@, name@, last_updated_ms),
{
    reveal(composer_head);
    let ghost a = composer_head(uuid@, name@, last_updated_ms);
    let mut e: Vec<(String, Json)> = Vec::new();
    proof {
        json::lemma_entries_view(e@);
        assert(entries_view(e@) =~= a.take(0));
    }
    json::push_member(&mut e, "_v", num(16));
    json::push_member(&mut e, "composerId", str_json(uuid));
    json::push_member(&mut e, "richText", Json::Str(String::new()));
    json::push_member(&mut e, "hasLoaded", Json::Bool(true));
    json::push_member(&mut e, "text", Json::Str(String::new()));
    json::push_member(&mut e, "name", str_json(name));
    assert(entries_view(e@) =~= a.take(6));
    json::push_member(&mut e, "context", default_composer_context());
    json::push_member(&mut e, "contextUsagePercent", zero_float());
    json::push_member(&mut e, "lastUpdatedAt", int_json(last_updated_ms));
    json::push_member(&mut e, "unifiedMode", str_json("agent"));
    json::push_member(&mut e, "forceMode", str_json("edit"));
    json::push_member(&mut e, "hasUnreadMessages", Json::Bool(false));
    assert(entries_view(e@) =~= a.take(12));
    json::push_member(&mut e, "filesChangedCount", num(0));
    json::push_member(&mut e, "totalLinesAdded", num(0));
    json::push_member(&mut e, "totalLinesRemoved", num(0));
    json::push_member(&mut e, "isArchived", Json::Bool(false));
    json::push_member(&mut e, "isDraft", Json::Bool(false));
    json::push_member(&mut e, "isWorktree", Json::Bool(false));
    assert(entries_view(e@) =~= a.take(18));
    json::push_member(&mut e, "worktreeStartedReadOnly", Json::Bool(false));
    json::push_member(&mut e, "isSpec", Json::Bool(false));
    json::push_member(&mut e, "isProject", Json::Bool(false));
    json::push_member(&mut e, "isBestOfNSubcomposer", Json::Bool(false));
    json::push_member(&mut e, "numSubComposers", num(0));
    json::push_member(&mut e, "referencedPlans", empty_array());
    assert(entries_view(e@) =~= a);
    e
}

/// The `composerData` of a synthesized session: the members above with
/// one header per bubble, `createdAt` and the checkpoint time when the
/// session has a creation time, completed for Desktop's loader.
pub open spec fn composer_data_v(
    uuid: Seq<char>,
    name: Seq<char>,
    created: i64,
    last: i64,
    wid: Option<JsonV>,
    repos: Seq<JsonV>,
    bs: Seq<BubbleV>,
    session_created: i64,
) -> JsonV {
    let base = if session_created > 0 {
        session_created
    } else {
        created
    };
    let e = composer_entries(uuid, name, last, wid, repos, headers_v(uuid, bs, base));
    let e2 = if created > 0 {
        json::set_entry(
            json::set_entry(e, "createdAt"@, jint(created)),
            "conversationCheckpointLastUpdatedAt"@,
            jint(
                if last >= created {
                    last
                } else {
                    created
                },
            ),
        )
    } else {
        e
    };
    loadable_composer(jobj(e2))
}

fn model_config() -> (r: Json)
    ensures
        r@ == model_config_v(),
{
    let mut m: Vec<(String, Json)> = Vec::new();
    proof {
        json::lemma_entries_view(m@);
    }
    json::push_member(&mut m, "modelId", str_json("default"));
    json::push_member(&mut m, "parameters", empty_array());
    let mut models: Vec<Json> = Vec::new();
    proof {
        json::lemma_items_view(models@);
    }
    assert(entries_view(m@) =~= seq![("modelId"@, jstr("default"@)), ("parameters"@, jarr(seq![]))]);
    json::push_item(&mut models, Json::Object(m));
    assert(items_view(models@) =~= seq![jobj(seq![("modelId"@, jstr("default"@)), ("parameters"@, jarr(seq![]))])]);
    let mut e: Vec<(String, Json)> = Vec::new();
    proof {
        json::lemma_entries_view(e@);
    }
    json::push_member(&mut e, "modelName", str_json("default"));
    json::push_member(&mut e, "maxMode", Json::Bool(false));
    json::push_member(&mut e, "selectedModels", Json::Array(models));
    assert(entries_view(e@) =~= model_config_v()->Object_0);
    Json::Object(e)
}

fn clone_items(v: &Vec<Json>) -> (r: Vec<Json>)
    ensures
        items_view(r@) == items_view(v@),
{
    let mut out: Vec<Json> = Vec::new();
    proof {
        json::lemma_items_view(out@);
        json::lemma_items_view(v@);
        assert(items_view(out@) =~= items_view(v@).take(0));
    }
    let mut i: usize = 0;
    while i < v.len()
        invariant
            i <= v@.len(),
            items_view(v@).len() == v@.len(),
            forall|k: int| 0 <= k < v@.len() ==> #[trigger] items_view(v@)[k] == v@[k]@,
            items_view(out@) == items_view(v@).take(i as int),
        decreases v.len() - i,
    {
        json::push_item(&mut out, v[i].clone());
        assert(items_view(v@).take(i + 1) =~= items_view(v@).take(i as int).push(v@[i as int]@));
        i = i + 1;
    }
    assert(items_view(v@).take(i as int) =~= items_view(v@));
    out
}

fn or_null_json(o: &Option<Json>) -> (r: Json)
    ensures
        r@ == or_null(match o {
            Some(v) => Some(v@),
            None => None,
        }),
{
    match o {
        Some(v) => v.clone(),
        None => Json::Null,
    }
}

/// `compose_composer_data`: the `composerData` row of a session
/// synthesized from its bubbles.
#[verifier::rlimit(60)]
pub fn compose_composer_data(
    uuid: &str,
    name: &str,
    created_at_ms: i64,
    last_updated_ms: i64,
    workspace_identifier: &Option<Json>,
    project_slug: &str,
    tracked_git_repos: &Vec<Json>,
    bubbles: &Vec<Bubble>,
    session_created_ms: i64,
) -> (r: Json)
    requires
        times_fit(
            if session_created_ms > 0 {
                session_created_ms
            } else {
                created_at_ms
            },
            bubbles@.len(),
        ),
    ensures
        r@ == composer_data_v(
            uuid@,
            name@,
            created_at_ms,
            last_updated_ms,
            match workspace_identifier {
                Some(v) => Some(v@),
                None => None,
            },
            items_view(tracked_git_repos@),
            bubble_views(bubbles@),
            session_created_ms,
        ),
{
    let base = if session_created_ms > 0 {
        session_created_ms
    } else {
        created_at_ms
    };
    let headers = headers_json(uuid, bubbles, base);
    let ghost wid = match workspace_identifier {
        Some(v) => Some(v@),
        None => None,
    };
    let ghost a = composer_entries(
        uuid@,
        name@,
        last_updated_ms,
        wid,
        items_view(tracked_git_repos@),
        headers_v(uuid@, bubble_views(bubbles@), base),
    );
    let mut e = composer_head_entries(uuid, name, last_updated_ms);
    let ghost head = entries_view(e@);
    json::push_member(&mut e, "trackedGitRepos", Json::Array(clone_items(tracked_git_repos)));
    json::push_member(&mut e, "workspaceIdentifier", or_null_json(workspace_identifier));
    json::push_member(&mut e, "fullConversationHeadersOnly", Json::Array(headers));
    json::push_member(&mut e, "status", str_json("completed"));
    json::push_member(&mut e, "generatingBubbleIds", empty_array());
    json::push_member(&mut e, "isContinuationInProgress", Json::Bool(false));
    json::push_member(&mut e, "modelConfig", model_config());
    assert(entries_view(e@) =~= a);
    let ghost e2 = if created_at_ms > 0 {
        json::set_entry(
            json::set_entry(a, "createdAt"@, jint(created_at_ms)),
            "conversationCheckpointLastUpdatedAt"@,
            jint(
                if last_updated_ms >= created_at_ms {
                    last_updated_ms
                } else {
                    created_at_ms
                },
            ),
        )
    } else {
        a
    };
    if created_at_ms > 0 {
        json::set_member(&mut e, "createdAt", int_json(created_at_ms));
        let checkpoint = if last_updated_ms >= created_at_ms {
            last_updated_ms
        } else {
            created_at_ms
        };
        json::set_member(&mut e, "conversationCheckpointLastUpdatedAt", int_json(checkpoint));
    }
    assert(entries_view(e@) == e2);
    let mut root = Json::Object(e);
    ensure_desktop_loadable_composer(&mut root);
    assert(root@ == loadable_composer(jobj(e2)));
    root
}

// ── Sidebar header ────────────────────────────────────────────

/// The `allComposers` entry of a synthesized session.
#[verifier::opaque]
pub open spec fn header_entry_v(
    uuid: Seq<char>,
    name: Seq<char>,
    subtitle: Seq<char>,
    created: i64,
    last: i64,
    wid: Option<JsonV>,
    repos: Seq<JsonV>,
) -> JsonV {
    jobj(
        seq![
            ("type"@, jstr("head"@)),
            ("composerId"@, jstr(uuid)),
            ("name"@, jstr(name)),
            ("lastUpdatedAt"@, jint(last)),
            ("conversationCheckpointLastUpdatedAt"@, jint(last)),
            ("createdAt"@, jint(created)),
            ("unifiedMode"@, jstr("agent"@)),
            ("forceMode"@, jstr("edit"@)),
            ("hasUnreadMessages"@, jbool(false)),
            ("contextUsagePercent"@, jzero()),
            ("totalLinesAdded"@, jnum(0)),
            ("totalLinesRemoved"@, jnum(0)),
            ("filesChangedCount"@, jnum(0)),
            ("subtitle"@, jstr(subtitle)),
            ("hasBlockingPendingActions"@, jbool(false)),
            ("hasPendingPlan"@, jbool(false)),
            ("isArchived"@, jbool(false)),
            ("isDraft"@, jbool(false)),
            ("isWorktree"@, jbool(false)),
            ("worktreeStartedReadOnly"@, jbool(false)),
            ("isSpec"@, jbool(false)),
            ("isProject"@, jbool(false)),
            ("isBestOfNSubcomposer"@, jbool(false)),
            ("numSubComposers"@, jnum(0)),
            ("referencedPlans"@, jarr(seq![])),
            ("trackedGitRepos"@, jarr(repos)),
            ("workspaceIdentifier"@, or_null(wid)),
        ],
    )
}

/// `compose_composer_header_entry`: the sidebar entry of a synthesized
/// session, its checkpoint time its last update.
#[verifier::rlimit(100)]
pub fn compose_composer_header_entry(
    uuid: &str,
    name: &str,
    subtitle: &str,
    created_at_ms: i64,
    last_updated_ms: i64,
    workspace_identifier: &Option<Json>,
    tracked_git_repos: &Vec<Json>,
) -> (r: Json)
    ensures
        r@ == header_entry_v(
            uuid@,
            name@,
            subtitle@,
            created_at_ms,
            last_updated_ms,
            match workspace_identifier {
                Some(v) => Some(v@),
                None => None,
            },
            items_view(tracked_git_repos@),
        ),
{
    reveal(header_entry_v);
    let ghost a = header_entry_v(
        uuid@,
        name@,
        subtitle@,
        created_at_ms,
        last_updated_ms,
        match workspace_identifier {
            Some(v) => Some(v@),
            None => None,
        },
        items_view(tracked_git_repos@),
    )->Object_0;
    let mut e: Vec<(String, Json)> = Vec::new();
    proof {
        json::lemma_entries_view(e@);
        assert(entries_view(e@) =~= a.take(0));
    }
    json::push_member(&mut e, "type", str_json("head"));
    json::push_member(&mut e, "composerId", str_json(uuid));
    json::push_member(&mut e, "name", str_json(name));
    json::push_member(&mut e, "lastUpdatedAt", int_json(last_updated_ms));
    json::push_member(&mut e, "conversationCheckpointLastUpdatedAt", int_json(last_updated_ms));
    json::push_member(&mut e, "createdAt", int_json(created_at_ms));
    assert(entries_view(e@) =~= a.take(6));
    json::push_member(&mut e, "unifiedMode", str_json("agent"));
    json::push_member(&mut e, "forceMode", str_json("edit"));
    json::push_member(&mut e, "hasUnreadMessages", Json::Bool(false));
    json::push_member(&mut e, "contextUsagePercent", zero_float());
    json::push_member(&mut e, "totalLinesAdded", num(0));
    json::push_member(&mut e, "totalLinesRemoved", num(0));
    assert(entries_view(e@) =~= a.take(12));
    json::push_member(&mut e, "filesChangedCount", num(0));
    json::push_member(&mut e, "subtitle", str_json(subtitle));
    json::push_member(&mut e, "hasBlockingPendingActions", Json::Bool(false));
    json::push_member(&mut e, "hasPendingPlan", Json::Bool(false));
    json::push_member(&mut e, "isArchived", Json::Bool(false));
    json::push_member(&mut e, "isDraft", Json::Bool(false));
    assert(entries_view(e@) =~= a.take(18));
    json::push_member(&mut e, "isWorktree", Json::Bool(false));
    json::push_member(&mut e, "worktreeStartedReadOnly", Json::Bool(false));
    json::push_member(&mut e, "isSpec", Json::Bool(false));
    json::push_member(&mut e, "isProject", Json::Bool(false));
    json::push_member(&mut e, "isBestOfNSubcomposer", Json::Bool(false));
    json::push_member(&mut e, "numSubComposers", num(0));
    assert(entries_view(e@) =~= a.take(24));
    json::push_member(&mut e, "referencedPlans", empty_array());
    json::push_member(&mut e, "trackedGitRepos", Json::Array(clone_items(tracked_git_repos)));
    json::push_member(&mut e, "workspaceIdentifier", or_null_json(workspace_identifier));
    assert(entries_view(e@) =~= a);
    Json::Object(e)
}

// ── Bubble rows ───────────────────────────────────────────────

/// An image as a user bubble row carries it: a data URL, no dimension.
pub open spec fn image_json_v(i: ImageV) -> JsonV {
    jobj(
        seq![
            ("url"@, jstr("data:"@ + i.mime_type + ";base64,"@ + i.data_base64)),
            ("dimension"@, jobj(seq![("width"@, jnum(0)), ("height"@, jnum(0))])),
        ],
    )
}

/// The render hint for a bubble's first tool call: its name, its input as
/// compact JSON (`{}` without one), completed.
pub open spec fn tool_former_v(tools: Seq<ToolUseV>) -> Option<JsonV> {
    if tools.len() == 0 {
        None
    } else {
        Some(
            jobj(
                seq![
                    ("name"@, jstr(tools[0].name)),
                    (
                        "params"@,
                        jstr(
                            match tools[0].input {
                                Some(v) => json_codec::compact_json(v),
                                None => "{}"@,
                            },
                        ),
                    ),
                    ("status"@, jstr("completed"@)),
                ],
            ),
        )
    }
}

/// The Lexical rich text of a user message: one paragraph holding the text.
pub open spec fn rich_text_v(text: Seq<char>) -> Seq<char> {
    "{\"root\":{\"children\":[{\"children\":[{\"detail\":0,\"format\":0,\"mode\":\"normal\",\"style\":\"\",\"text\":"@
        + json_codec::compact_json(jstr(text))
        + ",\"type\":\"text\",\"version\":1}],\"direction\":\"ltr\",\"format\":\"\",\"indent\":0,\"type\":\"paragraph\",\"version\":1}],\"direction\":\"ltr\",\"format\":\"\",\"indent\":0,\"type\":\"root\",\"version\":1}}"@
}

/// The empty lists every bubble row carries.
pub open spec fn row_list_keys() -> Seq<(Seq<char>, bool)> {
    seq![
        ("approximateLintErrors"@, true),
        ("lints"@, true),
        ("codebaseContextChunks"@, true),
        ("commits"@, true),
        ("pullRequests"@, true),
        ("attachedCodeChunks"@, true),
        ("assistantSuggestedDiffs"@, true),
        ("gitDiffs"@, true),
        ("interpreterResults"@, true),
        ("toolResults"@, true),
    ]
}

/// The row of bubble `idx`: a user row (cleaned text, rich text, images)
/// or an assistant row (text, agentic, the first tool call's hint).
pub open spec fn blob_body_v(uuid: Seq<char>, b: BubbleV, idx: nat, base: i64) -> JsonV {
    let id = layer3_id(uuid, b, idx);
    let iso = iso_of(display_time(base, idx, b));
    if b.role == "user"@ {
        let t = crate::transcript::unwrap_tags(b.text);
        let shown = text::trim(t);
        jobj(
            seq![
                ("_v"@, jnum(3)),
                ("type"@, jnum(1)),
                ("bubbleId"@, jstr(id)),
                ("text"@, jstr(shown)),
                ("richText"@, jstr(rich_text_v(shown))),
                ("createdAt"@, jstr(iso)),
                ("images"@, jarr(b.images.map_values(|i: ImageV| image_json_v(i)))),
            ] + empties(row_list_keys()),
        )
    } else {
        let e = seq![
            ("_v"@, jnum(3)),
            ("type"@, jnum(2)),
            ("bubbleId"@, jstr(id)),
            ("text"@, jstr(b.text)),
            ("isAgentic"@, jbool(true)),
            ("createdAt"@, jstr(iso)),
        ] + empties(row_list_keys());
        match tool_former_v(b.tool_calls) {
            Some(t) => jobj(json::set_entry(e, "toolFormerData"@, t)),
            None => jobj(e),
        }
    }
}

/// The rows of all bubbles: each id with its row.
pub open spec fn bubble_blobs_v(uuid: Seq<char>, bs: Seq<BubbleV>, base: i64) -> Seq<(Seq<char>, JsonV)> {
    Seq::new(
        bs.len(),
        |k: int| (layer3_id(uuid, bs[k], k as nat), blob_body_v(uuid, bs[k], k as nat, base)),
    )
}

fn push_all(e: &mut Vec<(String, Json)>, more: Vec<(String, Json)>)
    ensures
        entries_view(final(e)@) == entries_view(old(e)@) + entries_view(more@),
{
    let ghost start = entries_view(e@);
    let ghost mv = entries_view(more@);
    proof {
        json::lemma_entries_view(more@);
        assert(start + mv.take(0) =~= start);
    }
    let mut more = more;
    let mut rev: Vec<(String, Json)> = Vec::new();
    while more.len() > 0
        invariant
            entries_view(more@) + entries_view(rev@).reverse() == mv,
        decreases more@.len(),
    {
        let ghost before_more = more@;
        let ghost before_rev = rev@;
        let last = more.pop().unwrap();
        proof {
            json::lemma_entries_view(before_more);
            json::lemma_entries_view(more@);
            json::lemma_entries_view(before_rev);
        }
        let ghost lv = (last.0@, last.1@);
        rev.push(last);
        proof {
            json::lemma_entries_view(rev@);
            assert(entries_view(before_more) =~= entries_view(more@).push(lv));
            assert(entries_view(rev@) =~= entries_view(before_rev).push(lv));
            assert(entries_view(rev@).reverse() =~= seq![lv] + entries_view(before_rev).reverse());
        }
    }
    proof {
        json::lemma_entries_view(more@);
        assert(entries_view(more@) =~= Seq::<(Seq<char>, JsonV)>::empty());
        assert(entries_view(rev@).reverse() =~= mv);
    }
    while rev.len() > 0
        invariant
            entries_view(e@) + entries_view(rev@).reverse() == start + mv,
        decreases rev@.len(),
    {
        let ghost before_rev = rev@;
        let ghost before_e = e@;
        let x = rev.pop().unwrap();
        proof {
            json::lemma_entries_view(before_rev);
            json::lemma_entries_view(rev@);
        }
        let ghost xv = (x.0@, x.1@);
        e.push(x);
        proof {
            json::lemma_entries_view(before_e);
            json::lemma_entries_view(e@);
            assert(entries_view(before_rev) =~= entries_view(rev@).push(xv));
            assert(entries_view(e@) =~= entries_view(before_e).push(xv));
            assert(entries_view(before_rev).reverse() =~= seq![xv] + entries_view(rev@).reverse());
        }
    }
    proof {
        json::lemma_entries_view(rev@);
        assert(entries_view(rev@) =~= Seq::<(Seq<char>, JsonV)>::empty());
        assert(entries_view(e@) + Seq::<(Seq<char>, JsonV)>::empty().reverse() =~= entries_view(e@));
    }
}

fn row_lists() -> (r: Vec<(String, Json)>)
    ensures
        entries_view(r@) == empties(row_list_keys()),
{
    let keys: [(&str, bool); 10] = [
        ("approximateLintErrors", true),
        ("lints", true),
        ("codebaseContextChunks", true),
        ("commits", true),
        ("pullRequests", true),
        ("attachedCodeChunks", true),
        ("assistantSuggestedDiffs", true),
        ("gitDiffs", true),
        ("interpreterResults", true),
        ("toolResults", true),
    ];
    assert(pair_views(keys@) =~= row_list_keys());
    empties_of(&keys)
}

fn image_json(i: &BubbleImage) -> (r: Json)
    ensures
        r@ == image_json_v(i@),
{
    let a = text::concat3("data:", i.mime_type.as_str(), ";base64,");
    let url = text::concat2(a.as_str(), i.data_base64.as_str());
    let mut dim: Vec<(String, Json)> = Vec::new();
    proof {
        json::lemma_entries_view(dim@);
    }
    json::push_member(&mut dim, "width", num(0));
    json::push_member(&mut dim, "height", num(0));
    assert(entries_view(dim@) =~= seq![("width"@, jnum(0)), ("height"@, jnum(0))]);
    let mut e: Vec<(String, Json)> = Vec::new();
    proof {
        json::lemma_entries_view(e@);
    }
    json::push_member(&mut e, "url", Json::Str(url));
    json::push_member(&mut e, "dimension", Json::Object(dim));
    assert(entries_view(e@) =~= image_json_v(i@)->Object_0);
    Json::Object(e)
}

/// `bubble_images_json`: the images as a user bubble row carries them.
fn bubble_images_json(images: &Vec<BubbleImage>) -> (r: Vec<Json>)
    ensures
        items_view(r@) == bubble::image_views(images@).map_values(|i: ImageV| image_json_v(i)),
{
    let ghost iv = bubble::image_views(images@).map_values(|i: ImageV| image_json_v(i));
    let mut out: Vec<Json> = Vec::new();
    proof {
        json::lemma_items_view(out@);
        assert(items_view(out@) =~= iv.take(0));
    }
    let mut k: usize = 0;
    while k < images.len()
        invariant
            k <= images@.len(),
            iv == bubble::image_views(images@).map_values(|i: ImageV| image_json_v(i)),
            items_view(out@) == iv.take(k as int),
        decreases images.len() - k,
    {
        json::push_item(&mut out, image_json(&images[k]));
        assert(iv.take(k + 1) =~= iv.take(k as int).push(image_json_v(images@[k as int]@)));
        k = k + 1;
    }
    assert(iv.take(k as int) =~= iv);
    out
}

/// `first_tool_former_data`: the render hint for the first tool call.
fn first_tool_former_data(tool_calls: &Vec<BubbleToolUse>) -> (r: Option<Json>)
    ensures
        match r {
            Some(j) => tool_former_v(bubble::tool_views(tool_calls@)) == Some(j@),
            None => tool_former_v(bubble::tool_views(tool_calls@)) is None,
        },
{
    if tool_calls.len() == 0 {
        return None;
    }
    let tc = &tool_calls[0];
    let params = match &tc.input {
        Some(v) => json_codec::to_compact(v),
        None => text::owned("{}"),
    };
    let mut e: Vec<(String, Json)> = Vec::new();
    proof {
        json::lemma_entries_view(e@);
    }
    json::push_member(&mut e, "name", Json::Str(tc.name.clone()));
    json::push_member(&mut e, "params", Json::Str(params));
    json::push_member(&mut e, "status", str_json("completed"));
    assert(entries_view(e@) =~= tool_former_v(bubble::tool_views(tool_calls@))->0->Object_0);
    Some(Json::Object(e))
}

/// `minimal_rich_text`: a Lexical document of one paragraph holding `text`.
pub fn minimal_rich_text(text: &str) -> (r: String)
    ensures
        r@ == rich_text_v(text@),
{
    let escaped = json_codec::to_compact(&str_json(text));
    let head = "{\"root\":{\"children\":[{\"children\":[{\"detail\":0,\"format\":0,\"mode\":\"normal\",\"style\":\"\",\"text\":";
    let tail = ",\"type\":\"text\",\"version\":1}],\"direction\":\"ltr\",\"format\":\"\",\"indent\":0,\"type\":\"paragraph\",\"version\":1}],\"direction\":\"ltr\",\"format\":\"\",\"indent\":0,\"type\":\"root\",\"version\":1}}";
    text::concat3(head, escaped.as_str(), tail)
}

fn blob_body(uuid: &str, b: &Bubble, idx: usize, base: i64, id: &String) -> (r: Json)
    requires
        times_fit(base, idx as nat),
        id@ == layer3_id(uuid@, b@, idx as nat),
    ensures
        r@ == blob_body_v(uuid@, b@, idx as nat, base),
{
    let ms = inject::bubble_display_timestamp(base, idx, b.created_at_ms);
    let iso = ms_to_iso(ms);
    let mut e: Vec<(String, Json)> = Vec::new();
    proof {
        json::lemma_entries_view(e@);
    }
    if is_user(b.role.as_str()) {
        let shown = transcript::clean_user_text(b.text.as_str());
        let rich = minimal_rich_text(shown.as_str());
        json::push_member(&mut e, "_v", num(3));
        json::push_member(&mut e, "type", num(1));
        json::push_member(&mut e, "bubbleId", Json::Str(id.clone()));
        json::push_member(&mut e, "text", Json::Str(shown));
        json::push_member(&mut e, "richText", Json::Str(rich));
        json::push_member(&mut e, "createdAt", Json::Str(iso));
        json::push_member(&mut e, "images", Json::Array(bubble_images_json(&b.images)));
        push_all(&mut e, row_lists());
        assert(entries_view(e@) =~= blob_body_v(uuid@, b@, idx as nat, base)->Object_0);
        Json::Object(e)
    } else {
        json::push_member(&mut e, "_v", num(3));
        json::push_member(&mut e, "type", num(2));
        json::push_member(&mut e, "bubbleId", Json::Str(id.clone()));
        json::push_member(&mut e, "text", Json::Str(b.text.clone()));
        json::push_member(&mut e, "isAgentic", Json::Bool(true));
        json::push_member(&mut e, "createdAt", Json::Str(iso));
        push_all(&mut e, row_lists());
        let ghost base_entries = entries_view(e@);
        assert(base_entries =~= seq![
            ("_v"@, jnum(3)),
            ("type"@, jnum(2)),
            ("bubbleId"@, jstr(id@)),
            ("text"@, jstr(b@.text)),
            ("isAgentic"@, jbool(true)),
            ("createdAt"@, jstr(iso_of(display_time(base, idx as nat, b@)))),
        ] + empties(row_list_keys()));
        match first_tool_former_data(&b.tool_calls) {
            Some(t) => json::set_member(&mut e, "toolFormerData", t),
            None => {},
        }
        Json::Object(e)
    }
}

/// `compose_bubble_blobs`: each bubble's Layer 3 id with its row.
pub fn compose_bubble_blobs(uuid: &str, bubbles: &Vec<Bubble>, session_created_ms: i64) -> (r: Vec<
    (String, Json),
>)
    requires
        times_fit(session_created_ms, bubbles@.len()),
    ensures
        entries_view(r@) == bubble_blobs_v(uuid@, bubble_views(bubbles@), session_created_ms),
{
    let ghost bv = bubble_views(bubbles@);
    let mut out: Vec<(String, Json)> = Vec::new();
    proof {
        json::lemma_entries_view(out@);
        assert(entries_view(out@) =~= bubble_blobs_v(uuid@, bv.take(0), session_created_ms));
    }
    let mut i: usize = 0;
    while i < bubbles.len()
        invariant
            i <= bubbles@.len(),
            bv == bubble_views(bubbles@),
            times_fit(session_created_ms, bubbles@.len()),
            entries_view(out@) == bubble_blobs_v(uuid@, bv.take(i as int), session_created_ms),
        decreases bubbles.len() - i,
    {
        let b = &bubbles[i];
        let id = inject::bubble_id_for_layer3(uuid, b, i);
        let body = blob_body(uuid, b, i, session_created_ms, &id);
        json::push_member(&mut out, id.as_str(), body);
        assert(bubble_blobs_v(uuid@, bv.take(i + 1), session_created_ms) =~= bubble_blobs_v(
            uuid@,
            bv.take(i as int),
            session_created_ms,
        ).push(
            (
                layer3_id(uuid@, b@, i as nat),
                blob_body_v(uuid@, b@, i as nat, session_created_ms),
            ),
        ));
        i = i + 1;
    }
    assert(bv.take(i as int) =~= bv);
    out
}

// ── The sidebar list ──────────────────────────────────────────

/// Whether a sidebar entry is not the session's.
pub open spec fn other_session(uuid: Seq<char>) -> spec_fn(JsonV) -> bool {
    |e: JsonV| json::get_str(e, "composerId"@) != Some(uuid)
}

/// The sidebar list to start from: the stored one when it parses, else an
/// empty `allComposers`.
pub open spec fn headers_root(existing: Option<Seq<char>>) -> JsonV {
    let default = jobj(seq![("allComposers"@, jarr(seq![]))]);
    match existing {
        Some(s) => match json_codec::parsed_json(s) {
            Some(v) => v,
            None => default,
        },
        None => default,
    }
}

/// The sidebar list with the session's entries replaced by `entry` at the
/// end; `None` when it holds no `allComposers` array.
pub open spec fn merged_headers_v(uuid: Seq<char>, entry: JsonV, existing: Option<Seq<char>>) -> Option<JsonV> {
    match headers_root(existing) {
        JsonV::Object(e) => match entries_get(e, "allComposers"@) {
            Some(JsonV::Array(all)) => Some(
                jobj(json::set_entry(e, "allComposers"@, jarr(all.filter(other_session(uuid)).push(entry)))),
            ),
            _ => None,
        },
        _ => None,
    }
}

/// After a merge the sidebar lists the session once, last, as the new
/// entry: every other entry belongs to another session. Where there is no
/// stored list, or it does not parse, the new entry is the whole list.
pub proof fn lemma_merged_headers_single_entry(uuid: Seq<char>, entry: JsonV, existing: Option<Seq<char>>)
    requires
        json::get_str(entry, "composerId"@) == Some(uuid),
    ensures
        match merged_headers_v(uuid, entry, existing) {
            Some(JsonV::Object(e)) => match entries_get(e, "allComposers"@) {
                Some(JsonV::Array(l)) => l.len() > 0 && l.last() == entry && forall|i: int|
                    0 <= i < l.len() - 1 ==> json::get_str(#[trigger] l[i], "composerId"@) != Some(uuid),
                _ => false,
            },
            Some(_) => false,
            None => true,
        },
        (existing is None || json_codec::parsed_json(existing->0) is None) ==> merged_headers_v(
            uuid,
            entry,
            existing,
        ) == Some(jobj(seq![("allComposers"@, jarr(seq![entry]))])),
{
    match headers_root(existing) {
        JsonV::Object(e) => match entries_get(e, "allComposers"@) {
            Some(JsonV::Array(all)) => {
                let kept = all.filter(other_session(uuid));
                let l = kept.push(entry);
                json::lemma_set_entry_get(e, "allComposers"@, jarr(l), "allComposers"@);
                assert forall|i: int| 0 <= i < l.len() - 1 implies json::get_str(
                    #[trigger] l[i],
                    "composerId"@,
                ) != Some(uuid) by {
                    assert(l[i] == kept[i]);
                    all.lemma_filter_pred(other_session(uuid), i);
                }
            },
            _ => {},
        },
        _ => {},
    }
    if existing is None || json_codec::parsed_json(existing->0) is None {
        let e0 = seq![("allComposers"@, jarr(seq![]))];
        assert(seq![].filter(other_session(uuid)) =~= Seq::<JsonV>::empty()) by {
            Seq::<JsonV>::empty().lemma_filter_len(other_session(uuid));
        }
        assert(json::key_index(e0, "allComposers"@) == Some(0int));
        assert(json::set_entry(e0, "allComposers"@, jarr(seq![entry])) =~= seq![("allComposers"@, jarr(seq![entry]))]);
    }
}

fn default_headers_root() -> (r: Json)
    ensures
        r@ == jobj(seq![("allComposers"@, jarr(seq![]))]),
{
    let mut e: Vec<(String, Json)> = Vec::new();
    proof {
        json::lemma_entries_view(e@);
    }
    json::push_member(&mut e, "allComposers", empty_array());
    assert(entries_view(e@) =~= seq![("allComposers"@, jarr(seq![]))]);
    Json::Object(e)
}

/// `merge_composer_headers`, from the stored `composer.composerHeaders`
/// text (when there is one): the sidebar list with the session's entry
/// replaced by `new_entry`, appended last.
pub fn merge_composer_headers(uuid: &str, new_entry: &Json, existing: Option<&str>) -> (r: Result<Json, String>)
    ensures
        match r {
            Ok(v) => merged_headers_v(
                uuid@,
                new_entry@,
                match existing {
                    Some(s) => Some(s@),
                    None => None,
                },
            ) == Some(v@),
            Err(m) => merged_headers_v(
                uuid@,
                new_entry@,
                match existing {
                    Some(s) => Some(s@),
                    None => None,
                },
            ) is None && m@ == "allComposers missing or not array"@,
        },
{
    let root = match existing {
        Some(s) => match json_codec::parse_json(s) {
            Some(v) => v,
            None => default_headers_root(),
        },
        None => default_headers_root(),
    };
    let mut entries = match root {
        Json::Object(e) => e,
        _ => return Err(text::owned("allComposers missing or not array")),
    };
    let ghost e0 = entries_view(entries@);
    let idx = match json::find_key(&entries, "allComposers") {
        Some(i) => i,
        None => {
            proof {
                json::lemma_key_index(e0, "allComposers"@);
            }
            return Err(text::owned("allComposers missing or not array"));
        },
    };
    proof {
        json::lemma_entries_view(entries@);
        json::lemma_key_index(e0, "allComposers"@);
        assert(entries_get(e0, "allComposers"@) == Some(entries@[idx as int].1@));
    }
    let all = match &entries[idx].1 {
        Json::Array(a) => a,
        _ => return Err(text::owned("allComposers missing or not array")),
    };
    let ghost av = items_view(all@);
    let mut kept: Vec<Json> = Vec::new();
    proof {
        json::lemma_items_view(all@);
        json::lemma_items_view(kept@);
        assert(items_view(kept@) =~= av.take(0).filter(other_session(uuid@)));
    }
    let mut k: usize = 0;
    while k < all.len()
        invariant
            k <= all@.len(),
            av == items_view(all@),
            av.len() == all@.len(),
            forall|j: int| 0 <= j < all@.len() ==> #[trigger] av[j] == all@[j]@,
            items_view(kept@) == av.take(k as int).filter(other_session(uuid@)),
        decreases all.len() - k,
    {
        proof {
            text::lemma_filter_take_step(av, other_session(uuid@), k as int);
        }
        let same = match all[k].get_str("composerId") {
            Some(c) => text::str_eq(c.as_str(), uuid),
            None => false,
        };
        if !same {
            json::push_item(&mut kept, all[k].clone());
        }
        k = k + 1;
    }
    proof {
        assert(av.take(k as int) =~= av);
    }
    json::push_item(&mut kept, new_entry.clone());
    json::set_member(&mut entries, "allComposers", Json::Array(kept));
    Ok(Json::Object(entries))
}

/// An entry archived when it is the session's: archived, its name and
/// subtitle cleared.
pub open spec fn archived_entry(e: JsonV, uuid: Seq<char>) -> JsonV {
    if json::get_str(e, "composerId"@) == Some(uuid) {
        match e {
            JsonV::Object(m) => jobj(
                json::set_entry(
                    json::set_entry(json::set_entry(m, "isArchived"@, jbool(true)), "name"@, jstr(seq![])),
                    "subtitle"@,
                    jstr(seq![]),
                ),
            ),
            _ => e,
        }
    } else {
        e
    }
}

/// Archiving the session's entry, as a function.
pub open spec fn archiving(uuid: Seq<char>) -> spec_fn(JsonV) -> JsonV {
    |x: JsonV| archived_entry(x, uuid)
}

/// Whether some entry is the session's.
pub open spec fn lists_session(all: Seq<JsonV>, uuid: Seq<char>) -> bool {
    exists|k: int| 0 <= k < all.len() && json::get_str(#[trigger] all[k], "composerId"@) == Some(uuid)
}

/// The sidebar list with the session archived, and whether it was listed.
pub open spec fn archive_v(root: JsonV, uuid: Seq<char>) -> (JsonV, bool) {
    match root {
        JsonV::Object(e) => match json::key_index(e, "allComposers"@) {
            Some(i) => match e[i].1 {
                JsonV::Array(all) => (
                    jobj(e.update(i, ("allComposers"@, jarr(all.map_values(archiving(uuid)))))),
                    lists_session(all, uuid),
                ),
                _ => (root, false),
            },
            None => (root, false),
        },
        _ => (root, false),
    }
}

fn archive_one(e: Json, uuid: &str) -> (r: (Json, bool))
    ensures
        r.0@ == archived_entry(e@, uuid@),
        r.1 == (json::get_str(e@, "composerId"@) == Some(uuid@)),
{
    let same = match e.get_str("composerId") {
        Some(c) => text::str_eq(c.as_str(), uuid),
        None => false,
    };
    if !same {
        return (e, false);
    }
    match e {
        Json::Object(m) => {
            let mut m = m;
            json::set_member(&mut m, "isArchived", Json::Bool(true));
            json::set_member(&mut m, "name", Json::Str(String::new()));
            json::set_member(&mut m, "subtitle", Json::Str(String::new()));
            (Json::Object(m), true)
        },
        other => (other, true),
    }
}

fn archive_owned(root: Json, uuid: &str) -> (r: (Json, bool))
    ensures
        (r.0@, r.1) == archive_v(root@, uuid@),
{
    match root {
        Json::Object(entries) => {
            let mut entries = entries;
            let ghost e0 = entries_view(entries@);
            let i = match json::find_key(&entries, "allComposers") {
                Some(i) => i,
                None => return (Json::Object(entries), false),
            };
            proof {
                json::lemma_entries_view(entries@);
                json::lemma_key_index(e0, "allComposers"@);
                assert(e0[i as int] == (entries@[i as int].0@, entries@[i as int].1@));
            }
            let ghost f = archiving(uuid@);
            let mut out: Vec<Json> = Vec::new();
            let mut found = false;
            match &entries[i].1 {
                Json::Array(all) => {
                    let ghost av = items_view(all@);
                    proof {
                        json::lemma_items_view(all@);
                        json::lemma_items_view(out@);
                        assert(items_view(out@) =~= av.take(0).map_values(f));
                    }
                    let mut k: usize = 0;
                    while k < all.len()
                        invariant
                            k <= all@.len(),
                            av == items_view(all@),
                            av.len() == all@.len(),
                            f == archiving(uuid@),
                            forall|j: int| 0 <= j < all@.len() ==> #[trigger] av[j] == all@[j]@,
                            items_view(out@) == av.take(k as int).map_values(f),
                            found == exists|j: int|
                                0 <= j < k && json::get_str(#[trigger] av[j], "composerId"@) == Some(uuid@),
                        decreases all.len() - k,
                    {
                        let (x, hit) = archive_one(all[k].clone(), uuid);
                        json::push_item(&mut out, x);
                        proof {
                            assert(av.take(k + 1).map_values(f) =~= av.take(k as int).map_values(f).push(
                                archived_entry(av[k as int], uuid@),
                            ));
                            if hit {
                                assert(json::get_str(av[k as int], "composerId"@) == Some(uuid@));
                            }
                            if !hit && !found {
                                assert forall|j: int| 0 <= j < k + 1 implies json::get_str(
                                    #[trigger] av[j],
                                    "composerId"@,
                                ) != Some(uuid@) by {}
                            }
                        }
                        found = found || hit;
                        k = k + 1;
                    }
                    proof {
                        assert(av.take(k as int) =~= av);
                    }
                },
                _ => return (Json::Object(entries), false),
            }
            let ghost ov = items_view(out@);
            entries.set(i, (text::owned("allComposers"), Json::Array(out)));
            proof {
                json::lemma_entries_view(entries@);
                assert(entries_view(entries@) =~= e0.update(i as int, ("allComposers"@, jarr(ov))));
            }
            (Json::Object(entries), found)
        },
        other => (other, false),
    }
}

/// `archive_composer_sidebar_entry`: archives the session's sidebar
/// entries (archived, name and subtitle cleared); whether one was listed.
pub fn archive_composer_sidebar_entry(root: &mut Json, uuid: &str) -> (r: bool)
    ensures
        (final(root)@, r) == archive_v(old(root)@, uuid@),
{
    let mut c = Json::Null;
    std::mem::swap(&mut c, root);
    let (v, found) = archive_owned(c, uuid);
    *root = v;
    found
}

// ── The workspace a session belongs to ────────────────────────

/// The `workspaceIdentifier` of a project: its workspace storage id (the
/// MD5 of its path when Cursor never opened it) and its `file` URI; none
/// for a blank path.
pub open spec fn workspace_identifier_v(cwd: Seq<char>, storage_id: Option<Seq<char>>) -> Option<JsonV> {
    if text::trim(cwd).len() == 0 {
        None
    } else {
        let id = match storage_id {
            Some(s) => s,
            None => paths::chat_root_spec(cwd),
        };
        Some(
            jobj(
                seq![
                    ("id"@, jstr(id)),
                    (
                        "uri"@,
                        jobj(
                            seq![
                                ("$mid"@, jnum(1)),
                                ("fsPath"@, jstr(cwd)),
                                ("external"@, jstr("file://"@ + cwd)),
                                ("path"@, jstr(cwd)),
                                ("scheme"@, jstr("file"@)),
                            ],
                        ),
                    ),
                ],
            ),
        )
    }
}

/// `build_workspace_identifier`, given the workspace storage id found for
/// the project (if any).
pub fn build_workspace_identifier(cwd: &str, storage_id: Option<&str>) -> (r: Option<Json>)
    ensures
        match r {
            Some(v) => workspace_identifier_v(
                cwd@,
                match storage_id {
                    Some(s) => Some(s@),
                    None => None,
                },
            ) == Some(v@),
            None => workspace_identifier_v(
                cwd@,
                match storage_id {
                    Some(s) => Some(s@),
                    None => None,
                },
            ) is None,
        },
{
    if text::str_is_blank(cwd) {
        return None;
    }
    let id = match storage_id {
        Some(s) => text::owned(s),
        None => paths::chat_root_for(cwd),
    };
    let mut uri: Vec<(String, Json)> = Vec::new();
    proof {
        json::lemma_entries_view(uri@);
    }
    json::push_member(&mut uri, "$mid", num(1));
    json::push_member(&mut uri, "fsPath", str_json(cwd));
    json::push_member(&mut uri, "external", Json::Str(text::concat2("file://", cwd)));
    json::push_member(&mut uri, "path", str_json(cwd));
    json::push_member(&mut uri, "scheme", str_json("file"));
    assert(entries_view(uri@) =~= seq![
        ("$mid"@, jnum(1)),
        ("fsPath"@, jstr(cwd@)),
        ("external"@, jstr("file://"@ + cwd@)),
        ("path"@, jstr(cwd@)),
        ("scheme"@, jstr("file"@)),
    ]);
    let ghost idv = id@;
    let ghost uv = entries_view(uri@);
    let mut e: Vec<(String, Json)> = Vec::new();
    proof {
        json::lemma_entries_view(e@);
    }
    json::push_member(&mut e, "id", Json::Str(id));
    json::push_member(&mut e, "uri", Json::Object(uri));
    assert(entries_view(e@) =~= seq![("id"@, jstr(idv)), ("uri"@, jobj(uv))]);
    let r = Json::Object(e);
    Some(r)
}

/// The folder a `workspace.json` names, without its `file://` scheme and
/// trailing slashes.
pub open spec fn folder_of(v: JsonV) -> Seq<char> {
    let folder = json::str_or(json::get_str(v, "folder"@), seq![]);
    let stripped = if text::starts_with(folder, "file://"@) {
        folder.skip(7)
    } else {
        folder
    };
    text::strip_trailing(stripped, '/')
}

/// The first workspace storage directory (a non-empty name) whose
/// `workspace.json` names the project's folder.
pub open spec fn storage_id_of(cwd: Seq<char>, dirs: Seq<(Seq<char>, Option<JsonV>)>) -> Option<Seq<char>>
    decreases dirs.len(),
{
    if dirs.len() == 0 {
        None
    } else {
        match dirs[0].1 {
            Some(v) => if folder_of(v) == text::strip_trailing(cwd, '/') && dirs[0].0.len() > 0 {
                Some(dirs[0].0)
            } else {
                storage_id_of(cwd, dirs.drop_first())
            },
            None => storage_id_of(cwd, dirs.drop_first()),
        }
    }
}

fn strip_trailing_slash_str(s: &str) -> (r: String)
    ensures
        r@ == text::strip_trailing(s@, '/'),
{
    let cs = text::to_chars(s);
    let t = path_rewrite::strip_trailing_slashes(&cs);
    text::from_chars(&t)
}

/// The folder a parsed `workspace.json` names (see `folder_of`).
pub(crate) fn workspace_folder(v: &Json) -> (r: String)
    ensures
        r@ == folder_of(v@),
{
    proof {
        reveal_strlit("file://");
    }
    let folder = match v.get_str("folder") {
        Some(f) => f,
        None => String::new(),
    };
    let stripped = text::strip_prefix_or_same(folder.as_str(), "file://");
    strip_trailing_slash_str(stripped.as_str())
}

/// `resolve_workspace_storage_id`, from the workspace storage directories
/// in the order listed, each with its parsed `workspace.json`.
pub fn resolve_workspace_storage_id(cwd: &str, dirs: &Vec<(String, Option<Json>)>) -> (r: Option<String>)
    ensures
        match r {
            Some(id) => storage_id_of(cwd@, crate::layer3::row_views(dirs@)) == Some(id@),
            None => storage_id_of(cwd@, crate::layer3::row_views(dirs@)) is None,
        },
{
    let ghost dv = crate::layer3::row_views(dirs@);
    let cwd_trim = strip_trailing_slash_str(cwd);
    let mut i: usize = 0;
    proof {
        reveal_strlit("file://");
        assert(dv.skip(0) =~= dv);
    }
    while i < dirs.len()
        invariant
            i <= dirs@.len(),
            dv == crate::layer3::row_views(dirs@),
            dv.len() == dirs@.len(),
            cwd_trim@ == text::strip_trailing(cwd@, '/'),
            storage_id_of(cwd@, dv) == storage_id_of(cwd@, dv.skip(i as int)),
        decreases dirs.len() - i,
    {
        proof {
            reveal_strlit("file://");
            assert(dv.skip(i as int)[0] == (dirs@[i as int].0@, crate::layer3::opt_view(dirs@[i as int].1)));
            assert(dv.skip(i as int).drop_first() =~= dv.skip(i + 1));
        }
        match &dirs[i].1 {
            Some(v) => {
                let folder_path = workspace_folder(v);
                if text::str_eq(folder_path.as_str(), cwd_trim.as_str()) && !text::str_is_empty(
                    dirs[i].0.as_str(),
                ) {
                    return Some(dirs[i].0.clone());
                }
            },
            None => {},
        }
        i = i + 1;
    }
    proof {
        assert(dv.skip(i as int).len() == 0);
    }
    None
}

/// The git repository a project tracks: the project itself with its
/// current branch (from `.git/HEAD`'s `ref: refs/heads/…`); none without a
/// `.git`.
pub open spec fn tracked_repos_v(cwd: Seq<char>, git_dir_exists: bool, head: Option<Seq<char>>) -> Seq<JsonV> {
    if !git_dir_exists {
        seq![]
    } else {
        let branch = match head {
            Some(h) => if text::starts_with(text::trim(h), "ref: refs/heads/"@) {
                Some(text::trim(h).skip(16))
            } else {
                None
            },
            None => None,
        };
        let entry = seq![("repoPath"@, jstr(cwd)), ("branches"@, jarr(seq![]))];
        seq![
            match branch {
                Some(b) => jobj(
                    json::set_entry(entry, "branches"@, jarr(seq![jobj(seq![("branchName"@, jstr(b))])])),
                ),
                None => jobj(entry),
            },
        ]
    }
}

/// `scan_tracked_git_repos`, from whether the project has a `.git` and
/// what its `HEAD` file holds (when it could be read).
pub fn scan_tracked_git_repos(cwd: &str, git_dir_exists: bool, head: Option<&str>) -> (r: Vec<Json>)
    ensures
        items_view(r@) == tracked_repos_v(
            cwd@,
            git_dir_exists,
            match head {
                Some(h) => Some(h@),
                None => None,
            },
        ),
{
    let mut out: Vec<Json> = Vec::new();
    proof {
        json::lemma_items_view(out@);
    }
    if !git_dir_exists {
        assert(items_view(out@) =~= Seq::<JsonV>::empty());
        return out;
    }
    proof {
        reveal_strlit("ref: refs/heads/");
    }
    let branch = match head {
        Some(h) => {
            let t = text::str_trim(h);
            if text::str_starts_with(t.as_str(), "ref: refs/heads/") {
                Some(text::strip_prefix_or_same(t.as_str(), "ref: refs/heads/"))
            } else {
                None
            }
        },
        None => None,
    };
    let mut e: Vec<(String, Json)> = Vec::new();
    proof {
        json::lemma_entries_view(e@);
    }
    json::push_member(&mut e, "repoPath", str_json(cwd));
    json::push_member(&mut e, "branches", empty_array());
    assert(entries_view(e@) =~= seq![("repoPath"@, jstr(cwd@)), ("branches"@, jarr(seq![]))]);
    match branch {
        Some(b) => {
            let mut bo: Vec<(String, Json)> = Vec::new();
            proof {
                json::lemma_entries_view(bo@);
            }
            json::push_member(&mut bo, "branchName", Json::Str(b));
            let mut bs: Vec<Json> = Vec::new();
            proof {
                json::lemma_items_view(bs@);
            }
            let ghost bov = entries_view(bo@);
            json::push_item(&mut bs, Json::Object(bo));
            assert(items_view(bs@) =~= seq![jobj(bov)]);
            json::set_member(&mut e, "branches", Json::Array(bs));
        },
        None => {},
    }
    json::push_item(&mut out, Json::Object(e));
    assert(items_view(out@) =~= tracked_repos_v(
        cwd@,
        git_dir_exists,
        match head {
            Some(h) => Some(h@),
            None => None,
        },
    ));
    out
}

// ── Agent blobs a composer references ─────────────────────────

/// The agent blobs a composer's conversation state references: the refs of
/// its base64 protobuf after the leading `~`; none when the state is
/// missing, does not start with `~`, is shorter than 10 bytes or is not
/// base64.
pub open spec fn agent_blob_refs(conv: JsonV) -> Set<Seq<char>> {
    let cs = json::str_or(json::get_str(conv, "conversationState"@), seq![]);
    if !text::starts_with(cs, "~"@) || utf8_len(cs) < 10 {
        Set::empty()
    } else {
        match codec::b64_decode_bytes(vstd::utf8::encode_utf8(cs.skip(1))) {
            Ok(raw) => protobuf::proto_refs_hex(raw).to_set(),
            Err(_) => Set::empty(),
        }
    }
}

/// `extract_agent_blob_ids_from_composer`: the distinct agent blob ids a
/// composer references.
pub fn extract_agent_blob_ids_from_composer(conv: &Json) -> (r: Vec<String>)
    ensures
        text::views(r@).no_duplicates(),
        text::views(r@).to_set() == agent_blob_refs(conv@),
{
    let cs = match conv.get_str("conversationState") {
        Some(s) => s,
        None => String::new(),
    };
    proof {
        reveal_strlit("~");
    }
    if !text::str_starts_with(cs.as_str(), "~") || !transcript::utf8_longer_than(cs.as_str(), 9) {
        let out: Vec<String> = Vec::new();
        assert(text::views(out@) =~= Seq::<Seq<char>>::empty());
        assert(text::views(out@).to_set() =~= Set::<Seq<char>>::empty());
        return out;
    }
    let rest = text::strip_prefix_or_same(cs.as_str(), "~");
    match codec::base64_decode(rest.as_str()) {
        Ok(raw) => protobuf::extract_blob_ids_from_protobuf(&raw),
        Err(_) => {
            let out: Vec<String> = Vec::new();
            assert(text::views(out@) =~= Seq::<Seq<char>>::empty());
            assert(text::views(out@).to_set() =~= Set::<Seq<char>>::empty());
            out
        },
    }
}

// ── The upserts of a Layer 3 write ────────────────────────────

/// A value as a mutation carries it: the hex of its compact JSON's bytes.
pub open spec fn json_hex(v: JsonV) -> Seq<char> {
    codec::hex_of(vstd::utf8::encode_utf8(json_codec::compact_json(v)))
}

fn json_hex_of(v: &Json) -> (r: String)
    ensures
        r@ == json_hex(v@),
{
    let t = json_codec::to_compact(v);
    let b = bubble::str_bytes(t.as_str());
    codec::hex_encode(&b)
}

/// `write_layer3`'s upserts: the sidebar list into `ItemTable`, then the
/// session's `composerData` and each bubble row into `cursorDiskKV`.
pub fn layer3_mutations(
    uuid: &str,
    merged_headers: &Json,
    composer_data: &Json,
    bubble_blobs: &Vec<(String, Json)>,
) -> (r: Vec<Mutation>)
    ensures
        r@.len() == 2 + bubble_blobs@.len(),
        inject::mutation_view(r@[0]) == (true, "composer.composerHeaders"@, json_hex(merged_headers@)),
        inject::mutation_view(r@[1]) == (false, "composerData:"@ + uuid@, json_hex(composer_data@)),
        forall|k: int|
            0 <= k < bubble_blobs@.len() ==> inject::mutation_view(#[trigger] r@[k + 2]) == (
                false,
                "bubbleId:"@ + uuid@ + ":"@ + bubble_blobs@[k].0@,
                json_hex(bubble_blobs@[k].1@),
            ),
{
    let mut out: Vec<Mutation> = Vec::new();
    out.push(
        Mutation::ItemTableUpsert {
            key: text::owned("composer.composerHeaders"),
            value_hex: json_hex_of(merged_headers),
        },
    );
    out.push(
        Mutation::DiskKvUpsert {
            key: text::concat2("composerData:", uuid),
            value_hex: json_hex_of(composer_data),
        },
    );
    let mut i: usize = 0;
    while i < bubble_blobs.len()
        invariant
            i <= bubble_blobs@.len(),
            out@.len() == 2 + i,
            inject::mutation_view(out@[0]) == (true, "composer.composerHeaders"@, json_hex(merged_headers@)),
            inject::mutation_view(out@[1]) == (false, "composerData:"@ + uuid@, json_hex(composer_data@)),
            forall|k: int|
                0 <= k < i ==> inject::mutation_view(#[trigger] out@[k + 2]) == (
                    false,
                    "bubbleId:"@ + uuid@ + ":"@ + bubble_blobs@[k].0@,
                    json_hex(bubble_blobs@[k].1@),
                ),
        decreases bubble_blobs.len() - i,
    {
        let key = text::concat3("bubbleId:", uuid, ":");
        let key = text::concat2(key.as_str(), bubble_blobs[i].0.as_str());
        out.push(Mutation::DiskKvUpsert { key, value_hex: json_hex_of(&bubble_blobs[i].1) });
        proof {
            assert forall|k: int| 0 <= k < i + 1 implies inject::mutation_view(#[trigger] out@[k + 2]) == (
                false,
                "bubbleId:"@ + uuid@ + ":"@ + bubble_blobs@[k].0@,
                json_hex(bubble_blobs@[k].1@),
            ) by {
                if k == i {
                    assert(out@[k + 2] == out@[out@.len() - 1]);
                }
            }
        }
        i = i + 1;
    }
    out
}

} // verus!
