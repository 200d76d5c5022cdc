//! Layer 2 conversation turns (the AI SDK messages of the CLI's
//! `store.db` DAG), and how they enrich the bubbles written to Layer 3 and
//! decide a re-sync in either direction.
use vstd::prelude::*;

use crate::bubble::{
    self, Bubble, BubbleImage, BubbleToolUse, BubbleV, ImageV, ToolUseV, bubble_views,
    image_views, tool_views,
};
use crate::codec;
use crate::inject;
use crate::json_codec::{self, compact_json, parsed_json_bytes};
use crate::json::{self, Json, JsonV};
use crate::layer2;
use crate::protobuf::{self, proto_refs_hex};
use crate::text::{self, contains, trim};
use crate::transcript::{self, unwrap_tags, utf8_len};

verus! {

/// One user or assistant turn of the Layer 2 DAG, in chronological order.
#[derive(Debug)]
pub struct Layer2Turn {
    pub role: String,
    pub text: String,
    pub tool_calls: Vec<BubbleToolUse>,
    pub images: Vec<BubbleImage>,
}

/// Model of a turn.
pub struct TurnV {
    pub role: Seq<char>,
    pub text: Seq<char>,
    pub tool_calls: Seq<ToolUseV>,
    pub images: Seq<ImageV>,
}

impl View for Layer2Turn {
    type V = TurnV;

    open spec fn view(&self) -> TurnV {
        TurnV {
            role: self.role@,
            text: self.text@,
            tool_calls: tool_views(self.tool_calls@),
            images: image_views(self.images@),
        }
    }
}

/// The models of turns.
pub open spec fn turn_views(s: Seq<Layer2Turn>) -> Seq<TurnV> {
    s.map_values(|t: Layer2Turn| t@)
}

/// A role that makes a conversation turn.
pub open spec fn is_turn_role(r: Seq<char>) -> bool {
    r == "user"@ || r == "assistant"@
}

/// User text as a bubble shows it: wrapper tags removed, trimmed.
pub open spec fn clean(t: Seq<char>) -> Seq<char> {
    trim(unwrap_tags(t))
}

/// The bubble made of turn `ordinal`: its id derived from the session,
/// role and ordinal (time 0), user text cleaned.
pub open spec fn turn_bubble(uuid: Seq<char>, ordinal: nat, t: TurnV) -> BubbleV {
    BubbleV {
        id: inject::bubble_id_spec(uuid, t.role, 0, ordinal as u64),
        role: t.role,
        text: if t.role == "user"@ {
            clean(t.text)
        } else {
            t.text
        },
        tool_calls: t.tool_calls,
        files: seq![],
        images: t.images,
        created_at_ms: 0,
        parent_bubble_id: None,
    }
}

fn is_turn_role_exec(r: &str) -> (b: bool)
    ensures
        b == is_turn_role(r@),
{
    text::str_eq(r, "user") || text::str_eq(r, "assistant")
}

fn turn_to_bubble(uuid: &str, ordinal: usize, turn: &Layer2Turn) -> (r: Bubble)
    ensures
        r@ == turn_bubble(uuid@, ordinal as nat, turn@),
{
    let text = if text::str_eq(turn.role.as_str(), "user") {
        transcript::clean_user_text(turn.text.as_str())
    } else {
        turn.text.clone()
    };
    let b = Bubble {
        id: inject::deterministic_bubble_id(uuid, turn.role.as_str(), 0, ordinal),
        role: turn.role.clone(),
        text,
        tool_calls: bubble::clone_tools(&turn.tool_calls),
        files: Vec::new(),
        images: bubble::clone_images(&turn.images),
        created_at_ms: 0,
        parent_bubble_id: None,
    };
    assert(b@.files =~= seq![]);
    b
}

/// `bubbles_from_layer2_turns`, from what `store.db` holds: one bubble per
/// turn when there are turns, else the bubbles of its JSON blobs.
pub fn bubbles_from_layer2_turns(
    uuid: &str,
    turns: &Vec<Layer2Turn>,
    blobs: &Vec<(String, Option<Vec<u8>>)>,
) -> (r: Vec<Bubble>)
    ensures
        turns@.len() > 0 ==> bubble_views(r@) == Seq::new(
            turns@.len(),
            |k: int| turn_bubble(uuid@, k as nat, turns@[k]@),
        ),
        turns@.len() == 0 ==> bubble_views(r@) == layer2::l2_bubbles(
            uuid@,
            layer2::blob_rows_view(blobs@),
        ),
{
    if turns.len() == 0 {
        return layer2::read_layer2_bubbles(uuid, blobs);
    }
    let mut out: Vec<Bubble> = Vec::new();
    let mut i: usize = 0;
    while i < turns.len()
        invariant
            i <= turns@.len(),
            bubble_views(out@) == Seq::new(i as nat, |k: int| turn_bubble(uuid@, k as nat, turns@[k]@)),
        decreases turns.len() - i,
    {
        let b = turn_to_bubble(uuid, i, &turns[i]);
        let ghost before = out@;
        out.push(b);
        assert(bubble_views(out@) =~= Seq::new(
            (i + 1) as nat,
            |k: int| turn_bubble(uuid@, k as nat, turns@[k]@),
        )) by {
            assert(bubble_views(out@) =~= bubble_views(before).push(b@));
        }
        i = i + 1;
    }
    out
}

/// Walking the bubbles against the turns from turn `ti`: whether a turn
/// would improve a bubble (a user turn with images the bubble lacks, or
/// with text where the bubble still shows CLI wrapper tags; an assistant
/// turn with text or tool calls where the bubble is a `[REDACTED]` stub).
/// Bubbles of other roles are passed over, a bubble whose role differs
/// from the next turn's waits for no turn, and the walk ends when the
/// turns run out.
pub open spec fn l2_richer_from(turns: Seq<TurnV>, bubbles: Seq<BubbleV>, ti: int) -> bool
    decreases bubbles.len(),
{
    if bubbles.len() == 0 {
        false
    } else {
        let b = bubbles[0];
        if !is_turn_role(b.role) {
            l2_richer_from(turns, bubbles.drop_first(), ti)
        } else if ti < 0 || ti >= turns.len() {
            false
        } else if turns[ti].role != b.role {
            l2_richer_from(turns, bubbles.drop_first(), ti)
        } else {
            let t = turns[ti];
            if t.role == "user"@ {
                if (t.images.len() > 0 && b.images.len() == 0) || (t.text.len() > 0 && (contains(
                    b.text,
                    "<user_query>"@,
                ) || contains(b.text, "<timestamp>"@))) {
                    true
                } else {
                    l2_richer_from(turns, bubbles.drop_first(), ti + 1)
                }
            } else if contains(b.text, "[REDACTED]"@) && (trim(t.text).len() > 0
                || t.tool_calls.len() > 0) {
                true
            } else {
                l2_richer_from(turns, bubbles.drop_first(), ti + 1)
            }
        }
    }
}

/// `layer2_has_richer_turns`, from the session's Layer 2 turns: whether
/// they would improve the bubbles about to be written to Layer 3.
pub fn layer2_has_richer_turns(turns: &Vec<Layer2Turn>, bubbles: &Vec<Bubble>) -> (r: bool)
    ensures
        r == (turns@.len() > 0 && l2_richer_from(turn_views(turns@), bubble_views(bubbles@), 0)),
{
    if turns.len() == 0 {
        return false;
    }
    let ghost tv = turn_views(turns@);
    let ghost bv = bubble_views(bubbles@);
    let mut ti: usize = 0;
    let mut i: usize = 0;
    proof {
        assert(bv.skip(0) =~= bv);
    }
    while i < bubbles.len()
        invariant
            i <= bubbles@.len(),
            ti <= turns@.len(),
            tv == turn_views(turns@),
            bv == bubble_views(bubbles@),
            bv.len() == bubbles@.len(),
            tv.len() == turns@.len(),
            l2_richer_from(tv, bv, 0) == l2_richer_from(tv, bv.skip(i as int), ti as int),
        decreases bubbles.len() - i,
    {
        let b = &bubbles[i];
        proof {
            assert(bv.skip(i as int)[0] == b@);
            assert(bv.skip(i as int).drop_first() =~= bv.skip(i + 1));
        }
        if !is_turn_role_exec(b.role.as_str()) {
            i = i + 1;
            continue;
        }
        if ti >= turns.len() {
            return false;
        }
        let turn = &turns[ti];
        assert(tv[ti as int] == turn@);
        if !text::str_eq(turn.role.as_str(), b.role.as_str()) {
            i = i + 1;
            continue;
        }
        ti = ti + 1;
        if text::str_eq(turn.role.as_str(), "user") {
            if turn.images.len() > 0 && b.images.len() == 0 {
                return true;
            }
            if !text::str_is_empty(turn.text.as_str()) && (text::str_contains(
                b.text.as_str(),
                "<user_query>",
            ) || text::str_contains(b.text.as_str(), "<timestamp>")) {
                return true;
            }
        } else if text::str_contains(b.text.as_str(), "[REDACTED]") && (!text::str_is_blank(
            turn.text.as_str(),
        ) || turn.tool_calls.len() > 0) {
            return true;
        }
        i = i + 1;
    }
    false
}

/// The number of conversation bubbles.
pub open spec fn turn_count(s: Seq<BubbleV>) -> nat
    decreases s.len(),
{
    if s.len() == 0 {
        0
    } else {
        turn_count(s.drop_first()) + if is_turn_role(s[0].role) {
            1nat
        } else {
            0nat
        }
    }
}

/// Walking the Layer 3 bubbles against the Layer 2 turns from turn `ti`:
/// whether a bubble would improve its turn (a user bubble with images the
/// turn lacks, or with text where the turn has none or still shows CLI
/// wrapper tags; an assistant bubble with text where the turn has none, or
/// with tool calls where it has none), or the turns run out first; at the
/// end, whether some conversation bubble (of `total`) found no turn.
pub open spec fn l3_richer_from(l3: Seq<BubbleV>, l2: Seq<TurnV>, ti: int, total: nat) -> bool
    decreases l3.len(),
{
    if l3.len() == 0 {
        total > ti
    } else {
        let b = l3[0];
        if !is_turn_role(b.role) {
            l3_richer_from(l3.drop_first(), l2, ti, total)
        } else if ti < 0 || ti >= l2.len() {
            true
        } else if l2[ti].role != b.role {
            l3_richer_from(l3.drop_first(), l2, ti, total)
        } else {
            let t = l2[ti];
            if b.role == "user"@ {
                if b.images.len() > 0 && t.images.len() == 0 {
                    true
                } else if clean(b.text).len() > 0 && (trim(t.text).len() == 0 || contains(
                    t.text,
                    "<user_query>"@,
                ) || contains(t.text, "<timestamp>"@)) {
                    true
                } else {
                    l3_richer_from(l3.drop_first(), l2, ti + 1, total)
                }
            } else if trim(t.text).len() == 0 && trim(b.text).len() > 0 {
                true
            } else if b.tool_calls.len() > 0 && t.tool_calls.len() == 0 {
                true
            } else {
                l3_richer_from(l3.drop_first(), l2, ti + 1, total)
            }
        }
    }
}

/// Whether the Layer 3 bubbles would improve the Layer 2 turns: never
/// without bubbles; when Layer 2 has no turns, exactly when Layer 3 holds
/// a conversation state.
pub open spec fn layer3_richer(l3: Seq<BubbleV>, l2: Seq<TurnV>, l3_has_state: bool) -> bool {
    if l3.len() == 0 {
        false
    } else if l2.len() == 0 {
        l3_has_state
    } else {
        l3_richer_from(l3, l2, 0, turn_count(l3))
    }
}

/// `layer3_has_richer_turns_for_l2`, from the session's Layer 3 bubbles in
/// sidebar order, its Layer 2 turns and whether Layer 3 holds a
/// conversation state.
pub fn layer3_has_richer_turns_for_l2(
    l3_bubbles: &Vec<Bubble>,
    l2_turns: &Vec<Layer2Turn>,
    l3_has_conversation_state: bool,
) -> (r: bool)
    ensures
        r == layer3_richer(
            bubble_views(l3_bubbles@),
            turn_views(l2_turns@),
            l3_has_conversation_state,
        ),
{
    if l3_bubbles.len() == 0 {
        return false;
    }
    if l2_turns.len() == 0 {
        return l3_has_conversation_state;
    }
    let ghost bv = bubble_views(l3_bubbles@);
    let ghost tv = turn_views(l2_turns@);
    let ghost total = turn_count(bv);
    let mut ti: usize = 0;
    let mut seen: usize = 0;
    let mut i: usize = 0;
    proof {
        assert(bv.skip(0) =~= bv);
    }
    while i < l3_bubbles.len()
        invariant
            i <= l3_bubbles@.len(),
            ti <= seen <= i,
            ti <= l2_turns@.len(),
            bv == bubble_views(l3_bubbles@),
            tv == turn_views(l2_turns@),
            bv.len() == l3_bubbles@.len(),
            tv.len() == l2_turns@.len(),
            total == turn_count(bv),
            bv.len() > 0,
            tv.len() > 0,
            total == seen + turn_count(bv.skip(i as int)),
            l3_richer_from(bv, tv, 0, total) == l3_richer_from(bv.skip(i as int), tv, ti as int, total),
        decreases l3_bubbles.len() - i,
    {
        let b = &l3_bubbles[i];
        proof {
            assert(bv.skip(i as int)[0] == b@);
            assert(bv.skip(i as int).drop_first() =~= bv.skip(i + 1));
        }
        if !is_turn_role_exec(b.role.as_str()) {
            i = i + 1;
            continue;
        }
        seen = seen + 1;
        if ti >= l2_turns.len() {
            assert(l3_richer_from(bv.skip(i as int), tv, ti as int, total));
            return true;
        }
        let l2 = &l2_turns[ti];
        assert(tv[ti as int] == l2@);
        if !text::str_eq(l2.role.as_str(), b.role.as_str()) {
            i = i + 1;
            continue;
        }
        ti = ti + 1;
        if text::str_eq(b.role.as_str(), "user") {
            if b.images.len() > 0 && l2.images.len() == 0 {
                return true;
            }
            let c = transcript::clean_user_text(b.text.as_str());
            if !text::str_is_empty(c.as_str()) && (text::str_is_blank(l2.text.as_str())
                || text::str_contains(l2.text.as_str(), "<user_query>") || text::str_contains(
                l2.text.as_str(),
                "<timestamp>",
            )) {
                return true;
            }
        } else if text::str_is_blank(l2.text.as_str()) && !text::str_is_blank(b.text.as_str()) {
            return true;
        } else if b.tool_calls.len() > 0 && l2.tool_calls.len() == 0 {
            return true;
        }
        i = i + 1;
    }
    proof {
        assert(bv.skip(i as int).len() == 0);
    }
    seen > ti
}

/// Whether a `composerData` value holds a conversation state: a string
/// that starts with `~` and is longer than 10 bytes.
pub open spec fn has_conversation_state(composer: JsonV) -> bool {
    match json::get_str(composer, "conversationState"@) {
        Some(s) => text::starts_with(s, "~"@) && utf8_len(s) > 10,
        None => false,
    }
}

/// `l3_has_conversation_state`, from the session's `composerData` value.
pub fn l3_has_conversation_state(composer: &Json) -> (r: bool)
    ensures
        r == has_conversation_state(composer@),
{
    match composer.get_str("conversationState") {
        Some(s) => text::str_starts_with(s.as_str(), "~") && transcript::utf8_longer_than(
            s.as_str(),
            10,
        ),
        None => false,
    }
}

/// Whether a user bubble's text is a stub Layer 2 should replace: blank,
/// `[REDACTED]`, or still wrapped in CLI tags.
pub open spec fn needs_user_text(t: Seq<char>) -> bool {
    trim(t).len() == 0 || contains(t, "[REDACTED]"@) || contains(t, "<user_query>"@) || contains(
        t,
        "<timestamp>"@,
    )
}

/// A bubble with its turn's content overlaid: a user bubble takes the
/// cleaned turn text where its own is a stub, and the turn's images where
/// it has none; an assistant `[REDACTED]` stub takes the turn's text (or
/// none, for a tool-only turn) and tool calls; another assistant bubble
/// takes the turn's tool calls where it has none.
pub open spec fn merge_turn(b: BubbleV, t: TurnV) -> BubbleV {
    if t.role == "user"@ {
        BubbleV {
            text: if needs_user_text(b.text) && t.text.len() > 0 && clean(t.text).len() > 0 {
                clean(t.text)
            } else {
                b.text
            },
            images: if t.images.len() > 0 && b.images.len() == 0 {
                t.images
            } else {
                b.images
            },
            ..b
        }
    } else if contains(b.text, "[REDACTED]"@) {
        BubbleV {
            text: if trim(t.text).len() > 0 {
                t.text
            } else if t.tool_calls.len() > 0 {
                seq![]
            } else {
                b.text
            },
            tool_calls: if t.tool_calls.len() > 0 {
                t.tool_calls
            } else {
                b.tool_calls
            },
            ..b
        }
    } else if b.tool_calls.len() == 0 && t.tool_calls.len() > 0 {
        BubbleV { tool_calls: t.tool_calls, ..b }
    } else {
        b
    }
}

/// The bubbles with the turns overlaid from turn `ti`: each conversation
/// bubble whose role matches the next turn takes it; every other bubble
/// stays as it is.
pub open spec fn enrich_from(bubbles: Seq<BubbleV>, turns: Seq<TurnV>, ti: int) -> Seq<BubbleV>
    decreases bubbles.len(),
{
    if bubbles.len() == 0 {
        seq![]
    } else {
        let b = bubbles[0];
        if is_turn_role(b.role) && 0 <= ti < turns.len() && turns[ti].role == b.role {
            seq![merge_turn(b, turns[ti])] + enrich_from(bubbles.drop_first(), turns, ti + 1)
        } else {
            seq![b] + enrich_from(bubbles.drop_first(), turns, ti)
        }
    }
}

/// `merge_turn_into_bubble`: overlays a Layer 2 turn on a bubble of the
/// same conversation position (see `merge_turn` for which fields move).
pub fn merge_turn_into_bubble(b: &mut Bubble, turn: &Layer2Turn)
    ensures
        final(b)@ == merge_turn(old(b)@, turn@),
{
    if text::str_eq(turn.role.as_str(), "user") {
        let needs = text::str_is_blank(b.text.as_str()) || text::str_contains(
            b.text.as_str(),
            "[REDACTED]",
        ) || text::str_contains(b.text.as_str(), "<user_query>") || text::str_contains(
            b.text.as_str(),
            "<timestamp>",
        );
        if needs && !text::str_is_empty(turn.text.as_str()) {
            let cleaned = transcript::clean_user_text(turn.text.as_str());
            if !text::str_is_empty(cleaned.as_str()) {
                b.text = cleaned;
            }
        }
        if turn.images.len() > 0 && b.images.len() == 0 {
            b.images = bubble::clone_images(&turn.images);
        }
    } else if text::str_contains(b.text.as_str(), "[REDACTED]") {
        if !text::str_is_blank(turn.text.as_str()) {
            b.text = turn.text.clone();
        } else if turn.tool_calls.len() > 0 {
            b.text = String::new();
        }
        if turn.tool_calls.len() > 0 {
            b.tool_calls = bubble::clone_tools(&turn.tool_calls);
        }
    } else if b.tool_calls.len() == 0 && turn.tool_calls.len() > 0 {
        b.tool_calls = bubble::clone_tools(&turn.tool_calls);
    }
}

/// `enrich_bubbles_from_layer2`, from the session's Layer 2 turns: the
/// bubbles (ids and order kept) with the turns' content overlaid.
pub fn enrich_bubbles_from_layer2(turns: &Vec<Layer2Turn>, bubbles: &Vec<Bubble>) -> (r: Vec<Bubble>)
    ensures
        bubble_views(r@) == (if turns@.len() == 0 {
            bubble_views(bubbles@)
        } else {
            enrich_from(bubble_views(bubbles@), turn_views(turns@), 0)
        }),
{
    let ghost bv = bubble_views(bubbles@);
    let ghost tv = turn_views(turns@);
    let mut out: Vec<Bubble> = Vec::new();
    let mut ti: usize = 0;
    let mut i: usize = 0;
    proof {
        assert(bv.skip(0) =~= bv);
        assert(bubble_views(out@) =~= Seq::<BubbleV>::empty());
    }
    while i < bubbles.len()
        invariant
            i <= bubbles@.len(),
            ti <= turns@.len(),
            bv == bubble_views(bubbles@),
            tv == turn_views(turns@),
            bv.len() == bubbles@.len(),
            tv.len() == turns@.len(),
            bubble_views(out@) + enrich_from(bv.skip(i as int), tv, ti as int) == enrich_from(bv, tv, 0),
            bubble_views(out@) == bv.take(i as int) || tv.len() > 0,
            tv.len() == 0 ==> ti == 0,
        decreases bubbles.len() - i,
    {
        let mut b = bubbles[i].clone();
        proof {
            assert(bv.skip(i as int)[0] == b@);
            assert(bv.skip(i as int).drop_first() =~= bv.skip(i + 1));
        }
        let ghost before = bubble_views(out@);
        let ghost rest = enrich_from(bv.skip(i + 1), tv, ti as int);
        if is_turn_role_exec(b.role.as_str()) && ti < turns.len() && text::str_eq(
            turns[ti].role.as_str(),
            b.role.as_str(),
        ) {
            assert(tv[ti as int] == turns@[ti as int]@);
            merge_turn_into_bubble(&mut b, &turns[ti]);
            ti = ti + 1;
        }
        let ghost bb = b@;
        out.push(b);
        proof {
            assert(bubble_views(out@) =~= before.push(bb));
            assert(before.push(bb) + enrich_from(bv.skip(i + 1), tv, ti as int) =~= before + (seq![bb]
                + enrich_from(bv.skip(i + 1), tv, ti as int)));
            if tv.len() == 0 {
                assert(bv.take(i + 1) =~= bv.take(i as int).push(bv[i as int]));
            }
        }
        i = i + 1;
    }
    proof {
        assert(bv.skip(i as int).len() == 0);
        assert(bubble_views(out@) + Seq::<BubbleV>::empty() =~= bubble_views(out@));
        if tv.len() == 0 {
            assert(bv.take(i as int) =~= bv);
        }
    }
    out
}

// ── AI SDK messages ───────────────────────────────────────────

/// The tags of the IDE context that cursor-agent sends as user messages.
pub open spec fn context_tags() -> Seq<Seq<char>> {
    seq![
        "<user_info>"@,
        "<open_and_recently_viewed_files>"@,
        "<git_status>"@,
        "<attached_files>"@,
        "<agent_transcripts>"@,
        "<agent_skills>"@,
        "<rules>"@,
        "<mcp_instructions>"@,
        "<user_rules>"@,
        "<system_reminder>"@,
    ]
}

/// Whether a user message is IDE context, not a turn: it has no
/// `<user_query>`, and its text or raw JSON holds a context tag.
pub open spec fn context_envelope(text: Seq<char>, raw_json: Seq<char>) -> bool {
    !(contains(text, "<user_query>"@) || contains(raw_json, "<user_query>"@)) && exists|k: int|
        0 <= k < context_tags().len() && (contains(text, #[trigger] context_tags()[k]) || contains(
            raw_json,
            context_tags()[k],
        ))
}

/// `is_context_user_envelope`.
pub fn is_context_user_envelope(text: &str, raw_json: &str) -> (r: bool)
    ensures
        r == context_envelope(text@, raw_json@),
{
    if text::str_contains(text, "<user_query>") || text::str_contains(raw_json, "<user_query>") {
        return false;
    }
    let tags: [&str; 10] = [
        "<user_info>",
        "<open_and_recently_viewed_files>",
        "<git_status>",
        "<attached_files>",
        "<agent_transcripts>",
        "<agent_skills>",
        "<rules>",
        "<mcp_instructions>",
        "<user_rules>",
        "<system_reminder>",
    ];
    let ghost tv = tags@.map_values(|t: &str| t@);
    assert(tv =~= context_tags());
    let mut k: usize = 0;
    while k < 10
        invariant
            k <= 10,
            tv == tags@.map_values(|t: &str| t@),
            tv == context_tags(),
            !(contains(text@, "<user_query>"@) || contains(raw_json@, "<user_query>"@)),
            forall|j: int| 0 <= j < k ==> !(contains(text@, #[trigger] tv[j]) || contains(raw_json@, tv[j])),
        decreases 10 - k,
    {
        assert(tv[k as int] == tags@[k as int]@);
        if text::str_contains(text, tags[k]) || text::str_contains(raw_json, tags[k]) {
            assert(contains(text@, context_tags()[k as int]) || contains(
                raw_json@,
                context_tags()[k as int],
            ));
            return true;
        }
        k = k + 1;
    }
    false
}

/// A text part that is nothing but IDE context.
pub open spec fn context_only_part(t: Seq<char>) -> bool {
    !contains(trim(t), "<user_query>"@) && context_envelope(trim(t), trim(t))
}

fn is_context_only_text_part(t: &str) -> (r: bool)
    ensures
        r == context_only_part(t@),
{
    let trimmed = text::str_trim(t);
    !text::str_contains(trimmed.as_str(), "<user_query>") && is_context_user_envelope(
        trimmed.as_str(),
        trimmed.as_str(),
    )
}

/// The MIME type an image's magic bytes name; JPEG when none does.
pub open spec fn image_mime(b: Seq<u8>) -> Seq<char> {
    if b.len() >= 3 && b[0] == 0xFF && b[1] == 0xD8 && b[2] == 0xFF {
        "image/jpeg"@
    } else if b.len() >= 4 && b[0] == 0x89 && b[1] == 0x50 && b[2] == 0x4E && b[3] == 0x47 {
        "image/png"@
    } else if b.len() >= 4 && b[0] == 71 && b[1] == 73 && b[2] == 70 && b[3] == 56 {
        "image/gif"@
    } else if b.len() >= 12 && b[0] == 82 && b[1] == 73 && b[2] == 70 && b[3] == 70 && b[8] == 87
        && b[9] == 69 && b[10] == 66 && b[11] == 80 {
        "image/webp"@
    } else {
        "image/jpeg"@
    }
}

/// `guess_image_mime`: JPEG, PNG, GIF or WebP by the magic bytes.
pub fn guess_image_mime(bytes: &[u8]) -> (r: String)
    ensures
        r@ == image_mime(bytes@),
{
    let n = bytes.len();
    if n >= 3 && bytes[0] == 0xFF && bytes[1] == 0xD8 && bytes[2] == 0xFF {
        text::owned("image/jpeg")
    } else if n >= 4 && bytes[0] == 0x89 && bytes[1] == 0x50 && bytes[2] == 0x4E && bytes[3] == 0x47 {
        text::owned("image/png")
    } else if n >= 4 && bytes[0] == 71 && bytes[1] == 73 && bytes[2] == 70 && bytes[3] == 56 {
        text::owned("image/gif")
    } else if n >= 12 && bytes[0] == 82 && bytes[1] == 73 && bytes[2] == 70 && bytes[3] == 70
        && bytes[8] == 87 && bytes[9] == 69 && bytes[10] == 66 && bytes[11] == 80 {
        text::owned("image/webp")
    } else {
        text::owned("image/jpeg")
    }
}

/// The image of an `image` part: an object whose `hex` string decodes to
/// at least one byte.
pub open spec fn l2_image(image: Option<JsonV>) -> Option<ImageV> {
    match image {
        Some(JsonV::Object(e)) => match json::get_str(JsonV::Object(e), "hex"@) {
            Some(h) => match codec::hex_decode_bytes(vstd::utf8::encode_utf8(h)) {
                Ok(bytes) => if bytes.len() == 0 {
                    None
                } else {
                    Some(ImageV { mime_type: image_mime(bytes), data_base64: codec::b64_of(bytes) })
                },
                Err(_) => None,
            },
            None => None,
        },
        _ => None,
    }
}

fn decode_l2_image(image_val: Option<&Json>) -> (r: Option<BubbleImage>)
    ensures
        match r {
            Some(i) => l2_image(match image_val {
                Some(j) => Some(j@),
                None => None,
            }) == Some(i@),
            None => l2_image(match image_val {
                Some(j) => Some(j@),
                None => None,
            }) is None,
        },
{
    let img = match image_val {
        Some(j) => j,
        None => return None,
    };
    match img {
        Json::Object(_) => {},
        _ => return None,
    }
    let hex = match img.get_str("hex") {
        Some(h) => h,
        None => return None,
    };
    let raw = bubble::str_bytes(hex.as_str());
    let bytes = match codec::hex_decode_slice(raw.as_slice()) {
        Ok(b) => b,
        Err(_) => return None,
    };
    if bytes.len() == 0 {
        return None;
    }
    let mime = guess_image_mime(bytes.as_slice());
    let data_base64 = codec::base64_encode(bytes.as_slice());
    Some(BubbleImage { mime_type: mime, data_base64 })
}

/// One blob of the DAG read as an AI SDK message.
#[derive(Debug)]
pub struct ParsedAiSdkMessage {
    pub role: String,
    /// The kept text parts, joined by blank lines.
    pub text: String,
    pub tool_calls: Vec<BubbleToolUse>,
    pub images: Vec<BubbleImage>,
    /// A user message that is IDE context, not a turn.
    pub is_context_envelope: bool,
}

/// Model of a parsed message.
pub struct MessageV {
    pub role: Seq<char>,
    pub text: Seq<char>,
    pub tool_calls: Seq<ToolUseV>,
    pub images: Seq<ImageV>,
    pub is_context_envelope: bool,
}

impl View for ParsedAiSdkMessage {
    type V = MessageV;

    open spec fn view(&self) -> MessageV {
        MessageV {
            role: self.role@,
            text: self.text@,
            tool_calls: tool_views(self.tool_calls@),
            images: image_views(self.images@),
            is_context_envelope: self.is_context_envelope,
        }
    }
}

/// A part's `type`, empty when absent.
pub open spec fn part_type(part: JsonV) -> Seq<char> {
    json::str_or(json::get_str(part, "type"@), seq![])
}

/// The text of a `text` part, unless it is empty, `[REDACTED]` or only IDE
/// context.
pub open spec fn part_text(part: JsonV) -> Option<Seq<char>> {
    match json::get_str(part, "text"@) {
        Some(t) => if t.len() > 0 && t != "[REDACTED]"@ && !context_only_part(t) {
            Some(t)
        } else {
            None
        },
        None => None,
    }
}

/// The call of a `tool-call` part: its `toolName` (else `name`) when not
/// empty, with its `args` (else `input`).
pub open spec fn part_tool(part: JsonV) -> Option<ToolUseV> {
    let name = json::str_or(
        match json::get(part, "toolName"@) {
            Some(x) => json::as_str(x),
            None => json::get_str(part, "name"@),
        },
        seq![],
    );
    if name.len() > 0 {
        Some(
            ToolUseV {
                name,
                input: match json::get(part, "args"@) {
                    Some(a) => Some(a),
                    None => json::get(part, "input"@),
                },
            },
        )
    } else {
        None
    }
}

/// The text parts, tool calls and images of a message's content, in order.
pub open spec fn sdk_parts(items: Seq<JsonV>) -> (Seq<Seq<char>>, Seq<ToolUseV>, Seq<ImageV>)
    decreases items.len(),
{
    if items.len() == 0 {
        (seq![], seq![], seq![])
    } else {
        let (t, c, i) = sdk_parts(items.drop_last());
        let item = items.last();
        if !(item is Object) {
            (t, c, i)
        } else if part_type(item) == "text"@ {
            (
                match part_text(item) {
                    Some(x) => t.push(x),
                    None => t,
                },
                c,
                i,
            )
        } else if part_type(item) == "tool-call"@ {
            (
                t,
                match part_tool(item) {
                    Some(x) => c.push(x),
                    None => c,
                },
                i,
            )
        } else if part_type(item) == "image"@ {
            (
                t,
                c,
                match l2_image(json::get(item, "image"@)) {
                    Some(x) => i.push(x),
                    None => i,
                },
            )
        } else {
            (t, c, i)
        }
    }
}

/// A blob as an AI SDK message: a JSON object (its first byte `{`) with a
/// string `role`.
pub open spec fn ai_sdk_message(data: Seq<u8>) -> Option<MessageV> {
    if data.len() == 0 || data[0] != 123u8 {
        None
    } else {
        match parsed_json_bytes(data) {
            Some(v) => match json::get_str(v, "role"@) {
                Some(role) => {
                    let parts = match json::get_array(v, "content"@) {
                        Some(a) => sdk_parts(a),
                        None => (seq![], seq![], seq![]),
                    };
                    let text = text::join_with(parts.0, "\n\n"@);
                    Some(
                        MessageV {
                            role,
                            text,
                            tool_calls: parts.1,
                            images: parts.2,
                            is_context_envelope: role == "user"@ && context_envelope(
                                text,
                                compact_json(v),
                            ),
                        },
                    )
                },
                None => None,
            },
            None => None,
        }
    }
}

/// `parse_ai_sdk_blob`: one DAG blob as an AI SDK message.
pub fn parse_ai_sdk_blob(data: &[u8]) -> (r: Option<ParsedAiSdkMessage>)
    ensures
        match r {
            Some(m) => ai_sdk_message(data@) == Some(m@),
            None => ai_sdk_message(data@) is None,
        },
{
    if data.len() == 0 || data[0] != 123u8 {
        return None;
    }
    let v = match json_codec::parse_json_slice(data) {
        Some(v) => v,
        None => return None,
    };
    let role = match v.get_str("role") {
        Some(r) => r,
        None => return None,
    };
    let raw_json = json_codec::to_compact(&v);
    let mut text_parts: Vec<String> = Vec::new();
    let mut tool_calls: Vec<BubbleToolUse> = Vec::new();
    let mut images: Vec<BubbleImage> = Vec::new();
    match v.get_array("content") {
        Some(arr) => {
            let ghost av = json::items_view(arr@);
            proof {
                json::lemma_items_view(arr@);
                assert(av.take(0) =~= Seq::<JsonV>::empty());
                assert(text::views(text_parts@) =~= Seq::<Seq<char>>::empty());
                assert(tool_views(tool_calls@) =~= Seq::<ToolUseV>::empty());
                assert(image_views(images@) =~= Seq::<ImageV>::empty());
            }
            let mut i: usize = 0;
            while i < arr.len()
                invariant
                    i <= arr@.len(),
                    av == json::items_view(arr@),
                    av.len() == arr@.len(),
                    forall|k: int| 0 <= k < arr@.len() ==> #[trigger] av[k] == arr@[k]@,
                    (text::views(text_parts@), tool_views(tool_calls@), image_views(images@))
                        == sdk_parts(av.take(i as int)),
                decreases arr.len() - i,
            {
                let item = &arr[i];
                proof {
                    assert(av.take(i + 1).drop_last() =~= av.take(i as int));
                    assert(av.take(i + 1).last() == item@);
                }
                let ghost t0 = text_parts@;
                let ghost c0 = tool_calls@;
                let ghost i0 = images@;
                match item {
                    Json::Object(_) => {
                        let typ = match item.get_str("type") {
                            Some(t) => t,
                            None => String::new(),
                        };
                        if text::str_eq(typ.as_str(), "text") {
                            match item.get_str("text") {
                                Some(t) => {
                                    if !text::str_is_empty(t.as_str()) && !text::str_eq(
                                        t.as_str(),
                                        "[REDACTED]",
                                    ) && !is_context_only_text_part(t.as_str()) {
                                        text_parts.push(t);
                                        proof {
                                            text::lemma_views_push(t0, t);
                                        }
                                    }
                                },
                                None => {},
                            }
                        } else if text::str_eq(typ.as_str(), "tool-call") {
                            let name = match item.get("toolName") {
                                Some(x) => match x.as_str() {
                                    Some(n) => text::owned(n),
                                    None => String::new(),
                                },
                                None => match item.get_str("name") {
                                    Some(n) => n,
                                    None => String::new(),
                                },
                            };
                            if !text::str_is_empty(name.as_str()) {
                                let input = match item.get("args") {
                                    Some(a) => Some(a.clone()),
                                    None => match item.get("input") {
                                        Some(x) => Some(x.clone()),
                                        None => None,
                                    },
                                };
                                let t = BubbleToolUse { name, input };
                                let ghost tv = t@;
                                tool_calls.push(t);
                                assert(tool_views(tool_calls@) =~= tool_views(c0).push(tv));
                            }
                        } else if text::str_eq(typ.as_str(), "image") {
                            match decode_l2_image(item.get("image")) {
                                Some(img) => {
                                    let ghost iv = img@;
                                    images.push(img);
                                    assert(image_views(images@) =~= image_views(i0).push(iv));
                                },
                                None => {},
                            }
                        }
                    },
                    _ => {},
                }
                i = i + 1;
            }
            proof {
                assert(av.take(i as int) =~= av);
            }
        },
        None => {
            assert(text::views(text_parts@) =~= Seq::<Seq<char>>::empty());
            assert(tool_views(tool_calls@) =~= Seq::<ToolUseV>::empty());
            assert(image_views(images@) =~= Seq::<ImageV>::empty());
        },
    }
    let text = text::join_strings(&text_parts, "\n\n");
    let is_context_envelope = text::str_eq(role.as_str(), "user") && is_context_user_envelope(
        text.as_str(),
        raw_json.as_str(),
    );
    Some(ParsedAiSdkMessage { role, text, tool_calls, images, is_context_envelope })
}

// ── The blob DAG ──────────────────────────────────────────────

/// The model of the blobs read from `store.db`: each id with its data.
pub open spec fn blob_views(blobs: Seq<(String, Vec<u8>)>) -> Seq<(Seq<char>, Seq<u8>)> {
    blobs.map_values(|b: (String, Vec<u8>)| (b.0@, b.1@))
}

/// The data of blob `id`: the last row with that id.
pub open spec fn blob_lookup(map: Seq<(Seq<char>, Seq<u8>)>, id: Seq<char>) -> Option<Seq<u8>>
    decreases map.len(),
{
    if map.len() == 0 {
        None
    } else if map.last().0 == id {
        Some(map.last().1)
    } else {
        blob_lookup(map.drop_last(), id)
    }
}

/// Every reference any blob holds.
pub open spec fn all_refs(map: Seq<(Seq<char>, Seq<u8>)>) -> Set<Seq<char>>
    decreases map.len(),
{
    if map.len() == 0 {
        Set::empty()
    } else {
        all_refs(map.drop_last()).union(proto_refs_hex(map.last().1).to_set())
    }
}

/// Whether an id is outside `seen`.
pub open spec fn unseen_in(seen: Set<Seq<char>>) -> spec_fn(Seq<char>) -> bool {
    |c: Seq<char>| !seen.contains(c)
}

/// The children of blob `id` not yet visited, in field order.
pub open spec fn unseen_children(
    map: Seq<(Seq<char>, Seq<u8>)>,
    id: Seq<char>,
    seen: Set<Seq<char>>,
) -> Seq<Seq<char>> {
    match blob_lookup(map, id) {
        Some(d) => proto_refs_hex(d).filter(unseen_in(seen)),
        None => seq![],
    }
}

/// The ids a walk from `root` can meet.
pub open spec fn walk_universe(map: Seq<(Seq<char>, Seq<u8>)>, root: Seq<char>) -> Set<Seq<char>> {
    all_refs(map).insert(root)
}

/// The depth-first visit from the ids on `stack` (front first): an id not
/// yet seen is visited, and its unseen children go to the front of the
/// stack in field order.
pub open spec fn dag_walk(
    map: Seq<(Seq<char>, Seq<u8>)>,
    stack: Seq<Seq<char>>,
    seen: Set<Seq<char>>,
    universe: Set<Seq<char>>,
) -> Seq<Seq<char>>
    decreases universe.difference(seen).len(), stack.len(),
    when universe.finite() && stack.to_set().subset_of(universe) && seen.subset_of(universe)
{
    if stack.len() == 0 {
        seq![]
    } else {
        let id = stack[0];
        if seen.contains(id) {
            dag_walk(map, stack.drop_first(), seen, universe)
        } else {
            let seen2 = seen.insert(id);
            proof {
                assert(stack.to_set().contains(id)) by {
                    assert(stack.contains(id));
                }
                assert(universe.difference(seen2) =~= universe.difference(seen).remove(id));
            }
            seq![id] + dag_walk(
                map,
                unseen_children(map, id, seen2) + stack.drop_first(),
                seen2,
                universe,
            )
        }
    }
}

/// The chronological visit order of the DAG from its root.
pub open spec fn dag_order(map: Seq<(Seq<char>, Seq<u8>)>, root: Seq<char>) -> Seq<Seq<char>> {
    dag_walk(map, seq![root], Set::empty(), walk_universe(map, root))
}

proof fn lemma_all_refs_finite(map: Seq<(Seq<char>, Seq<u8>)>)
    ensures
        all_refs(map).finite(),
    decreases map.len(),
{
    if map.len() > 0 {
        lemma_all_refs_finite(map.drop_last());
    }
}

proof fn lemma_lookup_refs(map: Seq<(Seq<char>, Seq<u8>)>, id: Seq<char>)
    ensures
        match blob_lookup(map, id) {
            Some(d) => proto_refs_hex(d).to_set().subset_of(all_refs(map)),
            None => true,
        },
    decreases map.len(),
{
    if map.len() > 0 && map.last().0 != id {
        lemma_lookup_refs(map.drop_last(), id);
    }
}

fn lookup_blob<'a>(blobs: &'a Vec<(String, Vec<u8>)>, id: &String) -> (r: Option<&'a Vec<u8>>)
    ensures
        match r {
            Some(d) => blob_lookup(blob_views(blobs@), id@) == Some(d@),
            None => blob_lookup(blob_views(blobs@), id@) is None,
        },
{
    let ghost bv = blob_views(blobs@);
    let mut k: usize = blobs.len();
    proof {
        assert(bv.take(k as int) =~= bv);
    }
    while k > 0
        invariant
            k <= blobs@.len(),
            bv == blob_views(blobs@),
            bv.len() == blobs@.len(),
            blob_lookup(bv, id@) == blob_lookup(bv.take(k as int), id@),
        decreases k,
    {
        proof {
            assert(bv.take(k as int).last() == (blobs@[k - 1].0@, blobs@[k - 1].1@));
            assert(bv.take(k as int).drop_last() =~= bv.take(k - 1));
        }
        if text::str_eq(blobs[k - 1].0.as_str(), id.as_str()) {
            return Some(&blobs[k - 1].1);
        }
        k = k - 1;
    }
    None
}

/// `walk_blob_dag_chronological`: the blobs in visit order, oldest first.
pub fn walk_blob_dag_chronological(root_id: &str, blobs: &Vec<(String, Vec<u8>)>) -> (r: Vec<String>)
    ensures
        text::views(r@) == dag_order(blob_views(blobs@), root_id@),
{
    let ghost map = blob_views(blobs@);
    let ghost u = walk_universe(map, root_id@);
    let root = text::owned(root_id);
    let mut stack: Vec<String> = Vec::new();
    stack.push(root);
    let mut seen: Vec<String> = Vec::new();
    let mut order: Vec<String> = Vec::new();
    proof {
        lemma_all_refs_finite(map);
        assert(text::views(stack@) =~= seq![root_id@]);
        assert(text::views(seen@).to_set() =~= Set::<Seq<char>>::empty());
        assert(text::views(order@) =~= Seq::<Seq<char>>::empty());
        assert(seq![root_id@].to_set().subset_of(u)) by {
            assert forall|x: Seq<char>| seq![root_id@].to_set().contains(x) implies u.contains(x) by {
                assert(seq![root_id@].contains(x));
            }
        }
    }
    while stack.len() > 0
        invariant
            map == blob_views(blobs@),
            u == walk_universe(map, root_id@),
            u.finite(),
            text::views(stack@).to_set().subset_of(u),
            text::views(seen@).to_set().subset_of(u),
            text::views(order@) + dag_walk(map, text::views(stack@), text::views(seen@).to_set(), u)
                == dag_walk(map, seq![root_id@], Set::empty(), u),
        decreases u.difference(text::views(seen@).to_set()).len(), stack@.len(),
    {
        let ghost sv = text::views(stack@);
        let ghost seen_set = text::views(seen@).to_set();
        let id = stack.remove(0);
        proof {
            assert(sv[0] == id@);
            assert(text::views(stack@) =~= sv.drop_first());
            assert(sv.contains(id@));
            assert(sv.to_set().contains(id@));
            assert(text::views(stack@).to_set().subset_of(u)) by {
                assert forall|x: Seq<char>| text::views(stack@).to_set().contains(x) implies u.contains(x) by {
                    assert(text::views(stack@).contains(x));
                    let w = choose|w: int| 0 <= w < text::views(stack@).len() && text::views(stack@)[w] == x;
                    assert(sv[w + 1] == x);
                    assert(sv.contains(x));
                }
            }
        }
        if text::strings_contain(&seen, &id) {
            proof {
                assert(seen_set.contains(id@));
            }
            continue;
        }
        let ghost before_order = order@;
        let ghost seen2 = seen_set.insert(id@);
        let ghost old_seen = seen@;
        let idc = id.clone();
        seen.push(idc);
        proof {
            text::lemma_views_push(old_seen, idc);
            text::views(old_seen).lemma_push_to_set_commute(id@);
            assert(text::views(seen@).to_set() == seen2);
            assert(u.difference(seen2) =~= u.difference(seen_set).remove(id@));
        }
        order.push(id.clone());
        proof {
            text::lemma_views_push(before_order, id);
        }
        let ghost rest = text::views(stack@);
        let children_seq: Ghost<Seq<Seq<char>>> = Ghost(unseen_children(map, id@, seen2));
        match lookup_blob(blobs, &id) {
            Some(data) => {
                let children = protobuf::protobuf_child_refs_ordered(data.as_slice());
                let mut fresh: Vec<String> = Vec::new();
                let mut k: usize = 0;
                let ghost cv = text::views(children@);
                proof {
                    lemma_lookup_refs(map, id@);
                    assert(text::views(fresh@) =~= cv.take(0).filter(unseen_in(seen2)));
                }
                while k < children.len()
                    invariant
                        k <= children@.len(),
                        cv == text::views(children@),
                        text::views(seen@).to_set() == seen2,
                        text::views(fresh@) == cv.take(k as int).filter(unseen_in(seen2)),
                    decreases children.len() - k,
                {
                    proof {
                        text::lemma_filter_take_step(cv, unseen_in(seen2), k as int);
                        assert(cv[k as int] == children@[k as int]@);
                    }
                    if !text::strings_contain(&seen, &children[k]) {
                        let ghost fb = fresh@;
                        fresh.push(children[k].clone());
                        proof {
                            text::lemma_views_push(fb, children@[k as int]);
                        }
                    }
                    k = k + 1;
                }
                proof {
                    assert(cv.take(k as int) =~= cv);
                    assert(text::views(fresh@) == children_seq@);
                }
                let mut j: usize = 0;
                let ghost fresh_len = fresh@.len();
                while j < stack.len()
                    invariant
                        j <= stack@.len(),
                        rest == text::views(stack@),
                        text::views(fresh@) == children_seq@ + rest.take(j as int),
                    decreases stack.len() - j,
                {
                    let ghost fb = fresh@;
                    fresh.push(stack[j].clone());
                    proof {
                        text::lemma_views_push(fb, stack@[j as int]);
                        assert(rest.take(j + 1) =~= rest.take(j as int).push(rest[j as int]));
                    }
                    j = j + 1;
                }
                proof {
                    assert(rest.take(j as int) =~= rest);
                }
                stack = fresh;
            },
            None => {
                proof {
                    assert(children_seq@ + rest =~= rest);
                }
            },
        }
        proof {
            let ns = text::views(stack@);
            assert(ns == children_seq@ + rest);
            assert forall|x: Seq<char>| ns.to_set().contains(x) implies u.contains(x) by {
                assert(ns.contains(x));
                let w = choose|w: int| 0 <= w < ns.len() && ns[w] == x;
                if w < children_seq@.len() {
                    let d = blob_lookup(map, id@)->0;
                    assert(children_seq@[w] == x);
                    assert(proto_refs_hex(d).filter(unseen_in(seen2)).contains(x));
                    proto_refs_hex(d).lemma_filter_contains_rev(unseen_in(seen2), x);
                    assert(proto_refs_hex(d).contains(x));
                    assert(proto_refs_hex(d).to_set().contains(x));
                } else {
                    assert(rest[w - children_seq@.len()] == x);
                    assert(rest.contains(x));
                    assert(rest.to_set().contains(x));
                }
            }
            assert(text::views(order@) =~= text::views(before_order).push(id@));
            assert(text::views(before_order) + dag_walk(map, sv, seen_set, u) == text::views(order@)
                + dag_walk(map, ns, seen2, u));
        }
    }
    proof {
        assert(text::views(order@) + Seq::<Seq<char>>::empty() =~= text::views(order@));
    }
    order
}

/// The message blob `id` holds, if it holds one.
pub open spec fn message_of(map: Seq<(Seq<char>, Seq<u8>)>, id: Seq<char>) -> Option<MessageV> {
    match blob_lookup(map, id) {
        Some(d) => ai_sdk_message(d),
        None => None,
    }
}

/// The turns of the messages met in `order`: each user message that is
/// not IDE context (text and images) and each assistant message (text and
/// tool calls); system, tool and other messages make none.
pub open spec fn turns_of(map: Seq<(Seq<char>, Seq<u8>)>, order: Seq<Seq<char>>) -> Seq<TurnV>
    decreases order.len(),
{
    if order.len() == 0 {
        seq![]
    } else {
        let rest = turns_of(map, order.drop_last());
        match message_of(map, order.last()) {
            Some(m) => if m.role == "user"@ && !m.is_context_envelope {
                rest.push(TurnV { role: "user"@, text: m.text, tool_calls: seq![], images: m.images })
            } else if m.role == "assistant"@ {
                rest.push(
                    TurnV {
                        role: "assistant"@,
                        text: m.text,
                        tool_calls: m.tool_calls,
                        images: seq![],
                    },
                )
            } else {
                rest
            },
            None => rest,
        }
    }
}

/// Why the turns of a `store.db` could not be read.
#[derive(Debug, PartialEq, Eq, Structural)]
pub enum TurnsError {
    /// `meta['0']` is not hex.
    MetaHex,
    /// `meta['0']` does not hold JSON.
    MetaJson,
    /// `meta['0']` names no `latestRootBlobId`.
    NoRoot,
}

/// The root blob that the hex-encoded JSON of `meta['0']` names.
pub open spec fn meta_root(meta_hex: Seq<char>) -> Result<Seq<char>, TurnsError> {
    match codec::hex_decode_bytes(vstd::utf8::encode_utf8(meta_hex)) {
        Ok(bytes) => match parsed_json_bytes(bytes) {
            Some(meta) => match json::get_str(meta, "latestRootBlobId"@) {
                Some(r) => if r.len() > 0 {
                    Ok(r)
                } else {
                    Err(TurnsError::NoRoot)
                },
                None => Err(TurnsError::NoRoot),
            },
            None => Err(TurnsError::MetaJson),
        },
        Err(_) => Err(TurnsError::MetaHex),
    }
}

/// `read_layer2_turns_from_conn`, from what `store.db` holds: `meta['0']`
/// as stored and the blobs: the turns of the messages met walking the DAG
/// from the root that `meta['0']` names.
pub fn read_layer2_turns_from_conn(meta_hex: &str, blobs: &Vec<(String, Vec<u8>)>) -> (r: Result<
    Vec<Layer2Turn>,
    TurnsError,
>)
    ensures
        match r {
            Ok(turns) => meta_root(meta_hex@) is Ok && turn_views(turns@) == turns_of(
                blob_views(blobs@),
                dag_order(blob_views(blobs@), meta_root(meta_hex@)->Ok_0),
            ),
            Err(e) => meta_root(meta_hex@) == Err::<Seq<char>, TurnsError>(e),
        },
{
    let raw = bubble::str_bytes(meta_hex);
    let meta_bytes = match codec::hex_decode_slice(raw.as_slice()) {
        Ok(b) => b,
        Err(_) => return Err(TurnsError::MetaHex),
    };
    let meta = match json_codec::parse_json_slice(meta_bytes.as_slice()) {
        Some(m) => m,
        None => return Err(TurnsError::MetaJson),
    };
    let root_id = match meta.get_str("latestRootBlobId") {
        Some(r) => r,
        None => return Err(TurnsError::NoRoot),
    };
    if text::str_is_empty(root_id.as_str()) {
        return Err(TurnsError::NoRoot);
    }
    let order = walk_blob_dag_chronological(root_id.as_str(), blobs);
    let ghost map = blob_views(blobs@);
    let ghost ov = text::views(order@);
    let mut turns: Vec<Layer2Turn> = Vec::new();
    let mut i: usize = 0;
    proof {
        assert(ov.take(0) =~= Seq::<Seq<char>>::empty());
        assert(turn_views(turns@) =~= Seq::<TurnV>::empty());
    }
    while i < order.len()
        invariant
            i <= order@.len(),
            map == blob_views(blobs@),
            ov == text::views(order@),
            ov.len() == order@.len(),
            turn_views(turns@) == turns_of(map, ov.take(i as int)),
        decreases order.len() - i,
    {
        proof {
            assert(ov.take(i + 1).drop_last() =~= ov.take(i as int));
            assert(ov.take(i + 1).last() == order@[i as int]@);
        }
        let ghost before = turns@;
        match lookup_blob(blobs, &order[i]) {
            Some(data) => match parse_ai_sdk_blob(data.as_slice()) {
                Some(msg) => {
                    if text::str_eq(msg.role.as_str(), "user") && !msg.is_context_envelope {
                        let t = Layer2Turn {
                            role: text::owned("user"),
                            text: msg.text,
                            tool_calls: Vec::new(),
                            images: msg.images,
                        };
                        let ghost tv = t@;
                        turns.push(t);
                        assert(tv.tool_calls =~= seq![]);
                        assert(turn_views(turns@) =~= turn_views(before).push(tv));
                    } else if text::str_eq(msg.role.as_str(), "assistant") {
                        let t = Layer2Turn {
                            role: text::owned("assistant"),
                            text: msg.text,
                            tool_calls: msg.tool_calls,
                            images: Vec::new(),
                        };
                        let ghost tv = t@;
                        turns.push(t);
                        assert(tv.images =~= seq![]);
                        assert(turn_views(turns@) =~= turn_views(before).push(tv));
                    }
                },
                None => {},
            },
            None => {},
        }
        i = i + 1;
    }
    proof {
        assert(ov.take(i as int) =~= ov);
    }
    Ok(turns)
}

} // verus!
