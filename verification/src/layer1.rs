//! Layer 1: the JSONL transcripts, one JSON object per line, read into
//! bubbles.
//!
//! Reading the file and parsing each line as JSON is the caller's part: it
//! hands over one `JsonlLine` per line of the body, in order, so that each
//! bubble keeps its line number (its ordinal) for its stable id.
use vstd::prelude::*;

use crate::bubble::{self, Bubble, BubbleToolUse, BubbleV, ToolUseV, bubble_views, tool_views};
use crate::inject;
use crate::json_codec;
use crate::json::{self, Json, JsonV, get, get_array, get_str, get_i64, str_or};
use crate::text::{self, trim, trim_end, views};
use crate::transcript::{self, utf8_len, byte_prefix};

verus! {

/// One line of a JSONL body.
#[derive(Debug)]
pub enum JsonlLine {
    /// Empty once trimmed.
    Blank,
    /// Not JSON.
    Malformed,
    Parsed(Json),
}

/// Model of a line.
pub enum LineV {
    Blank,
    Malformed,
    Parsed(JsonV),
}

/// The model of a line.
pub open spec fn line_view(l: JsonlLine) -> LineV {
    match l {
        JsonlLine::Blank => LineV::Blank,
        JsonlLine::Malformed => LineV::Malformed,
        JsonlLine::Parsed(j) => LineV::Parsed(j@),
    }
}

/// The models of lines.
pub open spec fn line_views(s: Seq<JsonlLine>) -> Seq<LineV> {
    s.map_values(|l: JsonlLine| line_view(l))
}

/// `role`, empty when absent.
pub open spec fn role_of(v: JsonV) -> Seq<char> {
    str_or(get_str(v, "role"@), seq![])
}

/// `message.content` as an array.
pub open spec fn nested_content(v: JsonV) -> Option<Seq<JsonV>> {
    match get(v, "message"@) {
        Some(m) => get_array(m, "content"@),
        None => None,
    }
}

/// The text of a `{type: "text", text}` item.
pub open spec fn text_item(item: JsonV) -> Option<Seq<char>> {
    if get_str(item, "type"@) == Some("text"@) {
        get_str(item, "text"@)
    } else {
        None
    }
}

// ── For Layer 3 synthesis ─────────────────────────────────────

/// The text items of `items`, each followed by a newline.
pub open spec fn newline_texts(items: Seq<JsonV>) -> Seq<char>
    decreases items.len(),
{
    if items.len() == 0 {
        seq![]
    } else {
        let acc = newline_texts(items.drop_last());
        match text_item(items.last()) {
            Some(s) => acc + s + seq!['\n'],
            None => acc,
        }
    }
}

/// The bubble `parse_layer1_bubbles` makes of line `ordinal`: user and
/// assistant lines with non-blank text only.
pub open spec fn synth_bubble(uuid: Seq<char>, v: JsonV, ordinal: u64) -> Option<BubbleV> {
    let role = role_of(v);
    let items = match nested_content(v) {
        Some(a) => a,
        None => seq![],
    };
    let t = newline_texts(items);
    if role != "user"@ && role != "assistant"@ {
        None
    } else if trim(t).len() == 0 {
        None
    } else {
        let ts = json::i64_or(get_i64(v, "timestamp"@), 0);
        Some(
            BubbleV {
                id: inject::bubble_id_spec(uuid, role, ts, ordinal),
                role,
                text: trim_end(t),
                tool_calls: seq![],
                files: seq![],
                images: seq![],
                created_at_ms: ts,
                parent_bubble_id: None,
            },
        )
    }
}

/// The bubbles of the lines, in order.
pub open spec fn synth_bubbles(uuid: Seq<char>, lines: Seq<LineV>) -> Seq<BubbleV>
    decreases lines.len(),
{
    if lines.len() == 0 {
        seq![]
    } else {
        let rest = synth_bubbles(uuid, lines.drop_last());
        match lines.last() {
            LineV::Parsed(v) => match synth_bubble(uuid, v, (lines.len() - 1) as u64) {
                Some(b) => rest.push(b),
                None => rest,
            },
            _ => rest,
        }
    }
}

fn push_str_chars(out: &mut Vec<char>, s: &str)
    ensures
        final(out)@ == old(out)@ + s@,
{
    let cs = text::to_chars(s);
    let mut i: usize = 0;
    let ghost start = out@;
    while i < cs.len()
        invariant
            i <= cs@.len(),
            cs@ == s@,
            start == old(out)@,
            out@ == start + cs@.take(i as int),
        decreases cs.len() - i,
    {
        out.push(cs[i]);
        assert(cs@.take(i + 1) =~= cs@.take(i as int).push(cs@[i as int]));
        i = i + 1;
    }
    assert(cs@.take(i as int) =~= cs@);
}

fn text_item_of(item: &Json) -> (r: Option<String>)
    ensures
        match r {
            Some(s) => text_item(item@) == Some(s@),
            None => text_item(item@) is None,
        },
{
    let is_text = match item.get_str("type") {
        Some(t) => text::str_eq(t.as_str(), "text"),
        None => false,
    };
    if is_text {
        item.get_str("text")
    } else {
        None
    }
}

fn empty_json_array() -> (r: Vec<Json>)
    ensures
        json::items_view(r@) == Seq::<JsonV>::empty(),
{
    let r: Vec<Json> = Vec::new();
    proof {
        json::lemma_items_view(r@);
        assert(json::items_view(r@) =~= Seq::<JsonV>::empty());
    }
    r
}

fn synth_one(uuid: &str, v: &Json, ordinal: usize) -> (r: Option<Bubble>)
    ensures
        match r {
            Some(b) => synth_bubble(uuid@, v@, ordinal as u64) == Some(b@),
            None => synth_bubble(uuid@, v@, ordinal as u64) is None,
        },
{
    let role = match v.get_str("role") {
        Some(r) => r,
        None => String::new(),
    };
    let empty = empty_json_array();
    let items: &Vec<Json> = match v.get("message") {
        Some(m) => match m.get_array("content") {
            Some(a) => a,
            None => &empty,
        },
        None => &empty,
    };
    let ghost iv = json::items_view(items@);
    proof {
        json::lemma_items_view(items@);
        assert(iv.take(0) =~= Seq::<JsonV>::empty());
    }
    let mut t: Vec<char> = Vec::new();
    let mut i: usize = 0;
    while i < items.len()
        invariant
            i <= items@.len() == iv.len(),
            iv == json::items_view(items@),
            forall|k: int| 0 <= k < items@.len() ==> #[trigger] iv[k] == items@[k]@,
            t@ == newline_texts(iv.take(i as int)),
        decreases items.len() - i,
    {
        proof {
            assert(iv.take(i + 1).drop_last() =~= iv.take(i as int));
            assert(iv.take(i + 1).last() == items@[i as int]@);
        }
        match text_item_of(&items[i]) {
            Some(s) => {
                push_str_chars(&mut t, s.as_str());
                t.push('\n');
            },
            None => {},
        }
        i = i + 1;
    }
    proof {
        assert(iv.take(i as int) =~= iv);
    }
    if !text::str_eq(role.as_str(), "user") && !text::str_eq(role.as_str(), "assistant") {
        return None;
    }
    let tt = text::trim_chars(&t);
    if tt.len() == 0 {
        return None;
    }
    let ts = match v.get_i64("timestamp") {
        Some(x) => x,
        None => 0,
    };
    let trimmed = text::trim_end_chars(&t);
    let id = inject::deterministic_bubble_id(uuid, role.as_str(), ts, ordinal);
    let tools: Vec<BubbleToolUse> = Vec::new();
    let files: Vec<String> = Vec::new();
    let images: Vec<bubble::BubbleImage> = Vec::new();
    proof {
        assert(tool_views(tools@) =~= Seq::<ToolUseV>::empty());
        assert(views(files@) =~= Seq::<Seq<char>>::empty());
        assert(bubble::image_views(images@) =~= Seq::<bubble::ImageV>::empty());
    }
    Some(
        Bubble {
            id,
            role,
            text: text::from_chars(&trimmed),
            tool_calls: tools,
            files,
            images,
            created_at_ms: ts,
            parent_bubble_id: None,
        },
    )
}

/// `parse_layer1_bubbles`: the user and assistant bubbles of a transcript
/// for Layer 3 synthesis: their text items, one per line, with stable ids
/// keyed on the line number.
pub fn parse_layer1_bubbles(uuid: &str, lines: &Vec<JsonlLine>) -> (r: Vec<Bubble>)
    ensures
        bubble_views(r@) == synth_bubbles(uuid@, line_views(lines@)),
{
    let ghost lv = line_views(lines@);
    let mut out: Vec<Bubble> = Vec::new();
    let mut i: usize = 0;
    proof {
        assert(bubble_views(out@) =~= Seq::<BubbleV>::empty());
        assert(lv.take(0) =~= Seq::<LineV>::empty());
    }
    while i < lines.len()
        invariant
            i <= lines@.len() == lv.len(),
            lv == line_views(lines@),
            bubble_views(out@) == synth_bubbles(uuid@, lv.take(i as int)),
        decreases lines.len() - i,
    {
        proof {
            assert(lv.take(i + 1).drop_last() =~= lv.take(i as int));
            assert(lv.take(i + 1).last() == line_view(lines@[i as int]));
        }
        match &lines[i] {
            JsonlLine::Parsed(v) => match synth_one(uuid, v, i) {
                Some(b) => {
                    let ghost before = bubble_views(out@);
                    let ghost bv = b@;
                    out.push(b);
                    assert(bubble_views(out@) =~= before.push(bv));
                },
                None => {},
            },
            _ => {},
        }
        i = i + 1;
    }
    proof {
        assert(lv.take(i as int) =~= lv);
    }
    out
}

// ── For the conversation view ─────────────────────────────────

/// The content items of a line: `message.content`, else `content`, as an
/// array.
pub open spec fn content_items(v: JsonV) -> Option<Seq<JsonV>> {
    match nested_content(v) {
        Some(a) => Some(a),
        None => get_array(v, "content"@),
    }
}

/// An item's `type`, empty when absent.
pub open spec fn type_of(item: JsonV) -> Seq<char> {
    str_or(get_str(item, "type"@), seq![])
}

/// User text loses its wrapper tags; assistant text stays verbatim.
pub open spec fn cleaned_for(role: Seq<char>, t: Seq<char>) -> Seq<char> {
    if role == "user"@ {
        trim(transcript::unwrap_tags(t))
    } else {
        t
    }
}

/// The non-empty cleaned texts of the text items, in order.
pub open spec fn text_parts(role: Seq<char>, items: Seq<JsonV>) -> Seq<Seq<char>>
    decreases items.len(),
{
    if items.len() == 0 {
        seq![]
    } else {
        let acc = text_parts(role, items.drop_last());
        let item = items.last();
        if type_of(item) == "text"@ && get_str(item, "text"@) is Some && cleaned_for(
            role,
            get_str(item, "text"@)->0,
        ).len() > 0 {
            acc.push(cleaned_for(role, get_str(item, "text"@)->0))
        } else {
            acc
        }
    }
}

/// The named `tool_use` items, in order, with their input.
pub open spec fn tool_parts(items: Seq<JsonV>) -> Seq<ToolUseV>
    decreases items.len(),
{
    if items.len() == 0 {
        seq![]
    } else {
        let acc = tool_parts(items.drop_last());
        let item = items.last();
        let name = str_or(get_str(item, "name"@), seq![]);
        if type_of(item) == "tool_use"@ && name.len() > 0 {
            acc.push(ToolUseV { name, input: get(item, "input"@) })
        } else {
            acc
        }
    }
}

/// The legacy plain-string content: `content`, else `message.content`, as a
/// string; empty when neither is one.
pub open spec fn legacy_text(v: JsonV) -> Seq<char> {
    match get_str(v, "content"@) {
        Some(s) => s,
        None => match get(v, "message"@) {
            Some(m) => str_or(get_str(m, "content"@), seq![]),
            None => seq![],
        },
    }
}

/// The names of the line's `attachments` that have a string `name`.
pub open spec fn attachment_names(items: Seq<JsonV>) -> Seq<Seq<char>>
    decreases items.len(),
{
    if items.len() == 0 {
        seq![]
    } else {
        let acc = attachment_names(items.drop_last());
        match get_str(items.last(), "name"@) {
            Some(n) => acc.push(n),
            None => acc,
        }
    }
}

/// The bubble `read_layer1_bubbles_from_body` makes of line `ordinal`;
/// `None` for structural events that carry no text, tool call or file.
pub open spec fn view_bubble(uuid: Seq<char>, v: JsonV, ordinal: u64) -> Option<BubbleV> {
    let role = role_of(v);
    let (parts, tools) = match content_items(v) {
        Some(items) => (text_parts(role, items), tool_parts(items)),
        None => {
            let raw = legacy_text(v);
            (if raw.len() > 0 { seq![cleaned_for(role, raw)] } else { seq![] }, seq![])
        },
    };
    let files = match get_array(v, "attachments"@) {
        Some(a) => attachment_names(a),
        None => seq![],
    };
    if parts.len() == 0 && tools.len() == 0 && files.len() == 0 {
        None
    } else {
        let ts = json::i64_or(get_i64(v, "timestamp"@), 0);
        Some(
            BubbleV {
                id: inject::bubble_id_spec(uuid, role, ts, ordinal),
                role,
                text: text::join_with(parts, "\n\n"@),
                tool_calls: tools,
                files,
                images: seq![],
                created_at_ms: ts,
                parent_bubble_id: None,
            },
        )
    }
}

/// The bubbles of the lines, in order.
pub open spec fn view_bubbles(uuid: Seq<char>, lines: Seq<LineV>) -> Seq<BubbleV>
    decreases lines.len(),
{
    if lines.len() == 0 {
        seq![]
    } else {
        let rest = view_bubbles(uuid, lines.drop_last());
        match lines.last() {
            LineV::Parsed(v) => match view_bubble(uuid, v, (lines.len() - 1) as u64) {
                Some(b) => rest.push(b),
                None => rest,
            },
            _ => rest,
        }
    }
}

/// The number of lines that are not blank.
pub open spec fn nonblank_count(lines: Seq<LineV>) -> nat
    decreases lines.len(),
{
    if lines.len() == 0 {
        0
    } else {
        nonblank_count(lines.drop_last()) + if lines.last() is Blank {
            0nat
        } else {
            1nat
        }
    }
}

/// The number of lines that are not JSON.
pub open spec fn malformed_count(lines: Seq<LineV>) -> nat
    decreases lines.len(),
{
    if lines.len() == 0 {
        0
    } else {
        malformed_count(lines.drop_last()) + if lines.last() is Malformed {
            1nat
        } else {
            0nat
        }
    }
}

/// Every tool call a message's content yields has a name.
proof fn lemma_tool_parts_named(items: Seq<JsonV>)
    ensures
        forall|j: int| 0 <= j < tool_parts(items).len() ==> (#[trigger] tool_parts(items)[j]).name.len() > 0,
    decreases items.len(),
{
    if items.len() > 0 {
        lemma_tool_parts_named(items.drop_last());
    }
}

/// Reading a transcript gives at most one bubble for each non-blank line
/// that is JSON (so no more bubbles than non-blank lines less malformed
/// ones), and every tool call of those bubbles has a non-empty name.
pub proof fn lemma_layer1_read_bounds(uuid: Seq<char>, lines: Seq<LineV>)
    ensures
        view_bubbles(uuid, lines).len() + malformed_count(lines) <= nonblank_count(lines),
        forall|i: int, j: int|
            0 <= i < view_bubbles(uuid, lines).len() && 0 <= j < view_bubbles(uuid, lines)[i].tool_calls.len()
                ==> (#[trigger] view_bubbles(uuid, lines)[i].tool_calls[j]).name.len() > 0,
    decreases lines.len(),
{
    if lines.len() > 0 {
        let d = lines.drop_last();
        lemma_layer1_read_bounds(uuid, d);
        let rest = view_bubbles(uuid, d);
        match lines.last() {
            LineV::Parsed(v) => {
                let role = role_of(v);
                match content_items(v) {
                    Some(items) => lemma_tool_parts_named(items),
                    None => {},
                }
                match view_bubble(uuid, v, (lines.len() - 1) as u64) {
                    Some(b) => {
                        assert forall|i: int, j: int|
                            0 <= i < rest.push(b).len() && 0 <= j < rest.push(b)[i].tool_calls.len() implies (
                        #[trigger] rest.push(b)[i].tool_calls[j]).name.len() > 0 by {
                            if i < rest.len() {
                                assert(rest.push(b)[i] == rest[i]);
                            }
                        }
                    },
                    None => {},
                }
            },
            _ => {},
        }
    }
}

fn clean_for(role: &String, t: &str) -> (r: String)
    ensures
        r@ == cleaned_for(role@, t@),
{
    if text::str_eq(role.as_str(), "user") {
        transcript::clean_user_text(t)
    } else {
        text::owned(t)
    }
}

fn content_of(v: &Json) -> (r: Option<&Vec<Json>>)
    ensures
        match r {
            Some(a) => content_items(v@) == Some(json::items_view(a@)),
            None => content_items(v@) is None,
        },
{
    match v.get("message") {
        Some(m) => match m.get_array("content") {
            Some(a) => return Some(a),
            None => {},
        },
        None => {},
    }
    v.get_array("content")
}

fn parts_and_tools(role: &String, items: &Vec<Json>) -> (r: (Vec<String>, Vec<BubbleToolUse>))
    ensures
        views(r.0@) == text_parts(role@, json::items_view(items@)),
        tool_views(r.1@) == tool_parts(json::items_view(items@)),
{
    let ghost iv = json::items_view(items@);
    proof {
        json::lemma_items_view(items@);
        assert(iv.take(0) =~= Seq::<JsonV>::empty());
        reveal_strlit("text");
        reveal_strlit("tool_use");
    }
    let mut parts: Vec<String> = Vec::new();
    let mut tools: Vec<BubbleToolUse> = Vec::new();
    proof {
        assert(views(parts@) =~= Seq::<Seq<char>>::empty());
        assert(tool_views(tools@) =~= Seq::<ToolUseV>::empty());
    }
    let mut i: usize = 0;
    while i < items.len()
        invariant
            i <= items@.len() == iv.len(),
            iv == json::items_view(items@),
            forall|k: int| 0 <= k < items@.len() ==> #[trigger] iv[k] == items@[k]@,
            views(parts@) == text_parts(role@, iv.take(i as int)),
            tool_views(tools@) == tool_parts(iv.take(i as int)),
        decreases items.len() - i,
    {
        let item = &items[i];
        proof {
            reveal_strlit("text");
            reveal_strlit("tool_use");
            assert(iv.take(i + 1).drop_last() =~= iv.take(i as int));
            assert(iv.take(i + 1).last() == item@);
        }
        let typ = match item.get_str("type") {
            Some(t) => t,
            None => String::new(),
        };
        assert(typ@ == type_of(item@));
        if text::str_eq(typ.as_str(), "text") {
            assert(type_of(item@) == "text"@);
            assert("text"@ != "tool_use"@);
            assert(tool_parts(iv.take(i + 1)) == tool_parts(iv.take(i as int)));
            match item.get_str("text") {
                Some(t) => {
                    let c = clean_for(role, t.as_str());
                    if !text::str_is_empty(c.as_str()) {
                        let ghost before = parts@;
                        parts.push(c);
                        proof {
                            text::lemma_views_push(before, c);
                        }
                    }
                },
                None => {},
            }
        } else if text::str_eq(typ.as_str(), "tool_use") {
            let name = match item.get_str("name") {
                Some(n) => n,
                None => String::new(),
            };
            if !text::str_is_empty(name.as_str()) {
                let input = match item.get("input") {
                    Some(j) => Some(j.clone()),
                    None => None,
                };
                let t = BubbleToolUse { name, input };
                let ghost before = tools@;
                let ghost tv = t@;
                tools.push(t);
                assert(tool_views(tools@) =~= tool_views(before).push(tv));
                assert(tv == ToolUseV { name: name@, input: get(item@, "input"@) });
                assert(tool_views(tools@) == tool_parts(iv.take(i + 1)));
            } else {
                assert(tool_views(tools@) == tool_parts(iv.take(i + 1)));
            }
        } else {
            assert(tool_views(tools@) == tool_parts(iv.take(i + 1)));
        }
        i = i + 1;
    }
    proof {
        assert(iv.take(i as int) =~= iv);
    }
    (parts, tools)
}

fn attachments_of(v: &Json) -> (r: Vec<String>)
    ensures
        views(r@) == match json::get_array(v@, "attachments"@) {
            Some(a) => attachment_names(a),
            None => seq![],
        },
{
    let mut out: Vec<String> = Vec::new();
    proof {
        assert(views(out@) =~= Seq::<Seq<char>>::empty());
    }
    let items = match v.get_array("attachments") {
        Some(a) => a,
        None => return out,
    };
    let ghost iv = json::items_view(items@);
    proof {
        json::lemma_items_view(items@);
        assert(iv.take(0) =~= Seq::<JsonV>::empty());
    }
    let mut i: usize = 0;
    while i < items.len()
        invariant
            i <= items@.len() == iv.len(),
            iv == json::items_view(items@),
            forall|k: int| 0 <= k < items@.len() ==> #[trigger] iv[k] == items@[k]@,
            views(out@) == attachment_names(iv.take(i as int)),
        decreases items.len() - i,
    {
        proof {
            assert(iv.take(i + 1).drop_last() =~= iv.take(i as int));
            assert(iv.take(i + 1).last() == items@[i as int]@);
        }
        match items[i].get_str("name") {
            Some(n) => {
                let ghost before = out@;
                out.push(n);
                proof {
                    text::lemma_views_push(before, n);
                }
            },
            None => {},
        }
        i = i + 1;
    }
    proof {
        assert(iv.take(i as int) =~= iv);
    }
    out
}

fn view_one(uuid: &str, v: &Json, ordinal: usize) -> (r: Option<Bubble>)
    ensures
        match r {
            Some(b) => view_bubble(uuid@, v@, ordinal as u64) == Some(b@),
            None => view_bubble(uuid@, v@, ordinal as u64) is None,
        },
{
    let role = match v.get_str("role") {
        Some(r) => r,
        None => String::new(),
    };
    let (parts, tools) = match content_of(v) {
        Some(items) => parts_and_tools(&role, items),
        None => {
            let raw = match v.get_str("content") {
                Some(s) => s,
                None => match v.get("message") {
                    Some(m) => match m.get_str("content") {
                        Some(s) => s,
                        None => String::new(),
                    },
                    None => String::new(),
                },
            };
            let mut parts: Vec<String> = Vec::new();
            if !text::str_is_empty(raw.as_str()) {
                parts.push(clean_for(&role, raw.as_str()));
            }
            let tools: Vec<BubbleToolUse> = Vec::new();
            proof {
                assert(tool_views(tools@) =~= Seq::<ToolUseV>::empty());
                if raw@.len() > 0 {
                    assert(views(parts@) =~= seq![cleaned_for(role@, raw@)]);
                } else {
                    assert(views(parts@) =~= Seq::<Seq<char>>::empty());
                }
            }
            (parts, tools)
        },
    };
    let files = attachments_of(v);
    if parts.len() == 0 && tools.len() == 0 && files.len() == 0 {
        proof {
            assert(views(parts@).len() == 0 && tool_views(tools@).len() == 0 && views(files@).len() == 0);
        }
        return None;
    }
    proof {
        assert(views(parts@).len() > 0 || tool_views(tools@).len() > 0 || views(files@).len() > 0);
    }
    let ts = match v.get_i64("timestamp") {
        Some(x) => x,
        None => 0,
    };
    let id = inject::deterministic_bubble_id(uuid, role.as_str(), ts, ordinal);
    let body = text::join_strings(&parts, "\n\n");
    let images: Vec<bubble::BubbleImage> = Vec::new();
    proof {
        assert(bubble::image_views(images@) =~= Seq::<bubble::ImageV>::empty());
    }
    Some(
        Bubble {
            id,
            role,
            text: body,
            tool_calls: tools,
            files,
            images,
            created_at_ms: ts,
            parent_bubble_id: None,
        },
    )
}

/// `read_layer1_bubbles_from_body`: the bubbles of a transcript for the
/// conversation view, with the number of non-blank lines and of lines that
/// were not JSON.
pub fn read_layer1_bubbles_from_body(uuid: &str, lines: &Vec<JsonlLine>) -> (r: (
    Vec<Bubble>,
    usize,
    usize,
))
    ensures
        bubble_views(r.0@) == view_bubbles(uuid@, line_views(lines@)),
        r.1 == nonblank_count(line_views(lines@)),
        r.2 == malformed_count(line_views(lines@)),
{
    let ghost lv = line_views(lines@);
    let mut out: Vec<Bubble> = Vec::new();
    let mut total: usize = 0;
    let mut errors: usize = 0;
    let mut i: usize = 0;
    proof {
        assert(bubble_views(out@) =~= Seq::<BubbleV>::empty());
        assert(lv.take(0) =~= Seq::<LineV>::empty());
    }
    while i < lines.len()
        invariant
            i <= lines@.len() == lv.len(),
            lv == line_views(lines@),
            bubble_views(out@) == view_bubbles(uuid@, lv.take(i as int)),
            total == nonblank_count(lv.take(i as int)),
            errors == malformed_count(lv.take(i as int)),
            total <= i,
            errors <= i,
        decreases lines.len() - i,
    {
        proof {
            assert(lv.take(i + 1).drop_last() =~= lv.take(i as int));
            assert(lv.take(i + 1).last() == line_view(lines@[i as int]));
        }
        match &lines[i] {
            JsonlLine::Blank => {},
            JsonlLine::Malformed => {
                total = total + 1;
                errors = errors + 1;
            },
            JsonlLine::Parsed(v) => {
                total = total + 1;
                match view_one(uuid, v, i) {
                    Some(b) => {
                        let ghost before = bubble_views(out@);
                        let ghost bv = b@;
                        out.push(b);
                        assert(bubble_views(out@) =~= before.push(bv));
                    },
                    None => {},
                }
            },
        }
        i = i + 1;
    }
    proof {
        assert(lv.take(i as int) =~= lv);
    }
    (out, total, errors)
}

// ── For the session list: preview and search text ─────────────

/// The first text item of `items`.
pub open spec fn first_text_item(items: Seq<JsonV>) -> Option<Seq<char>>
    decreases items.len(),
{
    if items.len() == 0 {
        None
    } else {
        match text_item(items[0]) {
            Some(t) => Some(t),
            None => first_text_item(items.drop_first()),
        }
    }
}

/// The text on the line's root: `content` as a string, else the first
/// text item of `content` as an array.
pub open spec fn root_text(v: JsonV) -> Option<Seq<char>> {
    match get_str(v, "content"@) {
        Some(s) => Some(s),
        None => match get_array(v, "content"@) {
            Some(a) => first_text_item(a),
            None => None,
        },
    }
}

/// The raw text of a user line: the first text item of
/// `message.content`, else the root text.
pub open spec fn user_raw_text(v: JsonV) -> Option<Seq<char>> {
    match nested_content(v) {
        Some(arr) => match first_text_item(arr) {
            Some(t) => Some(t),
            None => root_text(v),
        },
        None => root_text(v),
    }
}

/// The preview of a user message (`clean_user_preview`).
pub open spec fn preview_of(t: Seq<char>) -> Seq<char> {
    text::ellipsize(text::first_nonblank(text::lines(transcript::unwrap_tags(t))), 120)
}

/// The preview and the attachment names after the lines: the first user
/// line with text sets the preview (while it is still empty); every line's
/// attachments are collected.
pub open spec fn jsonl_preview(lines: Seq<LineV>) -> (Seq<char>, Seq<Seq<char>>)
    decreases lines.len(),
{
    if lines.len() == 0 {
        (seq![], seq![])
    } else {
        let (preview, files) = jsonl_preview(lines.drop_last());
        match lines.last() {
            LineV::Parsed(v) => {
                let p = if get_str(v, "role"@) == Some("user"@) && preview.len() == 0 {
                    match user_raw_text(v) {
                        Some(t) => preview_of(t),
                        None => preview,
                    }
                } else {
                    preview
                };
                let f = match get_array(v, "attachments"@) {
                    Some(a) => files + attachment_names(a),
                    None => files,
                };
                (p, f)
            },
            _ => (preview, files),
        }
    }
}

fn first_text_of(items: &Vec<Json>) -> (r: Option<String>)
    ensures
        match r {
            Some(s) => first_text_item(json::items_view(items@)) == Some(s@),
            None => first_text_item(json::items_view(items@)) is None,
        },
{
    let ghost iv = json::items_view(items@);
    proof {
        json::lemma_items_view(items@);
        assert(iv.skip(0) =~= iv);
    }
    let mut i: usize = 0;
    while i < items.len()
        invariant
            i <= items@.len() == iv.len(),
            iv == json::items_view(items@),
            forall|k: int| 0 <= k < items@.len() ==> #[trigger] iv[k] == items@[k]@,
            first_text_item(iv) == first_text_item(iv.skip(i as int)),
        decreases items.len() - i,
    {
        proof {
            assert(iv.skip(i as int)[0] == items@[i as int]@);
            assert(iv.skip(i as int).drop_first() =~= iv.skip(i + 1));
        }
        match text_item_of(&items[i]) {
            Some(t) => return Some(t),
            None => {},
        }
        i = i + 1;
    }
    proof {
        assert(iv.skip(i as int).len() == 0);
    }
    None
}

fn root_text_of(v: &Json) -> (r: Option<String>)
    ensures
        match r {
            Some(s) => root_text(v@) == Some(s@),
            None => root_text(v@) is None,
        },
{
    match v.get_str("content") {
        Some(s) => Some(s),
        None => match v.get_array("content") {
            Some(a) => first_text_of(a),
            None => None,
        },
    }
}

fn user_raw_text_of(v: &Json) -> (r: Option<String>)
    ensures
        match r {
            Some(s) => user_raw_text(v@) == Some(s@),
            None => user_raw_text(v@) is None,
        },
{
    let nested = match v.get("message") {
        Some(m) => m.get_array("content"),
        None => None,
    };
    match nested {
        Some(arr) => match first_text_of(arr) {
            Some(t) => Some(t),
            None => root_text_of(v),
        },
        None => root_text_of(v),
    }
}

/// `read_jsonl_preview`, from the transcript's lines: the preview of the
/// first user message that has one, and the names of all attachments.
pub fn read_jsonl_preview(lines: &Vec<JsonlLine>) -> (r: (String, Vec<String>))
    ensures
        (r.0@, views(r.1@)) == jsonl_preview(line_views(lines@)),
{
    let ghost lv = line_views(lines@);
    let mut preview = String::new();
    let mut files: Vec<String> = Vec::new();
    proof {
        assert(lv.take(0) =~= Seq::<LineV>::empty());
        assert(views(files@) =~= Seq::<Seq<char>>::empty());
    }
    let mut i: usize = 0;
    while i < lines.len()
        invariant
            i <= lines@.len(),
            lv == line_views(lines@),
            lv.len() == lines@.len(),
            (preview@, views(files@)) == jsonl_preview(lv.take(i as int)),
        decreases lines.len() - i,
    {
        proof {
            assert(lv.take(i + 1).drop_last() =~= lv.take(i as int));
            assert(lv.take(i + 1).last() == line_view(lines@[i as int]));
        }
        match &lines[i] {
            JsonlLine::Parsed(v) => {
                let is_user = match v.get_str("role") {
                    Some(r) => text::str_eq(r.as_str(), "user"),
                    None => false,
                };
                if is_user && text::str_is_empty(preview.as_str()) {
                    match user_raw_text_of(v) {
                        Some(t) => {
                            preview = transcript::clean_user_preview(t.as_str());
                        },
                        None => {},
                    }
                }
                let names = attachments_of(v);
                let ghost before = views(files@);
                let mut k: usize = 0;
                while k < names.len()
                    invariant
                        k <= names@.len(),
                        views(files@) == before + views(names@).take(k as int),
                    decreases names.len() - k,
                {
                    let ghost fb = files@;
                    files.push(names[k].clone());
                    proof {
                        text::lemma_views_push(fb, names@[k as int]);
                        assert(views(names@).take(k + 1) =~= views(names@).take(k as int).push(
                            names@[k as int]@,
                        ));
                    }
                    k = k + 1;
                }
                proof {
                    assert(views(names@).take(k as int) =~= views(names@));
                    if get_array(v@, "attachments"@) is None {
                        assert(views(files@) =~= before);
                    }
                }
            },
            _ => {},
        }
        i = i + 1;
    }
    proof {
        assert(lv.take(i as int) =~= lv);
    }
    (preview, files)
}

/// The most UTF-8 bytes of text a session's search snippet holds.
pub const INDEXABLE_MAX_CHARS: usize = 2000;

/// The searchable pieces of one line: its cleaned non-empty text items
/// (`message.content`, else `content` as an array), else its cleaned
/// `content` string; the role is `user` when absent.
pub open spec fn line_pieces(v: JsonV) -> Seq<Seq<char>> {
    let role = str_or(get_str(v, "role"@), "user"@);
    match content_items(v) {
        Some(items) => text_parts(role, items),
        None => match get_str(v, "content"@) {
            Some(raw) => if cleaned_for(role, raw).len() > 0 {
                seq![cleaned_for(role, raw)]
            } else {
                seq![]
            },
            None => seq![],
        },
    }
}

/// The searchable pieces of all lines, in order.
pub open spec fn pieces_of(lines: Seq<LineV>) -> Seq<Seq<char>>
    decreases lines.len(),
{
    if lines.len() == 0 {
        seq![]
    } else {
        (match lines[0] {
            LineV::Parsed(v) => line_pieces(v),
            _ => seq![],
        }) + pieces_of(lines.drop_first())
    }
}

/// `pieces` appended to `buf`, one per line, while they fit in
/// `INDEXABLE_MAX_CHARS` bytes; the first that does not fit is cut to the
/// room left (never inside a character) and ends the snippet.
pub open spec fn cap_join(buf: Seq<char>, pieces: Seq<Seq<char>>) -> Seq<char>
    decreases pieces.len(),
{
    if pieces.len() == 0 {
        buf
    } else {
        let p = pieces[0];
        let used = utf8_len(buf) + if buf.len() == 0 {
            0nat
        } else {
            1nat
        };
        if used + utf8_len(p) > 2000 {
            if used < 2000 {
                buf + byte_prefix(p, (2000 - used) as nat)
            } else {
                buf
            }
        } else {
            cap_join(
                if buf.len() == 0 {
                    p
                } else {
                    buf + "\n"@ + p
                },
                pieces.drop_first(),
            )
        }
    }
}

proof fn lemma_utf8_len_add(a: Seq<char>, b: Seq<char>)
    ensures
        utf8_len(a + b) == utf8_len(a) + utf8_len(b),
    decreases b.len(),
{
    if b.len() > 0 {
        lemma_utf8_len_add(a, b.drop_last());
        assert((a + b).drop_last() =~= a + b.drop_last());
        assert((a + b).last() == b.last());
    } else {
        assert(a + b =~= a);
    }
}

proof fn lemma_newline_len()
    ensures
        utf8_len("\n"@) == 1,
{
    reveal_strlit("\n");
    assert("\n"@.len() == 1);
    assert("\n"@.drop_last() =~= Seq::<char>::empty());
    assert("\n"@.last() == '\n');
    assert(utf8_len("\n"@.drop_last()) == 0);
    assert(transcript::utf8_width("\n"@.last()) == 1);
}

proof fn lemma_utf8_len_zero(s: Seq<char>)
    ensures
        (utf8_len(s) == 0) == (s.len() == 0),
    decreases s.len(),
{
    if s.len() > 0 {
        lemma_utf8_len_zero(s.drop_last());
    }
}

/// The UTF-8 length of `s` when it is at most `limit`.
fn utf8_len_within(s: &str, limit: usize) -> (r: Option<usize>)
    ensures
        match r {
            Some(n) => n == utf8_len(s@) && n <= limit,
            None => utf8_len(s@) > limit,
        },
{
    let cs = text::to_chars(s);
    let mut i: usize = 0;
    let mut used: usize = 0;
    assert(cs@.take(0) =~= Seq::<char>::empty());
    while i < cs.len()
        invariant
            i <= cs@.len(),
            cs@ == s@,
            used == utf8_len(cs@.take(i as int)),
            used <= limit,
        decreases cs.len() - i,
    {
        proof {
            assert(cs@.take(i + 1).drop_last() =~= cs@.take(i as int));
        }
        let w = transcript::char_width(cs[i]);
        if w > limit - used {
            proof {
                lemma_utf8_len_add(cs@.take(i + 1), cs@.skip(i + 1));
                assert(cs@.take(i + 1) + cs@.skip(i + 1) =~= cs@);
            }
            return None;
        }
        used = used + w;
        i = i + 1;
    }
    assert(cs@.take(i as int) =~= cs@);
    Some(used)
}

fn line_pieces_of(v: &Json) -> (r: Vec<String>)
    ensures
        views(r@) == line_pieces(v@),
{
    let role = match v.get_str("role") {
        Some(r) => r,
        None => text::owned("user"),
    };
    match content_of(v) {
        Some(items) => {
            let (parts, _tools) = parts_and_tools(&role, items);
            parts
        },
        None => {
            let mut out: Vec<String> = Vec::new();
            match v.get_str("content") {
                Some(raw) => {
                    let c = clean_for(&role, raw.as_str());
                    if !text::str_is_empty(c.as_str()) {
                        out.push(c);
                    }
                },
                None => {},
            }
            assert(views(out@) =~= line_pieces(v@));
            out
        },
    }
}

/// `read_jsonl_indexable`, from the transcript's lines: the searchable
/// texts joined by newlines, at most `INDEXABLE_MAX_CHARS` bytes of UTF-8,
/// the last one cut at a character boundary when it does not fit.
pub fn read_jsonl_indexable(lines: &Vec<JsonlLine>) -> (r: String)
    ensures
        r@ == cap_join(seq![], pieces_of(line_views(lines@))),
{
    let ghost lv = line_views(lines@);
    let ghost target = cap_join(seq![], pieces_of(lv));
    let mut buf = String::new();
    let mut buf_bytes: usize = 0;
    proof {
        assert(lv.skip(0) =~= lv);
    }
    let mut i: usize = 0;
    while i < lines.len()
        invariant
            i <= lines@.len(),
            lv == line_views(lines@),
            lv.len() == lines@.len(),
            target == cap_join(seq![], pieces_of(lv)),
            target == cap_join(buf@, pieces_of(lv.skip(i as int))),
            buf_bytes == utf8_len(buf@),
            buf_bytes <= INDEXABLE_MAX_CHARS,
        decreases lines.len() - i,
    {
        let ghost rest = pieces_of(lv.skip(i + 1));
        proof {
            assert(lv.skip(i as int)[0] == line_view(lines@[i as int]));
            assert(lv.skip(i as int).drop_first() =~= lv.skip(i + 1));
        }
        match &lines[i] {
            JsonlLine::Parsed(v) => {
                let pieces = line_pieces_of(v);
                let ghost pv = views(pieces@);
                proof {
                    assert(pv.skip(0) + rest =~= pv + rest);
                }
                let mut k: usize = 0;
                while k < pieces.len()
                    invariant
                        k <= pieces@.len(),
                        lv == line_views(lines@),
                        target == cap_join(seq![], pieces_of(lv)),
                        pv == views(pieces@),
                        pv.len() == pieces@.len(),
                        target == cap_join(buf@, pv.skip(k as int) + rest),
                        buf_bytes == utf8_len(buf@),
                        buf_bytes <= INDEXABLE_MAX_CHARS,
                    decreases pieces.len() - k,
                {
                    let p = &pieces[k];
                    let ghost all = pv.skip(k as int) + rest;
                    proof {
                        assert(all[0] == p@);
                        assert(all.drop_first() =~= pv.skip(k + 1) + rest);
                        lemma_utf8_len_zero(buf@);
                    }
                    let sep: usize = if buf_bytes == 0 {
                        0
                    } else {
                        1
                    };
                    let used = buf_bytes + sep;
                    let fits = if used <= INDEXABLE_MAX_CHARS {
                        utf8_len_within(p.as_str(), INDEXABLE_MAX_CHARS - used)
                    } else {
                        None
                    };
                    match fits {
                        Some(n) => {
                            let ghost old_buf = buf@;
                            if buf_bytes == 0 {
                                buf = p.clone();
                            } else {
                                let nb = text::concat3(buf.as_str(), "\n", p.as_str());
                                buf = nb;
                            }
                            proof {
                                reveal_strlit("\n");
                                if old_buf.len() > 0 {
                                    lemma_utf8_len_add(old_buf, "\n"@);
                                    lemma_utf8_len_add(old_buf + "\n"@, p@);
                                    lemma_newline_len();
                                }
                            }
                            buf_bytes = used + n;
                        },
                        None => {
                            assert(utf8_len(buf@) + sep + utf8_len(p@) > 2000);
                            assert(target == (if used < 2000 {
                                buf@ + byte_prefix(p@, (2000 - used) as nat)
                            } else {
                                buf@
                            }));
                            if used < INDEXABLE_MAX_CHARS {
                                let room = INDEXABLE_MAX_CHARS - used;
                                let cut = transcript::truncate_to_char_boundary(p.as_str(), room);
                                let nb = text::concat2(buf.as_str(), cut.as_str());
                                assert(nb@ == buf@ + byte_prefix(p@, (2000 - used) as nat));
                                return nb;
                            }
                            return buf;
                        },
                    }
                    k = k + 1;
                }
                proof {
                    assert(pv.skip(k as int) + rest =~= rest);
                }
            },
            _ => {
                proof {
                    assert(Seq::<Seq<char>>::empty() + rest =~= rest);
                }
            },
        }
        i = i + 1;
    }
    proof {
        assert(lv.skip(i as int).len() == 0);
        assert(pieces_of(lv.skip(i as int)) =~= Seq::<Seq<char>>::empty());
    }
    buf
}

// ── From the body of a transcript ─────────────────────────────

/// The model of one line of a body: blank once trimmed, JSON, or not.
pub open spec fn line_of(l: Seq<char>) -> LineV {
    if trim(l).len() == 0 {
        LineV::Blank
    } else {
        match json_codec::parsed_json(l) {
            Some(v) => LineV::Parsed(v),
            None => LineV::Malformed,
        }
    }
}

/// `jsonl_lines`: the lines of a transcript body (`str::lines`), each
/// blank, parsed as JSON, or malformed.
pub fn jsonl_lines(body: &str) -> (r: Vec<JsonlLine>)
    ensures
        line_views(r@) == text::lines(body@).map_values(|l: Seq<char>| line_of(l)),
{
    let cs = text::to_chars(body);
    let ls = text::lines_of(&cs);
    let ghost target = text::lines(body@).map_values(|l: Seq<char>| line_of(l));
    let mut out: Vec<JsonlLine> = Vec::new();
    let mut i: usize = 0;
    proof {
        assert(line_views(out@) =~= target.take(0));
    }
    while i < ls.len()
        invariant
            i <= ls@.len(),
            cs@ == body@,
            ls@.len() == text::lines(cs@).len(),
            forall|k: int| 0 <= k < ls@.len() ==> (#[trigger] ls@[k])@ == text::lines(cs@)[k],
            target == text::lines(body@).map_values(|l: Seq<char>| line_of(l)),
            line_views(out@) == target.take(i as int),
        decreases ls.len() - i,
    {
        let line = text::from_chars(&ls[i]);
        let item = if text::str_is_blank(line.as_str()) {
            JsonlLine::Blank
        } else {
            match json_codec::parse_json(line.as_str()) {
                Some(v) => JsonlLine::Parsed(v),
                None => JsonlLine::Malformed,
            }
        };
        let ghost iv = line_view(item);
        let ghost before = out@;
        out.push(item);
        proof {
            assert(line@ == text::lines(body@)[i as int]);
            assert(iv == line_of(line@));
            assert(line_views(out@) =~= line_views(before).push(iv));
            assert(target.take(i + 1) =~= target.take(i as int).push(iv));
        }
        i = i + 1;
    }
    proof {
        assert(target.take(i as int) =~= target);
    }
    out
}

} // verus!
