//! Layer 2 blobs (the CLI's `store.db`) that hold a bubble as JSON: the
//! library's own full bubble shape, or the `{role, text, createdAt}` shape
//! older writers used.
use vstd::prelude::*;

use crate::bubble::{self, Bubble, BubbleToolUse, BubbleV, ToolUseV, bubble_views};
use crate::inject;
use crate::json::{self, Json, JsonV};
use crate::json_codec::{self, parsed_json};
use crate::text::{self, views};

verus! {

/// A `tool_calls` entry: its `name`, with its `input` when present.
pub open spec fn canonical_tool(tc: JsonV) -> Option<ToolUseV> {
    match json::get_str(tc, "name"@) {
        Some(n) => Some(ToolUseV { name: n, input: json::get(tc, "input"@) }),
        None => None,
    }
}

/// The entries of `tool_calls` that name a tool.
pub open spec fn canonical_tools(items: Seq<JsonV>) -> Seq<ToolUseV>
    decreases items.len(),
{
    if items.len() == 0 {
        seq![]
    } else {
        let rest = canonical_tools(items.drop_last());
        match canonical_tool(items.last()) {
            Some(t) => rest.push(t),
            None => rest,
        }
    }
}

/// The entries of `files` that are strings.
pub open spec fn canonical_files(items: Seq<JsonV>) -> Seq<Seq<char>>
    decreases items.len(),
{
    if items.len() == 0 {
        seq![]
    } else {
        let rest = canonical_files(items.drop_last());
        match json::as_str(items.last()) {
            Some(f) => rest.push(f),
            None => rest,
        }
    }
}

/// A JSON value as a full bubble: a user or assistant `role`, with text,
/// tool calls or files to show.
pub open spec fn canonical_bubble(v: JsonV) -> Option<BubbleV> {
    match json::get_str(v, "role"@) {
        Some(role) => if role != "user"@ && role != "assistant"@ {
            None
        } else {
            let text = json::str_or(json::get_str(v, "text"@), seq![]);
            let tools = match json::get_array(v, "tool_calls"@) {
                Some(a) => canonical_tools(a),
                None => seq![],
            };
            let files = match json::get_array(v, "files"@) {
                Some(a) => canonical_files(a),
                None => seq![],
            };
            if text::trim(text).len() == 0 && tools.len() == 0 && files.len() == 0 {
                None
            } else {
                Some(
                    BubbleV {
                        id: json::str_or(json::get_str(v, "id"@), seq![]),
                        role,
                        text,
                        tool_calls: tools,
                        files,
                        images: seq![],
                        created_at_ms: json::i64_or(json::get_i64(v, "createdAt"@), 0),
                        parent_bubble_id: None,
                    },
                )
            }
        },
        None => None,
    }
}

/// The bubble a Layer 2 blob holds, its id derived from the session,
/// role, time and ordinal when the blob names none.
pub open spec fn l2_blob_bubble(uuid: Seq<char>, v: JsonV, ordinal: nat) -> Option<BubbleV> {
    match canonical_bubble(v) {
        Some(b) => Some(
            if b.id.len() == 0 {
                BubbleV {
                    id: inject::bubble_id_spec(uuid, b.role, b.created_at_ms, ordinal as u64),
                    ..b
                }
            } else {
                b
            },
        ),
        None => None,
    }
}

/// The bubble of blob bytes: UTF-8 JSON that holds one.
pub open spec fn l2_bytes_bubble(uuid: Seq<char>, bytes: Seq<u8>, ordinal: nat) -> Option<BubbleV> {
    if vstd::utf8::valid_utf8(bytes) {
        match parsed_json(vstd::utf8::decode_utf8(bytes)) {
            Some(v) => l2_blob_bubble(uuid, v, ordinal),
            None => None,
        }
    } else {
        None
    }
}

/// `try_decode_canonical_bubble`.
fn try_decode_canonical_bubble(v: &Json) -> (r: Option<Bubble>)
    ensures
        match r {
            Some(b) => canonical_bubble(v@) == Some(b@),
            None => canonical_bubble(v@) is None,
        },
{
    let role = match v.get_str("role") {
        Some(r) => r,
        None => return None,
    };
    if !text::str_eq(role.as_str(), "user") && !text::str_eq(role.as_str(), "assistant") {
        return None;
    }
    let text = match v.get_str("text") {
        Some(t) => t,
        None => String::new(),
    };
    let created_at_ms = match v.get_i64("createdAt") {
        Some(t) => t,
        None => 0,
    };
    let id = match v.get_str("id") {
        Some(i) => i,
        None => String::new(),
    };
    let mut tool_calls: Vec<BubbleToolUse> = Vec::new();
    match v.get_array("tool_calls") {
        Some(arr) => {
            let ghost av = json::items_view(arr@);
            proof {
                json::lemma_items_view(arr@);
                assert(av.take(0) =~= Seq::<JsonV>::empty());
                assert(bubble::tool_views(tool_calls@) =~= Seq::<ToolUseV>::empty());
            }
            let mut i: usize = 0;
            while i < arr.len()
                invariant
                    i <= arr@.len(),
                    av == json::items_view(arr@),
                    av.len() == arr@.len(),
                    forall|k: int| 0 <= k < arr@.len() ==> #[trigger] av[k] == arr@[k]@,
                    bubble::tool_views(tool_calls@) == canonical_tools(av.take(i as int)),
                decreases arr.len() - i,
            {
                proof {
                    assert(av.take(i + 1).drop_last() =~= av.take(i as int));
                    assert(av.take(i + 1).last() == arr@[i as int]@);
                }
                match arr[i].get_str("name") {
                    Some(name) => {
                        let input = match arr[i].get("input") {
                            Some(x) => Some(x.clone()),
                            None => None,
                        };
                        let t = BubbleToolUse { name, input };
                        let ghost before = tool_calls@;
                        tool_calls.push(t);
                        assert(bubble::tool_views(tool_calls@) =~= bubble::tool_views(before).push(
                            t@,
                        ));
                    },
                    None => {},
                }
                i = i + 1;
            }
            proof {
                assert(av.take(i as int) =~= av);
            }
        },
        None => {
            assert(bubble::tool_views(tool_calls@) =~= Seq::<ToolUseV>::empty());
        },
    }
    let mut files: Vec<String> = Vec::new();
    match v.get_array("files") {
        Some(arr) => {
            let ghost av = json::items_view(arr@);
            proof {
                json::lemma_items_view(arr@);
                assert(av.take(0) =~= Seq::<JsonV>::empty());
                assert(views(files@) =~= Seq::<Seq<char>>::empty());
            }
            let mut i: usize = 0;
            while i < arr.len()
                invariant
                    i <= arr@.len(),
                    av == json::items_view(arr@),
                    av.len() == arr@.len(),
                    forall|k: int| 0 <= k < arr@.len() ==> #[trigger] av[k] == arr@[k]@,
                    views(files@) == canonical_files(av.take(i as int)),
                decreases arr.len() - i,
            {
                proof {
                    assert(av.take(i + 1).drop_last() =~= av.take(i as int));
                    assert(av.take(i + 1).last() == arr@[i as int]@);
                }
                match arr[i].as_str() {
                    Some(f) => {
                        let ghost before = files@;
                        let fs = text::owned(f);
                        files.push(fs);
                        proof {
                            text::lemma_views_push(before, fs);
                        }
                    },
                    None => {},
                }
                i = i + 1;
            }
            proof {
                assert(av.take(i as int) =~= av);
            }
        },
        None => {
            assert(views(files@) =~= Seq::<Seq<char>>::empty());
        },
    }
    if text::str_is_blank(text.as_str()) && tool_calls.len() == 0 && files.len() == 0 {
        return None;
    }
    let b = Bubble {
        id,
        role,
        text,
        tool_calls,
        files,
        images: Vec::new(),
        created_at_ms,
        parent_bubble_id: None,
    };
    assert(b@.images =~= seq![]);
    Some(b)
}

/// `decode_l2_blob`, from the parsed blob: a full bubble (its id kept, or
/// derived when empty), else a `{role, text, createdAt}` bubble (named by
/// the blob id, or a derived id when that is empty).
fn decode_l2_blob_json(uuid: &str, blob_id: &str, v: &Json, ordinal: usize) -> (r: Option<Bubble>)
    ensures
        match r {
            Some(b) => l2_blob_bubble(uuid@, v@, ordinal as nat) == Some(b@),
            None => l2_blob_bubble(uuid@, v@, ordinal as nat) is None,
        },
{
    match try_decode_canonical_bubble(v) {
        Some(b) => {
            if text::str_is_empty(b.id.as_str()) {
                let id = inject::deterministic_bubble_id(uuid, b.role.as_str(), b.created_at_ms, ordinal);
                return Some(Bubble { id, ..b });
            }
            return Some(b);
        },
        None => {},
    }
    let role = match v.get_str("role") {
        Some(r) => r,
        None => return None,
    };
    if !text::str_eq(role.as_str(), "user") && !text::str_eq(role.as_str(), "assistant") {
        return None;
    }
    let text_body = match v.get_str("text") {
        Some(t) => t,
        None => String::new(),
    };
    if text::str_is_blank(text_body.as_str()) {
        return None;
    }
    let created_at_ms = match v.get_i64("createdAt") {
        Some(t) => t,
        None => 0,
    };
    let id = if text::str_is_empty(blob_id) {
        inject::deterministic_bubble_id(uuid, role.as_str(), created_at_ms, ordinal)
    } else {
        text::owned(blob_id)
    };
    Some(
        Bubble {
            id,
            role,
            text: text_body,
            tool_calls: Vec::new(),
            files: Vec::new(),
            images: Vec::new(),
            created_at_ms,
            parent_bubble_id: None,
        },
    )
}

/// `decode_l2_blob`: the bubble that a blob's bytes hold as UTF-8 JSON.
pub fn decode_l2_blob(uuid: &str, blob_id: &str, bytes: &[u8], ordinal: usize) -> (r: Option<Bubble>)
    ensures
        match r {
            Some(b) => l2_bytes_bubble(uuid@, bytes@, ordinal as nat) == Some(b@),
            None => l2_bytes_bubble(uuid@, bytes@, ordinal as nat) is None,
        },
{
    let text = match text::utf8_text(bytes) {
        Some(t) => t,
        None => return None,
    };
    let v = match json_codec::parse_json(text.as_str()) {
        Some(v) => v,
        None => return None,
    };
    decode_l2_blob_json(uuid, blob_id, &v, ordinal)
}

/// The model of the blobs read from `store.db`: each id, with its bytes
/// where they could be read.
pub open spec fn blob_rows_view(rows: Seq<(String, Option<Vec<u8>>)>) -> Seq<(Seq<char>, Option<Seq<u8>>)> {
    rows.map_values(
        |r: (String, Option<Vec<u8>>)|
            (
                r.0@,
                match r.1 {
                    Some(b) => Some(b@),
                    None => None,
                },
            ),
    )
}

/// The bubbles of a session's blobs, in blob order, each blob's ordinal
/// its position among all the blobs.
pub open spec fn l2_bubbles(uuid: Seq<char>, rows: Seq<(Seq<char>, Option<Seq<u8>>)>) -> Seq<BubbleV>
    decreases rows.len(),
{
    if rows.len() == 0 {
        seq![]
    } else {
        let rest = l2_bubbles(uuid, rows.drop_last());
        match rows.last().1 {
            Some(bytes) => match l2_bytes_bubble(uuid, bytes, (rows.len() - 1) as nat) {
                Some(b) => rest.push(b),
                None => rest,
            },
            None => rest,
        }
    }
}

/// `read_layer2_bubbles`, from the session's blobs as read: the bubbles
/// of the blobs that hold one, in order.
pub fn read_layer2_bubbles(uuid: &str, blobs: &Vec<(String, Option<Vec<u8>>)>) -> (r: Vec<Bubble>)
    ensures
        bubble_views(r@) == l2_bubbles(uuid@, blob_rows_view(blobs@)),
{
    let ghost rv = blob_rows_view(blobs@);
    let mut out: Vec<Bubble> = Vec::new();
    let mut i: usize = 0;
    proof {
        assert(rv.take(0) =~= Seq::<(Seq<char>, Option<Seq<u8>>)>::empty());
        assert(bubble_views(out@) =~= Seq::<BubbleV>::empty());
    }
    while i < blobs.len()
        invariant
            i <= blobs@.len(),
            rv == blob_rows_view(blobs@),
            rv.len() == blobs@.len(),
            bubble_views(out@) == l2_bubbles(uuid@, rv.take(i as int)),
        decreases blobs.len() - i,
    {
        proof {
            assert(rv.take(i + 1).drop_last() =~= rv.take(i as int));
            assert(rv.take(i + 1).last() == rv[i as int]);
            assert(rv.take(i + 1).len() == i + 1);
        }
        match &blobs[i].1 {
            Some(bytes) => match decode_l2_blob(uuid, blobs[i].0.as_str(), bytes.as_slice(), i) {
                Some(b) => {
                    let ghost before = out@;
                    out.push(b);
                    assert(bubble_views(out@) =~= bubble_views(before).push(b@));
                },
                None => {},
            },
            None => {},
        }
        i = i + 1;
    }
    proof {
        assert(rv.take(i as int) =~= rv);
    }
    out
}

} // verus!
