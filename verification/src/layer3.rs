//! Layer 3 bubble rows (`bubbleId:<uuid>:<bid>` in Cursor Desktop's
//! `state.vscdb`): how one row's JSON becomes a bubble, its display text
//! gathered from the many places Cursor keeps it.
use vstd::prelude::*;

use crate::bubble::{self, bubble_views, Bubble, BubbleToolUse, BubbleV, ToolUseV};
use crate::conflict;
use crate::json::{self, Json, JsonV};
use crate::json_codec::{self, parsed_json, pretty_json};
use crate::text::{self, views};
use crate::transcript::{self, utf8_len};

verus! {

/// The views of string slices.
pub open spec fn str_views(s: Seq<&str>) -> Seq<Seq<char>> {
    s.map_values(|k: &str| k@)
}

/// `Some(j@)` for `Some(j)`.
pub open spec fn opt_view(o: Option<Json>) -> Option<JsonV> {
    match o {
        Some(j) => Some(j@),
        None => None,
    }
}

/// The first of `keys` whose member of `params` is a string that is not
/// blank; empty when there is none.
pub open spec fn param_of(params: JsonV, keys: Seq<Seq<char>>) -> Seq<char>
    decreases keys.len(),
{
    if keys.len() == 0 {
        seq![]
    } else {
        match json::get_str(params, keys[0]) {
            Some(s) => if text::trim(s).len() > 0 {
                s
            } else {
                param_of(params, keys.drop_first())
            },
            None => param_of(params, keys.drop_first()),
        }
    }
}

/// The first of `keys` whose member of `v` is a string.
pub open spec fn first_str(v: JsonV, keys: Seq<Seq<char>>) -> Option<Seq<char>>
    decreases keys.len(),
{
    if keys.len() == 0 {
        None
    } else {
        match json::get_str(v, keys[0]) {
            Some(s) => Some(s),
            None => first_str(v, keys.drop_first()),
        }
    }
}

/// Tool parameters held by one member: a JSON text that parses, or an
/// object as it is.
pub open spec fn params_value(p: Option<JsonV>) -> Option<JsonV> {
    match p {
        Some(JsonV::Str(s)) => parsed_json(s),
        Some(JsonV::Object(e)) => Some(JsonV::Object(e)),
        _ => None,
    }
}

/// A tool call's parameters: from `params`, else from `rawArgs`.
pub open spec fn tool_params(tool: JsonV) -> Option<JsonV> {
    match params_value(json::get(tool, "params"@)) {
        Some(v) => Some(v),
        None => params_value(json::get(tool, "rawArgs"@)),
    }
}

/// `thinking.text` when it is not blank.
pub open spec fn thinking_text(v: JsonV) -> Option<Seq<char>> {
    match json::get(v, "thinking"@) {
        Some(t) => match json::get_str(t, "text"@) {
            Some(s) => if text::trim(s).len() > 0 {
                Some(s)
            } else {
                None
            },
            None => None,
        },
        None => None,
    }
}

/// One code block as text: its content, fenced with its language when it
/// names one; nothing for a block without content or with blank content.
pub open spec fn code_block_part(cb: JsonV) -> Option<Seq<char>> {
    match json::get_str(cb, "content"@) {
        Some(c) => if text::trim(c).len() == 0 {
            None
        } else {
            let lang = json::str_or(json::get_str(cb, "languageId"@), seq![]);
            if lang.len() == 0 {
                Some(c)
            } else {
                Some("```"@ + lang + "\n"@ + c + "\n```"@)
            }
        },
        None => None,
    }
}

/// The texts of a sequence of code blocks.
pub open spec fn block_parts(blocks: Seq<JsonV>) -> Seq<Seq<char>>
    decreases blocks.len(),
{
    if blocks.len() == 0 {
        seq![]
    } else {
        let rest = block_parts(blocks.drop_last());
        match code_block_part(blocks.last()) {
            Some(p) => rest.push(p),
            None => rest,
        }
    }
}

/// The texts of a bubble's `codeBlocks`.
pub open spec fn code_block_parts(v: JsonV) -> Seq<Seq<char>> {
    match json::get_array(v, "codeBlocks"@) {
        Some(b) => block_parts(b),
        None => seq![],
    }
}

/// The `diffString`s of a diff's chunks.
pub open spec fn diff_strings(chunks: Seq<JsonV>) -> Seq<Seq<char>>
    decreases chunks.len(),
{
    if chunks.len() == 0 {
        seq![]
    } else {
        let rest = diff_strings(chunks.drop_last());
        match json::get_str(chunks.last(), "diffString"@) {
            Some(s) => rest.push(s),
            None => rest,
        }
    }
}

/// A diff as text: its chunks' diff strings, one per line; nothing when
/// it has none.
pub open spec fn diff_block(diff: JsonV) -> Option<Seq<char>> {
    match json::get_array(diff, "chunks"@) {
        Some(c) => if diff_strings(c).len() == 0 {
            None
        } else {
            Some(text::join_with(diff_strings(c), "\n"@))
        },
        None => None,
    }
}

fn push_line(lines: &mut Vec<String>, s: String)
    ensures
        views(final(lines)@) == views(old(lines)@).push(s@),
{
    let ghost before = lines@;
    lines.push(s);
    proof {
        text::lemma_views_push(before, s);
    }
}

/// `l3_get_param`: the first of `keys` whose parameter is a non-blank
/// string, or empty.
fn l3_get_param(params: &Json, keys: &[&str]) -> (r: String)
    ensures
        r@ == param_of(params@, str_views(keys@)),
{
    let ghost ks = str_views(keys@);
    let mut i: usize = 0;
    proof {
        assert(ks.skip(0) =~= ks);
    }
    while i < keys.len()
        invariant
            i <= keys@.len(),
            ks == str_views(keys@),
            ks.len() == keys@.len(),
            param_of(params@, ks) == param_of(params@, ks.skip(i as int)),
        decreases keys.len() - i,
    {
        proof {
            assert(ks.skip(i as int).drop_first() =~= ks.skip(i + 1));
            assert(ks.skip(i as int)[0] == keys@[i as int]@);
        }
        match params.get_str(keys[i]) {
            Some(s) => {
                if !text::str_is_blank(s.as_str()) {
                    return s;
                }
            },
            None => {},
        }
        i = i + 1;
    }
    proof {
        assert(ks.skip(i as int).len() == 0);
    }
    String::new()
}

/// The first of `keys` whose member of `v` is a string.
fn l3_first_str(v: &Json, keys: &[&str]) -> (r: Option<String>)
    ensures
        match r {
            Some(s) => first_str(v@, str_views(keys@)) == Some(s@),
            None => first_str(v@, str_views(keys@)) is None,
        },
{
    let ghost ks = str_views(keys@);
    let mut i: usize = 0;
    proof {
        assert(ks.skip(0) =~= ks);
    }
    while i < keys.len()
        invariant
            i <= keys@.len(),
            ks == str_views(keys@),
            ks.len() == keys@.len(),
            first_str(v@, ks) == first_str(v@, ks.skip(i as int)),
        decreases keys.len() - i,
    {
        proof {
            assert(ks.skip(i as int).drop_first() =~= ks.skip(i + 1));
            assert(ks.skip(i as int)[0] == keys@[i as int]@);
        }
        match v.get_str(keys[i]) {
            Some(s) => {
                return Some(s);
            },
            None => {},
        }
        i = i + 1;
    }
    proof {
        assert(ks.skip(i as int).len() == 0);
    }
    None
}

fn params_from(p: Option<&Json>) -> (r: Option<Json>)
    ensures
        opt_view(r) == params_value(match p {
            Some(j) => Some(j@),
            None => None,
        }),
{
    match p {
        Some(j) => match j {
            Json::Str(s) => json_codec::parse_json(s.as_str()),
            Json::Object(_) => Some(j.clone()),
            _ => None,
        },
        None => None,
    }
}

/// `l3_parse_tool_params`: `toolFormerData.params` (a JSON text or an
/// object), else `rawArgs`.
fn l3_parse_tool_params(tool: &Json) -> (r: Option<Json>)
    ensures
        opt_view(r) == tool_params(tool@),
{
    match params_from(tool.get("params")) {
        Some(v) => Some(v),
        None => params_from(tool.get("rawArgs")),
    }
}

/// `l3_extract_thinking_text`: the thinking text when it is not blank.
fn l3_extract_thinking_text(v: &Json) -> (r: Option<String>)
    ensures
        match r {
            Some(s) => thinking_text(v@) == Some(s@),
            None => thinking_text(v@) is None,
        },
{
    match v.get("thinking") {
        Some(t) => match t.get_str("text") {
            Some(s) => if !text::str_is_blank(s.as_str()) {
                Some(s)
            } else {
                None
            },
            None => None,
        },
        None => None,
    }
}

fn code_block_text(cb: &Json) -> (r: Option<String>)
    ensures
        match r {
            Some(s) => code_block_part(cb@) == Some(s@),
            None => code_block_part(cb@) is None,
        },
{
    let content = match cb.get_str("content") {
        Some(c) => c,
        None => return None,
    };
    if text::str_is_blank(content.as_str()) {
        return None;
    }
    let lang = match cb.get_str("languageId") {
        Some(l) => l,
        None => String::new(),
    };
    if text::str_is_empty(lang.as_str()) {
        return Some(content);
    }
    let a = text::concat3("```", lang.as_str(), "\n");
    let r = text::concat3(a.as_str(), content.as_str(), "\n```");
    proof {
        assert(r@ =~= "```"@ + lang@ + "\n"@ + content@ + "\n```"@);
    }
    Some(r)
}

/// `l3_extract_code_block_parts`: each code block's content, fenced with
/// its language when it names one.
fn l3_extract_code_block_parts(v: &Json) -> (r: Vec<String>)
    ensures
        views(r@) == code_block_parts(v@),
{
    let mut out: Vec<String> = Vec::new();
    let blocks = match v.get_array("codeBlocks") {
        Some(b) => b,
        None => {
            proof {
                assert(views(out@) =~= Seq::<Seq<char>>::empty());
            }
            return out;
        },
    };
    let ghost bv = json::items_view(blocks@);
    proof {
        json::lemma_items_view(blocks@);
        assert(bv.take(0) =~= Seq::<JsonV>::empty());
        assert(views(out@) =~= Seq::<Seq<char>>::empty());
    }
    let mut i: usize = 0;
    while i < blocks.len()
        invariant
            i <= blocks@.len(),
            bv == json::items_view(blocks@),
            bv.len() == blocks@.len(),
            forall|k: int| 0 <= k < blocks@.len() ==> #[trigger] bv[k] == blocks@[k]@,
            views(out@) == block_parts(bv.take(i as int)),
        decreases blocks.len() - i,
    {
        proof {
            assert(bv.take(i + 1).drop_last() =~= bv.take(i as int));
            assert(bv.take(i + 1).last() == blocks@[i as int]@);
        }
        match code_block_text(&blocks[i]) {
            Some(p) => push_line(&mut out, p),
            None => {},
        }
        i = i + 1;
    }
    proof {
        assert(bv.take(i as int) =~= bv);
    }
    out
}

/// `l3_format_diff_block`: the diff's chunks, one per line.
fn l3_format_diff_block(diff: &Json) -> (r: Option<String>)
    ensures
        match r {
            Some(s) => diff_block(diff@) == Some(s@),
            None => diff_block(diff@) is None,
        },
{
    let chunks = match diff.get_array("chunks") {
        Some(c) => c,
        None => return None,
    };
    let ghost cv = json::items_view(chunks@);
    let mut parts: Vec<String> = Vec::new();
    proof {
        json::lemma_items_view(chunks@);
        assert(cv.take(0) =~= Seq::<JsonV>::empty());
        assert(views(parts@) =~= Seq::<Seq<char>>::empty());
    }
    let mut i: usize = 0;
    while i < chunks.len()
        invariant
            i <= chunks@.len(),
            cv == json::items_view(chunks@),
            cv.len() == chunks@.len(),
            forall|k: int| 0 <= k < chunks@.len() ==> #[trigger] cv[k] == chunks@[k]@,
            views(parts@) == diff_strings(cv.take(i as int)),
        decreases chunks.len() - i,
    {
        proof {
            assert(cv.take(i + 1).drop_last() =~= cv.take(i as int));
            assert(cv.take(i + 1).last() == chunks@[i as int]@);
        }
        match chunks[i].get_str("diffString") {
            Some(d) => push_line(&mut parts, d),
            None => {},
        }
        i = i + 1;
    }
    proof {
        assert(cv.take(i as int) =~= cv);
    }
    if parts.len() == 0 {
        None
    } else {
        Some(text::join_strings(&parts, "\n"))
    }
}

/// The label of a tool call that carries a diff.
pub open spec fn tool_label(name: Seq<char>) -> Seq<char> {
    if name == "write"@ || name == "write_file"@ {
        "Write File"@
    } else {
        "Edit File"@
    }
}

/// One line `prefix + s` when `s` is not empty, else none.
pub open spec fn opt_line(prefix: Seq<char>, s: Seq<char>) -> Seq<Seq<char>> {
    if s.len() > 0 {
        seq![prefix + s]
    } else {
        seq![]
    }
}

/// The parameters that name the file a write or edit touched.
pub open spec fn written_file_keys() -> Seq<Seq<char>> {
    seq!["relativeWorkspacePath"@, "file_path"@, "targetFile"@, "path"@]
}

/// The lines of a tool call with a diff in its result.
pub open spec fn with_result_lines(tool: JsonV, result: JsonV, diff: JsonV) -> Seq<Seq<char>> {
    let name = json::str_or(json::get_str(tool, "name"@), "write"@);
    let head = seq!["[Tool: "@ + tool_label(name) + "]"@];
    let file = match tool_params(tool) {
        Some(p) => opt_line("File: "@, param_of(p, written_file_keys())),
        None => seq![],
    };
    let d = match diff_block(diff) {
        Some(t) => seq![seq![], t],
        None => seq![],
    };
    let rfm = match json::get_str(result, "resultForModel"@) {
        Some(x) => seq![seq![], "Result: "@ + x],
        None => seq![],
    };
    head + file + d + rfm
}

/// A write or edit tool call as text: its label, file, diff and result,
/// when its result (a JSON text, `{}` when absent) holds an object `diff`
/// and there is more than the label to show.
pub open spec fn tool_with_result(tool: JsonV) -> Option<Seq<char>> {
    let result_str = json::str_or(json::get_str(tool, "result"@), "{}"@);
    match parsed_json(result_str) {
        Some(result) => match json::get(result, "diff"@) {
            Some(diff) => if diff is Object {
                let lines = with_result_lines(tool, result, diff);
                if lines.len() <= 1 {
                    None
                } else {
                    Some(text::join_with(lines, "\n"@))
                }
            } else {
                None
            },
            None => None,
        },
        None => None,
    }
}

/// `l3_format_tool_with_result`.
fn l3_format_tool_with_result(tool: &Json) -> (r: Option<String>)
    ensures
        match r {
            Some(s) => tool_with_result(tool@) == Some(s@),
            None => tool_with_result(tool@) is None,
        },
{
    let result_str = match tool.get_str("result") {
        Some(s) => s,
        None => text::owned("{}"),
    };
    let result = match json_codec::parse_json(result_str.as_str()) {
        Some(x) => x,
        None => return None,
    };
    let diff = match result.get("diff") {
        Some(d) => d,
        None => return None,
    };
    match diff {
        Json::Object(_) => {},
        _ => return None,
    }
    let name = match tool.get_str("name") {
        Some(n) => n,
        None => text::owned("write"),
    };
    let label = if text::str_eq(name.as_str(), "write") || text::str_eq(name.as_str(), "write_file") {
        "Write File"
    } else {
        "Edit File"
    };
    let mut lines: Vec<String> = Vec::new();
    push_line(&mut lines, text::concat3("[Tool: ", label, "]"));
    let ghost head = views(lines@);
    match l3_parse_tool_params(tool) {
        Some(params) => {
            let keys: [&str; 4] = ["relativeWorkspacePath", "file_path", "targetFile", "path"];
            assert(str_views(keys@) =~= written_file_keys());
            let file = l3_get_param(&params, &keys);
            if !text::str_is_empty(file.as_str()) {
                push_line(&mut lines, text::concat2("File: ", file.as_str()));
            }
        },
        None => {},
    }
    let ghost with_file = views(lines@);
    match l3_format_diff_block(diff) {
        Some(t) => {
            push_line(&mut lines, String::new());
            push_line(&mut lines, t);
        },
        None => {},
    }
    let ghost with_diff = views(lines@);
    match result.get_str("resultForModel") {
        Some(x) => {
            push_line(&mut lines, String::new());
            push_line(&mut lines, text::concat2("Result: ", x.as_str()));
        },
        None => {},
    }
    proof {
        let n = json::str_or(json::get_str(tool@, "name"@), "write"@);
        assert(head =~= seq!["[Tool: "@ + tool_label(n) + "]"@]);
        let file_part = match tool_params(tool@) {
            Some(p) => opt_line("File: "@, param_of(p, written_file_keys())),
            None => seq![],
        };
        assert(with_file =~= head + file_part);
        let d = match diff_block(diff@) {
            Some(t) => seq![seq![], t],
            None => seq![],
        };
        assert(with_diff =~= head + file_part + d);
        assert(views(lines@) =~= with_result_lines(tool@, result@, diff@));
    }
    if lines.len() <= 1 {
        return None;
    }
    Some(text::join_strings(&lines, "\n"))
}

/// `Some(j@)` for `Some(&j)`.
pub open spec fn opt_ref_view(o: Option<&Json>) -> Option<JsonV> {
    match o {
        Some(j) => Some(j@),
        None => None,
    }
}

pub open spec fn read_file_keys() -> Seq<Seq<char>> {
    seq!["targetFile"@, "path"@, "file"@, "effectiveUri"@]
}

pub open spec fn edit_file_keys() -> Seq<Seq<char>> {
    seq!["targetFile"@, "path"@, "file"@, "relativeWorkspacePath"@]
}

pub open spec fn command_keys() -> Seq<Seq<char>> {
    seq!["command"@, "cmd"@]
}

pub open spec fn pattern_keys() -> Seq<Seq<char>> {
    seq!["pattern"@, "query"@, "searchQuery"@, "regex"@]
}

pub open spec fn search_path_keys() -> Seq<Seq<char>> {
    seq!["path"@, "directory"@, "targetDirectory"@]
}

pub open spec fn directory_keys() -> Seq<Seq<char>> {
    seq!["targetDirectory"@, "path"@, "directory"@]
}

/// The diff of a parsed result, as one line when there is one.
pub open spec fn diff_line(result: JsonV) -> Seq<Seq<char>> {
    match json::get(result, "diff"@) {
        Some(d) => match diff_block(d) {
            Some(t) => seq![t],
            None => seq![],
        },
        None => seq![],
    }
}

/// What a file read's result adds: its contents and its diff.
pub open spec fn read_result_lines(tool: JsonV) -> Seq<Seq<char>> {
    match json::get_str(tool, "result"@) {
        Some(rs) => match parsed_json(rs) {
            Some(result) => (match json::get_str(result, "contents"@) {
                Some(c) => seq!["Content: "@ + c],
                None => seq![],
            }) + diff_line(result),
            None => seq![],
        },
        None => seq![],
    }
}

/// Whether a line starts with `Content:`.
pub open spec fn has_content_line(lines: Seq<Seq<char>>) -> bool {
    exists|i: int| 0 <= i < lines.len() && text::starts_with(#[trigger] lines[i], "Content:"@)
}

/// The first code block's content, for a file read that shows no content
/// yet.
pub open spec fn first_block_line(code_blocks: Option<JsonV>, lines: Seq<Seq<char>>) -> Seq<Seq<char>> {
    match code_blocks {
        Some(cb) => match json::as_array(cb) {
            Some(blocks) => if blocks.len() > 0 {
                match json::get_str(blocks[0], "content"@) {
                    Some(c) => if c.len() > 0 && !has_content_line(lines) {
                        seq!["Content: "@ + c]
                    } else {
                        seq![]
                    },
                    None => seq![],
                }
            } else {
                seq![]
            },
            None => seq![],
        },
        None => seq![],
    }
}

/// What an edit's result adds: its diff, or the result text itself when it
/// is not JSON.
pub open spec fn edit_result_lines(tool: JsonV) -> Seq<Seq<char>> {
    match json::get_str(tool, "result"@) {
        Some(rs) => match parsed_json(rs) {
            Some(result) => diff_line(result),
            None => if rs.len() > 0 {
                seq![rs]
            } else {
                seq![]
            },
        },
        None => seq![],
    }
}

/// What a command's result adds: its output when not blank.
pub open spec fn output_lines(tool: JsonV) -> Seq<Seq<char>> {
    match json::get_str(tool, "result"@) {
        Some(rs) => match parsed_json(rs) {
            Some(result) => match json::get_str(result, "output"@) {
                Some(o) => if text::trim(o).len() > 0 {
                    seq!["Output: "@ + o]
                } else {
                    seq![]
                },
                None => seq![],
            },
            None => seq![],
        },
        None => seq![],
    }
}

/// Parameters of another tool, indented, when they are a non-empty object.
pub open spec fn params_lines(params: JsonV) -> Seq<Seq<char>> {
    match params {
        JsonV::Object(e) => if e.len() > 0 {
            match pretty_json(params) {
                Some(t) => seq![t],
                None => seq![],
            }
        } else {
            seq![]
        },
        _ => seq![],
    }
}

/// Another tool's result text, when not blank.
pub open spec fn raw_result_lines(tool: JsonV) -> Seq<Seq<char>> {
    match json::get_str(tool, "result"@) {
        Some(rs) => if text::trim(rs).len() > 0 {
            seq![rs]
        } else {
            seq![]
        },
        None => seq![],
    }
}

/// The lines of a tool call's display text, by tool.
pub open spec fn tool_call_lines(tool: JsonV, code_blocks: Option<JsonV>) -> Seq<Seq<char>> {
    let name = json::str_or(json::get_str(tool, "name"@), "unknown"@);
    let params = match tool_params(tool) {
        Some(p) => p,
        None => JsonV::Object(seq![]),
    };
    let head = seq!["[Tool: "@ + name + "]"@];
    if name == "read_file_v2"@ || name == "read_file"@ {
        let so_far = head + opt_line("File: "@, param_of(params, read_file_keys()))
            + read_result_lines(tool);
        so_far + first_block_line(code_blocks, so_far)
    } else if name == "edit_file_v2"@ || name == "edit_file"@ || name == "search_replace"@ {
        head + opt_line("File: "@, param_of(params, edit_file_keys())) + edit_result_lines(tool)
    } else if name == "run_terminal_command"@ || name == "run_terminal_cmd"@ || name
        == "execute_command"@ {
        head + opt_line("Command: "@, param_of(params, command_keys())) + output_lines(tool)
    } else if name == "grep"@ || name == "search"@ || name == "codebase_search"@ {
        head + opt_line("Pattern: "@, param_of(params, pattern_keys())) + opt_line(
            "Path: "@,
            param_of(params, search_path_keys()),
        )
    } else if name == "list_dir"@ {
        head + opt_line("Directory: "@, param_of(params, directory_keys()))
    } else {
        head + params_lines(params) + raw_result_lines(tool)
    }
}

/// A tool call's display text.
pub open spec fn tool_call_text(tool: JsonV, code_blocks: Option<JsonV>) -> Seq<char> {
    text::join_with(tool_call_lines(tool, code_blocks), "\n"@)
}

fn push_opt_line(lines: &mut Vec<String>, prefix: &str, s: String)
    ensures
        views(final(lines)@) == views(old(lines)@) + opt_line(prefix@, s@),
{
    if !text::str_is_empty(s.as_str()) {
        push_line(lines, text::concat2(prefix, s.as_str()));
        assert(views(lines@) =~= views(old(lines)@) + opt_line(prefix@, s@));
    } else {
        assert(views(lines@) =~= views(old(lines)@) + opt_line(prefix@, s@));
    }
}

fn push_diff_line(lines: &mut Vec<String>, result: &Json)
    ensures
        views(final(lines)@) == views(old(lines)@) + diff_line(result@),
{
    match result.get("diff") {
        Some(d) => match l3_format_diff_block(d) {
            Some(t) => push_line(lines, t),
            None => {},
        },
        None => {},
    }
    assert(views(lines@) =~= views(old(lines)@) + diff_line(result@));
}

fn push_read_result(lines: &mut Vec<String>, tool: &Json)
    ensures
        views(final(lines)@) == views(old(lines)@) + read_result_lines(tool@),
{
    match tool.get_str("result") {
        Some(rs) => match json_codec::parse_json(rs.as_str()) {
            Some(result) => {
                match result.get_str("contents") {
                    Some(c) => push_line(lines, text::concat2("Content: ", c.as_str())),
                    None => {},
                }
                let ghost mid = views(lines@);
                push_diff_line(lines, &result);
                assert(mid =~= views(old(lines)@) + (match json::get_str(result@, "contents"@) {
                    Some(c) => seq!["Content: "@ + c],
                    None => seq![],
                }));
            },
            None => {},
        },
        None => {},
    }
    assert(views(lines@) =~= views(old(lines)@) + read_result_lines(tool@));
}

fn has_content(lines: &Vec<String>) -> (r: bool)
    ensures
        r == has_content_line(views(lines@)),
{
    let mut i: usize = 0;
    while i < lines.len()
        invariant
            i <= lines@.len(),
            forall|k: int| 0 <= k < i ==> !text::starts_with(#[trigger] views(lines@)[k], "Content:"@),
        decreases lines.len() - i,
    {
        assert(views(lines@)[i as int] == lines@[i as int]@);
        if text::str_starts_with(lines[i].as_str(), "Content:") {
            return true;
        }
        i = i + 1;
    }
    false
}

fn push_first_block(lines: &mut Vec<String>, code_blocks: Option<&Json>)
    ensures
        views(final(lines)@) == views(old(lines)@) + first_block_line(
            opt_ref_view(code_blocks),
            views(old(lines)@),
        ),
{
    match code_blocks {
        Some(cb) => match cb.as_array() {
            Some(blocks) => {
                proof {
                    json::lemma_items_view(blocks@);
                }
                if blocks.len() > 0 {
                    match blocks[0].get_str("content") {
                        Some(c) => {
                            if !text::str_is_empty(c.as_str()) && !has_content(lines) {
                                push_line(lines, text::concat2("Content: ", c.as_str()));
                            }
                        },
                        None => {},
                    }
                }
            },
            None => {},
        },
        None => {},
    }
    assert(views(lines@) =~= views(old(lines)@) + first_block_line(
        opt_ref_view(code_blocks),
        views(old(lines)@),
    ));
}

fn push_edit_result(lines: &mut Vec<String>, tool: &Json)
    ensures
        views(final(lines)@) == views(old(lines)@) + edit_result_lines(tool@),
{
    match tool.get_str("result") {
        Some(rs) => match json_codec::parse_json(rs.as_str()) {
            Some(result) => push_diff_line(lines, &result),
            None => {
                if !text::str_is_empty(rs.as_str()) {
                    push_line(lines, rs);
                }
            },
        },
        None => {},
    }
    assert(views(lines@) =~= views(old(lines)@) + edit_result_lines(tool@));
}

fn push_output(lines: &mut Vec<String>, tool: &Json)
    ensures
        views(final(lines)@) == views(old(lines)@) + output_lines(tool@),
{
    match tool.get_str("result") {
        Some(rs) => match json_codec::parse_json(rs.as_str()) {
            Some(result) => match result.get_str("output") {
                Some(o) => {
                    if !text::str_is_blank(o.as_str()) {
                        push_line(lines, text::concat2("Output: ", o.as_str()));
                    }
                },
                None => {},
            },
            None => {},
        },
        None => {},
    }
    assert(views(lines@) =~= views(old(lines)@) + output_lines(tool@));
}

fn push_params(lines: &mut Vec<String>, params: &Json)
    ensures
        views(final(lines)@) == views(old(lines)@) + params_lines(params@),
{
    match params {
        Json::Object(e) => {
            if e.len() > 0 {
                proof {
                    json::lemma_entries_view(e@);
                }
                match json_codec::to_pretty(params) {
                    Some(t) => push_line(lines, t),
                    None => {},
                }
            }
        },
        _ => {},
    }
    proof {
        if params is Object {
            json::lemma_entries_view(params->Object_0@);
        }
    }
    assert(views(lines@) =~= views(old(lines)@) + params_lines(params@));
}

fn push_raw_result(lines: &mut Vec<String>, tool: &Json)
    ensures
        views(final(lines)@) == views(old(lines)@) + raw_result_lines(tool@),
{
    match tool.get_str("result") {
        Some(rs) => {
            if !text::str_is_blank(rs.as_str()) {
                push_line(lines, rs);
            }
        },
        None => {},
    }
    assert(views(lines@) =~= views(old(lines)@) + raw_result_lines(tool@));
}

/// `l3_format_tool_call`: a tool call's display text, its lines chosen by
/// the tool's name.
fn l3_format_tool_call(tool: &Json, code_blocks: Option<&Json>) -> (r: String)
    ensures
        r@ == tool_call_text(tool@, opt_ref_view(code_blocks)),
{
    let name = match tool.get_str("name") {
        Some(n) => n,
        None => text::owned("unknown"),
    };
    let params = match l3_parse_tool_params(tool) {
        Some(p) => p,
        None => Json::Object(Vec::new()),
    };
    proof {
        assert(params@ == match tool_params(tool@) {
            Some(p) => p,
            None => JsonV::Object(seq![]),
        }) by {
            if tool_params(tool@) is None {
                assert(json::entries_view(Seq::<(String, Json)>::empty()) =~= seq![]);
            }
        }
    }
    let mut lines: Vec<String> = Vec::new();
    push_line(&mut lines, text::concat3("[Tool: ", name.as_str(), "]"));
    let ghost head = views(lines@);
    let ghost pv = params@;
    assert(head =~= seq!["[Tool: "@ + name@ + "]"@]);
    let n = name.as_str();
    if text::str_eq(n, "read_file_v2") || text::str_eq(n, "read_file") {
        let keys: [&str; 4] = ["targetFile", "path", "file", "effectiveUri"];
        assert(str_views(keys@) =~= read_file_keys());
        push_opt_line(&mut lines, "File: ", l3_get_param(&params, &keys));
        push_read_result(&mut lines, tool);
        let ghost so_far = views(lines@);
        assert(so_far =~= head + opt_line("File: "@, param_of(pv, read_file_keys()))
            + read_result_lines(tool@));
        push_first_block(&mut lines, code_blocks);
        assert(views(lines@) =~= so_far + first_block_line(opt_ref_view(code_blocks), so_far));
    } else if text::str_eq(n, "edit_file_v2") || text::str_eq(n, "edit_file") || text::str_eq(
        n,
        "search_replace",
    ) {
        let keys: [&str; 4] = ["targetFile", "path", "file", "relativeWorkspacePath"];
        assert(str_views(keys@) =~= edit_file_keys());
        push_opt_line(&mut lines, "File: ", l3_get_param(&params, &keys));
        push_edit_result(&mut lines, tool);
        assert(views(lines@) =~= head + opt_line("File: "@, param_of(pv, edit_file_keys()))
            + edit_result_lines(tool@));
    } else if text::str_eq(n, "run_terminal_command") || text::str_eq(n, "run_terminal_cmd")
        || text::str_eq(n, "execute_command") {
        let keys: [&str; 2] = ["command", "cmd"];
        assert(str_views(keys@) =~= command_keys());
        push_opt_line(&mut lines, "Command: ", l3_get_param(&params, &keys));
        push_output(&mut lines, tool);
        assert(views(lines@) =~= head + opt_line("Command: "@, param_of(pv, command_keys()))
            + output_lines(tool@));
    } else if text::str_eq(n, "grep") || text::str_eq(n, "search") || text::str_eq(
        n,
        "codebase_search",
    ) {
        let pk: [&str; 4] = ["pattern", "query", "searchQuery", "regex"];
        assert(str_views(pk@) =~= pattern_keys());
        let dk: [&str; 3] = ["path", "directory", "targetDirectory"];
        assert(str_views(dk@) =~= search_path_keys());
        let pattern = l3_get_param(&params, &pk);
        let path = l3_get_param(&params, &dk);
        push_opt_line(&mut lines, "Pattern: ", pattern);
        push_opt_line(&mut lines, "Path: ", path);
        assert(views(lines@) =~= head + opt_line("Pattern: "@, param_of(pv, pattern_keys()))
            + opt_line("Path: "@, param_of(pv, search_path_keys())));
    } else if text::str_eq(n, "list_dir") {
        let keys: [&str; 3] = ["targetDirectory", "path", "directory"];
        assert(str_views(keys@) =~= directory_keys());
        push_opt_line(&mut lines, "Directory: ", l3_get_param(&params, &keys));
        assert(views(lines@) =~= head + opt_line("Directory: "@, param_of(pv, directory_keys())));
    } else {
        push_params(&mut lines, &params);
        push_raw_result(&mut lines, tool);
        assert(views(lines@) =~= head + params_lines(pv) + raw_result_lines(tool@));
    }
    assert(views(lines@) =~= tool_call_lines(tool@, opt_ref_view(code_blocks)));
    text::join_strings(&lines, "\n")
}

/// `parts` joined by blank lines.
pub open spec fn join_parts(parts: Seq<Seq<char>>) -> Seq<char> {
    text::join_with(parts, "\n\n"@)
}

/// `Some(s)` when `s` is not blank.
pub open spec fn nonblank(o: Option<Seq<char>>) -> Option<Seq<char>> {
    match o {
        Some(s) => if text::trim(s).len() > 0 {
            Some(s)
        } else {
            None
        },
        None => None,
    }
}

/// The members of a parsed tool result that hold its text.
pub open spec fn result_text_keys() -> Seq<Seq<char>> {
    seq!["contents"@, "content"@, "text"@]
}

/// The members of a user bubble that may hold its text, in order.
pub open spec fn user_text_keys() -> Seq<Seq<char>> {
    seq!["text"@, "content"@, "finalText"@, "message"@, "markdown"@, "textDescription"@]
}

/// The text of a tool's result: a text member of the parsed result, or
/// the result itself when it is not JSON, longer than 50 bytes and does
/// not start with `{`.
pub open spec fn tool_result_text(tool: Option<JsonV>) -> Option<Seq<char>> {
    match tool {
        Some(t) => match json::get_str(t, "result"@) {
            Some(rs) => match parsed_json(rs) {
                Some(result) => first_str(result, result_text_keys()),
                None => if utf8_len(rs) > 50 && !text::starts_with(rs, "{"@) {
                    Some(rs)
                } else {
                    None
                },
            },
            None => None,
        },
        None => None,
    }
}

/// A bubble's text when no tool call decides it.
pub open spec fn plain_text(v: JsonV, is_assistant: bool, tool: Option<JsonV>) -> Seq<char> {
    let parts = code_block_parts(v);
    let fallback = json::str_or(json::get_str(v, "text"@), seq![]);
    if is_assistant {
        match nonblank(json::get_str(v, "text"@)) {
            Some(t) => if parts.len() == 0 {
                t
            } else {
                t + "\n\n"@ + join_parts(parts)
            },
            None => match thinking_text(v) {
                Some(th) => if parts.len() == 0 {
                    "[Thinking]\n"@ + th
                } else {
                    "[Thinking]\n"@ + th + "\n\n"@ + join_parts(parts)
                },
                None => match tool_result_text(tool) {
                    Some(x) => x,
                    None => if parts.len() > 0 {
                        join_parts(parts)
                    } else {
                        fallback
                    },
                },
            },
        }
    } else if parts.len() > 0 {
        join_parts(parts)
    } else if param_of(v, user_text_keys()).len() > 0 {
        param_of(v, user_text_keys())
    } else {
        match thinking_text(v) {
            Some(th) => "[Thinking]\n"@ + th,
            None => fallback,
        }
    }
}

/// The display text of a Layer 3 bubble: a tool call's text when it has
/// one, else its text, thinking, tool result or code blocks, by role.
pub open spec fn bubble_text(v: JsonV, is_assistant: bool) -> Seq<char> {
    match json::get(v, "toolFormerData"@) {
        Some(tool) => {
            let tool_name = json::str_or(json::get_str(tool, "name"@), seq![]);
            if tool_name != "read_file_v2"@ && tool_with_result(tool) is Some {
                tool_with_result(tool)->0
            } else if tool_name.len() > 0 {
                tool_call_text(tool, json::get(v, "codeBlocks"@))
            } else {
                plain_text(v, is_assistant, Some(tool))
            }
        },
        None => plain_text(v, is_assistant, None),
    }
}

fn tool_result_of(tool: Option<&Json>) -> (r: Option<String>)
    ensures
        match r {
            Some(x) => tool_result_text(opt_ref_view(tool)) == Some(x@),
            None => tool_result_text(opt_ref_view(tool)) is None,
        },
{
    let t = match tool {
        Some(t) => t,
        None => return None,
    };
    let rs = match t.get_str("result") {
        Some(rs) => rs,
        None => return None,
    };
    match json_codec::parse_json(rs.as_str()) {
        Some(result) => {
            let keys: [&str; 3] = ["contents", "content", "text"];
            assert(str_views(keys@) =~= result_text_keys());
            l3_first_str(&result, &keys)
        },
        None => {
            if transcript::utf8_longer_than(rs.as_str(), 50) && !text::str_starts_with(rs.as_str(), "{") {
                Some(rs)
            } else {
                None
            }
        },
    }
}

fn plain_text_of(v: &Json, is_assistant: bool, tool: Option<&Json>) -> (r: String)
    ensures
        r@ == plain_text(v@, is_assistant, opt_ref_view(tool)),
{
    let parts = l3_extract_code_block_parts(v);
    let fallback = match v.get_str("text") {
        Some(t) => t,
        None => String::new(),
    };
    if is_assistant {
        match v.get_str("text") {
            Some(t) => {
                if !text::str_is_blank(t.as_str()) {
                    if parts.len() == 0 {
                        return t;
                    }
                    let j = text::join_strings(&parts, "\n\n");
                    return text::concat3(t.as_str(), "\n\n", j.as_str());
                }
            },
            None => {},
        }
        match l3_extract_thinking_text(v) {
            Some(th) => {
                if parts.len() == 0 {
                    return text::concat2("[Thinking]\n", th.as_str());
                }
                let j = text::join_strings(&parts, "\n\n");
                let a = text::concat2("[Thinking]\n", th.as_str());
                return text::concat3(a.as_str(), "\n\n", j.as_str());
            },
            None => {},
        }
        match tool_result_of(tool) {
            Some(x) => return x,
            None => {},
        }
        if parts.len() > 0 {
            return text::join_strings(&parts, "\n\n");
        }
        fallback
    } else {
        if parts.len() > 0 {
            return text::join_strings(&parts, "\n\n");
        }
        let keys: [&str; 6] = ["text", "content", "finalText", "message", "markdown", "textDescription"];
        assert(str_views(keys@) =~= user_text_keys());
        let found = l3_get_param(v, &keys);
        if !text::str_is_empty(found.as_str()) {
            return found;
        }
        match l3_extract_thinking_text(v) {
            Some(th) => text::concat2("[Thinking]\n", th.as_str()),
            None => fallback,
        }
    }
}

/// `extract_l3_bubble_text`: a Layer 3 bubble's display text.
fn extract_l3_bubble_text(v: &Json, is_assistant: bool) -> (r: String)
    ensures
        r@ == bubble_text(v@, is_assistant),
{
    let tool_former = v.get("toolFormerData");
    match tool_former {
        Some(tool) => {
            let tool_name = match tool.get_str("name") {
                Some(n) => n,
                None => String::new(),
            };
            if !text::str_eq(tool_name.as_str(), "read_file_v2") {
                match l3_format_tool_with_result(tool) {
                    Some(t) => return t,
                    None => {},
                }
            }
            if !text::str_is_empty(tool_name.as_str()) {
                return l3_format_tool_call(tool, v.get("codeBlocks"));
            }
        },
        None => {},
    }
    plain_text_of(v, is_assistant, tool_former)
}

/// The structured tool call of a bubble: its `toolFormerData` name, when
/// not blank, with its parameters.
pub open spec fn l3_tool_calls(v: JsonV) -> Seq<ToolUseV> {
    match json::get(v, "toolFormerData"@) {
        Some(tool) => match json::get_str(tool, "name"@) {
            Some(n) => if text::trim(n).len() > 0 {
                seq![ToolUseV { name: n, input: tool_params(tool) }]
            } else {
                seq![]
            },
            None => seq![],
        },
        None => seq![],
    }
}

/// The parameters that may name files a tool touched, in order.
pub open spec fn file_param_keys() -> Seq<Seq<char>> {
    seq![
        "targetFile"@,
        "file"@,
        "filePath"@,
        "relativeWorkspacePath"@,
        "path"@,
        "targetDirectory"@,
        "directory"@,
    ]
}

/// The distinct non-blank parameters among `keys`, in order.
pub open spec fn collect_files(params: JsonV, keys: Seq<Seq<char>>) -> Seq<Seq<char>>
    decreases keys.len(),
{
    if keys.len() == 0 {
        seq![]
    } else {
        let rest = collect_files(params, keys.drop_last());
        let f = param_of(params, seq![keys.last()]);
        if f.len() > 0 && !rest.contains(f) {
            rest.push(f)
        } else {
            rest
        }
    }
}

/// The files a bubble's tool call names.
pub open spec fn l3_tool_files(v: JsonV) -> Seq<Seq<char>> {
    match json::get(v, "toolFormerData"@) {
        Some(tool) => match tool_params(tool) {
            Some(p) => collect_files(p, file_param_keys()),
            None => seq![],
        },
        None => seq![],
    }
}

/// `Some(t)` when `t` is positive.
pub open spec fn positive(o: Option<i64>) -> Option<i64> {
    match o {
        Some(t) => if t > 0 {
            Some(t)
        } else {
            None
        },
        None => None,
    }
}

/// A bubble's time: `createdAt`, else the first positive of the client
/// times in `timingInfo`, else 0.
pub open spec fn l3_timestamp(v: JsonV) -> i64 {
    match positive(json::get_i64(v, "createdAt"@)) {
        Some(t) => t,
        None => match json::get(v, "timingInfo"@) {
            Some(ti) => match positive(json::get_i64(ti, "clientRpcSendTime"@)) {
                Some(t) => t,
                None => match positive(json::get_i64(ti, "clientStartTime"@)) {
                    Some(t) => t,
                    None => match positive(json::get_i64(ti, "clientEndTime"@)) {
                        Some(t) => t,
                        None => 0,
                    },
                },
            },
            None => 0,
        },
    }
}

/// A bubble's role by its `type`: 1 is the user, 2 the assistant.
pub open spec fn l3_role(v: JsonV) -> Option<Seq<char>> {
    let typ = json::i64_or(json::get_i64(v, "type"@), 0);
    if typ == 1 {
        Some("user"@)
    } else if typ == 2 {
        Some("assistant"@)
    } else {
        None
    }
}

/// The bubble that row `bid` of a session holds.
pub open spec fn l3_bubble(bid: Seq<char>, v: JsonV) -> BubbleV {
    BubbleV {
        id: bid,
        role: l3_role(v)->0,
        text: bubble_text(v, l3_role(v) == Some("assistant"@)),
        tool_calls: l3_tool_calls(v),
        files: l3_tool_files(v),
        images: seq![],
        created_at_ms: l3_timestamp(v),
        parent_bubble_id: None,
    }
}

/// `l3_extract_tool_calls`.
fn l3_extract_tool_calls(v: &Json) -> (r: Vec<BubbleToolUse>)
    ensures
        bubble::tool_views(r@) == l3_tool_calls(v@),
{
    let mut out: Vec<BubbleToolUse> = Vec::new();
    match v.get("toolFormerData") {
        Some(tool) => match tool.get_str("name") {
            Some(n) => {
                if !text::str_is_blank(n.as_str()) {
                    let input = l3_parse_tool_params(tool);
                    out.push(BubbleToolUse { name: n, input });
                }
            },
            None => {},
        },
        None => {},
    }
    assert(bubble::tool_views(out@) =~= l3_tool_calls(v@));
    out
}

/// `l3_extract_tool_files`.
fn l3_extract_tool_files(v: &Json) -> (r: Vec<String>)
    ensures
        views(r@) == l3_tool_files(v@),
{
    let mut files: Vec<String> = Vec::new();
    let tool = match v.get("toolFormerData") {
        Some(t) => t,
        None => {
            assert(views(files@) =~= l3_tool_files(v@));
            return files;
        },
    };
    let params = match l3_parse_tool_params(tool) {
        Some(p) => p,
        None => {
            assert(views(files@) =~= l3_tool_files(v@));
            return files;
        },
    };
    let keys: [&str; 7] = [
        "targetFile",
        "file",
        "filePath",
        "relativeWorkspacePath",
        "path",
        "targetDirectory",
        "directory",
    ];
    let ghost ks = str_views(keys@);
    assert(ks =~= file_param_keys());
    assert(views(files@) =~= collect_files(params@, ks.take(0)));
    let mut i: usize = 0;
    while i < 7
        invariant
            i <= 7,
            ks == str_views(keys@),
            ks.len() == 7,
            views(files@) == collect_files(params@, ks.take(i as int)),
        decreases 7 - i,
    {
        proof {
            assert(ks.take(i + 1).drop_last() =~= ks.take(i as int));
            assert(ks.take(i + 1).last() == keys@[i as int]@);
        }
        let one: [&str; 1] = [keys[i]];
        assert(str_views(one@) =~= seq![ks.take(i + 1).last()]);
        let f = l3_get_param(&params, &one);
        if !text::str_is_empty(f.as_str()) && !text::strings_contain(&files, &f) {
            push_line(&mut files, f);
        }
        i = i + 1;
    }
    assert(ks.take(7) =~= ks);
    files
}

fn positive_of(o: Option<i64>) -> (r: Option<i64>)
    ensures
        r == positive(o),
{
    match o {
        Some(t) => if t > 0 {
            Some(t)
        } else {
            None
        },
        None => None,
    }
}

/// `extract_l3_timestamp`.
fn extract_l3_timestamp(v: &Json) -> (r: i64)
    ensures
        r == l3_timestamp(v@),
{
    match positive_of(v.get_i64("createdAt")) {
        Some(t) => return t,
        None => {},
    }
    match v.get("timingInfo") {
        Some(ti) => {
            match positive_of(ti.get_i64("clientRpcSendTime")) {
                Some(t) => return t,
                None => {},
            }
            match positive_of(ti.get_i64("clientStartTime")) {
                Some(t) => return t,
                None => {},
            }
            match positive_of(ti.get_i64("clientEndTime")) {
                Some(t) => t,
                None => 0,
            }
        },
        None => 0,
    }
}

/// `decode_l3_bubble_blob`: the bubble of row `bid`, or `None` when its
/// `type` is neither 1 (user) nor 2 (assistant).
pub fn decode_l3_bubble_blob(bid: &str, v: &Json) -> (r: Option<Bubble>)
    ensures
        match r {
            Some(b) => l3_role(v@) is Some && b@ == l3_bubble(bid@, v@),
            None => l3_role(v@) is None,
        },
{
    let typ = match v.get_i64("type") {
        Some(t) => t,
        None => 0,
    };
    let role = if typ == 1 {
        "user"
    } else if typ == 2 {
        "assistant"
    } else {
        return None;
    };
    let is_assistant = typ == 2;
    proof {
        reveal_strlit("user");
        reveal_strlit("assistant");
        assert("user"@.len() != "assistant"@.len());
    }
    let text = extract_l3_bubble_text(v, is_assistant);
    let tool_calls = l3_extract_tool_calls(v);
    let files = l3_extract_tool_files(v);
    let created_at_ms = extract_l3_timestamp(v);
    let b = Bubble {
        id: text::owned(bid),
        role: text::owned(role),
        text,
        tool_calls,
        files,
        images: Vec::new(),
        created_at_ms,
        parent_bubble_id: None,
    };
    assert(b@.images =~= seq![]);
    Some(b)
}

/// The model of the rows read from `cursorDiskKV`: each key with its
/// value, `None` where the value is not JSON.
pub open spec fn row_views(rows: Seq<(String, Option<Json>)>) -> Seq<(Seq<char>, Option<JsonV>)> {
    rows.map_values(|r: (String, Option<Json>)| (r.0@, opt_view(r.1)))
}

/// The bubbles of the rows whose key starts with `prefix`, in row order:
/// each JSON value of a user or assistant bubble, its id the rest of the
/// key.
pub open spec fn row_bubbles(prefix: Seq<char>, rows: Seq<(Seq<char>, Option<JsonV>)>) -> Seq<BubbleV>
    decreases rows.len(),
{
    if rows.len() == 0 {
        seq![]
    } else {
        let rest = row_bubbles(prefix, rows.drop_last());
        let k = rows.last().0;
        match rows.last().1 {
            Some(v) => if text::starts_with(k, prefix) && l3_role(v) is Some {
                rest.push(l3_bubble(k.skip(prefix.len() as int), v))
            } else {
                rest
            },
            None => rest,
        }
    }
}

/// The key prefix of a session's bubble rows: `bubbleId:<uuid>:`.
pub open spec fn bubble_key_prefix(uuid: Seq<char>) -> Seq<char> {
    "bubbleId:"@ + uuid + ":"@
}

/// `read_layer3_bubbles`, from the rows read under the session's prefix:
/// the bubbles of the rows that carry the prefix, sorted by id (stably).
pub fn read_layer3_bubbles(uuid: &str, rows: &Vec<(String, Option<Json>)>) -> (r: Vec<Bubble>)
    ensures
        bubble_views(r@) == conflict::sorted_by_id(
            row_bubbles(bubble_key_prefix(uuid@), row_views(rows@)),
        ),
{
    let prefix = text::concat3("bubbleId:", uuid, ":");
    let ghost rv = row_views(rows@);
    let ghost pv = prefix@;
    let mut out: Vec<Bubble> = Vec::new();
    let mut i: usize = 0;
    proof {
        assert(rv.take(0) =~= Seq::<(Seq<char>, Option<JsonV>)>::empty());
        assert(bubble_views(out@) =~= Seq::<BubbleV>::empty());
    }
    while i < rows.len()
        invariant
            i <= rows@.len(),
            rv == row_views(rows@),
            pv == prefix@,
            pv == bubble_key_prefix(uuid@),
            bubble_views(out@) == conflict::sorted_by_id(row_bubbles(pv, rv.take(i as int))),
        decreases rows.len() - i,
    {
        proof {
            assert(rv.take(i + 1).drop_last() =~= rv.take(i as int));
            assert(rv.take(i + 1).last() == (rows@[i as int].0@, opt_view(rows@[i as int].1)));
        }
        let key = &rows[i].0;
        match &rows[i].1 {
            Some(v) => {
                if text::str_starts_with(key.as_str(), prefix.as_str()) {
                    let bid = text::strip_prefix_or_same(key.as_str(), prefix.as_str());
                    match decode_l3_bubble_blob(bid.as_str(), v) {
                        Some(b) => {
                            proof {
                                let rest = row_bubbles(pv, rv.take(i as int));
                                assert(rest.push(b@).drop_last() =~= rest);
                            }
                            conflict::insert_by_id(&mut out, b);
                        },
                        None => {},
                    }
                }
            },
            None => {},
        }
        i = i + 1;
    }
    proof {
        assert(rv.take(i as int) =~= rv);
    }
    out
}

/// The value of the row with `key` (the first such row), when it is JSON.
pub open spec fn row_lookup(rows: Seq<(Seq<char>, Option<JsonV>)>, key: Seq<char>) -> Option<JsonV>
    decreases rows.len(),
{
    if rows.len() == 0 {
        None
    } else if rows[0].0 == key {
        rows[0].1
    } else {
        row_lookup(rows.drop_first(), key)
    }
}

/// The bubbles the sidebar headers name, in header order: each user or
/// assistant header whose `bubbleId` row holds a bubble.
pub open spec fn header_bubbles(
    uuid: Seq<char>,
    headers: Seq<JsonV>,
    rows: Seq<(Seq<char>, Option<JsonV>)>,
) -> Seq<BubbleV>
    decreases headers.len(),
{
    if headers.len() == 0 {
        seq![]
    } else {
        let rest = header_bubbles(uuid, headers.drop_last(), rows);
        let h = headers.last();
        let typ = json::i64_or(json::get_i64(h, "type"@), 0);
        if typ != 1 && typ != 2 {
            rest
        } else {
            match json::get_str(h, "bubbleId"@) {
                Some(bid) => match row_lookup(rows, bubble_key_prefix(uuid) + bid) {
                    Some(bv) => if l3_role(bv) is Some {
                        rest.push(l3_bubble(bid, bv))
                    } else {
                        rest
                    },
                    None => rest,
                },
                None => rest,
            }
        }
    }
}

/// The Layer 3 bubbles in sidebar order: by `fullConversationHeadersOnly`
/// when the composer lists it, else all the session's rows sorted by id.
pub open spec fn ordered_l3(uuid: Seq<char>, composer: JsonV, rows: Seq<(Seq<char>, Option<JsonV>)>) -> Seq<BubbleV> {
    match json::get_array(composer, "fullConversationHeadersOnly"@) {
        Some(hs) => header_bubbles(uuid, hs, rows),
        None => conflict::sorted_by_id(row_bubbles(bubble_key_prefix(uuid), rows)),
    }
}

fn lookup_row<'a>(rows: &'a Vec<(String, Option<Json>)>, key: &String) -> (r: Option<&'a Json>)
    ensures
        match r {
            Some(j) => row_lookup(row_views(rows@), key@) == Some(j@),
            None => row_lookup(row_views(rows@), key@) is None,
        },
{
    let ghost rv = row_views(rows@);
    let mut k: usize = 0;
    proof {
        assert(rv.skip(0) =~= rv);
    }
    while k < rows.len()
        invariant
            k <= rows@.len(),
            rv == row_views(rows@),
            rv.len() == rows@.len(),
            row_lookup(rv, key@) == row_lookup(rv.skip(k as int), key@),
        decreases rows.len() - k,
    {
        proof {
            assert(rv.skip(k as int)[0] == (rows@[k as int].0@, opt_view(rows@[k as int].1)));
            assert(rv.skip(k as int).drop_first() =~= rv.skip(k + 1));
        }
        if text::str_eq(rows[k].0.as_str(), key.as_str()) {
            return match &rows[k].1 {
                Some(j) => Some(j),
                None => None,
            };
        }
        k = k + 1;
    }
    proof {
        assert(rv.skip(k as int).len() == 0);
    }
    None
}

/// `read_layer3_bubbles_ordered`, from the session's `composerData` value
/// and its `bubbleId` rows: the bubbles in the order the Desktop sidebar
/// shows them.
pub fn read_layer3_bubbles_ordered(uuid: &str, composer: &Json, rows: &Vec<(String, Option<Json>)>) -> (r: Vec<Bubble>)
    ensures
        bubble_views(r@) == ordered_l3(uuid@, composer@, row_views(rows@)),
{
    let headers = match composer.get_array("fullConversationHeadersOnly") {
        Some(h) => h,
        None => return read_layer3_bubbles(uuid, rows),
    };
    let prefix = text::concat3("bubbleId:", uuid, ":");
    let ghost hv = json::items_view(headers@);
    let mut out: Vec<Bubble> = Vec::new();
    proof {
        json::lemma_items_view(headers@);
        assert(hv.take(0) =~= Seq::<JsonV>::empty());
        assert(bubble_views(out@) =~= Seq::<BubbleV>::empty());
    }
    let mut i: usize = 0;
    while i < headers.len()
        invariant
            i <= headers@.len(),
            hv == json::items_view(headers@),
            hv.len() == headers@.len(),
            forall|k: int| 0 <= k < headers@.len() ==> #[trigger] hv[k] == headers@[k]@,
            prefix@ == bubble_key_prefix(uuid@),
            bubble_views(out@) == header_bubbles(uuid@, hv.take(i as int), row_views(rows@)),
        decreases headers.len() - i,
    {
        let h = &headers[i];
        proof {
            assert(hv.take(i + 1).drop_last() =~= hv.take(i as int));
            assert(hv.take(i + 1).last() == h@);
        }
        let typ = match h.get_i64("type") {
            Some(t) => t,
            None => 0,
        };
        if typ == 1 || typ == 2 {
            match h.get_str("bubbleId") {
                Some(bid) => {
                    let key = text::concat2(prefix.as_str(), bid.as_str());
                    match lookup_row(rows, &key) {
                        Some(bv) => match decode_l3_bubble_blob(bid.as_str(), bv) {
                            Some(b) => {
                                let ghost before = out@;
                                out.push(b);
                                assert(bubble_views(out@) =~= bubble_views(before).push(b@));
                            },
                            None => {},
                        },
                        None => {},
                    }
                },
                None => {},
            }
        }
        i = i + 1;
    }
    proof {
        assert(hv.take(i as int) =~= hv);
    }
    out
}

} // verus!
