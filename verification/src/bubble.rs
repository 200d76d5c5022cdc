//! One message of a conversation ("bubble"), as every layer reader hands it
//! to the rest of the library.
use vstd::prelude::*;

use crate::json::{self, Json, JsonV};
use crate::text::{self, views};

verus! {

/// One executed tool call inside an assistant bubble.
#[derive(Debug)]
pub struct BubbleToolUse {
    pub name: String,
    pub input: Option<Json>,
}

/// Model of a tool call.
pub struct ToolUseV {
    pub name: Seq<char>,
    pub input: Option<JsonV>,
}

impl View for BubbleToolUse {
    type V = ToolUseV;

    open spec fn view(&self) -> ToolUseV {
        ToolUseV {
            name: self.name@,
            input: match self.input {
                Some(j) => Some(j@),
                None => None,
            },
        }
    }
}

/// An image attached to a user bubble.
#[derive(Debug)]
pub struct BubbleImage {
    pub mime_type: String,
    pub data_base64: String,
}

/// Model of an image.
pub struct ImageV {
    pub mime_type: Seq<char>,
    pub data_base64: Seq<char>,
}

impl View for BubbleImage {
    type V = ImageV;

    open spec fn view(&self) -> ImageV {
        ImageV { mime_type: self.mime_type@, data_base64: self.data_base64@ }
    }
}

/// One bubble: `role` is `user` or `assistant` (empty for orphan events).
#[derive(Debug)]
pub struct Bubble {
    /// Stable 36-character GUID.
    pub id: String,
    pub role: String,
    pub text: String,
    pub tool_calls: Vec<BubbleToolUse>,
    pub files: Vec<String>,
    pub images: Vec<BubbleImage>,
    /// Epoch milliseconds (0 when unknown).
    pub created_at_ms: i64,
    pub parent_bubble_id: Option<String>,
}

/// Model of a bubble.
pub struct BubbleV {
    pub id: Seq<char>,
    pub role: Seq<char>,
    pub text: Seq<char>,
    pub tool_calls: Seq<ToolUseV>,
    pub files: Seq<Seq<char>>,
    pub images: Seq<ImageV>,
    pub created_at_ms: i64,
    pub parent_bubble_id: Option<Seq<char>>,
}

/// The models of tool calls.
pub open spec fn tool_views(s: Seq<BubbleToolUse>) -> Seq<ToolUseV> {
    s.map_values(|t: BubbleToolUse| t@)
}

/// The models of images.
pub open spec fn image_views(s: Seq<BubbleImage>) -> Seq<ImageV> {
    s.map_values(|i: BubbleImage| i@)
}

/// The models of bubbles.
pub open spec fn bubble_views(s: Seq<Bubble>) -> Seq<BubbleV> {
    s.map_values(|b: Bubble| b@)
}

impl View for Bubble {
    type V = BubbleV;

    open spec fn view(&self) -> BubbleV {
        BubbleV {
            id: self.id@,
            role: self.role@,
            text: self.text@,
            tool_calls: tool_views(self.tool_calls@),
            files: views(self.files@),
            images: image_views(self.images@),
            created_at_ms: self.created_at_ms,
            parent_bubble_id: match self.parent_bubble_id {
                Some(p) => Some(p@),
                None => None,
            },
        }
    }
}

impl Clone for BubbleToolUse {
    fn clone(&self) -> (r: Self)
        ensures
            r@ == self@,
    {
        BubbleToolUse {
            name: self.name.clone(),
            input: match &self.input {
                Some(j) => Some(j.clone()),
                None => None,
            },
        }
    }
}

impl Clone for BubbleImage {
    fn clone(&self) -> (r: Self)
        ensures
            r@ == self@,
    {
        BubbleImage { mime_type: self.mime_type.clone(), data_base64: self.data_base64.clone() }
    }
}

pub(crate) fn clone_tools(v: &Vec<BubbleToolUse>) -> (r: Vec<BubbleToolUse>)
    ensures
        tool_views(r@) == tool_views(v@),
{
    let mut out: Vec<BubbleToolUse> = Vec::new();
    let mut i: usize = 0;
    while i < v.len()
        invariant
            i <= v@.len(),
            tool_views(out@) == tool_views(v@.take(i as int)),
        decreases v.len() - i,
    {
        let c = v[i].clone();
        let ghost before = out@;
        out.push(c);
        assert(tool_views(out@) =~= tool_views(before).push(c@));
        assert(tool_views(v@.take(i + 1)) =~= tool_views(v@.take(i as int)).push(v@[i as int]@));
        i = i + 1;
    }
    assert(v@.take(i as int) =~= v@);
    out
}

pub(crate) fn clone_images(v: &Vec<BubbleImage>) -> (r: Vec<BubbleImage>)
    ensures
        image_views(r@) == image_views(v@),
{
    let mut out: Vec<BubbleImage> = Vec::new();
    let mut i: usize = 0;
    while i < v.len()
        invariant
            i <= v@.len(),
            image_views(out@) == image_views(v@.take(i as int)),
        decreases v.len() - i,
    {
        let c = v[i].clone();
        let ghost before = out@;
        out.push(c);
        assert(image_views(out@) =~= image_views(before).push(c@));
        assert(image_views(v@.take(i + 1)) =~= image_views(v@.take(i as int)).push(v@[i as int]@));
        i = i + 1;
    }
    assert(v@.take(i as int) =~= v@);
    out
}

/// A fresh copy of strings.
pub fn clone_strings(v: &Vec<String>) -> (r: Vec<String>)
    ensures
        views(r@) == views(v@),
{
    let mut out: Vec<String> = Vec::new();
    let mut i: usize = 0;
    while i < v.len()
        invariant
            i <= v@.len(),
            views(out@) == views(v@.take(i as int)),
        decreases v.len() - i,
    {
        let c = v[i].clone();
        let ghost before = out@;
        out.push(c);
        proof {
            text::lemma_views_push(before, c);
            assert(v@.take(i + 1) =~= v@.take(i as int).push(v@[i as int]));
            text::lemma_views_push(v@.take(i as int), v@[i as int]);
        }
        i = i + 1;
    }
    assert(v@.take(i as int) =~= v@);
    out
}

impl Clone for Bubble {
    fn clone(&self) -> (r: Self)
        ensures
            r@ == self@,
    {
        Bubble {
            id: self.id.clone(),
            role: self.role.clone(),
            text: self.text.clone(),
            tool_calls: clone_tools(&self.tool_calls),
            files: clone_strings(&self.files),
            images: clone_images(&self.images),
            created_at_ms: self.created_at_ms,
            parent_bubble_id: match &self.parent_bubble_id {
                Some(p) => Some(p.clone()),
                None => None,
            },
        }
    }
}

/// Whether two tool calls are equal (`PartialEq`).
pub fn tool_eq(a: &BubbleToolUse, b: &BubbleToolUse) -> (r: bool)
    ensures
        r == (a@ == b@),
{
    if a.name != b.name {
        return false;
    }
    match (&a.input, &b.input) {
        (Some(x), Some(y)) => json::json_eq(x, y),
        (None, None) => true,
        _ => false,
    }
}

/// Whether two lists of tool calls are equal.
pub fn tools_eq(a: &Vec<BubbleToolUse>, b: &Vec<BubbleToolUse>) -> (r: bool)
    ensures
        r == (tool_views(a@) == tool_views(b@)),
{
    if a.len() != b.len() {
        proof {
            assert(tool_views(a@).len() != tool_views(b@).len());
        }
        return false;
    }
    let mut i: usize = 0;
    while i < a.len()
        invariant
            i <= a@.len() == b@.len(),
            forall|k: int| 0 <= k < i ==> a@[k]@ == b@[k]@,
        decreases a.len() - i,
    {
        if !tool_eq(&a[i], &b[i]) {
            proof {
                assert(tool_views(a@)[i as int] != tool_views(b@)[i as int]);
            }
            return false;
        }
        i = i + 1;
    }
    assert(tool_views(a@) =~= tool_views(b@));
    true
}

/// The UTF-8 bytes of a string, as a vector.
pub fn str_bytes(s: &str) -> (r: Vec<u8>)
    ensures
        r@ == vstd::utf8::encode_utf8(s@),
{
    let b = s.as_bytes();
    let mut out: Vec<u8> = Vec::new();
    let mut i: usize = 0;
    while i < b.len()
        invariant
            i <= b@.len(),
            b@ == vstd::utf8::encode_utf8(s@),
            out@ == b@.take(i as int),
        decreases b.len() - i,
    {
        out.push(b[i]);
        assert(b@.take(i + 1) =~= b@.take(i as int).push(b@[i as int]));
        i = i + 1;
    }
    assert(b@.take(i as int) =~= b@);
    out
}
} // verus!
