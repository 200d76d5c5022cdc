//! Cleaning the text of a Layer 1 user message: the wrapper tags
//! cursor-agent puts around it, the preview line the session list shows,
//! and byte-bounded cuts.
use vstd::prelude::*;

use crate::text::{self, ends_with, find, starts_with, trim};

verus! {

/// The message with a leading `<timestamp>…</timestamp>` block dropped (and
/// what follows it trimmed), then one leading `<user_query>` and one
/// trailing `</user_query>` removed.
pub open spec fn unwrap_tags(text: Seq<char>) -> Seq<char> {
    let s1 = trim(text);
    let s2 = if starts_with(s1, "<timestamp>"@) && find(s1, "</timestamp>"@) is Some {
        trim(s1.skip(find(s1, "</timestamp>"@)->0 + 12))
    } else {
        s1
    };
    let s3 = if starts_with(s2, "<user_query>"@) {
        s2.skip(12)
    } else {
        s2
    };
    if ends_with(s3, "</user_query>"@) {
        s3.take(s3.len() - 13)
    } else {
        s3
    }
}

fn unwrap_tags_exec(text: &str) -> (r: Vec<char>)
    ensures
        r@ == unwrap_tags(text@),
{
    proof {
        reveal_strlit("<timestamp>");
        reveal_strlit("</timestamp>");
        reveal_strlit("<user_query>");
        reveal_strlit("</user_query>");
    }
    let all = text::to_chars(text);
    let mut s = text::trim_chars(&all);
    let open_ts = text::to_chars("<timestamp>");
    let close_ts = text::to_chars("</timestamp>");
    if text::chars_start_with(&s, &open_ts) {
        match text::find_chars(&s, &close_ts) {
            Some(idx) => {
                assert(close_ts@.len() == 12);
                let n = s.len();
                let start = idx + close_ts.len();
                let rest = text::slice_of(&s, start, n);
                assert(rest@ =~= s@.skip(idx + 12));
                s = text::trim_chars(&rest);
            },
            None => {},
        }
    }
    let open = text::to_chars("<user_query>");
    let close = text::to_chars("</user_query>");
    if text::chars_start_with(&s, &open) {
        let rest = text::slice_of(&s, 12, s.len());
        assert(rest@ =~= s@.skip(12));
        s = rest;
    }
    if text::chars_end_with(&s, &close) {
        let rest = text::slice_of(&s, 0, s.len() - 13);
        assert(rest@ =~= s@.take(s@.len() - 13));
        s = rest;
    }
    s
}

/// `clean_user_text`: the message without its wrapper tags, trimmed.
pub fn clean_user_text(text: &str) -> (r: String)
    ensures
        r@ == trim(unwrap_tags(text@)),
{
    let s = unwrap_tags_exec(text);
    let t = text::trim_chars(&s);
    text::from_chars(&t)
}

/// `clean_user_preview`: the first non-blank line of the unwrapped
/// message, trimmed, cut to 120 characters with `…` when longer; empty
/// when nothing is left.
pub fn clean_user_preview(text: &str) -> (r: String)
    ensures
        r@ == text::ellipsize(text::first_nonblank(text::lines(unwrap_tags(text@))), 120),
{
    let s = unwrap_tags_exec(text);
    let first = text::first_nonblank_line(&s);
    let mut out = text::take_chars(&first, 120);
    if first.len() > 120 {
        out.push('…');
    }
    text::from_chars(&out)
}

/// The number of UTF-8 bytes that encode `c`.
pub open spec fn utf8_width(c: char) -> nat {
    let u = c as int;
    if u < 0x80 {
        1
    } else if u < 0x800 {
        2
    } else if u < 0x10000 {
        3
    } else {
        4
    }
}

/// The UTF-8 length of `s`, in bytes.
pub open spec fn utf8_len(s: Seq<char>) -> nat
    decreases s.len(),
{
    if s.len() == 0 {
        0
    } else {
        utf8_len(s.drop_last()) + utf8_width(s.last())
    }
}

/// The longest prefix of `s` whose UTF-8 length is at most `max_bytes`.
pub open spec fn byte_prefix(s: Seq<char>, max_bytes: nat) -> Seq<char> {
    s.take(byte_prefix_len(s, max_bytes, 0, 0) as int)
}

/// The number of characters of that prefix, counted from `i` characters
/// taking `used` bytes.
pub open spec fn byte_prefix_len(s: Seq<char>, max_bytes: nat, i: nat, used: nat) -> nat
    decreases s.len() - i,
{
    if i >= s.len() || used + utf8_width(s[i as int]) > max_bytes {
        i
    } else {
        byte_prefix_len(s, max_bytes, i + 1, used + utf8_width(s[i as int]))
    }
}

pub(crate) fn char_width(c: char) -> (r: usize)
    ensures
        r == utf8_width(c),
{
    let u = c as u32;
    if u < 0x80 {
        1
    } else if u < 0x800 {
        2
    } else if u < 0x10000 {
        3
    } else {
        4
    }
}

/// `truncate_to_char_boundary`: the longest prefix of `s` that fits in
/// `max_bytes` bytes of UTF-8, never cutting a character.
pub fn truncate_to_char_boundary(s: &str, max_bytes: usize) -> (r: String)
    ensures
        r@ == byte_prefix(s@, max_bytes as nat),
{
    let cs = text::to_chars(s);
    let mut i: usize = 0;
    let mut used: usize = 0;
    while i < cs.len()
        invariant
            i <= cs@.len(),
            cs@ == s@,
            used <= max_bytes,
            byte_prefix_len(s@, max_bytes as nat, 0, 0) == byte_prefix_len(
                s@,
                max_bytes as nat,
                i as nat,
                used as nat,
            ),
        ensures
            i <= cs@.len(),
            cs@ == s@,
            byte_prefix_len(s@, max_bytes as nat, 0, 0) == i,
        decreases cs.len() - i,
    {
        let w = char_width(cs[i]);
        if w > max_bytes - used {
            break;
        }
        used = used + w;
        i = i + 1;
    }
    let t = text::take_chars(&cs, i);
    text::from_chars(&t)
}

pub proof fn lemma_utf8_len_take(s: Seq<char>, i: int)
    requires
        0 <= i < s.len(),
    ensures
        utf8_len(s.take(i + 1)) == utf8_len(s.take(i)) + utf8_width(s[i]),
{
    assert(s.take(i + 1).drop_last() =~= s.take(i));
}

pub proof fn lemma_utf8_len_mono(s: Seq<char>, i: int)
    requires
        0 <= i <= s.len(),
    ensures
        utf8_len(s.take(i)) <= utf8_len(s),
    decreases s.len() - i,
{
    if i < s.len() {
        lemma_utf8_len_take(s, i);
        lemma_utf8_len_mono(s, i + 1);
    } else {
        assert(s.take(i) =~= s);
    }
}

/// Whether `s` takes more than `n` bytes of UTF-8 (`s.len() > n`).
pub(crate) fn utf8_longer_than(s: &str, n: usize) -> (r: bool)
    ensures
        r == (utf8_len(s@) > n),
{
    let cs = text::to_chars(s);
    let mut i: usize = 0;
    let mut used: usize = 0;
    assert(cs@.take(0) =~= Seq::<char>::empty());
    while i < cs.len()
        invariant
            i <= cs@.len(),
            cs@ == s@,
            used == utf8_len(cs@.take(i as int)),
            used <= n,
        decreases cs.len() - i,
    {
        proof {
            lemma_utf8_len_take(cs@, i as int);
        }
        let w = char_width(cs[i]);
        if w > n - used {
            proof {
                lemma_utf8_len_mono(cs@, i + 1);
            }
            return true;
        }
        used = used + w;
        i = i + 1;
    }
    assert(cs@.take(i as int) =~= cs@);
    false
}

} // verus!
