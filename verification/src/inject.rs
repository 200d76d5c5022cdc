//! Layer 3 synthesis: the rows Cursor Desktop's sidebar reads, for sessions
//! that began in the CLI, and the stable ids and titles they carry.
use vstd::prelude::*;

use crate::bubble::{Bubble, BubbleV};
use crate::codec;
use crate::digest;
use crate::json::{self, Json, JsonV};
use crate::text::{self, trim, trim_end};

verus! {

/// One upsert the Layer 3 writer plans: a key and the hex of its value's
/// bytes, for `ItemTable` or `cursorDiskKV`.
#[derive(Debug, PartialEq, Eq)]
pub enum Mutation {
    ItemTableUpsert { key: String, value_hex: String },
    DiskKvUpsert { key: String, value_hex: String },
}

/// The model of a mutation: whether it targets `ItemTable`, its key and
/// its value's hex.
pub open spec fn mutation_view(m: Mutation) -> (bool, Seq<char>, Seq<char>) {
    match m {
        Mutation::ItemTableUpsert { key, value_hex } => (true, key@, value_hex@),
        Mutation::DiskKvUpsert { key, value_hex } => (false, key@, value_hex@),
    }
}

impl Mutation {
    /// `value_hex`: the hex of the value bytes, written verbatim.
    pub fn value_hex(&self) -> (r: &str)
        ensures
            r@ == match self {
                Mutation::ItemTableUpsert { value_hex, .. } => value_hex@,
                Mutation::DiskKvUpsert { value_hex, .. } => value_hex@,
            },
    {
        match self {
            Mutation::ItemTableUpsert { value_hex, .. } => value_hex.as_str(),
            Mutation::DiskKvUpsert { value_hex, .. } => value_hex.as_str(),
        }
    }
}

/// The sidebar title of a message: its first line trimmed, cut to 57
/// characters and `…` when it has more than 60.
pub open spec fn title_of(s: Seq<char>) -> Seq<char> {
    let ls = text::lines(s);
    let first = if ls.len() > 0 {
        ls[0]
    } else {
        s
    };
    let t = trim(first);
    if t.len() <= 60 {
        t
    } else {
        t.take(57).push('…')
    }
}

/// `truncate_to_title`.
pub fn truncate_to_title(s: &str) -> (r: String)
    ensures
        r@ == title_of(s@),
        r@.len() <= 60,
{
    let cs = text::to_chars(s);
    let ls = text::lines_of(&cs);
    let t = if ls.len() > 0 {
        text::trim_chars(&ls[0])
    } else {
        text::trim_chars(&cs)
    };
    if t.len() <= 60 {
        return text::from_chars(&t);
    }
    let mut cut = text::take_chars(&t, 57);
    cut.push('…');
    text::from_chars(&cut)
}

/// `truncate_to_title_pub`.
pub fn truncate_to_title_pub(s: &str) -> (r: String)
    ensures
        r@ == title_of(s@),
        r@.len() <= 60,
{
    truncate_to_title(s)
}

// ── Stable bubble ids ─────────────────────────────────────────

/// The little-endian bytes of `x`.
pub open spec fn le_bytes(x: u64) -> Seq<u8> {
    Seq::new(8, |k: int| ((x >> ((8 * k) as u64)) & 0xff) as u8)
}

/// What the id hash covers: uuid, role, timestamp and ordinal, separated
/// by `|` (the ordinal as the eight bytes a `usize` has on 64-bit
/// targets).
pub open spec fn id_input(uuid: Seq<char>, role: Seq<char>, ts_ms: i64, ordinal: u64) -> Seq<u8> {
    vstd::utf8::encode_utf8(uuid) + seq![124u8] + vstd::utf8::encode_utf8(role) + seq![124u8]
        + le_bytes(ts_ms as u64) + seq![124u8] + le_bytes(ordinal)
}

/// The first 32 hex digits of `h` as a GUID: 8-4-4-4-12.
pub open spec fn guid_of(h: Seq<char>) -> Seq<char> {
    h.subrange(0, 8) + seq!['-'] + h.subrange(8, 12) + seq!['-'] + h.subrange(12, 16) + seq!['-']
        + h.subrange(16, 20) + seq!['-'] + h.subrange(20, 32)
}

/// Text in the GUID shape 8-4-4-4-12: 36 characters, dashes at 8, 13, 18
/// and 23, lowercase hex digits elsewhere.
pub open spec fn guid_shaped(s: Seq<char>) -> bool {
    &&& s.len() == 36
    &&& forall|k: int|
        #![trigger s[k]]
        0 <= k < 36 ==> if k == 8 || k == 13 || k == 18 || k == 23 {
            s[k] == '-'
        } else {
            codec::is_lower_hex(s[k])
        }
}

/// The GUID form of lowercase hex digits is GUID-shaped.
proof fn lemma_guid_of_shaped(h: Seq<char>)
    requires
        h.len() >= 32,
        forall|k: int| 0 <= k < h.len() ==> codec::is_lower_hex(#[trigger] h[k]),
    ensures
        guid_shaped(guid_of(h)),
{
    let g = guid_of(h);
    assert forall|k: int| #![trigger g[k]] 0 <= k < 36 implies if k == 8 || k == 13 || k == 18 || k == 23 {
        g[k] == '-'
    } else {
        codec::is_lower_hex(g[k])
    } by {
        if k < 8 {
            assert(g[k] == h[k]);
        } else if k == 8 || k == 13 || k == 18 || k == 23 {
        } else if k < 13 {
            assert(g[k] == h[k - 1]);
        } else if k < 18 {
            assert(g[k] == h[k - 2]);
        } else if k < 23 {
            assert(g[k] == h[k - 3]);
        } else {
            assert(g[k] == h[k - 4]);
        }
    }
}

/// The stable id of a bubble.
pub open spec fn bubble_id_spec(uuid: Seq<char>, role: Seq<char>, ts_ms: i64, ordinal: u64) -> Seq<
    char,
> {
    guid_of(codec::hex_of(digest::sha256_digest(id_input(uuid, role, ts_ms, ordinal))))
}

fn push_le_bytes(out: &mut Vec<u8>, x: u64)
    ensures
        final(out)@ == old(out)@ + le_bytes(x),
{
    let mut k: u64 = 0;
    let ghost start = out@;
    while k < 8
        invariant
            k <= 8,
            start == old(out)@,
            out@ == start + le_bytes(x).take(k as int),
        decreases 8 - k,
    {
        let b = ((x >> (8 * k)) & 0xff) as u8;
        out.push(b);
        assert(le_bytes(x).take(k + 1) =~= le_bytes(x).take(k as int).push(b));
        k = k + 1;
    }
    assert(le_bytes(x).take(8) =~= le_bytes(x));
}

fn push_bytes(out: &mut Vec<u8>, b: &[u8])
    ensures
        final(out)@ == old(out)@ + b@,
{
    let mut i: usize = 0;
    let ghost start = out@;
    while i < b.len()
        invariant
            i <= b@.len(),
            start == old(out)@,
            out@ == start + b@.take(i as int),
        decreases b.len() - i,
    {
        out.push(b[i]);
        assert(b@.take(i + 1) =~= b@.take(i as int).push(b@[i as int]));
        i = i + 1;
    }
    assert(b@.take(i as int) =~= b@);
}

/// `deterministic_bubble_id`: the first 32 hex digits of
/// SHA-256(uuid | role | ts | ordinal), as a GUID. The same arguments give
/// the same id.
pub fn deterministic_bubble_id(uuid: &str, role: &str, ts_ms: i64, ordinal: usize) -> (r: String)
    ensures
        r@ == bubble_id_spec(uuid@, role@, ts_ms, ordinal as u64),
        guid_shaped(r@),
{
    let mut msg: Vec<u8> = Vec::new();
    push_bytes(&mut msg, uuid.as_bytes());
    msg.push(124u8);
    push_bytes(&mut msg, role.as_bytes());
    msg.push(124u8);
    push_le_bytes(&mut msg, ts_ms as u64);
    msg.push(124u8);
    push_le_bytes(&mut msg, ordinal as u64);
    proof {
        assert(msg@ =~= id_input(uuid@, role@, ts_ms, ordinal as u64));
    }
    let digest = digest::sha256(&msg);
    let hex = codec::hex_chars(&digest);
    let mut out: Vec<char> = Vec::new();
    let mut i: usize = 0;
    let ghost h = hex@;
    assert(h.len() == 64);
    while i < 32
        invariant
            i <= 32,
            h == hex@,
            h.len() == 64,
            out@ == guid_prefix(h, i as int),
        decreases 32 - i,
    {
        if i == 8 || i == 12 || i == 16 || i == 20 {
            out.push('-');
        }
        out.push(hex[i]);
        i = i + 1;
    }
    proof {
        lemma_guid_prefix(h);
        codec::lemma_hex_of_digits(digest@);
        lemma_guid_of_shaped(h);
    }
    text::from_chars(&out)
}

/// The GUID form of the first `i` hex digits.
pub open spec fn guid_prefix(h: Seq<char>, i: int) -> Seq<char>
    decreases i,
{
    if i <= 0 {
        seq![]
    } else {
        let before = guid_prefix(h, i - 1);
        let k = i - 1;
        if k == 8 || k == 12 || k == 16 || k == 20 {
            before.push('-').push(h[k])
        } else {
            before.push(h[k])
        }
    }
}

proof fn lemma_guid_prefix(h: Seq<char>)
    requires
        h.len() >= 32,
    ensures
        guid_prefix(h, 32) == guid_of(h),
{
    assert forall|i: int| 0 <= i <= 8 implies #[trigger] guid_prefix(h, i) =~= h.subrange(0, i) by {
        lemma_guid_run(h, 0, i, seq![]);
    }
    let a = h.subrange(0, 8) + seq!['-'];
    assert(guid_prefix(h, 8) =~= h.subrange(0, 8));
    assert(guid_prefix(h, 9) =~= a + h.subrange(8, 9));
    assert forall|i: int| 9 <= i <= 12 implies #[trigger] guid_prefix(h, i) =~= a + h.subrange(8, i) by {
        lemma_guid_run(h, 9, i, a + h.subrange(8, 9));
    }
    let b = a + h.subrange(8, 12) + seq!['-'];
    assert(guid_prefix(h, 12) =~= a + h.subrange(8, 12));
    assert(guid_prefix(h, 13) =~= b + h.subrange(12, 13));
    assert forall|i: int| 13 <= i <= 16 implies #[trigger] guid_prefix(h, i) =~= b + h.subrange(12, i) by {
        lemma_guid_run(h, 13, i, b + h.subrange(12, 13));
    }
    let c = b + h.subrange(12, 16) + seq!['-'];
    assert(guid_prefix(h, 16) =~= b + h.subrange(12, 16));
    assert(guid_prefix(h, 17) =~= c + h.subrange(16, 17));
    assert forall|i: int| 17 <= i <= 20 implies #[trigger] guid_prefix(h, i) =~= c + h.subrange(16, i) by {
        lemma_guid_run(h, 17, i, c + h.subrange(16, 17));
    }
    let d = c + h.subrange(16, 20) + seq!['-'];
    assert(guid_prefix(h, 20) =~= c + h.subrange(16, 20));
    assert(guid_prefix(h, 21) =~= d + h.subrange(20, 21));
    assert forall|i: int| 21 <= i <= 32 implies #[trigger] guid_prefix(h, i) =~= d + h.subrange(20, i) by {
        lemma_guid_run(h, 21, i, d + h.subrange(20, 21));
    }
    assert(guid_prefix(h, 32) =~= d + h.subrange(20, 32));
    assert(guid_prefix(h, 32) =~= guid_of(h));
}

/// Between separators, each step appends one digit.
proof fn lemma_guid_run(h: Seq<char>, from: int, to: int, base: Seq<char>)
    requires
        0 <= from <= to <= h.len(),
        from == 0 ==> base == Seq::<char>::empty(),
        from > 0 ==> guid_prefix(h, from) == base,
        !(from <= 8 < to),
        !(from <= 12 < to),
        !(from <= 16 < to),
        !(from <= 20 < to),
        from > 0 ==> base.len() >= 1,
    ensures
        guid_prefix(h, to) =~= (if from == 0 { h.subrange(0, to) } else { base + h.subrange(from, to) }),
    decreases to - from,
{
    if to > from {
        lemma_guid_run(h, from, to - 1, base);
        assert(guid_prefix(h, to) == guid_prefix(h, to - 1).push(h[to - 1]));
        if from == 0 {
            assert(h.subrange(0, to) =~= h.subrange(0, to - 1).push(h[to - 1]));
        } else {
            assert(base + h.subrange(from, to) =~= (base + h.subrange(from, to - 1)).push(h[to - 1]));
        }
    } else {
        if from == 0 {
            assert(guid_prefix(h, 0) =~= h.subrange(0, 0));
        } else {
            assert(base + h.subrange(from, from) =~= base);
        }
    }
}

/// `bubble_id_for_layer3`: the bubble's own id, or the stable id of its
/// role and position (timestamp 0, so that adding display times does not
/// change ids).
pub fn bubble_id_for_layer3(uuid: &str, b: &Bubble, idx: usize) -> (r: String)
    ensures
        b@.id.len() > 0 ==> r@ == b@.id,
        b@.id.len() == 0 ==> r@ == bubble_id_spec(uuid@, b@.role, 0, idx as u64),
{
    if !text::str_is_empty(b.id.as_str()) {
        return b.id.clone();
    }
    deterministic_bubble_id(uuid, b.role.as_str(), 0, idx)
}

/// `bubble_display_timestamp`: the bubble's own time when it has one, else
/// the session's base time plus its position, else 0.
pub fn bubble_display_timestamp(session_base_ms: i64, idx: usize, bubble_ms: i64) -> (r: i64)
    requires
        session_base_ms > 0 ==> session_base_ms + idx <= i64::MAX,
    ensures
        r == (if bubble_ms > 0 {
            bubble_ms as int
        } else if session_base_ms > 0 {
            session_base_ms + idx
        } else {
            0
        }),
{
    if bubble_ms > 0 {
        return bubble_ms;
    }
    if session_base_ms > 0 {
        return session_base_ms + idx as i64;
    }
    0
}

} // verus!
