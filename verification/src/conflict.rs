//! Conflict classification between a local session and an incoming
//! snapshot of it: the five-way class, the bubble diff, and the
//! incoming-first merge.
use vstd::prelude::*;

use crate::bubble::{self, Bubble, BubbleV, bubble_views};
use crate::compose::{int_json, jint};
use crate::json::{self, Json, JsonV, entries_view, items_view};
use crate::json_codec;
use crate::text::{self, views};

verus! {

/// Five-way conflict classification.
#[derive(PartialEq, Eq, Structural, Clone, Copy, Debug)]
pub enum ConflictClass {
    New,
    Identical,
    IncomingNewer,
    LocalAhead,
    Diverged,
}

/// The name `unified.db` stores for a class.
pub open spec fn class_name(c: ConflictClass) -> Seq<char> {
    match c {
        ConflictClass::New => "New"@,
        ConflictClass::Identical => "Identical"@,
        ConflictClass::IncomingNewer => "IncomingNewer"@,
        ConflictClass::LocalAhead => "LocalAhead"@,
        ConflictClass::Diverged => "Diverged"@,
    }
}

impl ConflictClass {
    /// `as_str`: the class name as stored (PascalCase).
    pub fn as_str(self) -> (r: &'static str)
        ensures
            r@ == class_name(self),
    {
        match self {
            ConflictClass::New => "New",
            ConflictClass::Identical => "Identical",
            ConflictClass::IncomingNewer => "IncomingNewer",
            ConflictClass::LocalAhead => "LocalAhead",
            ConflictClass::Diverged => "Diverged",
        }
    }
}

/// The class of an incoming snapshot: `New` without a local hash (or an
/// empty one), `Identical` when the hashes agree, else by which side was
/// updated later, `Diverged` on a tie.
pub open spec fn classify_spec(
    local_hash: Option<Seq<char>>,
    local_updated_ms: i64,
    incoming_hash: Seq<char>,
    incoming_updated_ms: i64,
) -> ConflictClass {
    let lh = match local_hash {
        Some(h) => h,
        None => seq![],
    };
    if lh.len() == 0 {
        ConflictClass::New
    } else if lh == incoming_hash {
        ConflictClass::Identical
    } else if incoming_updated_ms > local_updated_ms {
        ConflictClass::IncomingNewer
    } else if local_updated_ms > incoming_updated_ms {
        ConflictClass::LocalAhead
    } else {
        ConflictClass::Diverged
    }
}

/// `classify`: the hash-based five-way classification.
pub fn classify(
    local_hash: Option<&str>,
    local_updated_ms: i64,
    incoming_hash: &str,
    incoming_updated_ms: i64,
) -> (r: ConflictClass)
    ensures
        r == classify_spec(
            match local_hash {
                Some(h) => Some(h@),
                None => None,
            },
            local_updated_ms,
            incoming_hash@,
            incoming_updated_ms,
        ),
{
    let lh = match local_hash {
        Some(h) => h,
        None => "",
    };
    proof {
        reveal_strlit("");
    }
    if text::str_is_empty(lh) {
        return ConflictClass::New;
    }
    if text::str_eq(lh, incoming_hash) {
        return ConflictClass::Identical;
    }
    if incoming_updated_ms > local_updated_ms {
        return ConflictClass::IncomingNewer;
    }
    if local_updated_ms > incoming_updated_ms {
        return ConflictClass::LocalAhead;
    }
    ConflictClass::Diverged
}

// ── Bubble diff ───────────────────────────────────────────────

/// The bubbles added, removed and modified by an incoming snapshot, by id.
#[derive(Debug)]
pub struct BubbleDiff {
    pub added: Vec<String>,
    pub removed: Vec<String>,
    pub modified: Vec<String>,
}

/// The ids of `s`.
pub open spec fn ids(s: Seq<BubbleV>) -> Set<Seq<char>> {
    s.map_values(|b: BubbleV| b.id).to_set()
}

/// The last bubble of `s` with the id (the one a map keyed by id keeps).
pub open spec fn last_with_id(s: Seq<BubbleV>, id: Seq<char>) -> Option<BubbleV>
    decreases s.len(),
{
    if s.len() == 0 {
        None
    } else if s.last().id == id {
        Some(s.last())
    } else {
        last_with_id(s.drop_last(), id)
    }
}

/// Two versions of a bubble differ in text, role, time or tool calls.
pub open spec fn differs(l: BubbleV, i: BubbleV) -> bool {
    l.text != i.text || l.role != i.role || l.created_at_ms != i.created_at_ms || l.tool_calls
        != i.tool_calls
}

/// The ids both sides hold whose kept versions differ.
pub open spec fn modified_ids(local: Seq<BubbleV>, incoming: Seq<BubbleV>) -> Set<Seq<char>> {
    ids(local).intersect(ids(incoming)).filter(
        |id: Seq<char>| differs(last_with_id(local, id)->0, last_with_id(incoming, id)->0),
    )
}

/// A conversation compared with itself shows no difference: no id is
/// added, removed or modified.
pub proof fn lemma_bubble_diff_self(s: Seq<BubbleV>)
    ensures
        ids(s).difference(ids(s)) == Set::<Seq<char>>::empty(),
        modified_ids(s, s) == Set::<Seq<char>>::empty(),
{
    assert(ids(s).difference(ids(s)) =~= Set::<Seq<char>>::empty());
    assert(modified_ids(s, s) =~= Set::<Seq<char>>::empty());
}

proof fn lemma_ids_take_step(s: Seq<BubbleV>, i: int)
    requires
        0 <= i < s.len(),
    ensures
        ids(s.take(i + 1)) == ids(s.take(i)).insert(s[i].id),
        ids(s.take(0)) == Set::<Seq<char>>::empty(),
{
    let f = |b: BubbleV| b.id;
    assert(s.take(i + 1).map_values(f) =~= s.take(i).map_values(f).push(s[i].id));
    s.take(i).map_values(f).lemma_push_to_set_commute(s[i].id);
    assert(s.take(0).map_values(f) =~= Seq::<Seq<char>>::empty());
    assert(s.take(0).map_values(f).to_set() =~= Set::<Seq<char>>::empty());
}

proof fn lemma_ids_contains(s: Seq<BubbleV>, id: Seq<char>)
    ensures
        ids(s).contains(id) <==> exists|k: int| 0 <= k < s.len() && #[trigger] s[k].id == id,
        ids(s).contains(id) <==> last_with_id(s, id) is Some,
        last_with_id(s, id) is Some ==> last_with_id(s, id)->0.id == id,
    decreases s.len(),
{
    let f = |b: BubbleV| b.id;
    if ids(s).contains(id) {
        let k = choose|k: int| 0 <= k < s.map_values(f).len() && s.map_values(f)[k] == id;
        assert(s[k].id == id);
    }
    if exists|k: int| 0 <= k < s.len() && #[trigger] s[k].id == id {
        let k = choose|k: int| 0 <= k < s.len() && #[trigger] s[k].id == id;
        assert(s.map_values(f)[k] == id);
    }
    if s.len() > 0 {
        lemma_ids_contains(s.drop_last(), id);
        if s.last().id != id {
            if exists|k: int| 0 <= k < s.len() && #[trigger] s[k].id == id {
                let k = choose|k: int| 0 <= k < s.len() && #[trigger] s[k].id == id;
                assert(s.drop_last()[k].id == id);
            }
            if exists|k: int| 0 <= k < s.drop_last().len() && #[trigger] s.drop_last()[k].id == id {
                let k = choose|k: int| 0 <= k < s.drop_last().len() && #[trigger] s.drop_last()[k].id == id;
                assert(s[k].id == id);
            }
        }
    }
}

/// Whether some bubble of `s` has the id.
fn holds_id(s: &[Bubble], id: &String) -> (r: bool)
    ensures
        r == ids(bubble_views(s@)).contains(id@),
{
    proof {
        lemma_ids_contains(bubble_views(s@), id@);
    }
    let mut j: usize = 0;
    while j < s.len()
        invariant
            j <= s@.len(),
            forall|k: int| 0 <= k < j ==> s@[k].id@ != id@,
        decreases s.len() - j,
    {
        if s[j].id == *id {
            assert(bubble_views(s@)[j as int] == s@[j as int]@);
            assert(bubble_views(s@)[j as int].id == id@);
            proof {
                lemma_ids_contains(bubble_views(s@), id@);
            }
            return true;
        }
        j = j + 1;
    }
    proof {
        assert forall|k: int| 0 <= k < s@.len() implies #[trigger] bubble_views(s@)[k].id != id@ by {
            assert(bubble_views(s@)[k] == s@[k]@);
        }
    }
    false
}

/// The position of the last bubble of `s` with the id.
fn last_index_with_id(s: &[Bubble], id: &String) -> (r: Option<usize>)
    ensures
        match r {
            Some(k) => k < s@.len() && last_with_id(bubble_views(s@), id@) == Some(s@[k as int]@),
            None => last_with_id(bubble_views(s@), id@) is None,
        },
{
    let ghost bv = bubble_views(s@);
    let mut j: usize = s.len();
    assert(bv.take(j as int) =~= bv);
    while j > 0
        invariant
            j <= s@.len(),
            bv == bubble_views(s@),
            last_with_id(bv, id@) == last_with_id(bv.take(j as int), id@),
        decreases j,
    {
        proof {
            assert(bv.take(j as int).drop_last() =~= bv.take(j - 1));
            assert(bv.take(j as int).last() == s@[j - 1]@);
        }
        if s[j - 1].id == *id {
            return Some(j - 1);
        }
        j = j - 1;
    }
    None
}

/// The distinct ids of `from` that `keep` admits, in first-seen order.
fn collect_ids(
    from: &[Bubble],
    other: &[Bubble],
    want_in_other: bool,
) -> (r: Vec<String>)
    ensures
        views(r@).no_duplicates(),
        views(r@).to_set() == (if want_in_other {
            ids(bubble_views(from@)).intersect(ids(bubble_views(other@)))
        } else {
            ids(bubble_views(from@)).difference(ids(bubble_views(other@)))
        }),
{
    let ghost fv = bubble_views(from@);
    let ghost ov = ids(bubble_views(other@));
    let mut out: Vec<String> = Vec::new();
    let mut i: usize = 0;
    proof {
        assert(views(out@) =~= Seq::<Seq<char>>::empty());
        if from@.len() > 0 {
            lemma_ids_take_step(fv, 0);
        } else {
            assert(fv.take(0).map_values(|b: BubbleV| b.id) =~= Seq::<Seq<char>>::empty());
            assert(fv.take(0).map_values(|b: BubbleV| b.id).to_set() =~= Set::<Seq<char>>::empty());
        }
    }
    while i < from.len()
        invariant
            i <= from@.len(),
            fv == bubble_views(from@),
            ov == ids(bubble_views(other@)),
            views(out@).no_duplicates(),
            views(out@).to_set() == (if want_in_other {
                ids(fv.take(i as int)).intersect(ov)
            } else {
                ids(fv.take(i as int)).difference(ov)
            }),
        decreases from.len() - i,
    {
        let id = &from[i].id;
        proof {
            lemma_ids_take_step(fv, i as int);
            assert(fv[i as int].id == id@);
        }
        let inside = holds_id(other, id);
        let ghost before = views(out@).to_set();
        if inside == want_in_other {
            text::push_unique(&mut out, id.clone());
        }
        proof {
            let prev = ids(fv.take(i as int));
            let next = ids(fv.take(i + 1));
            if want_in_other {
                assert(next.intersect(ov) =~= if inside {
                    prev.intersect(ov).insert(id@)
                } else {
                    prev.intersect(ov)
                });
            } else {
                assert(next.difference(ov) =~= if !inside {
                    prev.difference(ov).insert(id@)
                } else {
                    prev.difference(ov)
                });
            }
        }
        i = i + 1;
    }
    proof {
        assert(fv.take(i as int) =~= fv);
    }
    out
}

/// `bubble_diff`: the ids only the incoming side holds (`added`), only the
/// local side holds (`removed`), and both hold with versions that differ in
/// text, role, time or tool calls (`modified`), each id once. Where a side
/// holds an id more than once, its last bubble with the id counts.
pub fn bubble_diff(local: &[Bubble], incoming: &[Bubble]) -> (r: BubbleDiff)
    ensures
        views(r.added@).no_duplicates(),
        views(r.removed@).no_duplicates(),
        views(r.modified@).no_duplicates(),
        views(r.added@).to_set() == ids(bubble_views(incoming@)).difference(
            ids(bubble_views(local@)),
        ),
        views(r.removed@).to_set() == ids(bubble_views(local@)).difference(
            ids(bubble_views(incoming@)),
        ),
        views(r.modified@).to_set() == modified_ids(bubble_views(local@), bubble_views(incoming@)),
{
    let added = collect_ids(incoming, local, false);
    let removed = collect_ids(local, incoming, false);
    let both = collect_ids(local, incoming, true);
    let ghost lv = bubble_views(local@);
    let ghost iv = bubble_views(incoming@);
    let mut modified: Vec<String> = Vec::new();
    let mut i: usize = 0;
    proof {
        assert(views(modified@) =~= Seq::<Seq<char>>::empty());
        assert(views(both@).take(0).to_set() =~= Set::<Seq<char>>::empty());
    }
    while i < both.len()
        invariant
            i <= both@.len(),
            lv == bubble_views(local@),
            iv == bubble_views(incoming@),
            views(both@).to_set() == ids(lv).intersect(ids(iv)),
            views(modified@).no_duplicates(),
            views(modified@).to_set() == views(both@).take(i as int).to_set().filter(
                |id: Seq<char>| differs(last_with_id(lv, id)->0, last_with_id(iv, id)->0),
            ),
        decreases both.len() - i,
    {
        let id = &both[i];
        let ghost idv = id@;
        proof {
            assert(views(both@)[i as int] == idv);
            assert(views(both@).take(i + 1) =~= views(both@).take(i as int).push(idv));
            views(both@).take(i as int).lemma_push_to_set_commute(idv);
            assert(views(both@).contains(idv));
            assert(views(both@).to_set().contains(idv));
            lemma_ids_contains(lv, idv);
            lemma_ids_contains(iv, idv);
        }
        let li = last_index_with_id(local, id);
        let ii = last_index_with_id(incoming, id);
        let mut differ = false;
        match (li, ii) {
            (Some(a), Some(b)) => {
                let l = &local[a];
                let n = &incoming[b];
                differ = l.text != n.text || l.role != n.role || l.created_at_ms != n.created_at_ms
                    || !bubble::tools_eq(&l.tool_calls, &n.tool_calls);
            },
            _ => {},
        }
        let ghost f = |x: Seq<char>| differs(last_with_id(lv, x)->0, last_with_id(iv, x)->0);
        proof {
            assert(differ == f(idv));
        }
        if differ {
            text::push_unique(&mut modified, id.clone());
        }
        proof {
            let prev = views(both@).take(i as int).to_set();
            assert(views(both@).take(i + 1).to_set().filter(f) =~= if f(idv) {
                prev.filter(f).insert(idv)
            } else {
                prev.filter(f)
            });
        }
        i = i + 1;
    }
    proof {
        assert(views(both@).take(i as int) =~= views(both@));
        assert(views(modified@).to_set() =~= modified_ids(lv, iv));
    }
    BubbleDiff { added, removed, modified }
}

// ── Incoming-first merge ──────────────────────────────────────

/// The version of `id` an incoming-first merge keeps: the incoming one
/// where the incoming side holds the id, the local one otherwise.
pub open spec fn winner(local: Seq<BubbleV>, incoming: Seq<BubbleV>, id: Seq<char>) -> BubbleV {
    match last_with_id(incoming, id) {
        Some(b) => b,
        None => last_with_id(local, id)->0,
    }
}

/// `x` sorts before `y`: earlier, or as early with the smaller id.
pub open spec fn key_lt(x: BubbleV, y: BubbleV) -> bool {
    x.created_at_ms < y.created_at_ms || (x.created_at_ms == y.created_at_ms && text::lex_lt(
        x.id,
        y.id,
    ))
}

/// Strictly ascending by time, then id.
pub open spec fn ascending(s: Seq<BubbleV>) -> bool {
    forall|i: int, j: int| 0 <= i < j < s.len() ==> key_lt(#[trigger] s[i], #[trigger] s[j])
}

/// The ids of a sequence, in order.
pub open spec fn id_seq(s: Seq<BubbleV>) -> Seq<Seq<char>> {
    s.map_values(|b: BubbleV| b.id)
}

pub proof fn lemma_key_order(x: BubbleV, y: BubbleV, z: BubbleV)
    ensures
        !key_lt(x, x),
        x.id != y.id ==> key_lt(x, y) || key_lt(y, x),
        key_lt(x, y) && key_lt(y, z) ==> key_lt(x, z),
{
    text::lemma_lex_order(x.id, y.id, z.id);
    text::lemma_lex_order(y.id, x.id, z.id);
}

pub proof fn lemma_insert_to_set<A>(s: Seq<A>, pos: int, x: A)
    requires
        0 <= pos <= s.len(),
    ensures
        s.insert(pos, x).to_set() == s.to_set().insert(x),
{
    let t = s.insert(pos, x);
    assert forall|a: A| t.to_set().contains(a) <==> s.to_set().insert(x).contains(a) by {
        if t.contains(a) {
            let k = choose|k: int| 0 <= k < t.len() && t[k] == a;
            if k < pos {
                assert(s[k] == a);
            } else if k > pos {
                assert(s[k - 1] == a);
            }
        }
        if s.contains(a) {
            let k = choose|k: int| 0 <= k < s.len() && s[k] == a;
            if k < pos {
                assert(t[k] == a);
            } else {
                assert(t[k + 1] == a);
            }
        }
        assert(t[pos] == x);
    }
    assert(t.to_set() =~= s.to_set().insert(x));
}

pub(crate) fn key_less(a: &Bubble, b: &Bubble) -> (r: bool)
    ensures
        r == key_lt(a@, b@),
{
    a.created_at_ms < b.created_at_ms || (a.created_at_ms == b.created_at_ms && text::str_lt(
        a.id.as_str(),
        b.id.as_str(),
    ))
}

pub(crate) fn insert_ascending(out: &mut Vec<Bubble>, e: Bubble)
    requires
        ascending(bubble_views(old(out)@)),
        !id_seq(bubble_views(old(out)@)).contains(e@.id),
    ensures
        ascending(bubble_views(final(out)@)),
        exists|pos: int|
            0 <= pos <= old(out)@.len() && bubble_views(final(out)@) == bubble_views(
                old(out)@,
            ).insert(pos, e@),
{
    let ghost before = bubble_views(out@);
    let ghost ev = e@;
    let mut pos: usize = 0;
    while pos < out.len() && !key_less(&e, &out[pos])
        invariant
            pos <= out@.len(),
            before == bubble_views(out@),
            ev == e@,
            forall|k: int| 0 <= k < pos ==> !key_lt(ev, #[trigger] before[k]),
        decreases out.len() - pos,
    {
        assert(before[pos as int] == out@[pos as int]@);
        pos = pos + 1;
    }
    proof {
        if pos < out@.len() {
            assert(before[pos as int] == out@[pos as int]@);
        }
        let now = before.insert(pos as int, ev);
        assert forall|k: int| 0 <= k < before.len() implies before[k].id != ev.id by {
            if before[k].id == ev.id {
                assert(id_seq(before)[k] == ev.id);
            }
        }
        assert forall|a: int, b: int| 0 <= a < b < now.len() implies key_lt(
            #[trigger] now[a],
            #[trigger] now[b],
        ) by {
            if b < pos {
                assert(now[a] == before[a] && now[b] == before[b]);
            } else if b == pos {
                assert(now[a] == before[a]);
                lemma_key_order(before[a], ev, ev);
            } else if a < pos {
                assert(now[a] == before[a] && now[b] == before[b - 1]);
                lemma_key_order(before[a], ev, ev);
                lemma_key_order(before[a], ev, before[pos as int]);
                if pos < b - 1 {
                    lemma_key_order(ev, before[pos as int], before[b - 1]);
                    lemma_key_order(before[a], ev, before[b - 1]);
                } else {
                    lemma_key_order(before[a], ev, before[b - 1]);
                }
            } else if a == pos {
                assert(now[b] == before[b - 1]);
                if pos < b - 1 {
                    lemma_key_order(ev, before[pos as int], before[b - 1]);
                }
            } else {
                assert(now[a] == before[a - 1] && now[b] == before[b - 1]);
            }
        }
    }
    out.insert(pos, e);
    proof {
        assert(bubble_views(out@) =~= before.insert(pos as int, ev));
    }
}

/// `auto_merge`: the incoming-first merge of two versions of a
/// conversation: one bubble per id either side holds, the incoming version
/// where there is one, sorted by time and then id. (Archiving the local
/// version as JSON is the caller's part.)
pub fn auto_merge(local: &[Bubble], incoming: &[Bubble]) -> (r: Vec<Bubble>)
    ensures
        ascending(bubble_views(r@)),
        id_seq(bubble_views(r@)).to_set() == ids(bubble_views(local@)).union(
            ids(bubble_views(incoming@)),
        ),
        forall|k: int|
            0 <= k < r@.len() ==> #[trigger] bubble_views(r@)[k] == winner(
                bubble_views(local@),
                bubble_views(incoming@),
                bubble_views(r@)[k].id,
            ),
{
    let ghost lv = bubble_views(local@);
    let ghost iv = bubble_views(incoming@);
    let only_local = collect_ids(local, incoming, false);
    let from_incoming = collect_ids(incoming, &[], false);
    let mut all_ids: Vec<String> = Vec::new();
    proof {
        assert(views(all_ids@) =~= Seq::<Seq<char>>::empty());
        assert(bubble_views(Seq::<Bubble>::empty()) =~= Seq::<BubbleV>::empty());
        assert(ids(Seq::<BubbleV>::empty()) =~= Set::<Seq<char>>::empty()) by {
            assert(Seq::<BubbleV>::empty().map_values(|b: BubbleV| b.id) =~= Seq::<Seq<char>>::empty());
        }
    }
    let mut j: usize = 0;
    while j < only_local.len()
        invariant
            j <= only_local@.len(),
            views(all_ids@).no_duplicates(),
            views(all_ids@).to_set() == views(only_local@).take(j as int).to_set(),
        decreases only_local.len() - j,
    {
        let ghost prev = views(only_local@).take(j as int);
        proof {
            assert(views(only_local@).take(j + 1) =~= prev.push(only_local@[j as int]@));
            prev.lemma_push_to_set_commute(only_local@[j as int]@);
        }
        text::push_unique(&mut all_ids, only_local[j].clone());
        j = j + 1;
    }
    let mut k: usize = 0;
    proof {
        assert(views(only_local@).take(j as int) =~= views(only_local@));
    }
    while k < from_incoming.len()
        invariant
            k <= from_incoming@.len(),
            views(all_ids@).no_duplicates(),
            views(all_ids@).to_set() == views(only_local@).to_set().union(
                views(from_incoming@).take(k as int).to_set(),
            ),
        decreases from_incoming.len() - k,
    {
        let ghost prev = views(from_incoming@).take(k as int);
        proof {
            assert(views(from_incoming@).take(k + 1) =~= prev.push(from_incoming@[k as int]@));
            prev.lemma_push_to_set_commute(from_incoming@[k as int]@);
            assert(views(only_local@).to_set().union(prev.to_set().insert(from_incoming@[k as int]@))
                =~= views(only_local@).to_set().union(prev.to_set()).insert(from_incoming@[k as int]@));
        }
        text::push_unique(&mut all_ids, from_incoming[k].clone());
        k = k + 1;
    }
    proof {
        assert(views(from_incoming@).take(k as int) =~= views(from_incoming@));
        assert(views(all_ids@).to_set() =~= ids(lv).union(ids(iv)));
    }
    let mut out: Vec<Bubble> = Vec::new();
    let mut i: usize = 0;
    proof {
        assert(bubble_views(out@) =~= Seq::<BubbleV>::empty());
        assert(id_seq(bubble_views(out@)) =~= Seq::<Seq<char>>::empty());
        assert(views(all_ids@).take(0) =~= Seq::<Seq<char>>::empty());
    }
    while i < all_ids.len()
        invariant
            i <= all_ids@.len(),
            lv == bubble_views(local@),
            iv == bubble_views(incoming@),
            views(all_ids@).no_duplicates(),
            views(all_ids@).to_set() == ids(lv).union(ids(iv)),
            ascending(bubble_views(out@)),
            id_seq(bubble_views(out@)).to_set() == views(all_ids@).take(i as int).to_set(),
            forall|m: int|
                0 <= m < out@.len() ==> #[trigger] bubble_views(out@)[m] == winner(
                    lv,
                    iv,
                    bubble_views(out@)[m].id,
                ),
        decreases all_ids.len() - i,
    {
        let id = &all_ids[i];
        let ghost idv = id@;
        proof {
            assert(views(all_ids@)[i as int] == idv);
            assert(views(all_ids@).to_set().contains(idv));
            lemma_ids_contains(lv, idv);
            lemma_ids_contains(iv, idv);
        }
        let b = match last_index_with_id(incoming, id) {
            Some(x) => incoming[x].clone(),
            None => match last_index_with_id(local, id) {
                Some(x) => local[x].clone(),
                None => {
                    proof {
                        assert(false);
                    }
                    i = i + 1;
                    continue;
                },
            },
        };
        proof {
            assert(b@ == winner(lv, iv, idv));
            assert(b@.id == idv);
            let prev = views(all_ids@).take(i as int);
            if id_seq(bubble_views(out@)).contains(idv) {
                assert(prev.to_set().contains(idv));
                let p = choose|p: int| 0 <= p < prev.len() && prev[p] == idv;
                assert(views(all_ids@)[p] == idv);
                assert(false);
            }
        }
        let ghost before = bubble_views(out@);
        insert_ascending(&mut out, b);
        proof {
            let now = bubble_views(out@);
            let pos = choose|pos: int| 0 <= pos <= before.len() && now == before.insert(pos, b@);
            assert(id_seq(now) =~= id_seq(before).insert(pos, idv));
            lemma_insert_to_set(id_seq(before), pos, idv);
            let prev = views(all_ids@).take(i as int);
            assert(views(all_ids@).take(i + 1) =~= prev.push(idv));
            prev.lemma_push_to_set_commute(idv);
            assert forall|m: int| 0 <= m < now.len() implies #[trigger] now[m] == winner(lv, iv, now[m].id) by {
                if m < pos {
                    assert(now[m] == before[m]);
                } else if m > pos {
                    assert(now[m] == before[m - 1]);
                }
            }
        }
        i = i + 1;
    }
    proof {
        assert(views(all_ids@).take(i as int) =~= views(all_ids@));
    }
    out
}

// ── Content hash ──────────────────────────────────────────────

/// The position before which a stable insertion by id puts `b`: the first
/// bubble with a greater id.
pub open spec fn insert_pos(s: Seq<BubbleV>, b: BubbleV) -> int
    decreases s.len(),
{
    if s.len() == 0 {
        0
    } else if text::lex_lt(b.id, s[0].id) {
        0
    } else {
        1 + insert_pos(s.drop_first(), b)
    }
}

/// `s` sorted by id, stably (`sort_by` on the ids).
pub open spec fn sorted_by_id(s: Seq<BubbleV>) -> Seq<BubbleV>
    decreases s.len(),
{
    if s.len() == 0 {
        seq![]
    } else {
        let t = sorted_by_id(s.drop_last());
        t.insert(insert_pos(t, s.last()), s.last())
    }
}

/// One bubble as the hash covers it: `{"id":…,"role":…,"text":…,"ts":…}`.
pub open spec fn hash_entry(b: BubbleV) -> JsonV {
    JsonV::Object(
        seq![
            ("id"@, JsonV::Str(b.id)),
            ("role"@, JsonV::Str(b.role)),
            ("text"@, JsonV::Str(b.text)),
            ("ts"@, jint(b.created_at_ms)),
        ],
    )
}

/// The JSON array the hash covers: the bubbles sorted by id.
pub open spec fn hash_payload(s: Seq<BubbleV>) -> JsonV {
    JsonV::Array(sorted_by_id(s).map_values(|b: BubbleV| hash_entry(b)))
}

pub proof fn lemma_insert_pos(s: Seq<BubbleV>, b: BubbleV)
    ensures
        0 <= insert_pos(s, b) <= s.len(),
    decreases s.len(),
{
    if s.len() > 0 {
        lemma_insert_pos(s.drop_first(), b);
    }
}

pub(crate) fn insert_by_id(out: &mut Vec<Bubble>, b: Bubble)
    ensures
        bubble_views(final(out)@) == bubble_views(old(out)@).insert(
            insert_pos(bubble_views(old(out)@), b@),
            b@,
        ),
{
    let ghost ov = bubble_views(out@);
    let mut k: usize = 0;
    proof {
        lemma_insert_pos(ov, b@);
        assert(ov.skip(0) =~= ov);
    }
    while k < out.len() && !text::str_lt(b.id.as_str(), out[k].id.as_str())
        invariant
            k <= out@.len(),
            ov == bubble_views(out@),
            insert_pos(ov, b@) == k + insert_pos(ov.skip(k as int), b@),
        decreases out.len() - k,
    {
        assert(ov.skip(k as int)[0] == out@[k as int]@);
        assert(ov.skip(k as int).drop_first() =~= ov.skip(k + 1));
        k = k + 1;
    }
    proof {
        if k < out@.len() {
            assert(ov.skip(k as int)[0] == out@[k as int]@);
        }
    }
    let ghost bv = b@;
    out.insert(k, b);
    assert(bubble_views(out@) =~= ov.insert(k as int, bv));
}

fn hash_entry_json(b: &Bubble) -> (r: Json)
    ensures
        r@ == hash_entry(b@),
{
    let mut e: Vec<(String, Json)> = Vec::new();
    proof {
        json::lemma_entries_view(e@);
    }
    json::push_member(&mut e, "id", Json::Str(b.id.clone()));
    json::push_member(&mut e, "role", Json::Str(b.role.clone()));
    json::push_member(&mut e, "text", Json::Str(b.text.clone()));
    json::push_member(&mut e, "ts", int_json(b.created_at_ms));
    assert(entries_view(e@) =~= hash_entry(b@)->Object_0);
    Json::Object(e)
}

/// Every two bubbles of `s` have different ids.
pub open spec fn ids_distinct(s: Seq<BubbleV>) -> bool {
    forall|i: int, j: int|
        0 <= i < s.len() && 0 <= j < s.len() && i != j ==> (#[trigger] s[i]).id != (#[trigger] s[j]).id
}

/// The ids of `s` strictly increase.
pub open spec fn strictly_by_id(s: Seq<BubbleV>) -> bool {
    forall|i: int, j: int| 0 <= i < j < s.len() ==> text::lex_lt((#[trigger] s[i]).id, (#[trigger] s[j]).id)
}

proof fn lemma_insert_pos_split(t: Seq<BubbleV>, x: BubbleV)
    requires
        strictly_by_id(t),
        forall|k: int| 0 <= k < t.len() ==> (#[trigger] t[k]).id != x.id,
    ensures
        0 <= insert_pos(t, x) <= t.len(),
        forall|k: int| 0 <= k < insert_pos(t, x) ==> text::lex_lt((#[trigger] t[k]).id, x.id),
        forall|k: int| insert_pos(t, x) <= k < t.len() ==> text::lex_lt(x.id, (#[trigger] t[k]).id),
    decreases t.len(),
{
    if t.len() > 0 {
        text::lemma_lex_order(x.id, t[0].id, t[0].id);
        if text::lex_lt(x.id, t[0].id) {
            assert forall|k: int| 0 <= k < t.len() implies text::lex_lt(x.id, (#[trigger] t[k]).id) by {
                if k > 0 {
                    text::lemma_lex_order(x.id, t[0].id, t[k].id);
                }
            }
        } else {
            let d = t.drop_first();
            assert forall|i: int, j: int| 0 <= i < j < d.len() implies text::lex_lt(
                (#[trigger] d[i]).id,
                (#[trigger] d[j]).id,
            ) by {
                assert(d[i] == t[i + 1] && d[j] == t[j + 1]);
            }
            assert forall|k: int| 0 <= k < d.len() implies (#[trigger] d[k]).id != x.id by {
                assert(d[k] == t[k + 1]);
            }
            lemma_insert_pos_split(d, x);
            assert forall|k: int| 0 <= k < insert_pos(t, x) implies text::lex_lt((#[trigger] t[k]).id, x.id) by {
                if k > 0 {
                    assert(t[k] == d[k - 1]);
                }
            }
            assert forall|k: int| insert_pos(t, x) <= k < t.len() implies text::lex_lt(x.id, (#[trigger] t[k]).id) by {
                assert(t[k] == d[k - 1]);
            }
        }
    }
}

/// Sorting by id orders bubbles with distinct ids strictly, and keeps them.
proof fn lemma_sorted_by_id_strict(s: Seq<BubbleV>)
    requires
        ids_distinct(s),
    ensures
        strictly_by_id(sorted_by_id(s)),
        sorted_by_id(s).to_multiset() == s.to_multiset(),
    decreases s.len(),
{
    broadcast use vstd::seq_lib::group_to_multiset_ensures;

    if s.len() == 0 {
        assert(s =~= Seq::<BubbleV>::empty());
    } else {
        let d = s.drop_last();
        let x = s.last();
        assert forall|i: int, j: int| 0 <= i < d.len() && 0 <= j < d.len() && i != j implies (
        #[trigger] d[i]).id != (#[trigger] d[j]).id by {
            assert(d[i] == s[i] && d[j] == s[j]);
        }
        lemma_sorted_by_id_strict(d);
        let t = sorted_by_id(d);
        assert forall|k: int| 0 <= k < t.len() implies (#[trigger] t[k]).id != x.id by {
            assert(t.contains(t[k]));
            assert(t.to_multiset().count(t[k]) > 0);
            assert(d.contains(t[k]));
            let i = choose|i: int| 0 <= i < d.len() && d[i] == t[k];
            assert(s[i] == t[k]);
            assert(s[s.len() - 1] == x);
        }
        lemma_insert_pos_split(t, x);
        let p = insert_pos(t, x);
        let u = t.insert(p, x);
        assert(sorted_by_id(s) == u);
        assert forall|i: int, j: int| 0 <= i < j < u.len() implies text::lex_lt(
            (#[trigger] u[i]).id,
            (#[trigger] u[j]).id,
        ) by {
            if j < p {
                assert(u[i] == t[i] && u[j] == t[j]);
            } else if j == p {
                assert(u[i] == t[i] && u[j] == x);
            } else if i < p {
                assert(u[i] == t[i] && u[j] == t[j - 1]);
            } else if i == p {
                assert(u[i] == x && u[j] == t[j - 1]);
            } else {
                assert(u[i] == t[i - 1] && u[j] == t[j - 1]);
            }
        }
        vstd::seq_lib::to_multiset_insert(t, p, x);
        assert(s =~= d.push(x));
    }
}

/// Two sequences ordered strictly by id that hold the same bubbles are
/// the same sequence.
proof fn lemma_strict_unique(a: Seq<BubbleV>, b: Seq<BubbleV>)
    requires
        strictly_by_id(a),
        strictly_by_id(b),
        a.to_multiset() == b.to_multiset(),
    ensures
        a == b,
    decreases a.len(),
{
    broadcast use vstd::seq_lib::group_to_multiset_ensures;

    vstd::seq_lib::to_multiset_len(a);
    vstd::seq_lib::to_multiset_len(b);
    assert(a.len() == b.len());
    if a.len() > 0 {
        assert(a.contains(a[0]));
        assert(b.to_multiset().count(a[0]) > 0);
        let k = choose|k: int| 0 <= k < b.len() && b[k] == a[0];
        assert(b.contains(b[0]));
        assert(a.to_multiset().count(b[0]) > 0);
        let j = choose|j: int| 0 <= j < a.len() && a[j] == b[0];
        text::lemma_lex_order(a[0].id, b[0].id, b[0].id);
        text::lemma_lex_order(b[0].id, a[0].id, a[0].id);
        if k > 0 {
            assert(text::lex_lt(b[0].id, b[k].id));
            if j > 0 {
                assert(text::lex_lt(a[0].id, a[j].id));
            }
        }
        assert(k == 0);
        assert(a[0] == b[0]);
        vstd::seq_lib::to_multiset_remove(a, 0);
        vstd::seq_lib::to_multiset_remove(b, 0);
        assert(a.remove(0) =~= a.drop_first());
        assert(b.remove(0) =~= b.drop_first());
        let a1 = a.drop_first();
        let b1 = b.drop_first();
        assert forall|i: int, j2: int| 0 <= i < j2 < a1.len() implies text::lex_lt(
            (#[trigger] a1[i]).id,
            (#[trigger] a1[j2]).id,
        ) by {
            assert(a1[i] == a[i + 1] && a1[j2] == a[j2 + 1]);
        }
        assert forall|i: int, j2: int| 0 <= i < j2 < b1.len() implies text::lex_lt(
            (#[trigger] b1[i]).id,
            (#[trigger] b1[j2]).id,
        ) by {
            assert(b1[i] == b[i + 1] && b1[j2] == b[j2 + 1]);
        }
        lemma_strict_unique(a1, b1);
        assert forall|i: int| 0 <= i < a.len() implies a[i] == b[i] by {
            if i > 0 {
                assert(a[i] == a1[i - 1] && b[i] == b1[i - 1]);
            }
        }
        assert(a =~= b);
    }
}

/// The content hash does not depend on the order of the bubbles: two
/// lists of the same bubbles, each id once, give the same hashed payload
/// (and so the same `content_hash_from_bubbles`).
pub proof fn lemma_content_hash_order_free(a: Seq<BubbleV>, b: Seq<BubbleV>)
    requires
        ids_distinct(a),
        ids_distinct(b),
        a.to_multiset() == b.to_multiset(),
    ensures
        hash_payload(a) == hash_payload(b),
        content_hash_of(a) == content_hash_of(b),
{
    lemma_sorted_by_id_strict(a);
    lemma_sorted_by_id_strict(b);
    lemma_strict_unique(sorted_by_id(a), sorted_by_id(b));
}

/// `a` and `b` hold, position by position, bubbles that agree in what the
/// content hash covers: id, role, text and time.
pub open spec fn same_hashed_fields(a: Seq<BubbleV>, b: Seq<BubbleV>) -> bool {
    &&& a.len() == b.len()
    &&& forall|k: int|
        #![trigger a[k], b[k]]
        0 <= k < a.len() ==> a[k].id == b[k].id && a[k].role == b[k].role && a[k].text == b[k].text
            && a[k].created_at_ms == b[k].created_at_ms
}

proof fn lemma_insert_pos_same_ids(t1: Seq<BubbleV>, t2: Seq<BubbleV>, x1: BubbleV, x2: BubbleV)
    requires
        same_hashed_fields(t1, t2),
        x1.id == x2.id,
    ensures
        insert_pos(t1, x1) == insert_pos(t2, x2),
    decreases t1.len(),
{
    if t1.len() > 0 {
        assert(t1[0].id == t2[0].id);
        let d1 = t1.drop_first();
        let d2 = t2.drop_first();
        assert forall|k: int| #![trigger d1[k], d2[k]] 0 <= k < d1.len() implies d1[k].id == d2[k].id && d1[k].role
            == d2[k].role && d1[k].text == d2[k].text && d1[k].created_at_ms == d2[k].created_at_ms by {
            assert(d1[k] == t1[k + 1] && d2[k] == t2[k + 1]);
        }
        lemma_insert_pos_same_ids(d1, d2, x1, x2);
    }
}

proof fn lemma_sorted_same_fields(a: Seq<BubbleV>, b: Seq<BubbleV>)
    requires
        same_hashed_fields(a, b),
    ensures
        same_hashed_fields(sorted_by_id(a), sorted_by_id(b)),
    decreases a.len(),
{
    if a.len() > 0 {
        let da = a.drop_last();
        let db = b.drop_last();
        assert forall|k: int| #![trigger da[k], db[k]] 0 <= k < da.len() implies da[k].id == db[k].id && da[k].role
            == db[k].role && da[k].text == db[k].text && da[k].created_at_ms == db[k].created_at_ms by {
            assert(da[k] == a[k] && db[k] == b[k]);
        }
        lemma_sorted_same_fields(da, db);
        let ta = sorted_by_id(da);
        let tb = sorted_by_id(db);
        let xa = a.last();
        let xb = b.last();
        assert(xa == a[a.len() - 1] && xb == b[b.len() - 1]);
        lemma_insert_pos_same_ids(ta, tb, xa, xb);
        lemma_insert_pos(ta, xa);
        let p = insert_pos(ta, xa);
        let ua = ta.insert(p, xa);
        let ub = tb.insert(p, xb);
        assert forall|k: int| #![trigger ua[k], ub[k]] 0 <= k < ua.len() implies ua[k].id == ub[k].id && ua[k].role
            == ub[k].role && ua[k].text == ub[k].text && ua[k].created_at_ms == ub[k].created_at_ms by {
            if k < p {
                assert(ua[k] == ta[k] && ub[k] == tb[k]);
            } else if k > p {
                assert(ua[k] == ta[k - 1] && ub[k] == tb[k - 1]);
            }
        }
    }
}

/// The content hash covers a bubble's id, role, text and time only: lists
/// whose bubbles agree in those, position by position, hash alike however
/// their tool calls, files, images or parents differ.
pub proof fn lemma_content_hash_covers_fields(a: Seq<BubbleV>, b: Seq<BubbleV>)
    requires
        same_hashed_fields(a, b),
    ensures
        hash_payload(a) == hash_payload(b),
        content_hash_of(a) == content_hash_of(b),
{
    lemma_sorted_same_fields(a, b);
    let sa = sorted_by_id(a);
    let sb = sorted_by_id(b);
    assert forall|k: int| 0 <= k < sa.len() implies hash_entry(#[trigger] sa[k]) == hash_entry(sb[k]) by {
        assert(sa[k].id == sb[k].id && sa[k].role == sb[k].role && sa[k].text == sb[k].text
            && sa[k].created_at_ms == sb[k].created_at_ms);
    }
    assert(sa.map_values(|x: BubbleV| hash_entry(x)) =~= sb.map_values(|x: BubbleV| hash_entry(x)));
}

/// The content hash of a list of bubbles: the lowercase hex SHA-256 of the
/// compact JSON text of `hash_payload`.
pub open spec fn content_hash_of(s: Seq<BubbleV>) -> Seq<char> {
    crate::codec::hex_of(
        crate::digest::sha256_digest(vstd::utf8::encode_utf8(json_codec::compact_json(hash_payload(s)))),
    )
}

/// `content_hash_from_bubbles`: the lowercase hex SHA-256 of the bubbles'
/// ids, roles, texts and times as a JSON array, sorted by id.
pub fn content_hash_from_bubbles(bubbles: &[Bubble]) -> (r: String)
    ensures
        r@ == content_hash_of(bubble_views(bubbles@)),
        r@.len() == 64,
        forall|k: int| 0 <= k < r@.len() ==> crate::codec::is_lower_hex(#[trigger] r@[k]),
{
    let ghost bv = bubble_views(bubbles@);
    let mut sorted: Vec<Bubble> = Vec::new();
    let mut i: usize = 0;
    proof {
        assert(bubble_views(sorted@) =~= Seq::<BubbleV>::empty());
        assert(bv.take(0) =~= Seq::<BubbleV>::empty());
    }
    while i < bubbles.len()
        invariant
            i <= bubbles@.len(),
            bv == bubble_views(bubbles@),
            bubble_views(sorted@) == sorted_by_id(bv.take(i as int)),
        decreases bubbles.len() - i,
    {
        proof {
            assert(bv.take(i + 1).drop_last() =~= bv.take(i as int));
            assert(bv.take(i + 1).last() == bubbles@[i as int]@);
        }
        insert_by_id(&mut sorted, bubbles[i].clone());
        i = i + 1;
    }
    proof {
        assert(bv.take(i as int) =~= bv);
    }
    let ghost sv = bubble_views(sorted@);
    let mut entries: Vec<Json> = Vec::new();
    let mut k: usize = 0;
    proof {
        json::lemma_items_view(entries@);
        assert(items_view(entries@) =~= sv.map_values(|b: BubbleV| hash_entry(b)).take(0));
    }
    while k < sorted.len()
        invariant
            k <= sorted@.len(),
            sv == bubble_views(sorted@),
            sv == sorted_by_id(bv),
            items_view(entries@) == sv.map_values(|b: BubbleV| hash_entry(b)).take(k as int),
        decreases sorted.len() - k,
    {
        let e = hash_entry_json(&sorted[k]);
        json::push_item(&mut entries, e);
        proof {
            assert(sv[k as int] == sorted@[k as int]@);
            assert(sv.map_values(|b: BubbleV| hash_entry(b)).take(k + 1) =~= sv.map_values(
                |b: BubbleV| hash_entry(b),
            ).take(k as int).push(hash_entry(sv[k as int])));
        }
        k = k + 1;
    }
    proof {
        assert(sv.map_values(|b: BubbleV| hash_entry(b)).take(k as int) =~= sv.map_values(
            |b: BubbleV| hash_entry(b),
        ));
    }
    let doc = Json::Array(entries);
    assert(doc@ == hash_payload(bv));
    let payload = json_codec::to_compact(&doc);
    let digest = crate::digest::sha256(payload.as_str().as_bytes());
    proof {
        crate::codec::lemma_hex_of_digits(digest@);
    }
    crate::codec::hex_encode(&digest)
}


/// What the five classes mean: no (or an empty) local hash is `New`; equal
/// non-empty hashes are `Identical` whatever the times; different hashes
/// are `IncomingNewer` exactly when the incoming side was updated later,
/// `LocalAhead` exactly when the local side was, and `Diverged` on a tie.
pub proof fn lemma_classify_meaning(
    local_hash: Option<Seq<char>>,
    local_updated_ms: i64,
    incoming_hash: Seq<char>,
    incoming_updated_ms: i64,
)
    ensures
        ({
            let c = classify_spec(local_hash, local_updated_ms, incoming_hash, incoming_updated_ms);
            let known = local_hash matches Some(h) && h.len() > 0;
            let same = local_hash == Some(incoming_hash);
            &&& (c == ConflictClass::New) <==> !known
            &&& known && same ==> c == ConflictClass::Identical
            &&& (c == ConflictClass::IncomingNewer) <==> (known && !same && incoming_updated_ms
                > local_updated_ms)
            &&& (c == ConflictClass::LocalAhead) <==> (known && !same && local_updated_ms
                > incoming_updated_ms)
            &&& (c == ConflictClass::Diverged) <==> (known && !same && local_updated_ms
                == incoming_updated_ms)
        }),
{
}

} // verus!
