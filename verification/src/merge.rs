//! The three-way merge of one conversation's bubbles as the three layers
//! hold them: Layer 3 is the main chain, Layer 2 overlays it field by
//! field, Layer 1 fills the gaps; one bubble per id, ordered by time and
//! then id.
use vstd::prelude::*;

use crate::bubble::{Bubble, BubbleV, bubble_views};
use crate::conflict::{self, ascending, id_seq, key_lt};
use crate::text;

verus! {

/// `existing` overlaid with `incoming`: each field of `incoming` that
/// carries data (a non-empty text or list, a non-zero time) replaces the
/// existing one; the role only where the existing role is empty or
/// `assistant`.
pub open spec fn overlay(existing: BubbleV, incoming: BubbleV) -> BubbleV {
    BubbleV {
        id: existing.id,
        role: if incoming.role.len() > 0 && (existing.role.len() == 0 || existing.role
            == "assistant"@) {
            incoming.role
        } else {
            existing.role
        },
        text: if incoming.text.len() > 0 {
            incoming.text
        } else {
            existing.text
        },
        tool_calls: if incoming.tool_calls.len() > 0 {
            incoming.tool_calls
        } else {
            existing.tool_calls
        },
        files: if incoming.files.len() > 0 {
            incoming.files
        } else {
            existing.files
        },
        images: existing.images,
        created_at_ms: if incoming.created_at_ms != 0 {
            incoming.created_at_ms
        } else {
            existing.created_at_ms
        },
        parent_bubble_id: existing.parent_bubble_id,
    }
}

/// Layer 3 by id; a later bubble with the same id replaces an earlier one.
pub open spec fn index_l3(l3: Seq<BubbleV>) -> Map<Seq<char>, BubbleV>
    decreases l3.len(),
{
    if l3.len() == 0 {
        Map::empty()
    } else {
        index_l3(l3.drop_last()).insert(l3.last().id, l3.last())
    }
}

/// Layer 2 overlaid on `m`, bubble by bubble.
pub open spec fn overlay_l2(m: Map<Seq<char>, BubbleV>, l2: Seq<BubbleV>) -> Map<Seq<char>, BubbleV>
    decreases l2.len(),
{
    if l2.len() == 0 {
        m
    } else {
        let prev = overlay_l2(m, l2.drop_last());
        let b = l2.last();
        if prev.contains_key(b.id) {
            prev.insert(b.id, overlay(prev[b.id], b))
        } else {
            prev.insert(b.id, b)
        }
    }
}

/// Layer 1 added to `m` where its ids are missing; the first bubble with
/// an id wins.
pub open spec fn fill_l1(m: Map<Seq<char>, BubbleV>, l1: Seq<BubbleV>) -> Map<Seq<char>, BubbleV>
    decreases l1.len(),
{
    if l1.len() == 0 {
        m
    } else {
        let prev = fill_l1(m, l1.drop_last());
        let b = l1.last();
        if prev.contains_key(b.id) {
            prev
        } else {
            prev.insert(b.id, b)
        }
    }
}

/// The merged bubbles, by id.
pub open spec fn merged(l1: Seq<BubbleV>, l2: Seq<BubbleV>, l3: Seq<BubbleV>) -> Map<Seq<char>, BubbleV> {
    fill_l1(overlay_l2(index_l3(l3), l2), l1)
}

/// No two bubbles of `s` share an id.
pub open spec fn distinct_ids(s: Seq<BubbleV>) -> bool {
    forall|i: int, j: int| 0 <= i < j < s.len() ==> (#[trigger] s[i]).id != (#[trigger] s[j]).id
}

/// `s` holds exactly the bubbles of `m`, once each.
pub open spec fn represents(s: Seq<BubbleV>, m: Map<Seq<char>, BubbleV>) -> bool {
    &&& distinct_ids(s)
    &&& forall|i: int| 0 <= i < s.len() ==> m.contains_key((#[trigger] s[i]).id) && m[s[i].id] == s[i]
    &&& forall|id: Seq<char>| #[trigger] m.contains_key(id) ==> exists|i: int| 0 <= i < s.len() && s[i].id == id
}

/// The ids of a sequence of bubbles.
pub open spec fn id_set(s: Seq<BubbleV>) -> Set<Seq<char>> {
    id_seq(s).to_set()
}

/// Each key of the map is the id of its bubble.
pub open spec fn keyed_by_id(m: Map<Seq<char>, BubbleV>) -> bool {
    forall|id: Seq<char>| #[trigger] m.contains_key(id) ==> m[id].id == id
}

fn find_id(v: &Vec<Bubble>, id: &String) -> (r: Option<usize>)
    ensures
        match r {
            Some(k) => k < v@.len() && v@[k as int]@.id == id@,
            None => forall|k: int| 0 <= k < v@.len() ==> (#[trigger] v@[k])@.id != id@,
        },
{
    let mut k: usize = 0;
    while k < v.len()
        invariant
            k <= v@.len(),
            forall|j: int| 0 <= j < k ==> (#[trigger] v@[j])@.id != id@,
        decreases v.len() - k,
    {
        if text::str_eq(v[k].id.as_str(), id.as_str()) {
            return Some(k);
        }
        k = k + 1;
    }
    None
}

proof fn lemma_represents_insert_new(s: Seq<BubbleV>, m: Map<Seq<char>, BubbleV>, b: BubbleV)
    requires
        represents(s, m),
        forall|k: int| 0 <= k < s.len() ==> (#[trigger] s[k]).id != b.id,
    ensures
        represents(s.push(b), m.insert(b.id, b)),
{
    let t = s.push(b);
    let n = m.insert(b.id, b);
    assert forall|i: int| 0 <= i < t.len() implies n.contains_key((#[trigger] t[i]).id) && n[t[i].id] == t[i] by {
        if i < s.len() {
            assert(t[i] == s[i]);
        }
    }
    assert forall|id: Seq<char>| #[trigger] n.contains_key(id) implies exists|i: int| 0 <= i < t.len() && t[i].id == id by {
        if id == b.id {
            assert(t[s.len() as int].id == id);
        } else {
            let i = choose|i: int| 0 <= i < s.len() && s[i].id == id;
            assert(t[i].id == id);
        }
    }
    assert forall|i: int, j: int| 0 <= i < j < t.len() implies (#[trigger] t[i]).id != (#[trigger] t[j]).id by {
        if j == s.len() {
            assert(t[i] == s[i]);
        } else {
            assert(t[i] == s[i] && t[j] == s[j]);
        }
    }
}

proof fn lemma_represents_replace(s: Seq<BubbleV>, m: Map<Seq<char>, BubbleV>, k: int, b: BubbleV)
    requires
        represents(s, m),
        0 <= k < s.len(),
        s[k].id == b.id,
    ensures
        represents(s.update(k, b), m.insert(b.id, b)),
{
    let t = s.update(k, b);
    let n = m.insert(b.id, b);
    assert forall|i: int| 0 <= i < t.len() implies n.contains_key((#[trigger] t[i]).id) && n[t[i].id] == t[i] by {
        if i != k {
            assert(t[i] == s[i]);
            assert(s[i].id != s[k].id);
        }
    }
    assert forall|id: Seq<char>| #[trigger] n.contains_key(id) implies exists|i: int| 0 <= i < t.len() && t[i].id == id by {
        if id == b.id {
            assert(t[k].id == id);
        } else {
            let i = choose|i: int| 0 <= i < s.len() && s[i].id == id;
            assert(t[i].id == id);
        }
    }
    assert forall|i: int, j: int| 0 <= i < j < t.len() implies (#[trigger] t[i]).id != (#[trigger] t[j]).id by {
        assert(s[i].id != s[j].id);
    }
}

fn merge_into(existing: Bubble, incoming: Bubble) -> (r: Bubble)
    ensures
        r@ == overlay(existing@, incoming@),
{
    let mut e = existing;
    if !text::str_is_empty(incoming.text.as_str()) {
        e.text = incoming.text;
    }
    if !text::str_is_empty(incoming.role.as_str()) && (text::str_is_empty(e.role.as_str())
        || text::str_eq(e.role.as_str(), "assistant")) {
        e.role = incoming.role;
    }
    if incoming.created_at_ms != 0 {
        e.created_at_ms = incoming.created_at_ms;
    }
    if incoming.tool_calls.len() > 0 {
        e.tool_calls = incoming.tool_calls;
    }
    if incoming.files.len() > 0 {
        e.files = incoming.files;
    }
    e
}

/// `merge_bubbles_three_way`: Layer 3 indexed by id, Layer 2 overlaid on
/// it (a field replaced only where the Layer 2 bubble carries data), Layer
/// 1 added where an id is still missing; one bubble per id, strictly
/// ascending by time and then id.
pub fn merge_bubbles_three_way(l1: Vec<Bubble>, l2: Vec<Bubble>, l3: Vec<Bubble>) -> (r: Vec<Bubble>)
    ensures
        ascending(bubble_views(r@)),
        represents(
            bubble_views(r@),
            merged(bubble_views(l1@), bubble_views(l2@), bubble_views(l3@)),
        ),
{
    let ghost v1 = bubble_views(l1@);
    let ghost v2 = bubble_views(l2@);
    let ghost v3 = bubble_views(l3@);
    let mut by_id: Vec<Bubble> = Vec::new();
    proof {
        assert(v3.take(0) =~= Seq::<BubbleV>::empty());
        assert(bubble_views(by_id@) =~= Seq::<BubbleV>::empty());
        assert(index_l3(v3.take(0)) =~= Map::<Seq<char>, BubbleV>::empty());
    }
    let mut i: usize = 0;
    while i < l3.len()
        invariant
            i <= l3@.len(),
            v3 == bubble_views(l3@),
            represents(bubble_views(by_id@), index_l3(v3.take(i as int))),
        decreases l3.len() - i,
    {
        proof {
            assert(v3.take(i + 1).drop_last() =~= v3.take(i as int));
            assert(v3.take(i + 1).last() == l3@[i as int]@);
        }
        let b = l3[i].clone();
        let ghost before = bubble_views(by_id@);
        match find_id(&by_id, &b.id) {
            Some(k) => {
                proof {
                    lemma_represents_replace(before, index_l3(v3.take(i as int)), k as int, b@);
                }
                by_id.set(k, b);
                assert(bubble_views(by_id@) =~= before.update(k as int, b@));
            },
            None => {
                proof {
                    assert forall|k: int| 0 <= k < before.len() implies (#[trigger] before[k]).id != b@.id by {
                        assert(before[k] == by_id@[k]@);
                    }
                    lemma_represents_insert_new(before, index_l3(v3.take(i as int)), b@);
                }
                by_id.push(b);
                assert(bubble_views(by_id@) =~= before.push(b@));
            },
        }
        i = i + 1;
    }
    proof {
        assert(v3.take(i as int) =~= v3);
        assert(v2.take(0) =~= Seq::<BubbleV>::empty());
    }
    let ghost m3 = index_l3(v3);
    let mut j: usize = 0;
    while j < l2.len()
        invariant
            j <= l2@.len(),
            v2 == bubble_views(l2@),
            represents(bubble_views(by_id@), overlay_l2(m3, v2.take(j as int))),
        decreases l2.len() - j,
    {
        proof {
            assert(v2.take(j + 1).drop_last() =~= v2.take(j as int));
            assert(v2.take(j + 1).last() == l2@[j as int]@);
        }
        let b = l2[j].clone();
        let ghost before = bubble_views(by_id@);
        let ghost prev = overlay_l2(m3, v2.take(j as int));
        match find_id(&by_id, &b.id) {
            Some(k) => {
                let e = by_id[k].clone();
                let nb = merge_into(e, b);
                proof {
                    assert(before[k as int] == by_id@[k as int]@);
                    assert(prev.contains_key(b@.id) && prev[b@.id] == before[k as int]);
                    lemma_represents_replace(before, prev, k as int, nb@);
                }
                by_id.set(k, nb);
                assert(bubble_views(by_id@) =~= before.update(k as int, nb@));
            },
            None => {
                proof {
                    assert forall|k: int| 0 <= k < before.len() implies (#[trigger] before[k]).id != b@.id by {
                        assert(before[k] == by_id@[k]@);
                    }
                    if prev.contains_key(b@.id) {
                        let w = choose|w: int| 0 <= w < before.len() && before[w].id == b@.id;
                    }
                    lemma_represents_insert_new(before, prev, b@);
                }
                by_id.push(b);
                assert(bubble_views(by_id@) =~= before.push(b@));
            },
        }
        j = j + 1;
    }
    proof {
        assert(v2.take(j as int) =~= v2);
        assert(v1.take(0) =~= Seq::<BubbleV>::empty());
    }
    let ghost m2 = overlay_l2(m3, v2);
    let mut h: usize = 0;
    while h < l1.len()
        invariant
            h <= l1@.len(),
            v1 == bubble_views(l1@),
            represents(bubble_views(by_id@), fill_l1(m2, v1.take(h as int))),
        decreases l1.len() - h,
    {
        proof {
            assert(v1.take(h + 1).drop_last() =~= v1.take(h as int));
            assert(v1.take(h + 1).last() == l1@[h as int]@);
        }
        let ghost before = bubble_views(by_id@);
        let ghost prev = fill_l1(m2, v1.take(h as int));
        match find_id(&by_id, &l1[h].id) {
            Some(k) => {
                proof {
                    assert(before[k as int] == by_id@[k as int]@);
                }
            },
            None => {
                let b = l1[h].clone();
                proof {
                    assert forall|k: int| 0 <= k < before.len() implies (#[trigger] before[k]).id != b@.id by {
                        assert(before[k] == by_id@[k]@);
                    }
                    if prev.contains_key(b@.id) {
                        let w = choose|w: int| 0 <= w < before.len() && before[w].id == b@.id;
                    }
                    lemma_represents_insert_new(before, prev, b@);
                }
                by_id.push(b);
                assert(bubble_views(by_id@) =~= before.push(b@));
            },
        }
        h = h + 1;
    }
    proof {
        assert(v1.take(h as int) =~= v1);
    }
    let ghost all = bubble_views(by_id@);
    let ghost m = merged(v1, v2, v3);
    let mut out: Vec<Bubble> = Vec::new();
    proof {
        assert(bubble_views(out@) =~= Seq::<BubbleV>::empty());
        assert(all.take(0) =~= Seq::<BubbleV>::empty());
    }
    let mut q: usize = 0;
    while q < by_id.len()
        invariant
            q <= by_id@.len(),
            all == bubble_views(by_id@),
            represents(all, m),
            ascending(bubble_views(out@)),
            distinct_ids(bubble_views(out@)),
            bubble_views(out@).to_set() == all.take(q as int).to_set(),
            bubble_views(out@).len() == q,
        decreases by_id.len() - q,
    {
        let b = by_id[q].clone();
        let ghost before = bubble_views(out@);
        proof {
            assert(all[q as int] == b@);
            assert(all.take(q + 1) =~= all.take(q as int).push(b@));
            assert forall|k: int| 0 <= k < before.len() implies (#[trigger] before[k]).id != b@.id by {
                assert(before.to_set().contains(before[k]));
                assert(all.take(q as int).contains(before[k]));
                let w = choose|w: int| 0 <= w < q && all.take(q as int)[w] == before[k];
                assert(all[w] == before[k]);
            }
            assert(!id_seq(before).contains(b@.id)) by {
                if id_seq(before).contains(b@.id) {
                    let w = choose|w: int| 0 <= w < id_seq(before).len() && id_seq(before)[w] == b@.id;
                    assert(before[w].id == b@.id);
                }
            }
        }
        conflict::insert_ascending(&mut out, b);
        proof {
            let pos = choose|pos: int|
                0 <= pos <= before.len() && bubble_views(out@) == before.insert(pos, b@);
            conflict::lemma_insert_to_set(before, pos, b@);
            all.take(q as int).lemma_push_to_set_commute(b@);
            let now = bubble_views(out@);
            assert forall|x: int, y: int| 0 <= x < y < now.len() implies (#[trigger] now[x]).id != (#[trigger] now[y]).id by {
                if x < pos && y < pos {
                    assert(now[x] == before[x] && now[y] == before[y]);
                } else if x < pos && y == pos {
                    assert(now[x] == before[x]);
                } else if x < pos {
                    assert(now[x] == before[x] && now[y] == before[y - 1]);
                } else if x == pos {
                    assert(now[y] == before[y - 1]);
                } else {
                    assert(now[x] == before[x - 1] && now[y] == before[y - 1]);
                }
            }
        }
        q = q + 1;
    }
    proof {
        assert(all.take(q as int) =~= all);
        let ov = bubble_views(out@);
        assert forall|i: int| 0 <= i < ov.len() implies m.contains_key((#[trigger] ov[i]).id) && m[ov[i].id] == ov[i] by {
            assert(ov.to_set().contains(ov[i]));
            assert(all.contains(ov[i]));
            let w = choose|w: int| 0 <= w < all.len() && all[w] == ov[i];
        }
        assert forall|id: Seq<char>| #[trigger] m.contains_key(id) implies exists|i: int| 0 <= i < ov.len() && ov[i].id == id by {
            let w = choose|w: int| 0 <= w < all.len() && all[w].id == id;
            assert(all.to_set().contains(all[w]));
            assert(ov.contains(all[w]));
        }
    }
    out
}

proof fn lemma_id_set_push(s: Seq<BubbleV>, b: BubbleV)
    ensures
        id_set(s.push(b)) == id_set(s).insert(b.id),
{
    assert(id_seq(s.push(b)) =~= id_seq(s).push(b.id));
    id_seq(s).lemma_push_to_set_commute(b.id);
}

proof fn lemma_id_set_empty()
    ensures
        id_set(Seq::<BubbleV>::empty()) == Set::<Seq<char>>::empty(),
{
    assert(id_seq(Seq::<BubbleV>::empty()) =~= Seq::<Seq<char>>::empty());
    assert(id_set(Seq::<BubbleV>::empty()) =~= Set::<Seq<char>>::empty());
}

proof fn lemma_index_l3_dom(l3: Seq<BubbleV>)
    ensures
        index_l3(l3).dom() == id_set(l3),
        keyed_by_id(index_l3(l3)),
    decreases l3.len(),
{
    if l3.len() == 0 {
        lemma_id_set_empty();
        assert(index_l3(l3).dom() =~= id_set(l3));
    } else {
        lemma_index_l3_dom(l3.drop_last());
        assert(l3.drop_last().push(l3.last()) =~= l3);
        lemma_id_set_push(l3.drop_last(), l3.last());
        assert(index_l3(l3).dom() =~= id_set(l3));
    }
}

proof fn lemma_overlay_l2_dom(m: Map<Seq<char>, BubbleV>, l2: Seq<BubbleV>)
    requires
        keyed_by_id(m),
    ensures
        overlay_l2(m, l2).dom() == m.dom().union(id_set(l2)),
        keyed_by_id(overlay_l2(m, l2)),
    decreases l2.len(),
{
    if l2.len() == 0 {
        lemma_id_set_empty();
        assert(overlay_l2(m, l2).dom() =~= m.dom().union(id_set(l2)));
    } else {
        lemma_overlay_l2_dom(m, l2.drop_last());
        assert(l2.drop_last().push(l2.last()) =~= l2);
        lemma_id_set_push(l2.drop_last(), l2.last());
        assert(overlay_l2(m, l2).dom() =~= m.dom().union(id_set(l2)));
    }
}

proof fn lemma_fill_l1(m: Map<Seq<char>, BubbleV>, l1: Seq<BubbleV>)
    requires
        keyed_by_id(m),
    ensures
        fill_l1(m, l1).dom() == m.dom().union(id_set(l1)),
        keyed_by_id(fill_l1(m, l1)),
        forall|id: Seq<char>| #[trigger] m.contains_key(id) ==> fill_l1(m, l1)[id] == m[id],
    decreases l1.len(),
{
    if l1.len() == 0 {
        lemma_id_set_empty();
        assert(fill_l1(m, l1).dom() =~= m.dom().union(id_set(l1)));
    } else {
        lemma_fill_l1(m, l1.drop_last());
        assert(l1.drop_last().push(l1.last()) =~= l1);
        lemma_id_set_push(l1.drop_last(), l1.last());
        assert(fill_l1(m, l1).dom() =~= m.dom().union(id_set(l1)));
    }
}

/// The merge holds one bubble for each id that any layer holds, and no
/// other, each under its own id.
pub proof fn lemma_merge_ids(l1: Seq<BubbleV>, l2: Seq<BubbleV>, l3: Seq<BubbleV>)
    ensures
        merged(l1, l2, l3).dom() == id_set(l3).union(id_set(l2)).union(id_set(l1)),
        keyed_by_id(merged(l1, l2, l3)),
{
    lemma_index_l3_dom(l3);
    lemma_overlay_l2_dom(index_l3(l3), l2);
    lemma_fill_l1(overlay_l2(index_l3(l3), l2), l1);
}

/// Layer 1 never replaces what Layer 3 or Layer 2 holds: for an id that
/// either of them holds, the merge keeps Layer 3 overlaid with Layer 2.
pub proof fn lemma_merge_upper_layers_win(l1: Seq<BubbleV>, l2: Seq<BubbleV>, l3: Seq<BubbleV>, id: Seq<char>)
    requires
        id_set(l3).contains(id) || id_set(l2).contains(id),
    ensures
        merged(l1, l2, l3)[id] == overlay_l2(index_l3(l3), l2)[id],
{
    lemma_index_l3_dom(l3);
    lemma_overlay_l2_dom(index_l3(l3), l2);
    lemma_fill_l1(overlay_l2(index_l3(l3), l2), l1);
    assert(overlay_l2(index_l3(l3), l2).contains_key(id));
}

proof fn lemma_fill_l1_first(m: Map<Seq<char>, BubbleV>, l1: Seq<BubbleV>, id: Seq<char>)
    requires
        keyed_by_id(m),
        !m.contains_key(id),
        id_set(l1).contains(id),
    ensures
        exists|k: int|
            0 <= k < l1.len() && l1[k] == fill_l1(m, l1)[id] && forall|j: int|
                0 <= j < k ==> (#[trigger] l1[j]).id != id,
    decreases l1.len(),
{
    let s = l1.drop_last();
    let b = l1.last();
    assert(s.push(b) =~= l1);
    lemma_id_set_push(s, b);
    lemma_fill_l1(m, s);
    if id_set(s).contains(id) {
        lemma_fill_l1_first(m, s, id);
        let k = choose|k: int|
            0 <= k < s.len() && s[k] == fill_l1(m, s)[id] && forall|j: int|
                0 <= j < k ==> (#[trigger] s[j]).id != id;
        assert(l1[k] == s[k]);
        assert forall|j: int| 0 <= j < k implies (#[trigger] l1[j]).id != id by {
            assert(l1[j] == s[j]);
        }
    } else {
        assert(b.id == id);
        assert forall|j: int| 0 <= j < l1.len() - 1 implies (#[trigger] l1[j]).id != id by {
            assert(l1[j] == s[j]);
            if s[j].id == id {
                assert(id_seq(s)[j] == id);
                assert(id_seq(s).to_set().contains(id));
            }
        }
        assert(l1[l1.len() - 1] == b);
    }
}

/// Layer 1 fills the gaps: for an id that neither Layer 3 nor Layer 2
/// holds, the merge keeps the first Layer 1 bubble with that id.
pub proof fn lemma_merge_l1_fills_gap(l1: Seq<BubbleV>, l2: Seq<BubbleV>, l3: Seq<BubbleV>, id: Seq<char>)
    requires
        !id_set(l3).contains(id),
        !id_set(l2).contains(id),
        id_set(l1).contains(id),
    ensures
        exists|k: int|
            0 <= k < l1.len() && l1[k] == merged(l1, l2, l3)[id] && forall|j: int|
                0 <= j < k ==> (#[trigger] l1[j]).id != id,
{
    lemma_index_l3_dom(l3);
    lemma_overlay_l2_dom(index_l3(l3), l2);
    lemma_fill_l1_first(overlay_l2(index_l3(l3), l2), l1, id);
}

/// The bubble of `id` that `s` holds last.
pub open spec fn last_of(s: Seq<BubbleV>, id: Seq<char>) -> BubbleV
    decreases s.len(),
{
    if s.len() == 0 {
        arbitrary()
    } else if s.last().id == id {
        s.last()
    } else {
        last_of(s.drop_last(), id)
    }
}

proof fn lemma_index_l3_last(l3: Seq<BubbleV>, id: Seq<char>)
    requires
        id_set(l3).contains(id),
    ensures
        index_l3(l3)[id] == last_of(l3, id),
    decreases l3.len(),
{
    let s = l3.drop_last();
    assert(s.push(l3.last()) =~= l3);
    lemma_id_set_push(s, l3.last());
    if l3.last().id != id {
        lemma_index_l3_last(s, id);
    }
}

proof fn lemma_overlay_keeps_tools(m: Map<Seq<char>, BubbleV>, l2: Seq<BubbleV>, id: Seq<char>)
    requires
        m.contains_key(id),
        forall|k: int| 0 <= k < l2.len() && (#[trigger] l2[k]).id == id ==> l2[k].tool_calls.len() == 0,
    ensures
        overlay_l2(m, l2).contains_key(id),
        overlay_l2(m, l2)[id].tool_calls == m[id].tool_calls,
    decreases l2.len(),
{
    if l2.len() > 0 {
        let s = l2.drop_last();
        assert forall|k: int| 0 <= k < s.len() && (#[trigger] s[k]).id == id implies s[k].tool_calls.len() == 0 by {
            assert(s[k] == l2[k]);
        }
        lemma_overlay_keeps_tools(m, s, id);
        assert(l2[l2.len() - 1] == l2.last());
    }
}

/// A Layer 2 blob without tool calls never blanks them: when no Layer 2
/// bubble of an id that Layer 3 holds carries tool calls, the merge keeps
/// the tool calls of the last Layer 3 bubble with that id.
pub proof fn lemma_merge_keeps_l3_tool_calls(l1: Seq<BubbleV>, l2: Seq<BubbleV>, l3: Seq<BubbleV>, id: Seq<char>)
    requires
        id_set(l3).contains(id),
        forall|k: int| 0 <= k < l2.len() && (#[trigger] l2[k]).id == id ==> l2[k].tool_calls.len() == 0,
    ensures
        merged(l1, l2, l3)[id].tool_calls == last_of(l3, id).tool_calls,
{
    lemma_index_l3_dom(l3);
    lemma_index_l3_last(l3, id);
    lemma_overlay_keeps_tools(index_l3(l3), l2, id);
    lemma_merge_upper_layers_win(l1, l2, l3, id);
}


/// With distinct ids, the last bubble of an id is the one bubble with it.
proof fn lemma_last_of_distinct(s: Seq<BubbleV>, k: int)
    requires
        distinct_ids(s),
        0 <= k < s.len(),
    ensures
        last_of(s, s[k].id) == s[k],
    decreases s.len(),
{
    if k < s.len() - 1 {
        let d = s.drop_last();
        assert(s.last() == s[s.len() - 1]);
        assert(s[k].id != s[s.len() - 1].id);
        assert forall|i: int, j: int| 0 <= i < j < d.len() implies (#[trigger] d[i]).id != (#[trigger] d[j]).id by {
            assert(d[i] == s[i] && d[j] == s[j]);
        }
        assert(d[k] == s[k]);
        lemma_last_of_distinct(d, k);
    }
}

/// An id in `id_set(s)` is the id of some bubble of `s`.
proof fn lemma_id_set_member(s: Seq<BubbleV>, id: Seq<char>)
    requires
        id_set(s).contains(id),
    ensures
        exists|k: int| 0 <= k < s.len() && (#[trigger] s[k]).id == id,
{
    let k = id_seq(s).index_of(id);
    assert(id_seq(s).contains(id));
    assert(id_seq(s)[k] == id);
    assert(s[k].id == id);
}

/// Overlaying Layer 2 leaves the ids it does not hold as they were.
proof fn lemma_overlay_l2_untouched(m: Map<Seq<char>, BubbleV>, l2: Seq<BubbleV>, id: Seq<char>)
    requires
        !id_set(l2).contains(id),
    ensures
        overlay_l2(m, l2).contains_key(id) == m.contains_key(id),
        m.contains_key(id) ==> overlay_l2(m, l2)[id] == m[id],
    decreases l2.len(),
{
    if l2.len() > 0 {
        let d = l2.drop_last();
        assert(d.push(l2.last()) =~= l2);
        lemma_id_set_push(d, l2.last());
        lemma_overlay_l2_untouched(m, d, id);
    }
}

/// With Layer 2 holding each id once, the overlaid bubble of an id that
/// Layer 2 holds is its Layer 2 bubble laid over what was there, or the
/// Layer 2 bubble itself where nothing was.
proof fn lemma_overlay_l2_at(m: Map<Seq<char>, BubbleV>, l2: Seq<BubbleV>, id: Seq<char>)
    requires
        distinct_ids(l2),
        id_set(l2).contains(id),
    ensures
        overlay_l2(m, l2).contains_key(id),
        overlay_l2(m, l2)[id] == if m.contains_key(id) {
            overlay(m[id], last_of(l2, id))
        } else {
            last_of(l2, id)
        },
    decreases l2.len(),
{
    let d = l2.drop_last();
    let b = l2.last();
    assert(d.push(b) =~= l2);
    lemma_id_set_push(d, b);
    assert forall|i: int, j: int| 0 <= i < j < d.len() implies (#[trigger] d[i]).id != (#[trigger] d[j]).id by {
        assert(d[i] == l2[i] && d[j] == l2[j]);
    }
    if b.id == id {
        if id_set(d).contains(id) {
            lemma_id_set_member(d, id);
            let k = choose|k: int| 0 <= k < d.len() && (#[trigger] d[k]).id == id;
            assert(l2[k] == d[k] && l2[l2.len() - 1] == b);
            assert(false);
        }
        lemma_overlay_l2_untouched(m, d, id);
    } else {
        lemma_overlay_l2_at(m, d, id);
    }
}

/// The three-way merge, for layers that each hold an id at most once: an
/// id of any layer is merged; an id that Layers 3 and 2 both hold gets the
/// Layer 2 bubble laid over the Layer 3 one (`overlay`: text, tool calls,
/// files and time from Layer 2 where it has them); an id of only Layer 3
/// or only Layer 2 keeps that bubble unchanged; an id of Layer 1 alone
/// keeps the Layer 1 bubble unchanged. With `merge_bubbles_three_way`'s
/// contract (the result holds each merged bubble once, in ascending
/// order) this is the whole merge.
pub proof fn lemma_three_way_merge(l1: Seq<BubbleV>, l2: Seq<BubbleV>, l3: Seq<BubbleV>, id: Seq<char>)
    requires
        distinct_ids(l1),
        distinct_ids(l2),
        distinct_ids(l3),
        id_set(l3).contains(id) || id_set(l2).contains(id) || id_set(l1).contains(id),
    ensures
        merged(l1, l2, l3).contains_key(id),
        merged(l1, l2, l3)[id] == if id_set(l3).contains(id) && id_set(l2).contains(id) {
            overlay(last_of(l3, id), last_of(l2, id))
        } else if id_set(l3).contains(id) {
            last_of(l3, id)
        } else if id_set(l2).contains(id) {
            last_of(l2, id)
        } else {
            last_of(l1, id)
        },
{
    lemma_merge_ids(l1, l2, l3);
    lemma_index_l3_dom(l3);
    if id_set(l3).contains(id) || id_set(l2).contains(id) {
        lemma_merge_upper_layers_win(l1, l2, l3, id);
        if id_set(l3).contains(id) {
            lemma_index_l3_last(l3, id);
        }
        if id_set(l2).contains(id) {
            lemma_overlay_l2_at(index_l3(l3), l2, id);
        } else {
            lemma_overlay_l2_untouched(index_l3(l3), l2, id);
        }
    } else {
        lemma_merge_l1_fills_gap(l1, l2, l3, id);
        let k = choose|k: int|
            0 <= k < l1.len() && l1[k] == merged(l1, l2, l3)[id] && forall|j: int|
                0 <= j < k ==> (#[trigger] l1[j]).id != id;
        assert(merged(l1, l2, l3).dom().contains(id));
        assert(merged(l1, l2, l3)[id].id == id);
        lemma_last_of_distinct(l1, k);
    }
}
} // verus!
