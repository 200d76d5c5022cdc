//! The blob DAG of a Layer 2 `store.db`: every blob references others by
//! their SHA-256 id inside its protobuf, and `meta[0].latestRootBlobId` must
//! name the root. Finding that root is what repairs a session whose root id
//! was lost.
//!
//! Reading the `blobs` table is the caller's part: the functions here take
//! its rows, `(id, data)`.
use vstd::prelude::*;

use crate::protobuf::{self, proto_refs_hex};
use crate::text::{self, views};

verus! {

/// The ids of the rows, in row order.
pub open spec fn row_ids(rows: Seq<(String, Vec<u8>)>) -> Seq<Seq<char>> {
    rows.map_values(|r: (String, Vec<u8>)| r.0@)
}

/// The ids that row `i` references: the blob references in its data that
/// name another blob of the table.
pub open spec fn row_refs(rows: Seq<(String, Vec<u8>)>, i: int) -> Set<Seq<char>> {
    proto_refs_hex(rows[i].1@).to_set().filter(
        |r: Seq<char>| row_ids(rows).contains(r) && r != rows[i].0@,
    )
}

/// Some row references `y`.
pub open spec fn referenced(rows: Seq<(String, Vec<u8>)>, y: Seq<char>) -> bool {
    exists|i: int| 0 <= i < rows.len() && #[trigger] row_refs(rows, i).contains(y)
}

/// A blob of the table that no blob references.
pub open spec fn is_root(rows: Seq<(String, Vec<u8>)>, y: Seq<char>) -> bool {
    row_ids(rows).contains(y) && !referenced(rows, y)
}

/// The position of the last row with the id (the one a map keyed by id
/// keeps), `-1` when none.
pub open spec fn last_row(rows: Seq<(String, Vec<u8>)>, x: Seq<char>) -> int
    decreases rows.len(),
{
    if rows.len() == 0 {
        -1
    } else if rows.last().0@ == x {
        rows.len() - 1
    } else {
        last_row(rows.drop_last(), x)
    }
}

/// The blobs `x` references.
pub open spec fn successors(rows: Seq<(String, Vec<u8>)>, x: Seq<char>) -> Set<Seq<char>> {
    let k = last_row(rows, x);
    if k < 0 {
        Set::empty()
    } else {
        row_refs(rows, k)
    }
}

/// `s` and every blob a member of `s` references.
pub open spec fn step(rows: Seq<(String, Vec<u8>)>, s: Set<Seq<char>>) -> Set<Seq<char>> {
    s.union(Set::new(|y: Seq<char>| exists|x: Seq<char>| s.contains(x) && #[trigger] successors(rows, x).contains(y)))
}

/// The blobs reachable from `s` in at most `n` references.
pub open spec fn reach(rows: Seq<(String, Vec<u8>)>, s: Set<Seq<char>>, n: nat) -> Set<Seq<char>>
    decreases n,
{
    if n == 0 {
        s
    } else {
        step(rows, reach(rows, s, (n - 1) as nat))
    }
}

/// How many blobs `x` reaches, itself included (a path in the DAG visits
/// each blob once, so `rows.len()` steps reach them all).
pub open spec fn coverage(rows: Seq<(String, Vec<u8>)>, x: Seq<char>) -> nat {
    reach(rows, set![x], rows.len()).len()
}

proof fn lemma_last_row(rows: Seq<(String, Vec<u8>)>, x: Seq<char>)
    ensures
        -1 <= last_row(rows, x) < rows.len(),
        last_row(rows, x) >= 0 ==> rows[last_row(rows, x)].0@ == x,
    decreases rows.len(),
{
    if rows.len() > 0 {
        lemma_last_row(rows.drop_last(), x);
    }
}

/// The referenced ids of one row, each once.
fn refs_of_row(rows: &Vec<(String, Vec<u8>)>, ids: &Vec<String>, i: usize) -> (r: Vec<String>)
    requires
        i < rows@.len(),
        views(ids@) == row_ids(rows@),
    ensures
        views(r@).no_duplicates(),
        views(r@).to_set() == row_refs(rows@, i as int),
{
    let all = protobuf::extract_blob_ids_from_protobuf(rows[i].1.as_slice());
    let ghost allv = views(all@);
    let ghost f = |r: Seq<char>| row_ids(rows@).contains(r) && r != rows@[i as int].0@;
    let mut out: Vec<String> = Vec::new();
    let mut k: usize = 0;
    proof {
        assert(views(out@) =~= Seq::<Seq<char>>::empty());
        assert(allv.take(0).to_set().filter(f) =~= Set::<Seq<char>>::empty());
    }
    while k < all.len()
        invariant
            k <= all@.len(),
            allv == views(all@),
            views(ids@) == row_ids(rows@),
            i < rows@.len(),
            f == (|r: Seq<char>| row_ids(rows@).contains(r) && r != rows@[i as int].0@),
            views(out@).no_duplicates(),
            views(out@).to_set() == allv.take(k as int).to_set().filter(f),
        decreases all.len() - k,
    {
        let ghost y = all@[k as int]@;
        proof {
            assert(allv[k as int] == y);
            assert(allv.take(k + 1) =~= allv.take(k as int).push(y));
            allv.take(k as int).lemma_push_to_set_commute(y);
        }
        let inside = text::strings_contain(ids, &all[k]);
        let same = all[k] == rows[i].0;
        if inside && !same {
            let ghost before = views(out@);
            text::push_unique(&mut out, all[k].clone());
        }
        proof {
            assert(allv.take(k + 1).to_set().filter(f) =~= if f(y) {
                allv.take(k as int).to_set().filter(f).insert(y)
            } else {
                allv.take(k as int).to_set().filter(f)
            });
        }
        k = k + 1;
    }
    proof {
        assert(allv.take(k as int) =~= allv);
    }
    out
}

fn last_row_of(rows: &Vec<(String, Vec<u8>)>, x: &String) -> (r: Option<usize>)
    ensures
        match r {
            Some(k) => k as int == last_row(rows@, x@) && k < rows@.len(),
            None => last_row(rows@, x@) < 0,
        },
{
    let mut j: usize = rows.len();
    assert(rows@.take(j as int) =~= rows@);
    while j > 0
        invariant
            j <= rows@.len(),
            last_row(rows@, x@) == last_row(rows@.take(j as int), x@),
        decreases j,
    {
        assert(rows@.take(j as int).drop_last() =~= rows@.take(j - 1));
        assert(rows@.take(j as int).last() == rows@[j - 1]);
        if rows[j - 1].0 == *x {
            return Some(j - 1);
        }
        j = j - 1;
    }
    None
}

/// What the members of `s` before position `j` reference.
pub open spec fn succ_upto(rows: Seq<(String, Vec<u8>)>, s: Seq<Seq<char>>, j: int) -> Set<Seq<char>> {
    Set::new(|y: Seq<char>| exists|jj: int| 0 <= jj < j && #[trigger] successors(rows, s[jj]).contains(y))
}

/// `refs[i]` lists what row `i` references.
pub open spec fn refs_table(rows: Seq<(String, Vec<u8>)>, refs: Seq<Vec<String>>) -> bool {
    &&& refs.len() == rows.len()
    &&& forall|i: int| 0 <= i < rows.len() ==> (#[trigger] views(refs[i]@)).to_set() == row_refs(rows, i)
}

fn step_exec(rows: &Vec<(String, Vec<u8>)>, refs: &Vec<Vec<String>>, s: &Vec<String>) -> (r: Vec<String>)
    requires
        refs_table(rows@, refs@),
        views(s@).no_duplicates(),
    ensures
        views(r@).no_duplicates(),
        views(r@).to_set() == step(rows@, views(s@).to_set()),
{
    let ghost sv = views(s@);
    let mut out = crate::bubble::clone_strings(s);
    let mut j: usize = 0;
    proof {
        assert(succ_upto(rows@, sv, 0) =~= Set::<Seq<char>>::empty());
        assert(views(out@).to_set().union(Set::<Seq<char>>::empty()) =~= views(out@).to_set());
    }
    while j < s.len()
        invariant
            j <= s@.len(),
            sv == views(s@),
            refs_table(rows@, refs@),
            views(out@).no_duplicates(),
            views(out@).to_set() == sv.to_set().union(succ_upto(rows@, sv, j as int)),
        decreases s.len() - j,
    {
        let ghost x = sv[j as int];
        proof {
            assert(s@[j as int]@ == x);
        }
        match last_row_of(rows, &s[j]) {
            None => {
                proof {
                    assert(successors(rows@, x) =~= Set::<Seq<char>>::empty());
                    assert(succ_upto(rows@, sv, j + 1) =~= succ_upto(rows@, sv, j as int));
                }
            },
            Some(k) => {
                let list = &refs[k];
                let ghost lv = views(list@);
                proof {
                    assert(views(refs@[k as int]@).to_set() == row_refs(rows@, k as int));
                    assert(successors(rows@, x) == lv.to_set());
                    assert(lv.take(0).to_set() =~= Set::<Seq<char>>::empty());
                }
                let mut m: usize = 0;
                while m < list.len()
                    invariant
                        m <= list@.len(),
                        lv == views(list@),
                        views(out@).no_duplicates(),
                        views(out@).to_set() == sv.to_set().union(succ_upto(rows@, sv, j as int)).union(
                            lv.take(m as int).to_set(),
                        ),
                    decreases list.len() - m,
                {
                    let ghost y = lv[m as int];
                    proof {
                        assert(list@[m as int]@ == y);
                        assert(lv.take(m + 1) =~= lv.take(m as int).push(y));
                        lv.take(m as int).lemma_push_to_set_commute(y);
                    }
                    let ghost before = views(out@).to_set();
                    text::push_unique(&mut out, list[m].clone());
                    proof {
                        assert(views(out@).to_set() =~= sv.to_set().union(succ_upto(rows@, sv, j as int)).union(
                            lv.take(m + 1).to_set(),
                        ));
                    }
                    m = m + 1;
                }
                proof {
                    assert(lv.take(m as int) =~= lv);
                    assert(succ_upto(rows@, sv, j + 1) =~= succ_upto(rows@, sv, j as int).union(lv.to_set())) by {
                        assert forall|y: Seq<char>| succ_upto(rows@, sv, j + 1).contains(y) implies succ_upto(rows@, sv, j as int).union(lv.to_set()).contains(y) by {
                            let jj = choose|jj: int| 0 <= jj < j + 1 && #[trigger] successors(rows@, sv[jj]).contains(y);
                            if jj < j {
                                assert(succ_upto(rows@, sv, j as int).contains(y));
                            }
                        }
                        assert forall|y: Seq<char>| succ_upto(rows@, sv, j as int).union(lv.to_set()).contains(y) implies succ_upto(rows@, sv, j + 1).contains(y) by {
                            if lv.to_set().contains(y) {
                                assert(successors(rows@, sv[j as int]).contains(y));
                            } else {
                                let jj = choose|jj: int| 0 <= jj < j && #[trigger] successors(rows@, sv[jj]).contains(y);
                                assert(successors(rows@, sv[jj]).contains(y));
                            }
                        }
                    }
                    assert(views(out@).to_set() =~= sv.to_set().union(succ_upto(rows@, sv, j + 1)));
                }
            },
        }
        j = j + 1;
    }
    proof {
        let st = sv.to_set();
        assert(succ_upto(rows@, sv, j as int) =~= Set::new(|y: Seq<char>| exists|x: Seq<char>| st.contains(x) && #[trigger] successors(rows@, x).contains(y))) by {
            assert forall|y: Seq<char>| #[trigger] succ_upto(rows@, sv, j as int).contains(y) implies (exists|x: Seq<char>| st.contains(x) && #[trigger] successors(rows@, x).contains(y)) by {
                let jj = choose|jj: int| 0 <= jj < j && #[trigger] successors(rows@, sv[jj]).contains(y);
                assert(st.contains(sv[jj]));
            }
            assert forall|y: Seq<char>| (exists|x: Seq<char>| st.contains(x) && #[trigger] successors(rows@, x).contains(y)) implies #[trigger] succ_upto(rows@, sv, j as int).contains(y) by {
                let x = choose|x: Seq<char>| st.contains(x) && #[trigger] successors(rows@, x).contains(y);
                let jj = choose|jj: int| 0 <= jj < sv.len() && sv[jj] == x;
                assert(successors(rows@, sv[jj]).contains(y));
            }
        }
    }
    out
}

/// The blobs `x` reaches (`coverage` counts them), each once.
fn reach_exec(rows: &Vec<(String, Vec<u8>)>, refs: &Vec<Vec<String>>, x: &String) -> (r: Vec<String>)
    requires
        refs_table(rows@, refs@),
    ensures
        views(r@).no_duplicates(),
        views(r@).to_set() == reach(rows@, set![x@], rows@.len()),
{
    let mut cur: Vec<String> = Vec::new();
    cur.push(x.clone());
    proof {
        assert(views(cur@) =~= seq![x@]);
        assert(seq![x@].to_set() =~= set![x@]) by {
            assert(seq![x@][0] == x@);
            assert forall|a: Seq<char>| seq![x@].contains(a) implies a == x@ by {
                let k = choose|k: int| 0 <= k < 1 && seq![x@][k] == a;
            }
        }
    }
    let mut n: usize = 0;
    while n < rows.len()
        invariant
            n <= rows@.len(),
            refs_table(rows@, refs@),
            views(cur@).no_duplicates(),
            views(cur@).to_set() == reach(rows@, set![x@], n as nat),
        decreases rows.len() - n,
    {
        cur = step_exec(rows, refs, &cur);
        n = n + 1;
    }
    cur
}

/// `find_root_blob`: a blob that no other blob references and that reaches
/// the most blobs among those (which of equally good ones is left open);
/// `None` when the table is empty or every blob is referenced.
pub fn find_root_blob(rows: &Vec<(String, Vec<u8>)>) -> (r: Option<String>)
    ensures
        match r {
            Some(root) => is_root(rows@, root@) && forall|y: Seq<char>|
                is_root(rows@, y) ==> coverage(rows@, y) <= coverage(rows@, root@),
            None => forall|y: Seq<char>| !is_root(rows@, y),
        },
{
    let mut ids: Vec<String> = Vec::new();
    let mut i: usize = 0;
    proof {
        assert(views(ids@) =~= row_ids(rows@).take(0));
    }
    while i < rows.len()
        invariant
            i <= rows@.len(),
            views(ids@) == row_ids(rows@).take(i as int),
        decreases rows.len() - i,
    {
        let ghost before = ids@;
        let c = rows[i].0.clone();
        ids.push(c);
        proof {
            text::lemma_views_push(before, c);
            assert(row_ids(rows@).take(i + 1) =~= row_ids(rows@).take(i as int).push(rows@[i as int].0@));
        }
        i = i + 1;
    }
    proof {
        assert(row_ids(rows@).take(i as int) =~= row_ids(rows@));
    }
    let mut refs: Vec<Vec<String>> = Vec::new();
    let mut i: usize = 0;
    while i < rows.len()
        invariant
            i <= rows@.len(),
            views(ids@) == row_ids(rows@),
            refs@.len() == i,
            forall|k: int| 0 <= k < i ==> (#[trigger] views(refs@[k]@)).to_set() == row_refs(rows@, k),
        decreases rows.len() - i,
    {
        let r = refs_of_row(rows, &ids, i);
        refs.push(r);
        i = i + 1;
    }
    let mut best: Option<(usize, usize)> = None;
    let mut j: usize = 0;
    while j < ids.len()
        invariant
            j <= ids@.len() == rows@.len(),
            views(ids@) == row_ids(rows@),
            refs_table(rows@, refs@),
            match best {
                Some((b, c)) => b < j && is_root(rows@, ids@[b as int]@) && c == coverage(rows@, ids@[b as int]@)
                    && forall|k: int| 0 <= k < j && is_root(rows@, #[trigger] ids@[k]@) ==> coverage(rows@, ids@[k]@) <= c,
                None => forall|k: int| 0 <= k < j ==> !is_root(rows@, #[trigger] ids@[k]@),
            },
        decreases ids.len() - j,
    {
        let y = &ids[j];
        proof {
            assert(views(ids@)[j as int] == y@);
            assert(row_ids(rows@).contains(y@));
        }
        let mut referenced_here = false;
        let mut k: usize = 0;
        while k < refs.len()
            invariant
                k <= refs@.len() == rows@.len(),
                refs_table(rows@, refs@),
                referenced_here == exists|kk: int| 0 <= kk < k && #[trigger] row_refs(rows@, kk).contains(y@),
            decreases refs.len() - k,
        {
            proof {
                assert(views(refs@[k as int]@).to_set() == row_refs(rows@, k as int));
            }
            if text::strings_contain(&refs[k], y) {
                proof {
                    assert(views(refs@[k as int]@).to_set().contains(y@));
                }
                referenced_here = true;
            } else {
                proof {
                    assert(!row_refs(rows@, k as int).contains(y@));
                }
            }
            k = k + 1;
        }
        if !referenced_here {
            let covered = reach_exec(rows, &refs, y);
            let c = covered.len();
            proof {
                views(covered@).unique_seq_to_set();
                assert(c == coverage(rows@, y@));
            }
            let better = match best {
                None => true,
                Some((_, bc)) => c > bc,
            };
            if better {
                best = Some((j, c));
            }
        }
        j = j + 1;
    }
    match best {
        None => {
            proof {
                assert forall|y: Seq<char>| !is_root(rows@, y) by {
                    if is_root(rows@, y) {
                        let k = choose|k: int| 0 <= k < row_ids(rows@).len() && row_ids(rows@)[k] == y;
                        assert(ids@[k]@ == y);
                    }
                }
            }
            None
        },
        Some((b, c)) => {
            proof {
                assert forall|y: Seq<char>| is_root(rows@, y) implies coverage(rows@, y) <= c by {
                    let k = choose|k: int| 0 <= k < row_ids(rows@).len() && row_ids(rows@)[k] == y;
                    assert(ids@[k]@ == y);
                }
            }
            Some(ids[b].clone())
        },
    }
}

} // verus!
