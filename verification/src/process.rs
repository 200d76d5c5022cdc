//! Per-layer write guards: which running processes would race a write to
//! Layer 3 (`state.vscdb`) or to one session's Layer 2 `store.db`.
//!
//! Running `pgrep -af <pattern>` and reading `/proc/<pid>/fd` are the
//! caller's part; the functions here take what those gave and decide.
use vstd::prelude::*;

use crate::text::{self, contains, decimal, lines, trim, views};

verus! {

// ── Patterns ──────────────────────────────────────────────────

/// The `pgrep` patterns of the processes that hold Layer 3's
/// `state.vscdb`: Cursor Desktop and the remote server.
pub fn layer3_patterns() -> (r: Vec<String>)
    ensures
        views(r@) == seq![
            "Cursor --type="@,
            "/Cursor --updated"@,
            "Cursor-bin"@,
            "cursor-server"@,
        ],
{
    let r = vec![
        text::owned("Cursor --type="),
        text::owned("/Cursor --updated"),
        text::owned("Cursor-bin"),
        text::owned("cursor-server"),
    ];
    assert(views(r@) =~= seq![
        "Cursor --type="@,
        "/Cursor --updated"@,
        "Cursor-bin"@,
        "cursor-server"@,
    ]);
    r
}

/// The `pgrep` pattern of the CLI agent.
pub fn layer2_agent_pattern() -> (r: String)
    ensures
        r@ == "cursor-agent"@,
{
    text::owned("cursor-agent")
}

// ── Reading pgrep's output ────────────────────────────────────

/// A trimmed line of `pgrep -af pattern` that names another process: not
/// empty, and not the `pgrep` that was looking for `pattern`.
pub open spec fn names_other_process(t: Seq<char>, pattern: Seq<char>) -> bool {
    t.len() > 0 && !(contains(t, "pgrep"@) && contains(t, pattern))
}

/// `out` after one more line of `pgrep` output: the trimmed line is added
/// unless it is excluded or already there.
pub open spec fn pgrep_step(out: Seq<Seq<char>>, line: Seq<char>, pattern: Seq<char>) -> Seq<
    Seq<char>,
> {
    let t = trim(line);
    if names_other_process(t, pattern) && !out.contains(t) {
        out.push(t)
    } else {
        out
    }
}

/// `out` after every line of `ls`, in order.
pub open spec fn pgrep_collect(out: Seq<Seq<char>>, ls: Seq<Seq<char>>, pattern: Seq<char>) -> Seq<
    Seq<char>,
>
    decreases ls.len(),
{
    if ls.len() == 0 {
        out
    } else {
        pgrep_step(pgrep_collect(out, ls.drop_last(), pattern), ls.last(), pattern)
    }
}

/// `collect_pgrep_lines`: appends to `out` each process that the output of
/// `pgrep -af pattern` lists, trimmed, once, skipping blank lines and the
/// `pgrep` itself.
pub fn collect_pgrep_lines(stdout: &str, pattern: &str, out: &mut Vec<String>)
    ensures
        views(final(out)@) == pgrep_collect(views(old(out)@), lines(stdout@), pattern@),
{
    let cs = text::to_chars(stdout);
    let ls = text::lines_of(&cs);
    let ghost all = lines(stdout@);
    let ghost start = views(out@);
    let mut i: usize = 0;
    proof {
        assert(all.take(0) =~= Seq::<Seq<char>>::empty());
    }
    while i < ls.len()
        invariant
            i <= ls@.len() == all.len(),
            all == lines(stdout@),
            start == views(old(out)@),
            forall|k: int| 0 <= k < ls@.len() ==> (#[trigger] ls@[k])@ == all[k],
            views(out@) == pgrep_collect(start, all.take(i as int), pattern@),
        decreases ls.len() - i,
    {
        let t = text::trim_chars(&ls[i]);
        let ts = text::from_chars(&t);
        let keep = t.len() > 0 && !(text::str_contains(&ts, "pgrep") && text::str_contains(
            &ts,
            pattern,
        ));
        proof {
            assert(all.take(i + 1).drop_last() =~= all.take(i as int));
            assert(all.take(i + 1).last() == ls@[i as int]@);
        }
        if keep && !text::strings_contain(out, &ts) {
            let ghost before = out@;
            out.push(ts);
            proof {
                text::lemma_views_push(before, ts);
            }
        }
        i = i + 1;
    }
    proof {
        assert(all.take(i as int) =~= all);
    }
}

// ── Classifying agent processes ───────────────────────────────

/// A background agent worker: it writes only its own log.
pub open spec fn is_agent_worker_spec(line: Seq<char>) -> bool {
    contains(line, "cursor-agent-worker"@) || contains(line, " worker start "@)
}

/// `is_agent_worker`: the line names a background agent worker, which never
/// writes `store.db` or `state.vscdb`.
pub fn is_agent_worker(line: &str) -> (r: bool)
    ensures
        r == is_agent_worker_spec(line@),
{
    text::str_contains(line, "cursor-agent-worker") || text::str_contains(line, " worker start ")
}

/// The process id at the start of a `pgrep -af` line: its first
/// whitespace-separated token, parsed as a `u32`.
pub open spec fn pid_of(line: Seq<char>) -> Option<u32> {
    let toks = text::split_ws(line);
    if toks.len() == 0 {
        None
    } else {
        text::parse_u32(toks[0])
    }
}

/// `parse_pid`: the process id that leads a `pgrep -af` line.
pub fn parse_pid(line: &str) -> (r: Option<u32>)
    ensures
        r == pid_of(line@),
{
    let cs = text::to_chars(line);
    let toks = text::split_whitespace(&cs);
    if toks.len() == 0 {
        return None;
    }
    text::parse_u32_chars(&toks[0])
}

/// The command line mentions the session, alone or as `--resume`'s value.
pub open spec fn targets_session(line: Seq<char>, uuid: Seq<char>) -> bool {
    ||| contains(line, uuid)
    ||| contains(line, "--resume="@ + uuid)
    ||| contains(line, "--resume "@ + uuid)
}

/// `command_line_targets_session`: the command line names the session
/// `uuid`, alone or as the value of `--resume`.
pub fn command_line_targets_session(line: &str, uuid: &str) -> (r: bool)
    ensures
        r == targets_session(line@, uuid@),
{
    if text::str_contains(line, uuid) {
        return true;
    }
    let a = text::concat2("--resume=", uuid);
    if text::str_contains(line, &a) {
        return true;
    }
    let b = text::concat2("--resume ", uuid);
    text::str_contains(line, &b)
}

// ── The guards ────────────────────────────────────────────────

/// `layer3_write_blocked`: the processes that would race a Layer 3 write,
/// gathered from the output of `pgrep -af` for each pattern of
/// `layer3_patterns`, in that order (`None` where `pgrep` failed or found
/// nothing).
pub fn layer3_write_blocked(outputs: &Vec<Option<String>>) -> (r: Vec<String>)
    ensures
        views(r@) == l3_collect(outputs@, layer3_pattern_views()),
{
    let pats = layer3_patterns();
    let mut matches: Vec<String> = Vec::new();
    let mut i: usize = 0;
    proof {
        assert(views(matches@) =~= Seq::<Seq<char>>::empty());
        assert(outputs@.take(0) =~= Seq::<Option<String>>::empty());
    }
    while i < outputs.len()
        invariant
            i <= outputs@.len(),
            views(pats@) == layer3_pattern_views(),
            views(matches@) == l3_collect(outputs@.take(i as int), layer3_pattern_views()),
        decreases outputs.len() - i,
    {
        proof {
            assert(outputs@.take(i + 1).drop_last() =~= outputs@.take(i as int));
        }
        if i < pats.len() {
            proof {
                assert(views(pats@)[i as int] == pats@[i as int]@);
            }
            match &outputs[i] {
                Some(o) => collect_pgrep_lines(o, &pats[i], &mut matches),
                None => {},
            }
        }
        i = i + 1;
    }
    proof {
        assert(outputs@.take(i as int) =~= outputs@);
    }
    matches
}

/// The Layer 3 patterns, as strings.
pub open spec fn layer3_pattern_views() -> Seq<Seq<char>> {
    seq!["Cursor --type="@, "/Cursor --updated"@, "Cursor-bin"@, "cursor-server"@]
}

/// What the `pgrep` outputs `outs` (the `i`-th for the `i`-th pattern)
/// give, in order; outputs beyond the patterns are ignored.
pub open spec fn l3_collect(outs: Seq<Option<String>>, pats: Seq<Seq<char>>) -> Seq<Seq<char>>
    decreases outs.len(),
{
    if outs.len() == 0 {
        seq![]
    } else {
        let before = l3_collect(outs.drop_last(), pats);
        let k = outs.len() - 1;
        if k < pats.len() {
            match outs.last() {
                Some(o) => pgrep_collect(before, lines(o@), pats[k]),
                None => before,
            }
        } else {
            before
        }
    }
}

/// The lines of `candidates` that are not agent workers.
pub open spec fn non_workers(candidates: Seq<Seq<char>>) -> Seq<Seq<char>> {
    candidates.filter(|l: Seq<char>| !is_agent_worker_spec(l))
}

/// `layer2_write_blocked_any_agent`: the agent processes (the lines that
/// `pgrep -af cursor-agent` gave) that are not background workers.
pub fn layer2_write_blocked_any_agent(candidates: &Vec<String>) -> (r: Vec<String>)
    ensures
        views(r@) == non_workers(views(candidates@)),
{
    let mut out: Vec<String> = Vec::new();
    let mut i: usize = 0;
    proof {
        if candidates@.len() > 0 {
            text::lemma_filter_take_step(views(candidates@), |l: Seq<char>| !is_agent_worker_spec(l), 0);
        } else {
            reveal(Seq::filter);
        }
        assert(views(out@) =~= Seq::<Seq<char>>::empty());
    }
    while i < candidates.len()
        invariant
            i <= candidates@.len(),
            views(out@) == non_workers(views(candidates@).take(i as int)),
        decreases candidates.len() - i,
    {
        let ghost vc = views(candidates@);
        proof {
            assert(vc.take(i + 1).drop_last() =~= vc.take(i as int));
            assert(vc[i as int] == candidates@[i as int]@);
            text::lemma_filter_take_step(vc, |l: Seq<char>| !is_agent_worker_spec(l), i as int);
        }
        if !is_agent_worker(&candidates[i]) {
            let c = candidates[i].clone();
            let ghost before = out@;
            out.push(c);
            proof {
                text::lemma_views_push(before, c);
            }
        }
        i = i + 1;
    }
    proof {
        assert(views(candidates@).take(i as int) =~= views(candidates@));
    }
    out
}

/// `layer2_write_blocked` keeps this candidate: not a worker, a readable
/// process id, and either the command line names the session or the
/// process holds the session's `store.db`.
pub open spec fn blocks_session(line: Seq<char>, uuid: Seq<char>, holders: Seq<u32>) -> bool {
    &&& !is_agent_worker_spec(line)
    &&& pid_of(line) is Some
    &&& (targets_session(line, uuid) || holders.contains(pid_of(line)->0))
}

/// `layer2_write_blocked`: the agent processes (`candidates`, the lines of
/// `pgrep -af cursor-agent`) that would race a Layer 2 write to the session
/// `uuid` of the project `cwd`. `holders` are the process ids that the
/// caller found holding that session's `store.db` open (the path
/// `paths::store_db_for` names). Nothing blocks when `cwd` is blank or
/// `uuid` is empty.
pub fn layer2_write_blocked(
    uuid: &str,
    cwd: &str,
    candidates: &Vec<String>,
    holders: &Vec<u32>,
) -> (r: Vec<String>)
    ensures
        trim(cwd@).len() == 0 || uuid@.len() == 0 ==> r@.len() == 0,
        !(trim(cwd@).len() == 0 || uuid@.len() == 0) ==> views(r@) == views(candidates@).filter(
            |l: Seq<char>| blocks_session(l, uuid@, holders@),
        ),
{
    let u = text::to_chars(uuid);
    if text::str_is_blank(cwd) || u.len() == 0 {
        return Vec::new();
    }
    let ghost f = |l: Seq<char>| blocks_session(l, uuid@, holders@);
    let mut out: Vec<String> = Vec::new();
    let mut i: usize = 0;
    proof {
        if candidates@.len() > 0 {
            text::lemma_filter_take_step(views(candidates@), f, 0);
        } else {
            reveal(Seq::filter);
        }
        assert(views(out@) =~= Seq::<Seq<char>>::empty());
    }
    while i < candidates.len()
        invariant
            i <= candidates@.len(),
            f == (|l: Seq<char>| blocks_session(l, uuid@, holders@)),
            views(out@) == views(candidates@).take(i as int).filter(f),
        decreases candidates.len() - i,
    {
        let ghost vc = views(candidates@);
        proof {
            assert(vc[i as int] == candidates@[i as int]@);
            text::lemma_filter_take_step(vc, f, i as int);
        }
        let line = &candidates[i];
        let mut keep = false;
        if !is_agent_worker(line) {
            match parse_pid(line) {
                Some(pid) => {
                    keep = command_line_targets_session(line, uuid) || holders_contain(
                        holders,
                        pid,
                    );
                },
                None => {},
            }
        }
        if keep {
            let c = line.clone();
            let ghost before = out@;
            out.push(c);
            proof {
                text::lemma_views_push(before, c);
            }
        }
        i = i + 1;
    }
    proof {
        assert(views(candidates@).take(i as int) =~= views(candidates@));
    }
    out
}

fn holders_contain(holders: &Vec<u32>, pid: u32) -> (r: bool)
    ensures
        r == holders@.contains(pid),
{
    let mut j: usize = 0;
    while j < holders.len()
        invariant
            j <= holders@.len(),
            forall|k: int| 0 <= k < j ==> holders@[k] != pid,
        decreases holders.len() - j,
    {
        if holders[j] == pid {
            return true;
        }
        j = j + 1;
    }
    false
}

/// The union, in order and without repeats, of `first` and `second`.
pub open spec fn union_in_order(first: Seq<Seq<char>>, second: Seq<Seq<char>>) -> Seq<Seq<char>>
    decreases second.len(),
{
    if second.len() == 0 {
        first
    } else {
        let u = union_in_order(first, second.drop_last());
        if u.contains(second.last()) {
            u
        } else {
            u.push(second.last())
        }
    }
}

/// `cursor_processes_running`: every process that blocks a write to any
/// layer: the Layer 3 blockers, then each non-worker agent not already
/// listed.
pub fn cursor_processes_running(layer3: Vec<String>, agents: &Vec<String>) -> (r: Vec<String>)
    ensures
        views(r@) == union_in_order(views(layer3@), non_workers(views(agents@))),
{
    let mut all = layer3;
    let extra = layer2_write_blocked_any_agent(agents);
    let ghost first = views(all@);
    let mut i: usize = 0;
    proof {
        assert(views(extra@).take(0) =~= Seq::<Seq<char>>::empty());
    }
    while i < extra.len()
        invariant
            i <= extra@.len(),
            views(all@) == union_in_order(first, views(extra@).take(i as int)),
        decreases extra.len() - i,
    {
        proof {
            assert(views(extra@).take(i + 1).drop_last() =~= views(extra@).take(i as int));
            assert(views(extra@)[i as int] == extra@[i as int]@);
        }
        if !text::strings_contain(&all, &extra[i]) {
            let c = extra[i].clone();
            let ghost before = all@;
            all.push(c);
            proof {
                text::lemma_views_push(before, c);
            }
        }
        i = i + 1;
    }
    proof {
        assert(views(extra@).take(i as int) =~= views(extra@));
    }
    all
}

// ── Skip reasons ──────────────────────────────────────────────

/// The longest example a skip reason quotes, in characters.
pub const MAX_EXAMPLE_CHARS: usize = 120;

/// A blocker's line as a skip reason quotes it: whole when it has at most
/// `MAX_EXAMPLE_CHARS` characters, else that many followed by `…`.
pub open spec fn example_of(s: Seq<char>) -> Seq<char> {
    if s.len() <= MAX_EXAMPLE_CHARS {
        s
    } else {
        s.take(MAX_EXAMPLE_CHARS as int).push('…')
    }
}

/// `prefix(N proc, e.g. EXAMPLE)` for `N` blockers, the first quoted; empty
/// when there are none.
pub open spec fn lock_skip(prefix: Seq<char>, blockers: Seq<Seq<char>>) -> Seq<char> {
    if blockers.len() == 0 {
        seq![]
    } else {
        prefix + "("@ + decimal(blockers.len()) + " proc, e.g. "@ + example_of(blockers[0]) + ")"@
    }
}

fn truncate_example(s: &str) -> (r: String)
    ensures
        r@ == example_of(s@),
{
    let cs = text::to_chars(s);
    if cs.len() <= MAX_EXAMPLE_CHARS {
        return text::owned(s);
    }
    let mut t = text::take_chars(&cs, MAX_EXAMPLE_CHARS);
    t.push('…');
    text::from_chars(&t)
}

fn format_lock_skip(prefix: &str, blockers: &[String]) -> (r: String)
    ensures
        r@ == lock_skip(prefix@, views(blockers@)),
{
    if blockers.len() == 0 {
        return String::new();
    }
    let n = text::u64_decimal(blockers.len() as u64);
    let ex = truncate_example(&blockers[0]);
    let a = text::concat3(prefix, "(", &n);
    let b = text::concat3(&a, " proc, e.g. ", &ex);
    let r = text::concat2(&b, ")");
    proof {
        assert(views(blockers@)[0] == blockers@[0]@);
    }
    r
}

/// `l3_lock_skip_reason`: the skip reason a sync report gives when Layer 3
/// is locked by `blockers`.
pub fn l3_lock_skip_reason(blockers: &[String]) -> (r: String)
    ensures
        r@ == lock_skip("l3_locked"@, views(blockers@)),
{
    format_lock_skip("l3_locked", blockers)
}

/// `l2_lock_skip_reason`: the skip reason a sync report gives when the
/// session's Layer 2 store is locked by `blockers`.
pub fn l2_lock_skip_reason(blockers: &[String]) -> (r: String)
    ensures
        r@ == lock_skip("l2_locked"@, views(blockers@)),
{
    format_lock_skip("l2_locked", blockers)
}


proof fn lemma_pgrep_collect_distinct(out: Seq<Seq<char>>, ls: Seq<Seq<char>>, pattern: Seq<char>)
    requires
        out.no_duplicates(),
    ensures
        pgrep_collect(out, ls, pattern).no_duplicates(),
    decreases ls.len(),
{
    if ls.len() > 0 {
        lemma_pgrep_collect_distinct(out, ls.drop_last(), pattern);
    }
}

proof fn lemma_l3_collect_distinct(outs: Seq<Option<String>>, pats: Seq<Seq<char>>)
    ensures
        l3_collect(outs, pats).no_duplicates(),
    decreases outs.len(),
{
    if outs.len() > 0 {
        lemma_l3_collect_distinct(outs.drop_last(), pats);
        let k = outs.len() - 1;
        if k < pats.len() {
            match outs.last() {
                Some(o) => lemma_pgrep_collect_distinct(l3_collect(outs.drop_last(), pats), lines(o@), pats[k]),
                None => {},
            }
        }
    }
}

proof fn lemma_push_contains(u: Seq<Seq<char>>, x: Seq<char>, y: Seq<char>)
    ensures
        u.push(x).contains(y) <==> u.contains(y) || y == x,
{
    if u.push(x).contains(y) && y != x {
        let k = choose|k: int| 0 <= k < u.push(x).len() && u.push(x)[k] == y;
        assert(u[k] == y);
    }
    if u.contains(y) {
        let k = choose|k: int| 0 <= k < u.len() && u[k] == y;
        assert(u.push(x)[k] == y);
    }
    assert(u.push(x)[u.len() as int] == x);
}

proof fn lemma_non_workers(c: Seq<Seq<char>>)
    ensures
        forall|x: Seq<char>| #[trigger] non_workers(c).contains(x) <==> c.contains(x) && !is_agent_worker_spec(x),
        c.no_duplicates() ==> non_workers(c).no_duplicates(),
    decreases c.len(),
{
    reveal(Seq::filter);
    if c.len() > 0 {
        let d = c.drop_last();
        let x = c.last();
        lemma_non_workers(d);
        let nd = non_workers(d);
        let nc = non_workers(c);
        assert(c =~= d.push(x));
        assert(nc == if !is_agent_worker_spec(x) {
            nd.push(x)
        } else {
            nd
        });
        assert forall|y: Seq<char>| #[trigger] nc.contains(y) <==> c.contains(y) && !is_agent_worker_spec(y) by {
            lemma_push_contains(d, x, y);
            lemma_push_contains(nd, x, y);
        }
        if c.no_duplicates() {
            assert forall|i: int, j: int| 0 <= i < d.len() && 0 <= j < d.len() && i != j implies d[i] != d[j] by {
                assert(d[i] == c[i] && d[j] == c[j]);
            }
            if d.contains(x) {
                let k = choose|k: int| 0 <= k < d.len() && d[k] == x;
                assert(c[k] == c[c.len() - 1]);
            }
            if !is_agent_worker_spec(x) {
                assert(!nd.contains(x));
                assert forall|i: int, j: int| 0 <= i < nc.len() && 0 <= j < nc.len() && i != j implies nc[i] != nc[j] by {
                    if i < nd.len() && j < nd.len() {
                        assert(nc[i] == nd[i] && nc[j] == nd[j]);
                    } else if i < nd.len() {
                        assert(nc[i] == nd[i] && nc[j] == x);
                    } else {
                        assert(nc[i] == x && nc[j] == nd[j]);
                    }
                }
            }
        }
    } else {
        assert(non_workers(c) =~= c);
    }
}

/// `union_in_order(first, second)` starts with `first`, holds exactly what
/// either holds, and repeats nothing that `first` does not.
pub proof fn lemma_union_in_order(first: Seq<Seq<char>>, second: Seq<Seq<char>>)
    ensures
        first.len() <= union_in_order(first, second).len(),
        union_in_order(first, second).take(first.len() as int) == first,
        forall|x: Seq<char>| #[trigger] union_in_order(first, second).contains(x) <==> first.contains(x)
            || second.contains(x),
        first.no_duplicates() ==> union_in_order(first, second).no_duplicates(),
    decreases second.len(),
{
    if second.len() == 0 {
        assert(first.take(first.len() as int) =~= first);
    } else {
        let d = second.drop_last();
        let x = second.last();
        lemma_union_in_order(first, d);
        let u = union_in_order(first, d);
        assert forall|y: Seq<char>| #[trigger] union_in_order(first, second).contains(y) <==> first.contains(y)
            || second.contains(y) by {
            if second.contains(y) && y != x {
                let k = choose|k: int| 0 <= k < second.len() && second[k] == y;
                assert(d[k] == y);
            }
            if d.contains(y) {
                let k = choose|k: int| 0 <= k < d.len() && d[k] == y;
                assert(second[k] == y);
            }
            assert(second[second.len() - 1] == x);
            if u.push(x).contains(y) && y != x {
                let k = choose|k: int| 0 <= k < u.push(x).len() && u.push(x)[k] == y;
                assert(u[k] == y);
            }
            if u.contains(y) {
                let k = choose|k: int| 0 <= k < u.len() && u[k] == y;
                assert(u.push(x)[k] == y);
            }
            assert(u.push(x)[u.len() as int] == x);
        }
        if !u.contains(x) {
            assert(u.push(x).take(first.len() as int) =~= u.take(first.len() as int));
        }
    }
}

/// The processes that block a write, as `cursor_processes_running` lists
/// them from the `pgrep` outputs for the Layer 3 patterns and from the
/// output `agents_out` of `pgrep -af cursor-agent`: the Layer 3 blockers
/// come first, each process is listed once, and the list holds exactly the
/// Layer 3 blockers and the agents that are no background workers.
pub proof fn lemma_running_processes(outputs: Seq<Option<String>>, agents_out: Seq<char>)
    ensures
        ({
            let l3 = l3_collect(outputs, layer3_pattern_views());
            let agents = pgrep_collect(seq![], lines(agents_out), "cursor-agent"@);
            let r = union_in_order(l3, non_workers(agents));
            &&& r.no_duplicates()
            &&& r.take(l3.len() as int) == l3
            &&& forall|x: Seq<char>| #[trigger] r.contains(x) <==> l3.contains(x) || (agents.contains(x)
                && !is_agent_worker_spec(x))
        }),
{
    let l3 = l3_collect(outputs, layer3_pattern_views());
    let agents = pgrep_collect(seq![], lines(agents_out), "cursor-agent"@);
    lemma_l3_collect_distinct(outputs, layer3_pattern_views());
    lemma_pgrep_collect_distinct(seq![], lines(agents_out), "cursor-agent"@);
    lemma_non_workers(agents);
    lemma_union_in_order(l3, non_workers(agents));
}
} // verus!
