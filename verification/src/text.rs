//! Character-level text primitives with their mathematical models.
//!
//! Every string is modelled by its view, a `Seq<char>`. The spec functions
//! here state what the corresponding `str` operations of Rust mean
//! (`trim`, `lines`, `split_whitespace`, `contains`, …); the executable
//! functions compute them and are proved against those statements.
use vstd::prelude::*;

verus! {

// ── Models ────────────────────────────────────────────────────

/// Unicode `White_Space` (what `char::is_whitespace` tests).
pub open spec fn is_ws(c: char) -> bool {
    let u = c as u32;
    ||| (0x09 <= u && u <= 0x0D)
    ||| u == 0x20
    ||| u == 0x85
    ||| u == 0xA0
    ||| u == 0x1680
    ||| (0x2000 <= u && u <= 0x200A)
    ||| u == 0x2028
    ||| u == 0x2029
    ||| u == 0x202F
    ||| u == 0x205F
    ||| u == 0x3000
}

/// `s` with leading whitespace removed.
pub open spec fn trim_start(s: Seq<char>) -> Seq<char>
    decreases s.len(),
{
    if s.len() > 0 && is_ws(s[0]) {
        trim_start(s.drop_first())
    } else {
        s
    }
}

/// `s` with trailing whitespace removed.
pub open spec fn trim_end(s: Seq<char>) -> Seq<char>
    decreases s.len(),
{
    if s.len() > 0 && is_ws(s.last()) {
        trim_end(s.drop_last())
    } else {
        s
    }
}

/// `str::trim`.
pub open spec fn trim(s: Seq<char>) -> Seq<char> {
    trim_end(trim_start(s))
}

/// `s` with every leading `c` removed.
pub open spec fn strip_leading(s: Seq<char>, c: char) -> Seq<char>
    decreases s.len(),
{
    if s.len() > 0 && s[0] == c {
        strip_leading(s.drop_first(), c)
    } else {
        s
    }
}

/// `s` with every trailing `c` removed.
pub open spec fn strip_trailing(s: Seq<char>, c: char) -> Seq<char>
    decreases s.len(),
{
    if s.len() > 0 && s.last() == c {
        strip_trailing(s.drop_last(), c)
    } else {
        s
    }
}

/// `str::trim_matches` with a single character.
pub open spec fn trim_matches(s: Seq<char>, c: char) -> Seq<char> {
    strip_trailing(strip_leading(s, c), c)
}

/// `p` occurs in `s` at position `i`.
pub open spec fn occurs_at(s: Seq<char>, p: Seq<char>, i: int) -> bool {
    0 <= i && i + p.len() <= s.len() && s.subrange(i, i + p.len()) == p
}

/// `str::contains` with a string pattern.
pub open spec fn contains(s: Seq<char>, p: Seq<char>) -> bool {
    exists|i: int| occurs_at(s, p, i)
}

/// `str::starts_with`.
pub open spec fn starts_with(s: Seq<char>, p: Seq<char>) -> bool {
    occurs_at(s, p, 0)
}

/// `str::ends_with`.
pub open spec fn ends_with(s: Seq<char>, p: Seq<char>) -> bool {
    occurs_at(s, p, s.len() - p.len())
}

/// `c` occurs in `s`.
pub open spec fn has_char(s: Seq<char>, c: char) -> bool {
    exists|i: int| 0 <= i < s.len() && s[i] == c
}

/// Index of the first `c` in `s`, or `s.len()` when there is none.
pub open spec fn index_of_char(s: Seq<char>, c: char) -> int
    decreases s.len(),
{
    if s.len() == 0 {
        0
    } else if s[0] == c {
        0
    } else {
        1 + index_of_char(s.drop_first(), c)
    }
}

/// The tokens of `str::split_whitespace`: maximal runs of non-whitespace.
pub open spec fn split_ws(s: Seq<char>) -> Seq<Seq<char>>
    decreases s.len(),
{
    if s.len() == 0 {
        seq![]
    } else if is_ws(s[0]) {
        split_ws(s.drop_first())
    } else {
        let n = token_len(s);
        proof {
            lemma_token_len_bounds(s);
        }
        seq![s.take(n)] + split_ws(s.skip(n))
    }
}

/// Length of the leading run of non-whitespace characters.
pub open spec fn token_len(s: Seq<char>) -> int
    decreases s.len(),
{
    if s.len() == 0 || is_ws(s[0]) {
        0
    } else {
        1 + token_len(s.drop_first())
    }
}

/// One line as `str::lines` yields it: the trailing `"\n"` or `"\r\n"`
/// removed.
pub open spec fn strip_line_end(piece: Seq<char>) -> Seq<char> {
    if piece.len() > 0 && piece.last() == '\n' {
        let body = piece.drop_last();
        if body.len() > 0 && body.last() == '\r' {
            body.drop_last()
        } else {
            body
        }
    } else {
        piece
    }
}

/// `str::lines`: pieces ending at each `'\n'`, the final unterminated piece
/// (when non-empty) included, each with its line ending removed.
pub open spec fn lines(s: Seq<char>) -> Seq<Seq<char>>
    decreases s.len(),
{
    if s.len() == 0 {
        seq![]
    } else {
        let k = index_of_char(s, '\n');
        proof {
            lemma_index_of_char_bounds(s, '\n');
        }
        if k < s.len() {
            seq![strip_line_end(s.take(k + 1))] + lines(s.skip(k + 1))
        } else {
            seq![s]
        }
    }
}

/// The value of a string of ASCII decimal digits.
pub open spec fn digits_value(s: Seq<char>) -> nat
    decreases s.len(),
{
    if s.len() == 0 {
        0
    } else {
        digits_value(s.drop_last()) * 10 + ((s.last() as u32 - '0' as u32) as nat)
    }
}

pub open spec fn is_digit(c: char) -> bool {
    '0' <= c && c <= '9'
}

pub open spec fn all_digits(s: Seq<char>) -> bool {
    forall|i: int| 0 <= i < s.len() ==> is_digit(#[trigger] s[i])
}

/// `str::parse::<u32>`: an optional `'+'`, then one or more ASCII digits
/// whose value fits in a `u32`.
pub open spec fn parse_u32(s: Seq<char>) -> Option<u32> {
    let d = if s.len() > 0 && s[0] == '+' {
        s.drop_first()
    } else {
        s
    };
    if d.len() > 0 && all_digits(d) && digits_value(d) <= u32::MAX {
        Some(digits_value(d) as u32)
    } else {
        None
    }
}

// ── Conversions ───────────────────────────────────────────────

/// The characters of `s`, in order.
pub fn to_chars(s: &str) -> (v: Vec<char>)
    ensures
        v@ == s@,
{
    let mut v: Vec<char> = Vec::new();
    for c in it: s.chars()
        invariant
            v@ == it.seq().take(it.index() as int),
    {
        v.push(c);
    }
    v
}

/// Builds a `String` from characters (`FromIterator<char>` for `String`).
#[verifier::external_body]
pub(crate) fn from_chars(v: &[char]) -> (s: String)
    ensures
        s@ == v@,
{
    v.iter().collect()
}

/// Appends one character (`String::push`).
#[verifier::external_body]
pub(crate) fn push_char(s: &mut String, c: char)
    ensures
        final(s)@ == old(s)@.push(c),
{
    s.push(c)
}

/// `std::str::from_utf8(bytes).ok()`, owned: the text that `bytes`
/// encode, when they are valid UTF-8.
#[verifier::external_body]
pub(crate) fn utf8_text(bytes: &[u8]) -> (r: Option<String>)
    ensures
        match r {
            Some(s) => vstd::utf8::valid_utf8(bytes@) && s@ == vstd::utf8::decode_utf8(bytes@),
            None => !vstd::utf8::valid_utf8(bytes@),
        },
{
    std::str::from_utf8(bytes).ok().map(|s| s.to_string())
}

/// A fresh `String` equal to `s` (`str::to_string`).
pub fn owned(s: &str) -> (r: String)
    ensures
        r@ == s@,
{
    String::from_str(s)
}

/// Concatenation of two strings.
pub fn concat2(a: &str, b: &str) -> (r: String)
    ensures
        r@ == a@ + b@,
{
    let mut r = String::from_str(a);
    r.append(b);
    r
}

/// Concatenation of three strings.
pub fn concat3(a: &str, b: &str, c: &str) -> (r: String)
    ensures
        r@ == a@ + b@ + c@,
{
    let mut r = String::from_str(a);
    r.append(b);
    r.append(c);
    r
}

/// String equality.
pub fn str_eq(a: &str, b: &str) -> (r: bool)
    ensures
        r == (a@ == b@),
{
    let x = to_chars(a);
    let y = to_chars(b);
    chars_eq(&x, &y)
}

/// Character-sequence equality.
pub fn chars_eq(x: &[char], y: &[char]) -> (r: bool)
    ensures
        r == (x@ == y@),
{
    if x.len() != y.len() {
        return false;
    }
    let mut i: usize = 0;
    while i < x.len()
        invariant
            x@.len() == y@.len(),
            i <= x@.len(),
            forall|j: int| 0 <= j < i ==> x@[j] == y@[j],
        decreases x.len() - i,
    {
        if x[i] != y[i] {
            return false;
        }
        i = i + 1;
    }
    assert(x@ =~= y@);
    true
}

// ── Predicates ────────────────────────────────────────────────

/// `char::is_whitespace`.
pub fn is_whitespace(c: char) -> (r: bool)
    ensures
        r == is_ws(c),
{
    let u = c as u32;
    (0x09 <= u && u <= 0x0D) || u == 0x20 || u == 0x85 || u == 0xA0 || u == 0x1680 || (0x2000
        <= u && u <= 0x200A) || u == 0x2028 || u == 0x2029 || u == 0x202F || u == 0x205F || u
        == 0x3000
}

/// Whether `p` occurs in `s` at position `i`.
pub fn chars_occur_at(s: &[char], p: &[char], i: usize) -> (r: bool)
    ensures
        r == occurs_at(s@, p@, i as int),
{
    if i > s.len() || p.len() > s.len() - i {
        return false;
    }
    let mut j: usize = 0;
    while j < p.len()
        invariant
            s@.len() <= usize::MAX,
            i + p@.len() <= s@.len(),
            j <= p@.len(),
            forall|k: int| 0 <= k < j ==> s@[i + k] == p@[k],
        decreases p.len() - j,
    {
        if s[i + j] != p[j] {
            assert(s@.subrange(i as int, i + p@.len())[j as int] != p@[j as int]);
            return false;
        }
        j = j + 1;
    }
    assert(s@.subrange(i as int, i + p@.len()) =~= p@);
    true
}

/// `contains` on character slices.
pub fn chars_contain(s: &[char], p: &[char]) -> (r: bool)
    ensures
        r == contains(s@, p@),
{
    if p.len() > s.len() {
        assert forall|i: int| !occurs_at(s@, p@, i) by {}
        return false;
    }
    let last = s.len() - p.len();
    let mut i: usize = 0;
    loop
        invariant
            p@.len() <= s@.len(),
            last == s@.len() - p@.len(),
            i <= last,
            forall|k: int| 0 <= k < i ==> !occurs_at(s@, p@, k),
        decreases last - i,
    {
        if chars_occur_at(s, p, i) {
            return true;
        }
        if i == last {
            assert forall|k: int| !occurs_at(s@, p@, k) by {}
            return false;
        }
        i = i + 1;
    }
}

/// `str::contains`.
pub fn str_contains(s: &str, p: &str) -> (r: bool)
    ensures
        r == contains(s@, p@),
{
    let x = to_chars(s);
    let y = to_chars(p);
    chars_contain(&x, &y)
}

/// `str::starts_with`.
pub fn str_starts_with(s: &str, p: &str) -> (r: bool)
    ensures
        r == starts_with(s@, p@),
{
    let x = to_chars(s);
    let y = to_chars(p);
    chars_occur_at(&x, &y, 0)
}

/// `starts_with` on character slices.
pub fn chars_start_with(s: &[char], p: &[char]) -> (r: bool)
    ensures
        r == starts_with(s@, p@),
{
    chars_occur_at(s, p, 0)
}

/// `ends_with` on character slices.
pub fn chars_end_with(s: &[char], p: &[char]) -> (r: bool)
    ensures
        r == ends_with(s@, p@),
{
    if p.len() > s.len() {
        return false;
    }
    chars_occur_at(s, p, s.len() - p.len())
}

/// `str::ends_with`.
pub fn str_ends_with(s: &str, p: &str) -> (r: bool)
    ensures
        r == ends_with(s@, p@),
{
    let x = to_chars(s);
    let y = to_chars(p);
    chars_end_with(&x, &y)
}

/// Whether the character `c` occurs in `s`.
pub fn chars_have(s: &[char], c: char) -> (r: bool)
    ensures
        r == has_char(s@, c),
{
    let mut i: usize = 0;
    while i < s.len()
        invariant
            i <= s@.len(),
            forall|k: int| 0 <= k < i ==> s@[k] != c,
        decreases s.len() - i,
    {
        if s[i] == c {
            return true;
        }
        i = i + 1;
    }
    false
}

/// `s.trim_matches(c)` on character slices.
pub fn trim_matches_chars(s: &[char], c: char) -> (r: Vec<char>)
    ensures
        r@ == trim_matches(s@, c),
{
    let n = s.len();
    let mut i: usize = 0;
    assert(s@.subrange(0, n as int) =~= s@);
    while i < n
        invariant
            i <= n == s@.len(),
            strip_leading(s@, c) == strip_leading(s@.subrange(i as int, n as int), c),
        ensures
            i <= n,
            i == n || s@[i as int] != c,
            strip_leading(s@, c) == strip_leading(s@.subrange(i as int, n as int), c),
        decreases n - i,
    {
        if s[i] != c {
            break;
        }
        assert(s@.subrange(i as int, n as int).drop_first() =~= s@.subrange(i + 1, n as int));
        i = i + 1;
    }
    let ghost lead = s@.subrange(i as int, n as int);
    proof {
        if i < n {
            assert(lead[0] == s@[i as int]);
        }
        assert(strip_leading(s@, c) == lead);
    }
    let mut j: usize = n;
    while j > i
        invariant
            i <= j <= n == s@.len(),
            lead == s@.subrange(i as int, n as int),
            strip_trailing(lead, c) == strip_trailing(s@.subrange(i as int, j as int), c),
        ensures
            i <= j <= n,
            j == i || s@[j - 1] != c,
            strip_trailing(lead, c) == strip_trailing(s@.subrange(i as int, j as int), c),
        decreases j,
    {
        if s[j - 1] != c {
            break;
        }
        assert(s@.subrange(i as int, j as int).drop_last() =~= s@.subrange(i as int, j - 1));
        j = j - 1;
    }
    proof {
        if j > i {
            assert(s@.subrange(i as int, j as int).last() == s@[j - 1]);
        }
    }
    slice_of(s, i, j)
}

/// `s.strip_prefix(p).unwrap_or(s)`.
pub fn strip_prefix_or_same(s: &str, p: &str) -> (r: String)
    ensures
        r@ == (if starts_with(s@, p@) {
            s@.skip(p@.len() as int)
        } else {
            s@
        }),
{
    let cs = to_chars(s);
    let ps = to_chars(p);
    if chars_start_with(&cs, &ps) {
        let rest = slice_of(&cs, ps.len(), cs.len());
        assert(s@.skip(p@.len() as int) =~= s@.subrange(p@.len() as int, s@.len() as int));
        from_chars(&rest)
    } else {
        owned(s)
    }
}

/// Whether `s` is empty.
pub fn str_is_empty(s: &str) -> (r: bool)
    ensures
        r == (s@.len() == 0),
{
    let cs = to_chars(s);
    cs.len() == 0
}

/// The first position at which `p` occurs in `s` at or after `i`.
pub open spec fn find_from(s: Seq<char>, p: Seq<char>, i: int) -> Option<int>
    decreases s.len() + 1 - i,
{
    if i < 0 || i + p.len() > s.len() {
        None
    } else if occurs_at(s, p, i) {
        Some(i)
    } else {
        find_from(s, p, i + 1)
    }
}

/// `str::find`: the first position at which `p` occurs in `s`.
pub open spec fn find(s: Seq<char>, p: Seq<char>) -> Option<int> {
    find_from(s, p, 0)
}

/// `s.find(p)` on character slices.
pub fn find_chars(s: &[char], p: &[char]) -> (r: Option<usize>)
    ensures
        match r {
            Some(i) => find(s@, p@) == Some(i as int) && i + p@.len() <= s@.len(),
            None => find(s@, p@) is None,
        },
{
    if p.len() > s.len() {
        return None;
    }
    let mut i: usize = 0;
    while i <= s.len() - p.len()
        invariant
            p@.len() <= s@.len(),
            i <= s@.len() - p@.len() + 1,
            find(s@, p@) == find_from(s@, p@, i as int),
        decreases s.len() - p.len() + 1 - i,
    {
        if chars_occur_at(s, p, i) {
            return Some(i);
        }
        if i == s.len() - p.len() {
            assert(find_from(s@, p@, i + 1) is None);
            return None;
        }
        i = i + 1;
    }
    None
}

/// The first line of `ls` that is not blank once trimmed, trimmed; empty
/// when there is none.
pub open spec fn first_nonblank(ls: Seq<Seq<char>>) -> Seq<char>
    decreases ls.len(),
{
    if ls.len() == 0 {
        seq![]
    } else if trim(ls[0]).len() > 0 {
        trim(ls[0])
    } else {
        first_nonblank(ls.drop_first())
    }
}

/// The first non-blank line of `s`, trimmed.
pub fn first_nonblank_line(s: &[char]) -> (r: Vec<char>)
    ensures
        r@ == first_nonblank(lines(s@)),
{
    let ls = lines_of(s);
    let ghost lv = lines(s@);
    let mut i: usize = 0;
    assert(lv.skip(0) =~= lv);
    while i < ls.len()
        invariant
            i <= ls@.len() == lv.len(),
            lv == lines(s@),
            forall|k: int| 0 <= k < ls@.len() ==> (#[trigger] ls@[k])@ == lv[k],
            first_nonblank(lv) == first_nonblank(lv.skip(i as int)),
        decreases ls.len() - i,
    {
        assert(lv.skip(i as int).drop_first() =~= lv.skip(i + 1));
        assert(lv.skip(i as int)[0] == ls@[i as int]@);
        let t = trim_chars(&ls[i]);
        if t.len() > 0 {
            return t;
        }
        i = i + 1;
    }
    Vec::new()
}

/// `s` cut to `n` characters, with `…` when it was longer.
pub open spec fn ellipsize(s: Seq<char>, n: nat) -> Seq<char> {
    if s.len() <= n {
        s
    } else {
        s.take(n as int).push('…')
    }
}

// ── Slicing ───────────────────────────────────────────────────

/// `s[from..to]` on character slices, as a fresh vector.
pub fn slice_of(s: &[char], from: usize, to: usize) -> (r: Vec<char>)
    requires
        from <= to <= s@.len(),
    ensures
        r@ == s@.subrange(from as int, to as int),
{
    let mut r: Vec<char> = Vec::new();
    let mut i: usize = from;
    while i < to
        invariant
            from <= i <= to <= s@.len(),
            r@ == s@.subrange(from as int, i as int),
        decreases to - i,
    {
        r.push(s[i]);
        assert(s@.subrange(from as int, i as int).push(s@[i as int]) =~= s@.subrange(
            from as int,
            i + 1,
        ));
        i = i + 1;
    }
    r
}

/// `s.chars().take(n)`.
pub fn take_chars(s: &[char], n: usize) -> (r: Vec<char>)
    ensures
        r@ == s@.take(if n <= s@.len() { n as int } else { s@.len() as int }),
{
    let m = if n <= s.len() {
        n
    } else {
        s.len()
    };
    slice_of(s, 0, m)
}

/// Characters before the first `c` (all of `s` when there is none).
pub fn before_char(s: &[char], c: char) -> (r: usize)
    ensures
        r == index_of_char(s@, c),
        r <= s@.len(),
        forall|k: int| 0 <= k < r ==> s@[k] != c,
        r < s@.len() ==> s@[r as int] == c,
{
    let mut i: usize = 0;
    assert(s@.skip(0) =~= s@);
    while i < s.len()
        invariant
            i <= s@.len(),
            forall|k: int| 0 <= k < i ==> s@[k] != c,
            index_of_char(s@, c) == i + index_of_char(s@.skip(i as int), c),
        decreases s.len() - i,
    {
        assert(s@.skip(i as int).drop_first() =~= s@.skip(i + 1));
        if s[i] == c {
            return i;
        }
        i = i + 1;
    }
    i
}

// ── Trimming ──────────────────────────────────────────────────

proof fn lemma_trim_start_skip(s: Seq<char>, i: int)
    requires
        0 <= i <= s.len(),
        forall|k: int| 0 <= k < i ==> is_ws(#[trigger] s[k]),
    ensures
        trim_start(s) == trim_start(s.skip(i)),
    decreases i,
{
    if i > 0 {
        assert(s.drop_first().skip(i - 1) =~= s.skip(i));
        lemma_trim_start_skip(s.drop_first(), i - 1);
    } else {
        assert(s.skip(0) =~= s);
    }
}

proof fn lemma_trim_end_take(s: Seq<char>, j: int)
    requires
        0 <= j <= s.len(),
        forall|k: int| j <= k < s.len() ==> is_ws(#[trigger] s[k]),
    ensures
        trim_end(s) == trim_end(s.take(j)),
    decreases s.len() - j,
{
    if j < s.len() {
        assert(s.drop_last().take(j) =~= s.take(j));
        lemma_trim_end_take(s.drop_last(), j);
    } else {
        assert(s.take(j) =~= s);
    }
}

/// Number of leading whitespace characters of `s`.
pub fn leading_ws(s: &[char]) -> (r: usize)
    ensures
        r <= s@.len(),
        trim_start(s@) == s@.skip(r as int),
{
    let mut i: usize = 0;
    while i < s.len() && is_whitespace(s[i])
        invariant
            i <= s@.len(),
            forall|k: int| 0 <= k < i ==> is_ws(#[trigger] s@[k]),
        decreases s.len() - i,
    {
        i = i + 1;
    }
    proof {
        lemma_trim_start_skip(s@, i as int);
        let t = s@.skip(i as int);
        if t.len() > 0 {
            assert(t[0] == s@[i as int]);
        }
    }
    i
}

/// Index just past the last non-whitespace character of `s[from..]`.
fn trailing_cut(s: &[char], from: usize) -> (r: usize)
    requires
        from <= s@.len(),
    ensures
        from <= r <= s@.len(),
        trim_end(s@.skip(from as int)) == s@.subrange(from as int, r as int),
{
    let mut j: usize = s.len();
    while j > from && is_whitespace(s[j - 1])
        invariant
            from <= j <= s@.len(),
            forall|k: int| j <= k < s@.len() ==> is_ws(#[trigger] s@[k]),
        decreases j - from,
    {
        j = j - 1;
    }
    proof {
        let t = s@.skip(from as int);
        assert forall|k: int| j - from <= k < t.len() implies is_ws(#[trigger] t[k]) by {
            assert(t[k] == s@[from + k]);
        }
        lemma_trim_end_take(t, j - from);
        assert(t.take(j - from) =~= s@.subrange(from as int, j as int));
        let u = t.take(j - from);
        if u.len() > 0 {
            assert(u.last() == s@[j - 1]);
        }
    }
    j
}

/// `str::trim_end` on characters.
pub fn trim_end_chars(s: &[char]) -> (r: Vec<char>)
    ensures
        r@ == trim_end(s@),
{
    let b = trailing_cut(s, 0);
    assert(s@.skip(0) =~= s@);
    slice_of(s, 0, b)
}

/// `str::trim` on characters.
pub fn trim_chars(s: &[char]) -> (r: Vec<char>)
    ensures
        r@ == trim(s@),
{
    let a = leading_ws(s);
    let b = trailing_cut(s, a);
    slice_of(s, a, b)
}

/// `str::trim`.
pub fn str_trim(s: &str) -> (r: String)
    ensures
        r@ == trim(s@),
{
    let v = to_chars(s);
    let t = trim_chars(&v);
    from_chars(&t)
}

/// Whether `str::trim` leaves nothing of `s`.
pub fn is_blank(s: &[char]) -> (r: bool)
    ensures
        r == (trim(s@).len() == 0),
{
    let t = trim_chars(s);
    t.len() == 0
}

/// Whether `s.trim().is_empty()`.
pub fn str_is_blank(s: &str) -> (r: bool)
    ensures
        r == (trim(s@).len() == 0),
{
    let v = to_chars(s);
    is_blank(&v)
}

// ── Tokenising ────────────────────────────────────────────────

pub proof fn lemma_token_len_bounds(s: Seq<char>)
    ensures
        0 <= token_len(s) <= s.len(),
        forall|k: int| 0 <= k < token_len(s) ==> !is_ws(#[trigger] s[k]),
        token_len(s) < s.len() ==> is_ws(s[token_len(s)]),
    decreases s.len(),
{
    if s.len() > 0 && !is_ws(s[0]) {
        lemma_token_len_bounds(s.drop_first());
        assert forall|k: int| 0 <= k < token_len(s) implies !is_ws(#[trigger] s[k]) by {
            if k > 0 {
                assert(s[k] == s.drop_first()[k - 1]);
            }
        }
    }
}

proof fn lemma_token_len_run(s: Seq<char>, n: int)
    requires
        0 <= n <= s.len(),
        forall|k: int| 0 <= k < n ==> !is_ws(#[trigger] s[k]),
        n == s.len() || is_ws(s[n]),
    ensures
        token_len(s) == n,
    decreases n,
{
    if n > 0 {
        assert forall|k: int| 0 <= k < n - 1 implies !is_ws(#[trigger] s.drop_first()[k]) by {
            assert(s.drop_first()[k] == s[k + 1]);
        }
        if n < s.len() {
            assert(s.drop_first()[n - 1] == s[n]);
        }
        lemma_token_len_run(s.drop_first(), n - 1);
    }
}

proof fn lemma_split_ws_skip(s: Seq<char>, i: int)
    requires
        0 <= i <= s.len(),
        forall|k: int| 0 <= k < i ==> is_ws(#[trigger] s[k]),
    ensures
        split_ws(s) == split_ws(s.skip(i)),
    decreases i,
{
    if i > 0 {
        assert(s.drop_first().skip(i - 1) =~= s.skip(i));
        lemma_split_ws_skip(s.drop_first(), i - 1);
    } else {
        assert(s.skip(0) =~= s);
    }
}

/// `str::split_whitespace`, each token as characters.
pub fn split_whitespace(s: &[char]) -> (r: Vec<Vec<char>>)
    ensures
        r@.len() == split_ws(s@).len(),
        forall|k: int| 0 <= k < r@.len() ==> (#[trigger] r@[k])@ == split_ws(s@)[k],
{
    let mut out: Vec<Vec<char>> = Vec::new();
    let mut i: usize = 0;
    assert(s@.skip(0) =~= s@);
    assert(out@.map_values(|t: Vec<char>| t@) =~= Seq::<Seq<char>>::empty());
    while i < s.len()
        invariant
            i <= s@.len(),
            split_ws(s@) == out@.map_values(|t: Vec<char>| t@) + split_ws(s@.skip(i as int)),
        decreases s.len() - i,
    {
        let rest = Ghost(s@.skip(i as int));
        if is_whitespace(s[i]) {
            proof {
                assert(rest@[0] == s@[i as int]);
                assert(rest@.drop_first() =~= s@.skip(i + 1));
            }
            i = i + 1;
        } else {
            let mut j: usize = i;
            while j < s.len() && !is_whitespace(s[j])
                invariant
                    i <= j <= s@.len(),
                    forall|k: int| i <= k < j ==> !is_ws(#[trigger] s@[k]),
                decreases s.len() - j,
            {
                j = j + 1;
            }
            let tok = slice_of(s, i, j);
            proof {
                let r = rest@;
                assert(r[0] == s@[i as int]);
                assert forall|k: int| 0 <= k < j - i implies !is_ws(#[trigger] r[k]) by {
                    assert(r[k] == s@[i + k]);
                }
                if j < s.len() {
                    assert(r[j - i] == s@[j as int]);
                }
                lemma_token_len_run(r, j - i);
                assert(r.take(j - i) =~= tok@);
                assert(r.skip(j - i) =~= s@.skip(j as int));
                assert(out@.push(tok).map_values(|t: Vec<char>| t@) =~= out@.map_values(
                    |t: Vec<char>| t@,
                ).push(tok@));
            }
            out.push(tok);
            i = j;
        }
    }
    proof {
        assert(s@.skip(i as int).len() == 0);
        assert(split_ws(s@) =~= out@.map_values(|t: Vec<char>| t@));
        assert forall|k: int| 0 <= k < out@.len() implies (#[trigger] out@[k])@ == split_ws(
            s@,
        )[k] by {
            assert(out@.map_values(|t: Vec<char>| t@)[k] == out@[k]@);
        }
    }
    out
}

// ── Lines ─────────────────────────────────────────────────────

/// `str::lines`, each line as characters.
pub fn lines_of(s: &[char]) -> (r: Vec<Vec<char>>)
    ensures
        r@.len() == lines(s@).len(),
        forall|k: int| 0 <= k < r@.len() ==> (#[trigger] r@[k])@ == lines(s@)[k],
{
    let mut out: Vec<Vec<char>> = Vec::new();
    let mut i: usize = 0;
    assert(s@.skip(0) =~= s@);
    assert(out@.map_values(|t: Vec<char>| t@) =~= Seq::<Seq<char>>::empty());
    while i < s.len()
        invariant
            i <= s@.len(),
            lines(s@) == out@.map_values(|t: Vec<char>| t@) + lines(s@.skip(i as int)),
        decreases s.len() - i,
    {
        let rest = Ghost(s@.skip(i as int));
        let mut j: usize = i;
        while j < s.len() && s[j] != '\n'
            invariant
                i <= j <= s@.len(),
                forall|k: int| i <= k < j ==> s@[k] != '\n',
            decreases s.len() - j,
        {
            j = j + 1;
        }
        proof {
            let r = rest@;
            lemma_index_of_char_exact(r, '\n', j - i);
        }
        if j < s.len() {
            let mut end = j;
            if end > i && s[end - 1] == '\r' {
                end = end - 1;
            }
            let line = slice_of(s, i, end);
            proof {
                let r = rest@;
                let piece = r.take(j - i + 1);
                assert(piece.last() == s@[j as int]);
                assert(piece.drop_last() =~= s@.subrange(i as int, j as int));
                if end < j {
                    assert(piece.drop_last().last() == s@[j - 1]);
                    assert(piece.drop_last().drop_last() =~= line@);
                } else {
                    assert(piece.drop_last() =~= line@);
                }
                assert(r.skip(j - i + 1) =~= s@.skip(j + 1));
                assert(out@.push(line).map_values(|t: Vec<char>| t@) =~= out@.map_values(
                    |t: Vec<char>| t@,
                ).push(line@));
            }
            out.push(line);
            i = j + 1;
        } else {
            let line = slice_of(s, i, j);
            proof {
                let r = rest@;
                assert(r =~= line@);
                assert(out@.push(line).map_values(|t: Vec<char>| t@) =~= out@.map_values(
                    |t: Vec<char>| t@,
                ).push(line@));
                assert(s@.skip(j as int).len() == 0);
            }
            out.push(line);
            i = j;
        }
    }
    proof {
        assert(lines(s@) =~= out@.map_values(|t: Vec<char>| t@));
        assert forall|k: int| 0 <= k < out@.len() implies (#[trigger] out@[k])@ == lines(s@)[k] by {
            assert(out@.map_values(|t: Vec<char>| t@)[k] == out@[k]@);
        }
    }
    out
}

pub proof fn lemma_index_of_char_bounds(s: Seq<char>, c: char)
    ensures
        0 <= index_of_char(s, c) <= s.len(),
    decreases s.len(),
{
    if s.len() > 0 && s[0] != c {
        lemma_index_of_char_bounds(s.drop_first(), c);
    }
}

proof fn lemma_index_of_char_exact(s: Seq<char>, c: char, n: int)
    requires
        0 <= n <= s.len(),
        forall|k: int| 0 <= k < n ==> s[k] != c,
        n == s.len() || s[n] == c,
    ensures
        index_of_char(s, c) == n,
    decreases n,
{
    if n > 0 {
        if n < s.len() {
            assert(s.drop_first()[n - 1] == s[n]);
        }
        assert forall|k: int| 0 <= k < n - 1 implies s.drop_first()[k] != c by {
            assert(s.drop_first()[k] == s[k + 1]);
        }
        lemma_index_of_char_exact(s.drop_first(), c, n - 1);
    }
}

// ── Numbers ───────────────────────────────────────────────────

/// `str::parse::<u32>` on characters.
pub fn parse_u32_chars(s: &[char]) -> (r: Option<u32>)
    ensures
        r == parse_u32(s@),
{
    let start: usize = if s.len() > 0 && s[0] == '+' {
        1
    } else {
        0
    };
    let ghost d = if s@.len() > 0 && s@[0] == '+' {
        s@.drop_first()
    } else {
        s@
    };
    proof {
        assert(d =~= s@.skip(start as int));
        assert(parse_u32(s@) == (if d.len() > 0 && all_digits(d) && digits_value(d) <= u32::MAX {
            Some(digits_value(d) as u32)
        } else {
            None
        }));
    }
    if start >= s.len() {
        return None;
    }
    let mut v: u64 = 0;
    let mut i: usize = start;
    while i < s.len()
        invariant
            start <= i <= s@.len(),
            d == s@.skip(start as int),
            parse_u32(s@) == (if d.len() > 0 && all_digits(d) && digits_value(d) <= u32::MAX {
                Some(digits_value(d) as u32)
            } else {
                None
            }),
            forall|k: int| start <= k < i ==> is_digit(#[trigger] s@[k]),
            v == digits_value(s@.subrange(start as int, i as int)),
            v <= u32::MAX,
        decreases s.len() - i,
    {
        let c = s[i];
        if !('0' <= c && c <= '9') {
            proof {
                assert(d[i - start] == s@[i as int]);
                assert(!is_digit(d[i - start]));
                assert(!all_digits(d));
            }
            return None;
        }
        let dv = (c as u32 - '0' as u32) as u64;
        proof {
            let t = s@.subrange(start as int, i + 1);
            assert(t.drop_last() =~= s@.subrange(start as int, i as int));
            assert(t.last() == c);
        }
        let nv = v * 10 + dv;
        proof {
            let t = s@.subrange(start as int, i + 1);
            assert(digits_value(t) == digits_value(t.drop_last()) * 10 + ((t.last() as u32
                - '0' as u32) as nat));
            assert(digits_value(t) == nv);
        }
        if nv > u32::MAX as u64 {
            proof {
                lemma_digits_value_prefix_monotone(d, i + 1 - start);
                assert(d.take(i + 1 - start) =~= s@.subrange(start as int, i + 1));
                assert(all_digits(d) ==> digits_value(d) > u32::MAX);
            }
            return None;
        }
        v = nv;
        i = i + 1;
    }
    proof {
        assert(s@.subrange(start as int, i as int) =~= d);
        assert forall|k: int| 0 <= k < d.len() implies is_digit(#[trigger] d[k]) by {
            assert(d[k] == s@[start + k]);
        }
    }
    Some(v as u32)
}

proof fn lemma_digits_value_prefix_monotone(d: Seq<char>, n: int)
    requires
        0 <= n <= d.len(),
    ensures
        all_digits(d) ==> digits_value(d.take(n)) <= digits_value(d),
    decreases d.len() - n,
{
    if n < d.len() && all_digits(d) {
        let e = d.drop_last();
        assert(all_digits(e)) by {
            assert forall|i: int| 0 <= i < e.len() implies is_digit(#[trigger] e[i]) by {
                assert(e[i] == d[i]);
            }
        }
        assert(e.take(n) =~= d.take(n));
        lemma_digits_value_prefix_monotone(e, n);
    } else if n == d.len() {
        assert(d.take(n) =~= d);
    }
}

// ── Sequences of strings ──────────────────────────────────────

/// The views of a sequence of strings.
pub open spec fn views(v: Seq<String>) -> Seq<Seq<char>> {
    v.map_values(|s: String| s@)
}

pub proof fn lemma_views_push(v: Seq<String>, s: String)
    ensures
        views(v.push(s)) == views(v).push(s@),
{
    assert(views(v.push(s)) =~= views(v).push(s@));
}

/// Whether the string `x` is among `v`.
pub fn strings_contain(v: &Vec<String>, x: &String) -> (r: bool)
    ensures
        r == views(v@).contains(x@),
{
    let mut j: usize = 0;
    while j < v.len()
        invariant
            j <= v@.len(),
            forall|k: int| 0 <= k < j ==> v@[k]@ != x@,
        decreases v.len() - j,
    {
        if v[j] == *x {
            proof {
                assert(views(v@)[j as int] == x@);
            }
            return true;
        }
        j = j + 1;
    }
    proof {
        assert forall|k: int| 0 <= k < views(v@).len() implies views(v@)[k] != x@ by {
            assert(views(v@)[k] == v@[k]@);
        }
    }
    false
}


/// One more element of `s` through a filter.
pub proof fn lemma_filter_take_step<A>(s: Seq<A>, f: spec_fn(A) -> bool, i: int)
    requires
        0 <= i < s.len(),
    ensures
        s.take(i + 1).filter(f) == (if f(s[i]) {
            s.take(i).filter(f).push(s[i])
        } else {
            s.take(i).filter(f)
        }),
        s.take(0).filter(f) == Seq::<A>::empty(),
{
    reveal(Seq::filter);
    assert(s.take(i + 1).drop_last() =~= s.take(i));
    assert(s.take(i + 1).last() == s[i]);
    assert(s.take(0) =~= Seq::<A>::empty());
}

// ── Ordering ──────────────────────────────────────────────────

/// `a < b` as `str`'s `Ord` orders strings: lexicographically by code
/// point (which is the order of their UTF-8 bytes).
pub open spec fn lex_lt(a: Seq<char>, b: Seq<char>) -> bool
    decreases a.len(),
{
    if b.len() == 0 {
        false
    } else if a.len() == 0 {
        true
    } else if a[0] != b[0] {
        (a[0] as int) < (b[0] as int)
    } else {
        lex_lt(a.drop_first(), b.drop_first())
    }
}

/// `lex_lt` is a strict total order.
pub proof fn lemma_lex_order(a: Seq<char>, b: Seq<char>, c: Seq<char>)
    ensures
        !lex_lt(a, a),
        lex_lt(a, b) ==> !lex_lt(b, a),
        a != b ==> lex_lt(a, b) || lex_lt(b, a),
        lex_lt(a, b) && lex_lt(b, c) ==> lex_lt(a, c),
    decreases a.len(),
{
    if a.len() > 0 {
        lemma_lex_order(a.drop_first(), a.drop_first(), a.drop_first());
    }
    if a.len() > 0 && b.len() > 0 {
        lemma_lex_order(a.drop_first(), b.drop_first(), b.drop_first());
        if c.len() > 0 {
            lemma_lex_order(a.drop_first(), b.drop_first(), c.drop_first());
        }
        if a != b && a[0] == b[0] {
            if a.drop_first() =~= b.drop_first() {
                assert(a =~= b) by {
                    assert forall|k: int| 0 <= k < a.len() implies a[k] == b[k] by {
                        if k > 0 {
                            assert(a[k] == a.drop_first()[k - 1]);
                            assert(b[k] == b.drop_first()[k - 1]);
                        }
                    }
                }
            }
            assert(lex_lt(a.drop_first(), b.drop_first()) || lex_lt(b.drop_first(), a.drop_first()));
        }

    }
    if a.len() == 0 && b.len() == 0 {
        assert(a =~= b);
    }
}

/// `a < b` for strings (`str`'s `Ord`).
pub fn str_lt(a: &str, b: &str) -> (r: bool)
    ensures
        r == lex_lt(a@, b@),
{
    let x = to_chars(a);
    let y = to_chars(b);
    let mut i: usize = 0;
    assert(x@.skip(0) =~= x@);
    assert(y@.skip(0) =~= y@);
    while i < x.len() && i < y.len()
        invariant
            i <= x@.len(),
            i <= y@.len(),
            lex_lt(a@, b@) == lex_lt(x@.skip(i as int), y@.skip(i as int)),
            x@ == a@,
            y@ == b@,
        decreases x.len() - i,
    {
        assert(x@.skip(i as int)[0] == x@[i as int]);
        assert(y@.skip(i as int)[0] == y@[i as int]);
        if x[i] != y[i] {
            return x[i] < y[i];
        }
        assert(x@.skip(i as int).drop_first() =~= x@.skip(i + 1));
        assert(y@.skip(i as int).drop_first() =~= y@.skip(i + 1));
        i = i + 1;
    }
    i < y.len()
}

/// The parts joined with `sep` between them (`slice::join`).
pub open spec fn join_with(parts: Seq<Seq<char>>, sep: Seq<char>) -> Seq<char>
    decreases parts.len(),
{
    if parts.len() == 0 {
        seq![]
    } else if parts.len() == 1 {
        parts[0]
    } else {
        join_with(parts.drop_last(), sep) + sep + parts.last()
    }
}

/// `parts.join(sep)`.
pub fn join_strings(parts: &Vec<String>, sep: &str) -> (r: String)
    ensures
        r@ == join_with(views(parts@), sep@),
{
    let mut out = String::new();
    let mut i: usize = 0;
    proof {
        assert(views(parts@).take(0) =~= Seq::<Seq<char>>::empty());
    }
    while i < parts.len()
        invariant
            i <= parts@.len(),
            out@ == join_with(views(parts@).take(i as int), sep@),
        decreases parts.len() - i,
    {
        let ghost vp = views(parts@);
        proof {
            assert(vp.take(i + 1).drop_last() =~= vp.take(i as int));
            assert(vp.take(i + 1).last() == parts@[i as int]@);
        }
        if i == 0 {
            out = parts[0].clone();
        } else {
            let a = concat3(out.as_str(), sep, parts[i].as_str());
            out = a;
        }
        i = i + 1;
    }
    proof {
        assert(views(parts@).take(i as int) =~= views(parts@));
    }
    out
}

/// Adds `x` to `out` unless it is there.
pub fn push_unique(out: &mut Vec<String>, x: String)
    requires
        views(old(out)@).no_duplicates(),
    ensures
        views(final(out)@).no_duplicates(),
        views(final(out)@).to_set() == views(old(out)@).to_set().insert(x@),
{
    if strings_contain(out, &x) {
        proof {
            assert(views(out@).to_set().insert(x@) =~= views(out@).to_set());
        }
        return;
    }
    let ghost before = out@;
    let ghost xv = x@;
    out.push(x);
    proof {
        lemma_views_push(before, x);
        let ns = views(out@);
        let os = views(before);
        assert forall|a: int, b: int| 0 <= a < ns.len() && 0 <= b < ns.len() && a != b implies #[trigger] ns[a]
            != #[trigger] ns[b] by {
            if b == ns.len() - 1 {
                assert(os.contains(ns[a]) || a == b);
            } else if a == ns.len() - 1 {
                assert(os.contains(ns[b]));
            } else {
                assert(ns[a] == os[a] && ns[b] == os[b]);
            }
        }
        os.lemma_push_to_set_commute(xv);
    }
}


// ── Decimal numerals ──────────────────────────────────────────

/// The ASCII digit for `d < 10`.
pub open spec fn digit_char(d: nat) -> char {
    (d + 48) as char
}

/// The decimal numeral of `n`, as `{}` formats an unsigned integer.
pub open spec fn decimal(n: nat) -> Seq<char>
    decreases n,
{
    if n < 10 {
        seq![digit_char(n)]
    } else {
        decimal(n / 10).push(digit_char(n % 10))
    }
}

fn push_decimal(n: u64, out: &mut Vec<char>)
    ensures
        final(out)@ == old(out)@ + decimal(n as nat),
    decreases n,
{
    if n >= 10 {
        push_decimal(n / 10, out);
    }
    let d = (n % 10) as u8;
    let c = (d + 48) as char;
    out.push(c);
    proof {
        assert(c == digit_char((n % 10) as nat));
        if n >= 10 {
            assert(old(out)@ + decimal(n as nat) =~= old(out)@ + decimal((n / 10) as nat) + seq![c]);
        } else {
            assert(old(out)@ + decimal(n as nat) =~= old(out)@ + seq![c]);
        }
    }
}

/// `n.to_string()`.
pub fn u64_decimal(n: u64) -> (r: String)
    ensures
        r@ == decimal(n as nat),
{
    let mut v: Vec<char> = Vec::new();
    push_decimal(n, &mut v);
    assert(v@ =~= decimal(n as nat));
    from_chars(&v)
}

/// The decimal numeral of a signed integer, as `{}` formats it.
pub open spec fn signed_decimal(n: int) -> Seq<char> {
    if n < 0 {
        seq!['-'] + decimal((-n) as nat)
    } else {
        decimal(n as nat)
    }
}

/// `n.to_string()` for `i64`.
pub fn i64_decimal(n: i64) -> (r: String)
    ensures
        r@ == signed_decimal(n as int),
{
    if n >= 0 {
        return u64_decimal(n as u64);
    }
    let m: u64 = ((-(n + 1)) as u64) + 1;
    assert(m == -n);
    let mut v: Vec<char> = Vec::new();
    v.push('-');
    push_decimal(m, &mut v);
    assert(v@ =~= seq!['-'] + decimal(m as nat));
    from_chars(&v)
}
} // verus!
