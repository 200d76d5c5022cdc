//! Byte encodings used by the storage layers: lowercase hex, RFC 4648
//! base64, protobuf varints and the 32-byte blob references that link
//! `store.db` blobs into a DAG.
use vstd::prelude::*;

use crate::text;

verus! {

// ── Hex ───────────────────────────────────────────────────────

/// The lowercase hex digit for a nibble.
pub open spec fn hex_digit(n: u8) -> char {
    if n < 10 {
        (('0' as u8) + n) as char
    } else {
        (('a' as u8) + n - 10) as char
    }
}

/// Lowercase hex of `b`: two digits per byte, high nibble first.
pub open spec fn hex_of(b: Seq<u8>) -> Seq<char> {
    Seq::new(
        2 * b.len(),
        |k: int|
            if k % 2 == 0 {
                hex_digit(b[k / 2] / 16)
            } else {
                hex_digit(b[k / 2] % 16)
            },
    )
}

/// A lowercase hex digit: `0`-`9` or `a`-`f`.
pub open spec fn is_lower_hex(c: char) -> bool {
    (48 <= (c as u32) && (c as u32) <= 57) || (97 <= (c as u32) && (c as u32) <= 102)
}

/// Lowercase hex has two characters per byte, each a lowercase hex digit.
pub proof fn lemma_hex_of_digits(b: Seq<u8>)
    ensures
        hex_of(b).len() == 2 * b.len(),
        forall|k: int| 0 <= k < hex_of(b).len() ==> is_lower_hex(#[trigger] hex_of(b)[k]),
{
    assert forall|k: int| 0 <= k < hex_of(b).len() implies is_lower_hex(#[trigger] hex_of(b)[k]) by {
        let x = b[k / 2];
        let hi: u8 = x / 16;
        let lo: u8 = x % 16;
        assert(hi < 16 && lo < 16);
    }
}

/// The value of an ASCII hex digit byte (either case).
pub open spec fn nibble(c: u8) -> Option<u8> {
    if 48 <= c && c <= 57 {
        Some((c - 48) as u8)
    } else if 97 <= c && c <= 102 {
        Some((c - 97 + 10) as u8)
    } else if 65 <= c && c <= 70 {
        Some((c - 65 + 10) as u8)
    } else {
        None
    }
}

/// Why a hex string was refused.
#[derive(Debug, PartialEq, Eq, Structural)]
pub enum HexError {
    /// The (trimmed) input has an odd number of bytes.
    OddLength,
    /// A byte that is no hex digit; the first such byte.
    InvalidChar(u8),
}

/// Index of the first byte of `b` that is no hex digit (`b.len()` if none).
pub open spec fn first_non_hex(b: Seq<u8>) -> int
    decreases b.len(),
{
    if b.len() == 0 {
        0
    } else if nibble(b[0]) is None {
        0
    } else {
        1 + first_non_hex(b.drop_first())
    }
}

/// The bytes that a string of hex digit pairs denotes.
pub open spec fn hex_pairs(b: Seq<u8>) -> Seq<u8> {
    Seq::new(
        b.len() / 2,
        |i: int| (nibble(b[2 * i]).unwrap() * 16 + nibble(b[2 * i + 1]).unwrap()) as u8,
    )
}

/// Decoding of hex digit bytes.
pub open spec fn hex_decode_bytes(b: Seq<u8>) -> Result<Seq<u8>, HexError> {
    if b.len() % 2 != 0 {
        Err(HexError::OddLength)
    } else if first_non_hex(b) < b.len() {
        Err(HexError::InvalidChar(b[first_non_hex(b)]))
    } else {
        Ok(hex_pairs(b))
    }
}

/// What `hex_decode` gives for the string `s`: the UTF-8 bytes of `s`
/// trimmed, decoded as hex.
pub open spec fn hex_decode_spec(s: Seq<char>) -> Result<Seq<u8>, HexError> {
    hex_decode_bytes(vstd::utf8::encode_utf8(text::trim(s)))
}

/// The lowercase hex digit for a nibble.
pub fn hex_digit_char(n: u8) -> (c: char)
    requires
        n < 16,
    ensures
        c == hex_digit(n),
{
    if n < 10 {
        (('0' as u8) + n) as char
    } else {
        (('a' as u8) + n - 10) as char
    }
}

/// Lowercase hex of `bytes`, as characters.
pub fn hex_chars(bytes: &[u8]) -> (r: Vec<char>)
    ensures
        r@ == hex_of(bytes@),
{
    let mut out: Vec<char> = Vec::new();
    let mut i: usize = 0;
    while i < bytes.len()
        invariant
            i <= bytes@.len(),
            out@ == hex_of(bytes@.take(i as int)),
        decreases bytes.len() - i,
    {
        let b = bytes[i];
        out.push(hex_digit_char(b / 16));
        out.push(hex_digit_char(b % 16));
        proof {
            let t = bytes@.take(i + 1);
            assert(t.take(i as int) =~= bytes@.take(i as int));
            assert forall|k: int| 0 <= k < 2 * (i as int) implies hex_of(t)[k] == hex_of(
                bytes@.take(i as int),
            )[k] by {
                assert(t[k / 2] == bytes@[k / 2]);
            }
            assert(out@ =~= hex_of(t));
        }
        i = i + 1;
    }
    assert(bytes@.take(i as int) =~= bytes@);
    out
}

/// `hex_encode`: lowercase hex of `bytes`.
pub fn hex_encode(bytes: &[u8]) -> (r: String)
    ensures
        r@ == hex_of(bytes@),
{
    let v = hex_chars(bytes);
    text::from_chars(&v)
}

/// `hex_nibble`: the value of one hex digit byte.
pub fn hex_nibble(b: u8) -> (r: Option<u8>)
    ensures
        r == nibble(b),
{
    if 48 <= b && b <= 57 {
        Some(b - 48)
    } else if 97 <= b && b <= 102 {
        Some(b - 97 + 10)
    } else if 65 <= b && b <= 70 {
        Some(b - 65 + 10)
    } else {
        None
    }
}

proof fn lemma_first_non_hex(b: Seq<u8>, n: int)
    requires
        0 <= n <= b.len(),
        forall|k: int| 0 <= k < n ==> nibble(#[trigger] b[k]) is Some,
        n == b.len() || nibble(b[n]) is None,
    ensures
        first_non_hex(b) == n,
    decreases n,
{
    if n > 0 {
        assert forall|k: int| 0 <= k < n - 1 implies nibble(#[trigger] b.drop_first()[k]) is Some by {
            assert(b.drop_first()[k] == b[k + 1]);
        }
        if n < b.len() {
            assert(b.drop_first()[n - 1] == b[n]);
        }
        lemma_first_non_hex(b.drop_first(), n - 1);
    }
}

/// `first_non_hex` is the first byte that is no hex digit: all before it
/// are digits.
proof fn lemma_first_non_hex_is_first(b: Seq<u8>)
    ensures
        0 <= first_non_hex(b) <= b.len(),
        first_non_hex(b) < b.len() ==> nibble(b[first_non_hex(b)]) is None,
        forall|k: int| 0 <= k < first_non_hex(b) ==> nibble(#[trigger] b[k]) is Some,
    decreases b.len(),
{
    if b.len() > 0 && nibble(b[0]) is Some {
        let d = b.drop_first();
        lemma_first_non_hex_is_first(d);
        assert forall|k: int| 0 <= k < first_non_hex(b) implies nibble(#[trigger] b[k]) is Some by {
            if k > 0 {
                assert(b[k] == d[k - 1]);
            }
        }
        if first_non_hex(b) < b.len() {
            assert(b[first_non_hex(b)] == d[first_non_hex(d)]);
        }
    }
}

/// Hex decoding accepts exactly the strings whose trimmed UTF-8 bytes are
/// an even number of hex digits (either case), and gives one byte for each
/// two of them; the first refusal names an odd length, else the first
/// byte that is no hex digit.
pub proof fn lemma_hex_decode_accepts(s: Seq<char>)
    ensures
        ({
            let b = vstd::utf8::encode_utf8(text::trim(s));
            &&& (hex_decode_spec(s) is Ok <==> (b.len() % 2 == 0 && forall|k: int|
                0 <= k < b.len() ==> nibble(#[trigger] b[k]) is Some))
            &&& (hex_decode_spec(s) matches Ok(out) ==> out.len() == b.len() / 2)
            &&& (hex_decode_spec(s) == Err::<Seq<u8>, HexError>(HexError::OddLength) <==> b.len() % 2 != 0)
            &&& (hex_decode_spec(s) matches Err(HexError::InvalidChar(c)) ==> nibble(c) is None)
            &&& (hex_decode_spec(s) matches Ok(out) ==> forall|k: int|
                0 <= k < b.len() ==> #[trigger] hex_of(out)[k] == hex_digit(nibble(b[k])->0))
        }),
{
    let b = vstd::utf8::encode_utf8(text::trim(s));
    lemma_first_non_hex_is_first(b);
    if b.len() % 2 == 0 && (forall|k: int| 0 <= k < b.len() ==> nibble(#[trigger] b[k]) is Some) {
        lemma_first_non_hex(b, b.len() as int);
        let out = hex_pairs(b);
        assert forall|k: int| 0 <= k < b.len() implies #[trigger] hex_of(out)[k] == hex_digit(nibble(b[k])->0) by {
            let i = k / 2;
            let hi = nibble(b[2 * i])->0;
            let lo = nibble(b[2 * i + 1])->0;
            assert(nibble(b[2 * i]) is Some && nibble(b[2 * i + 1]) is Some);
            assert(hi < 16 && lo < 16);
            let x: u8 = (hi * 16 + lo) as u8;
            assert(out[i] == x);
            assert(x / 16 == hi && x % 16 == lo) by (nonlinear_arith)
                requires
                    hi < 16,
                    lo < 16,
                    x == hi * 16 + lo,
            ;
        }
    }
}

/// Decodes hex digit bytes.
pub fn hex_decode_slice(b: &[u8]) -> (r: Result<Vec<u8>, HexError>)
    ensures
        match r {
            Ok(v) => hex_decode_bytes(b@) == Ok::<Seq<u8>, HexError>(v@),
            Err(e) => hex_decode_bytes(b@) == Err::<Seq<u8>, HexError>(e),
        },
{
    if b.len() % 2 != 0 {
        return Err(HexError::OddLength);
    }
    let mut out: Vec<u8> = Vec::new();
    let mut i: usize = 0;
    while i < b.len() / 2
        invariant
            b@.len() % 2 == 0,
            i <= b@.len() / 2,
            forall|k: int| 0 <= k < 2 * i ==> nibble(#[trigger] b@[k]) is Some,
            out@.len() == i,
            forall|k: int| 0 <= k < i ==> #[trigger] out@[k] == (nibble(b@[2 * k]).unwrap() * 16
                + nibble(b@[2 * k + 1]).unwrap()) as u8,
        decreases b.len() / 2 - i,
    {
        let hi = match hex_nibble(b[i * 2]) {
            Some(x) => x,
            None => {
                proof {
                    lemma_first_non_hex(b@, 2 * i);
                }
                return Err(HexError::InvalidChar(b[i * 2]));
            },
        };
        let lo = match hex_nibble(b[i * 2 + 1]) {
            Some(x) => x,
            None => {
                proof {
                    lemma_first_non_hex(b@, 2 * i + 1);
                }
                return Err(HexError::InvalidChar(b[i * 2 + 1]));
            },
        };
        out.push(hi * 16 + lo);
        i = i + 1;
    }
    proof {
        lemma_first_non_hex(b@, b@.len() as int);
        assert(out@ =~= hex_pairs(b@));
    }
    Ok(out)
}

/// `hex_decode`: trims `s`, then decodes it as hex.
pub fn hex_decode(s: &str) -> (r: Result<Vec<u8>, HexError>)
    ensures
        match r {
            Ok(v) => hex_decode_spec(s@) == Ok::<Seq<u8>, HexError>(v@),
            Err(e) => hex_decode_spec(s@) == Err::<Seq<u8>, HexError>(e),
        },
{
    let t = text::str_trim(s);
    let b = t.as_str().as_bytes();
    hex_decode_slice(b)
}

/// The bytes of an ASCII string are its characters' codes.
proof fn lemma_ascii_utf8(s: Seq<char>)
    requires
        forall|k: int| 0 <= k < s.len() ==> ((#[trigger] s[k]) as u32) < 128,
    ensures
        vstd::utf8::encode_utf8(s) =~= Seq::new(s.len(), |k: int| (s[k] as u32) as u8),
    decreases s.len(),
{
    if s.len() > 0 {
        let c = s[0] as u32;
        assert(c < 128);
        assert((c & 0x7F) == c) by (bit_vector)
            requires
                c < 128,
        ;
        assert forall|k: int| 0 <= k < s.drop_first().len() implies ((#[trigger] s.drop_first()[k]) as u32)
            < 128 by {
            assert(s.drop_first()[k] == s[k + 1]);
        }
        lemma_ascii_utf8(s.drop_first());
    }
}

proof fn lemma_hex_digit_nibble(n: u8)
    requires
        n < 16,
    ensures
        (hex_digit(n) as u32) < 128,
        nibble((hex_digit(n) as u32) as u8) == Some(n),
        !text::is_ws(hex_digit(n)),
{
}

/// Hex decoding undoes hex encoding: `hex_decode(hex_encode(b))` gives
/// back `b`, for every byte string `b`.
pub proof fn lemma_hex_round_trip(b: Seq<u8>)
    ensures
        hex_decode_spec(hex_of(b)) == Ok::<Seq<u8>, HexError>(b),
{
    let h = hex_of(b);
    assert forall|k: int| 0 <= k < h.len() implies (#[trigger] h[k] as u32) < 128
        && nibble((h[k] as u32) as u8) is Some && !text::is_ws(h[k]) by {
        if k % 2 == 0 {
            lemma_hex_digit_nibble(b[k / 2] / 16);
        } else {
            lemma_hex_digit_nibble(b[k / 2] % 16);
        }
    }
    if h.len() > 0 {
        assert(text::trim_start(h) == h);
        assert(text::trim_end(h) == h);
    } else {
        assert(text::trim_start(h) == h);
        assert(text::trim_end(h) == h);
    }
    assert(text::trim(h) == h);
    lemma_ascii_utf8(h);
    let bytes = vstd::utf8::encode_utf8(h);
    assert(bytes.len() == 2 * b.len());
    assert forall|k: int| 0 <= k < bytes.len() implies nibble(#[trigger] bytes[k]) is Some by {
        assert(bytes[k] == (h[k] as u32) as u8);
    }
    lemma_first_non_hex(bytes, bytes.len() as int);
    assert forall|i: int| 0 <= i < b.len() implies #[trigger] hex_pairs(bytes)[i] == b[i] by {
        let hi = b[i] / 16;
        let lo = b[i] % 16;
        lemma_hex_digit_nibble(hi);
        lemma_hex_digit_nibble(lo);
        assert(bytes[2 * i] == (h[2 * i] as u32) as u8);
        assert(bytes[2 * i + 1] == (h[2 * i + 1] as u32) as u8);
        assert((2 * i) / 2 == i);
        assert((2 * i + 1) / 2 == i);
        assert((2 * i) % 2 == 0);
        assert((2 * i + 1) % 2 == 1);
        assert(nibble(bytes[2 * i]) == Some(hi));
        assert(nibble(bytes[2 * i + 1]) == Some(lo));
    }
    assert(hex_pairs(bytes) =~= b);
}

// ── Base64 ────────────────────────────────────────────────────

/// The RFC 4648 alphabet.
pub open spec fn b64_char(v: u32) -> char {
    if v < 26 {
        (('A' as u32) + v) as char
    } else if v < 52 {
        (('a' as u32) + v - 26) as char
    } else if v < 62 {
        (('0' as u32) + v - 52) as char
    } else if v == 62 {
        '+'
    } else {
        '/'
    }
}

/// The 24-bit group that starts at byte `3 * g` (missing bytes count as 0).
pub open spec fn b64_group(b: Seq<u8>, g: int) -> u32 {
    let b0 = b[3 * g] as u32;
    let b1 = if 3 * g + 1 < b.len() {
        b[3 * g + 1] as u32
    } else {
        0
    };
    let b2 = if 3 * g + 2 < b.len() {
        b[3 * g + 2] as u32
    } else {
        0
    };
    (b0 << 16) | (b1 << 8) | b2
}

/// Standard padded base64 of `b`.
pub open spec fn b64_of(b: Seq<u8>) -> Seq<char> {
    Seq::new(
        4 * ((b.len() + 2) / 3),
        |k: int|
            {
                let g = k / 4;
                let n = b64_group(b, g);
                if k % 4 == 0 {
                    b64_char((n >> 18) & 63)
                } else if k % 4 == 1 {
                    b64_char((n >> 12) & 63)
                } else if k % 4 == 2 {
                    if 3 * g + 1 < b.len() {
                        b64_char((n >> 6) & 63)
                    } else {
                        '='
                    }
                } else {
                    if 3 * g + 2 < b.len() {
                        b64_char(n & 63)
                    } else {
                        '='
                    }
                }
            },
    )
}

/// The alphabet character for a 6-bit value.
pub fn b64_alphabet(v: u32) -> (c: char)
    requires
        v < 64,
    ensures
        c == b64_char(v),
{
    if v < 26 {
        (('A' as u32) + v) as u8 as char
    } else if v < 52 {
        (('a' as u32) + v - 26) as u8 as char
    } else if v < 62 {
        (('0' as u32) + v - 52) as u8 as char
    } else if v == 62 {
        '+'
    } else {
        '/'
    }
}

/// `base64_encode`: standard padded base64 of `bytes`.
#[verifier::spinoff_prover]
#[verifier::rlimit(30)]
pub fn base64_encode(bytes: &[u8]) -> (r: String)
    ensures
        r@ == b64_of(bytes@),
{
    let mut out: Vec<char> = Vec::new();
    let n = bytes.len();
    let mut i: usize = 0;
    let mut g: usize = 0;
    while i < n
        invariant
            n == bytes@.len(),
            i == 3 * g,
            i < n + 3,
            out@.len() == 4 * g,
            forall|k: int| 0 <= k < out@.len() ==> #[trigger] out@[k] == b64_of(bytes@)[k],
        decreases n + 3 - i,
    {
        let b0 = bytes[i] as u32;
        let b1 = if i + 1 < n {
            bytes[i + 1] as u32
        } else {
            0
        };
        let b2 = if i + 2 < n {
            bytes[i + 2] as u32
        } else {
            0
        };
        let v = (b0 << 16) | (b1 << 8) | b2;
        proof {
            assert(v == b64_group(bytes@, g as int));
            assert((v >> 18) & 63 < 64) by (bit_vector);
            assert((v >> 12) & 63 < 64) by (bit_vector);
            assert((v >> 6) & 63 < 64) by (bit_vector);
            assert(v & 63 < 64) by (bit_vector);
        }
        out.push(b64_alphabet((v >> 18) & 63));
        out.push(b64_alphabet((v >> 12) & 63));
        out.push(
            if i + 1 < n {
                b64_alphabet((v >> 6) & 63)
            } else {
                '='
            },
        );
        out.push(
            if i + 2 < n {
                b64_alphabet(v & 63)
            } else {
                '='
            },
        );
        proof {
            let gg = g as int;
            assert(4 * gg + 3 < 4 * ((n + 2) / 3));
            assert forall|k: int| 0 <= k < out@.len() implies #[trigger] out@[k] == b64_of(
                bytes@,
            )[k] by {
                if k >= 4 * gg {
                    assert(k / 4 == gg);
                }
            }
        }
        i = i + 3;
        g = g + 1;
    }
    proof {
        assert(out@.len() == 4 * ((n + 2) / 3));
        assert(out@ =~= b64_of(bytes@));
    }
    text::from_chars(&out)
}

/// `u8::is_ascii_whitespace`: space, tab, line feed, form feed, carriage return.
pub open spec fn is_ascii_ws_byte(b: u8) -> bool {
    b == 32 || b == 9 || b == 10 || b == 12 || b == 13
}

/// The 6-bit value of a base64 alphabet byte.
pub open spec fn b64_value(b: u8) -> Option<u32> {
    if 65 <= b && b <= 90 {
        Some((b - 65) as u32)
    } else if 97 <= b && b <= 122 {
        Some((b - 97 + 26) as u32)
    } else if 48 <= b && b <= 57 {
        Some((b - 48 + 52) as u32)
    } else if b == 43 {
        Some(62)
    } else if b == 47 {
        Some(63)
    } else {
        None
    }
}

/// Why a base64 string was refused.
#[derive(Debug, PartialEq, Eq, Structural)]
pub enum Base64Error {
    /// A byte that is neither alphabet, `'='` nor ASCII whitespace.
    InvalidChar(u8),
}

/// Pending bits while regrouping 6-bit values into bytes: the bytes so far,
/// the value of the pending bits and how many there are.
pub struct B64State {
    pub out: Seq<u8>,
    pub acc: nat,
    pub bits: nat,
}

/// Regroups the 6-bit values of `b` (ignoring whitespace and `'='`) into
/// bytes, most significant bit first; leftover bits are dropped. `Err` at
/// the first byte that is neither.
pub open spec fn b64_fold(b: Seq<u8>) -> Result<B64State, Base64Error>
    decreases b.len(),
{
    if b.len() == 0 {
        Ok(B64State { out: seq![], acc: 0, bits: 0 })
    } else {
        match b64_fold(b.drop_last()) {
            Err(e) => Err(e),
            Ok(st) => {
                let c = b.last();
                if is_ascii_ws_byte(c) || c == 61 {
                    Ok(st)
                } else {
                    match b64_value(c) {
                        None => Err(Base64Error::InvalidChar(c)),
                        Some(v) => {
                            let acc: nat = st.acc * 64 + (v as nat);
                            let bits: nat = st.bits + 6;
                            if bits >= 8 {
                                let rest = (bits - 8) as nat;
                                let p = vstd::arithmetic::power2::pow2(rest);
                                Ok(
                                    B64State {
                                        out: st.out.push((acc / p) as u8),
                                        acc: acc % p,
                                        bits: rest,
                                    },
                                )
                            } else {
                                Ok(B64State { out: st.out, acc, bits })
                            }
                        },
                    }
                }
            },
        }
    }
}

/// What `base64_decode` gives for the UTF-8 bytes `b` of its input.
pub open spec fn b64_decode_bytes(b: Seq<u8>) -> Result<Seq<u8>, Base64Error> {
    match b64_fold(b) {
        Ok(st) => Ok(st.out),
        Err(e) => Err(e),
    }
}

proof fn lemma_b64_char_value(v: u32)
    requires
        v < 64,
    ensures
        (b64_char(v) as u32) < 128,
        b64_value(((b64_char(v) as u32) as u8)) == Some(v),
        !is_ascii_ws_byte(((b64_char(v) as u32) as u8)),
        ((b64_char(v) as u32) as u8) != 61,
{
}

/// The three bytes of a group as its four 6-bit values regroup them.
proof fn lemma_b64_group_bits(x0: u32, x1: u32, x2: u32, n: u32)
    requires
        x0 < 256,
        x1 < 256,
        x2 < 256,
        n == (x0 << 16) | (x1 << 8) | x2,
    ensures
        (n >> 18) & 63 < 64,
        (n >> 12) & 63 < 64,
        (n >> 6) & 63 < 64,
        n & 63 < 64,
        (((n >> 18) & 63) * 64 + ((n >> 12) & 63)) / 16 == x0,
        (((n >> 18) & 63) * 64 + ((n >> 12) & 63)) % 16 == x1 / 16,
        ((x1 / 16) * 64 + ((n >> 6) & 63)) / 4 == x1,
        ((x1 / 16) * 64 + ((n >> 6) & 63)) % 4 == x2 / 64,
        (x2 / 64) * 64 + (n & 63) == x2,
{
    assert((n >> 18) & 63 < 64 && (n >> 12) & 63 < 64 && (n >> 6) & 63 < 64 && n & 63 < 64) by (bit_vector);
    assert((((n >> 18) & 63) * 64 + ((n >> 12) & 63)) / 16 == x0 && (((n >> 18) & 63) * 64 + ((n >> 12)
        & 63)) % 16 == x1 / 16) by (bit_vector)
        requires
            x0 < 256,
            x1 < 256,
            x2 < 256,
            n == (x0 << 16) | (x1 << 8) | x2,
    ;
    assert(((x1 / 16) * 64 + ((n >> 6) & 63)) / 4 == x1 && ((x1 / 16) * 64 + ((n >> 6) & 63)) % 4 == x2
        / 64 && (x2 / 64) * 64 + (n & 63) == x2) by (bit_vector)
        requires
            x0 < 256,
            x1 < 256,
            x2 < 256,
            n == (x0 << 16) | (x1 << 8) | x2,
    ;
}

/// The bytes of the base64 text of `b`.
pub open spec fn b64_text_bytes(b: Seq<u8>) -> Seq<u8> {
    vstd::utf8::encode_utf8(b64_of(b))
}

proof fn lemma_b64_text_bytes(b: Seq<u8>)
    ensures
        b64_text_bytes(b).len() == b64_of(b).len(),
        forall|k: int| 0 <= k < b64_of(b).len() ==> #[trigger] b64_text_bytes(b)[k] == ((b64_of(b)[k] as u32) as u8),
{
    let e = b64_of(b);
    assert forall|k: int| 0 <= k < e.len() implies ((#[trigger] e[k]) as u32) < 128 by {
        let g = k / 4;
        let n = b64_group(b, g);
        assert((n >> 18) & 63 < 64 && (n >> 12) & 63 < 64 && (n >> 6) & 63 < 64 && n & 63 < 64) by (bit_vector);
        lemma_b64_char_value((n >> 18) & 63);
        lemma_b64_char_value((n >> 12) & 63);
        lemma_b64_char_value((n >> 6) & 63);
        lemma_b64_char_value(n & 63);
    }
    lemma_ascii_utf8(e);
}

/// One alphabet byte folded into a decoding state: six more bits, and a
/// byte out once eight are pending.
proof fn lemma_b64_step(t: Seq<u8>, st: B64State, v: u32)
    requires
        t.len() > 0,
        b64_fold(t.drop_last()) == Ok::<B64State, Base64Error>(st),
        !is_ascii_ws_byte(t.last()),
        t.last() != 61,
        b64_value(t.last()) == Some(v),
    ensures
        b64_fold(t) == Ok::<B64State, Base64Error>(
            if st.bits + 6 >= 8 {
                B64State {
                    out: st.out.push(
                        ((st.acc * 64 + (v as nat)) / vstd::arithmetic::power2::pow2((st.bits + 6 - 8) as nat)) as u8,
                    ),
                    acc: (st.acc * 64 + (v as nat)) % vstd::arithmetic::power2::pow2((st.bits + 6 - 8) as nat),
                    bits: (st.bits + 6 - 8) as nat,
                }
            } else {
                B64State { out: st.out, acc: st.acc * 64 + (v as nat), bits: st.bits + 6 }
            },
        ),
{
}

/// Decoding one group of the base64 text of `b`: a full group adds its
/// three bytes and leaves no pending bits; the last, partial group ends
/// the decoding with all of `b`.
#[verifier::spinoff_prover]
#[verifier::rlimit(40)]
proof fn lemma_b64_group_decodes(b: Seq<u8>, g: int)
    requires
        0 <= g,
        3 * g < b.len(),
        b64_fold(b64_text_bytes(b).take(4 * g)) == Ok::<B64State, Base64Error>(
            B64State { out: b.take(3 * g), acc: 0, bits: 0 },
        ),
    ensures
        3 * g + 3 <= b.len() ==> b64_fold(b64_text_bytes(b).take(4 * g + 4)) == Ok::<B64State, Base64Error>(
            B64State { out: b.take(3 * g + 3), acc: 0, bits: 0 },
        ),
        3 * g + 3 > b.len() ==> 4 * g + 4 == b64_text_bytes(b).len() && b64_decode_bytes(b64_text_bytes(b))
            == Ok::<Seq<u8>, Base64Error>(b),
{
    vstd::arithmetic::power2::lemma2_to64();
    let e = b64_of(b);
    let bs = b64_text_bytes(b);
    lemma_b64_text_bytes(b);
    assert(e.len() == 4 * ((b.len() + 2) / 3));
    assert(4 * g + 4 <= e.len());
    let x0 = b[3 * g] as u32;
    let x1: u32 = if 3 * g + 1 < b.len() {
        b[3 * g + 1] as u32
    } else {
        0
    };
    let x2: u32 = if 3 * g + 2 < b.len() {
        b[3 * g + 2] as u32
    } else {
        0
    };
    let n = b64_group(b, g);
    assert(n == (x0 << 16) | (x1 << 8) | x2);
    lemma_b64_group_bits(x0, x1, x2, n);
    let v1 = (n >> 18) & 63;
    let v2 = (n >> 12) & 63;
    let v3 = (n >> 6) & 63;
    let v4 = n & 63;
    lemma_b64_char_value(v1);
    lemma_b64_char_value(v2);
    lemma_b64_char_value(v3);
    lemma_b64_char_value(v4);
    assert((4 * g) / 4 == g && (4 * g) % 4 == 0);
    assert((4 * g + 1) / 4 == g && (4 * g + 1) % 4 == 1);
    assert((4 * g + 2) / 4 == g && (4 * g + 2) % 4 == 2);
    assert((4 * g + 3) / 4 == g && (4 * g + 3) % 4 == 3);
    assert(bs[4 * g] == ((b64_char(v1) as u32) as u8));
    assert(bs[4 * g + 1] == ((b64_char(v2) as u32) as u8));
    let t0 = bs.take(4 * g);
    let t1 = bs.take(4 * g + 1);
    let t2 = bs.take(4 * g + 2);
    let t3 = bs.take(4 * g + 3);
    let t4 = bs.take(4 * g + 4);
    assert(t1.drop_last() =~= t0 && t1.last() == bs[4 * g]);
    assert(t2.drop_last() =~= t1 && t2.last() == bs[4 * g + 1]);
    assert(t3.drop_last() =~= t2 && t3.last() == bs[4 * g + 2]);
    assert(t4.drop_last() =~= t3 && t4.last() == bs[4 * g + 3]);
    let out0 = b.take(3 * g);
    assert(vstd::arithmetic::power2::pow2(0) == 1 && vstd::arithmetic::power2::pow2(2) == 4
        && vstd::arithmetic::power2::pow2(4) == 16);
    // First character: six bits pending.
    lemma_b64_step(t1, B64State { out: out0, acc: 0, bits: 0 }, v1);
    assert(b64_fold(t1) == Ok::<B64State, Base64Error>(B64State { out: out0, acc: v1 as nat, bits: 6 }));
    // Second character: the first byte.
    let acc2: nat = (v1 as nat) * 64 + (v2 as nat);
    assert(acc2 / 16 == x0 && acc2 % 16 == x1 / 16);
    let out1 = out0.push(x0 as u8);
    lemma_b64_step(t2, B64State { out: out0, acc: v1 as nat, bits: 6 }, v2);
    assert(b64_fold(t2) == Ok::<B64State, Base64Error>(
        B64State { out: out1, acc: (x1 / 16) as nat, bits: 4 },
    ));
    if 3 * g + 1 < b.len() {
        assert(bs[4 * g + 2] == ((b64_char(v3) as u32) as u8));
        let acc3: nat = ((x1 / 16) as nat) * 64 + (v3 as nat);
        assert(acc3 / 4 == x1 && acc3 % 4 == x2 / 64);
        let out2 = out1.push(x1 as u8);
        lemma_b64_step(t3, B64State { out: out1, acc: (x1 / 16) as nat, bits: 4 }, v3);
        assert(b64_fold(t3) == Ok::<B64State, Base64Error>(
            B64State { out: out2, acc: (x2 / 64) as nat, bits: 2 },
        ));
        if 3 * g + 2 < b.len() {
            assert(bs[4 * g + 3] == ((b64_char(v4) as u32) as u8));
            let acc4: nat = ((x2 / 64) as nat) * 64 + (v4 as nat);
            assert(acc4 == x2);
            assert(acc4 / 1 == acc4 && acc4 % 1 == 0);
            let out3 = out2.push(x2 as u8);
            lemma_b64_step(t4, B64State { out: out2, acc: (x2 / 64) as nat, bits: 2 }, v4);
            assert(out3 =~= b.take(3 * g + 3));
            assert(b64_fold(t4) == Ok::<B64State, Base64Error>(
                B64State { out: b.take(3 * g + 3), acc: 0, bits: 0 },
            ));
        } else {
            assert(bs[4 * g + 3] == 61u8);
            assert(out2 =~= b);
            assert(e.len() == 4 * g + 4);
            assert(t4 =~= bs);
        }
    } else {
        assert(bs[4 * g + 2] == 61u8);
        assert(bs[4 * g + 3] == 61u8);
        assert(out1 =~= b);
        assert(e.len() == 4 * g + 4);
        assert(t4 =~= bs);
    }
}

proof fn lemma_b64_prefix(b: Seq<u8>, g: int)
    requires
        0 <= g,
        3 * g <= b.len(),
    ensures
        b64_fold(b64_text_bytes(b).take(4 * g)) == Ok::<B64State, Base64Error>(
            B64State { out: b.take(3 * g), acc: 0, bits: 0 },
        ),
    decreases g,
{
    if g == 0 {
        assert(b64_text_bytes(b).take(0) =~= Seq::<u8>::empty());
        assert(b.take(0) =~= Seq::<u8>::empty());
    } else {
        lemma_b64_prefix(b, g - 1);
        lemma_b64_group_decodes(b, g - 1);
    }
}

/// Base64 decoding undoes base64 encoding: `base64_decode(base64_encode(b))`
/// gives back `b`, for every byte string `b`.
pub proof fn lemma_base64_round_trip(b: Seq<u8>)
    ensures
        b64_decode_bytes(b64_text_bytes(b)) == Ok::<Seq<u8>, Base64Error>(b),
{
    let full: int = (b.len() / 3) as int;
    lemma_b64_prefix(b, full);
    lemma_b64_text_bytes(b);
    if b.len() % 3 == 0 {
        assert(b64_text_bytes(b).take(4 * full) =~= b64_text_bytes(b));
        assert(b.take(3 * full) =~= b);
    } else {
        lemma_b64_group_decodes(b, full);
    }
}

pub fn is_ascii_whitespace_byte(b: u8) -> (r: bool)
    ensures
        r == is_ascii_ws_byte(b),
{
    b == 32 || b == 9 || b == 10 || b == 12 || b == 13
}

pub fn base64_value(b: u8) -> (r: Option<u32>)
    ensures
        r == b64_value(b),
{
    if 65 <= b && b <= 90 {
        Some((b - 65) as u32)
    } else if 97 <= b && b <= 122 {
        Some((b - 97 + 26) as u32)
    } else if 48 <= b && b <= 57 {
        Some((b - 48 + 52) as u32)
    } else if b == 43 {
        Some(62)
    } else if b == 47 {
        Some(63)
    } else {
        None
    }
}

proof fn lemma_b64_fold_bounds(b: Seq<u8>)
    ensures
        b64_fold(b) matches Ok(st) ==> st.bits < 8 && st.acc < vstd::arithmetic::power2::pow2(
            st.bits,
        ),
    decreases b.len(),
{
    vstd::arithmetic::power2::lemma2_to64();
    if b.len() > 0 {
        lemma_b64_fold_bounds(b.drop_last());
        if let Ok(st) = b64_fold(b.drop_last()) {
            let c = b.last();
            if !(is_ascii_ws_byte(c) || c == 61) {
                if let Some(v) = b64_value(c) {
                    let acc: nat = st.acc * 64 + (v as nat);
                    let bits: nat = st.bits + 6;
                    vstd::arithmetic::power2::lemma_pow2_adds(st.bits, 6);
                    if bits >= 8 {
                        let rest = (bits - 8) as nat;
                        vstd::arithmetic::power2::lemma_pow2_pos(rest);
                        let p = vstd::arithmetic::power2::pow2(rest);
                        assert((acc as int) % (p as int) < p) by {
                            vstd::arithmetic::div_mod::lemma_mod_bound(acc as int, p as int);
                        }
                    }
                }
            }
        }
    }
}

proof fn lemma_b64_fold_err_extends(b: Seq<u8>, n: int)
    requires
        0 <= n <= b.len(),
        b64_fold(b.take(n)) is Err,
    ensures
        b64_fold(b) == b64_fold(b.take(n)),
    decreases b.len() - n,
{
    if n == b.len() {
        assert(b.take(n) =~= b);
    } else {
        assert(b.drop_last().take(n) =~= b.take(n));
        lemma_b64_fold_err_extends(b.drop_last(), n);
    }
}

proof fn lemma_b64_combine(acc: u32, bits: u32, v: u32)
    requires
        bits < 8,
        acc < (1u32 << bits),
        v < 64,
    ensures
        ((acc << 6) | v) == acc * 64 + v,
        ((acc << 6) | v) < (1u32 << (bits + 6) as u32),
{
    assert(((acc << 6) | v) == acc * 64 + v && ((acc << 6) | v) < (1u32 << (bits + 6) as u32))
        by (bit_vector)
        requires
            bits < 8,
            acc < (1u32 << bits),
            v < 64,
    ;
}

proof fn lemma_b64_extract(nb: u32, rest: u32)
    requires
        rest < 8,
        nb < (1u32 << (rest + 8) as u32),
    ensures
        (nb >> rest) & 0xFF == nb / (1u32 << rest),
        (nb >> rest) & 0xFF < 256,
        nb & (((1u32 << rest) - 1) as u32) == nb % (1u32 << rest),
        (1u32 << rest) > 0,
{
    assert((nb >> rest) & 0xFF == nb / (1u32 << rest) && (nb >> rest) & 0xFF < 256 && nb & (((1u32 << rest) - 1) as u32) == nb % (1u32
        << rest) && (1u32 << rest) > 0) by (bit_vector)
        requires
            rest < 8,
            nb < (1u32 << (rest + 8) as u32),
    ;
}

proof fn lemma_shl_pow2(bits: u32)
    requires
        bits < 8,
    ensures
        (1u32 << bits) as nat == vstd::arithmetic::power2::pow2(bits as nat),
{
    vstd::arithmetic::power2::lemma2_to64();
    assert(bits == 0 ==> (1u32 << bits) == 1) by (bit_vector);
    assert(bits == 1 ==> (1u32 << bits) == 2) by (bit_vector);
    assert(bits == 2 ==> (1u32 << bits) == 4) by (bit_vector);
    assert(bits == 3 ==> (1u32 << bits) == 8) by (bit_vector);
    assert(bits == 4 ==> (1u32 << bits) == 16) by (bit_vector);
    assert(bits == 5 ==> (1u32 << bits) == 32) by (bit_vector);
    assert(bits == 6 ==> (1u32 << bits) == 64) by (bit_vector);
    assert(bits == 7 ==> (1u32 << bits) == 128) by (bit_vector);
}

/// Decodes base64 bytes (whitespace and `'='` ignored wherever they stand).
pub fn base64_decode_slice(b: &[u8]) -> (r: Result<Vec<u8>, Base64Error>)
    ensures
        match r {
            Ok(v) => b64_decode_bytes(b@) == Ok::<Seq<u8>, Base64Error>(v@),
            Err(e) => b64_decode_bytes(b@) == Err::<Seq<u8>, Base64Error>(e),
        },
{
    let mut out: Vec<u8> = Vec::new();
    let mut buf: u32 = 0;
    let mut bits: u32 = 0;
    let mut i: usize = 0;
    assert((1u32 << 0u32) == 1) by (bit_vector);
    assert(b@.take(0) =~= Seq::<u8>::empty());
    while i < b.len()
        invariant
            i <= b@.len(),
            b64_fold(b@.take(i as int)) matches Ok(st) && st.out == out@ && st.acc == buf
                && st.bits == bits,
            bits < 8,
            buf < (1u32 << bits),
        decreases b.len() - i,
    {
        let c = b[i];
        proof {
            assert(b@.take(i + 1).drop_last() =~= b@.take(i as int));
            assert(b@.take(i + 1).last() == c);
            lemma_b64_fold_bounds(b@.take(i as int));
            lemma_shl_pow2(bits);
        }
        if is_ascii_whitespace_byte(c) || c == 61 {
            i = i + 1;
            continue;
        }
        let v = match base64_value(c) {
            Some(v) => v,
            None => {
                proof {
                    lemma_b64_fold_err_extends(b@, i + 1);
                }
                return Err(Base64Error::InvalidChar(c));
            },
        };
        proof {
            lemma_b64_combine(buf, bits, v);
        }
        let nb = (buf << 6) | v;
        if bits + 6 >= 8 {
            let rest = bits + 6 - 8;
            proof {
                lemma_shl_pow2(rest);
                assert(rest < 8);
                lemma_b64_extract(nb, rest);
            }
            let byte = ((nb >> rest) & 0xFF) as u8;
            out.push(byte);
            buf = nb & ((1u32 << rest) - 1);
            bits = rest;
            proof {
                assert(buf < (1u32 << bits)) by {
                    vstd::arithmetic::div_mod::lemma_mod_bound(nb as int, (1u32 << rest) as int);
                }
            }
        } else {
            buf = nb;
            bits = bits + 6;
            proof {
                lemma_shl_pow2(bits);
                vstd::arithmetic::power2::lemma_pow2_adds((bits - 6) as nat, 6);
                vstd::arithmetic::power2::lemma2_to64();
            }
        }
        i = i + 1;
    }
    assert(b@.take(i as int) =~= b@);
    Ok(out)
}

/// `base64_decode`: RFC 4648 decoding of the UTF-8 bytes of `s`.
pub fn base64_decode(s: &str) -> (r: Result<Vec<u8>, Base64Error>)
    ensures
        match r {
            Ok(v) => b64_decode_bytes(vstd::utf8::encode_utf8(s@)) == Ok::<Seq<u8>, Base64Error>(
                v@,
            ),
            Err(e) => b64_decode_bytes(vstd::utf8::encode_utf8(s@)) == Err::<
                Seq<u8>,
                Base64Error,
            >(e),
        },
{
    base64_decode_slice(s.as_bytes())
}

} // verus!
