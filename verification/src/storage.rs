//! Cursor's SQLite databases as the library reads them: the WAL sidecar
//! paths, and the `meta` cells of a CLI `store.db`.
use vstd::prelude::*;

use crate::bubble;
use crate::codec;
use crate::json::{Json, JsonV};
use crate::json_codec::{self, parsed_json_bytes};
use crate::text;

verus! {

/// `sidecar_path`: the database path with `-wal` or `-shm` appended.
pub fn sidecar_path(base: &str, suffix: &str) -> (r: String)
    ensures
        r@ == base@ + suffix@,
{
    text::concat2(base, suffix)
}

/// The text `String::from_utf8_lossy` makes of `bytes`: each invalid
/// sequence replaced by U+FFFD.
pub uninterp spec fn lossy_utf8(bytes: Seq<u8>) -> Seq<char>;

/// `String::from_utf8_lossy(bytes)`, owned: the text of valid UTF-8 as it
/// is, invalid sequences replaced by U+FFFD.
#[verifier::external_body]
fn utf8_lossy(bytes: &[u8]) -> (r: String)
    ensures
        r@ == lossy_utf8(bytes@),
        vstd::utf8::valid_utf8(bytes@) ==> r@ == vstd::utf8::decode_utf8(bytes@),
{
    String::from_utf8_lossy(bytes).into_owned()
}

/// The JSON document a stored item holds: an `ItemTable` value, a
/// `workspace.json` body, a conversation's `full_json`. `None` where the
/// text is no JSON.
pub fn item_json(text: &str) -> (r: Option<Json>)
    ensures
        match r {
            Some(v) => json_codec::parsed_json(text@) == Some(v@),
            None => json_codec::parsed_json(text@) is None,
        },
{
    json_codec::parse_json(text)
}

/// A `meta` cell's JSON: the raw bytes as JSON, else their (lossy) text
/// trimmed and hex-decoded as JSON.
pub open spec fn store_meta_value(raw: Seq<u8>) -> Option<JsonV> {
    if raw.len() == 0 {
        None
    } else {
        match parsed_json_bytes(raw) {
            Some(v) => Some(v),
            None => {
                let t = text::trim(lossy_utf8(raw));
                if t.len() == 0 {
                    None
                } else {
                    match codec::hex_decode_bytes(vstd::utf8::encode_utf8(t)) {
                        Ok(bytes) => parsed_json_bytes(bytes),
                        Err(_) => None,
                    }
                }
            },
        }
    }
}

/// `decode_store_meta_value`: the JSON a `store.db` `meta` cell holds,
/// hex-encoded (cursor-agent) or raw (older snapshots).
pub fn decode_store_meta_value(raw: &[u8]) -> (r: Option<Json>)
    ensures
        match r {
            Some(v) => store_meta_value(raw@) == Some(v@),
            None => store_meta_value(raw@) is None,
        },
{
    if raw.len() == 0 {
        return None;
    }
    match json_codec::parse_json_slice(raw) {
        Some(v) => return Some(v),
        None => {},
    }
    let lossy = utf8_lossy(raw);
    let trimmed = text::str_trim(lossy.as_str());
    if text::str_is_empty(trimmed.as_str()) {
        return None;
    }
    let b = bubble::str_bytes(trimmed.as_str());
    match codec::hex_decode_slice(b.as_slice()) {
        Ok(bytes) => json_codec::parse_json_slice(bytes.as_slice()),
        Err(_) => None,
    }
}

} // verus!
