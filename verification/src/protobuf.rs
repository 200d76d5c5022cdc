//! The protobuf framing that cursor-agent's `store.db` blobs use, as far as
//! the library reads it: varints, and every 32-byte length-delimited field
//! (a SHA-256 reference to another blob), nested messages included.
use vstd::prelude::*;

use crate::codec;
use crate::text::{lemma_views_push, strings_contain, views};

verus! {

/// Why a varint could not be read.
#[derive(Debug, PartialEq, Eq, Structural)]
pub enum VarintError {
    /// The data ends before the varint does.
    Truncated,
    /// The varint runs past 64 bits.
    TooLong,
}

/// Decodes the varint whose `i`-th byte is at `off + i`, `acc` holding the
/// value of the bytes before it: 7 bits per byte, least significant group
/// first, a set high bit meaning that another byte follows. Returns the
/// value and the offset just past the varint.
pub open spec fn varint_from(data: Seq<u8>, off: int, i: nat, acc: u64) -> Result<
    (u64, int),
    VarintError,
>
    decreases 10 - i,
{
    let p = off + i;
    if p < 0 || p >= data.len() || i >= 10 {
        Err(VarintError::Truncated)
    } else {
        let b = data[p];
        let acc2 = acc | ((((b & 0x7F) as u64) << ((7 * i) as u64)) as u64);
        if b & 0x80 == 0 {
            Ok((acc2, p + 1))
        } else if 7 * (i + 1) >= 64 {
            Err(VarintError::TooLong)
        } else {
            varint_from(data, off, i + 1, acc2)
        }
    }
}

/// The varint at `off`.
pub open spec fn varint(data: Seq<u8>, off: int) -> Result<(u64, int), VarintError> {
    varint_from(data, off, 0, 0)
}

pub proof fn lemma_varint_from_advances(data: Seq<u8>, off: int, i: nat, acc: u64)
    ensures
        varint_from(data, off, i, acc) matches Ok((_, o)) ==> off + i < o <= data.len(),
    decreases 10 - i,
{
    let p = off + i;
    if !(p < 0 || p >= data.len() || i >= 10) {
        let b = data[p];
        let acc2 = acc | ((((b & 0x7F) as u64) << ((7 * i) as u64)) as u64);
        if b & 0x80 != 0 && 7 * (i + 1) < 64 {
            lemma_varint_from_advances(data, off, i + 1, acc2);
        }
    }
}

/// A varint read at `off` ends after `off` and within the data.
pub proof fn lemma_varint_advances(data: Seq<u8>, off: int)
    ensures
        varint(data, off) matches Ok((_, o)) ==> off < o <= data.len(),
{
    lemma_varint_from_advances(data, off, 0, 0);
}

/// Every 32-byte length-delimited field of the message that starts at
/// `off`, in field order, descending into other non-empty length-delimited
/// fields as nested messages. Parsing stops at the first field that cannot
/// be read.
pub open spec fn refs_from(data: Seq<u8>, off: int) -> Seq<Seq<u8>>
    decreases data.len(), data.len() - off,
{
    if off < 0 || off >= data.len() {
        seq![]
    } else {
        match varint(data, off) {
            Err(_) => seq![],
            Ok((tag, o1)) => {
                proof {
                    lemma_varint_advances(data, off);
                }
                let wire = tag & 7;
                if wire == 2 {
                    match varint(data, o1) {
                        Err(_) => seq![],
                        Ok((len, start)) => {
                            proof {
                                lemma_varint_advances(data, o1);
                            }
                            if start + len > data.len() {
                                seq![]
                            } else if len == 32 {
                                seq![data.subrange(start, start + 32)] + refs_from(
                                    data,
                                    start + 32,
                                )
                            } else if len > 0 {
                                refs_from(data.subrange(start, start + len), 0) + refs_from(
                                    data,
                                    start + len,
                                )
                            } else {
                                refs_from(data, start)
                            }
                        },
                    }
                } else if wire == 0 {
                    match varint(data, o1) {
                        Err(_) => seq![],
                        Ok((_, o2)) => {
                            proof {
                                lemma_varint_advances(data, o1);
                            }
                            refs_from(data, o2)
                        },
                    }
                } else if wire == 5 {
                    if o1 + 4 > data.len() {
                        seq![]
                    } else {
                        refs_from(data, o1 + 4)
                    }
                } else if wire == 1 {
                    if o1 + 8 > data.len() {
                        seq![]
                    } else {
                        refs_from(data, o1 + 8)
                    }
                } else {
                    if o1 + 1 > data.len() {
                        seq![]
                    } else {
                        refs_from(data, o1 + 1)
                    }
                }
            },
        }
    }
}

/// A varint that a message holds whole reads the same with more bytes
/// after it.
proof fn lemma_varint_from_prefix(p: Seq<u8>, m: Seq<u8>, off: int, i: nat, acc: u64)
    requires
        varint_from(p, off, i, acc) is Ok,
    ensures
        varint_from(p + m, off, i, acc) == varint_from(p, off, i, acc),
    decreases 10 - i,
{
    let pos = off + i;
    assert((p + m)[pos] == p[pos]);
    let b = p[pos];
    let acc2 = acc | ((((b & 0x7F) as u64) << ((7 * i) as u64)) as u64);
    if b & 0x80 != 0 && 7 * (i + 1) < 64 {
        lemma_varint_from_prefix(p, m, off, i + 1, acc2);
    }
}

/// A varint read after a prefix `p` is the varint of the rest, its end
/// shifted by the prefix.
proof fn lemma_varint_from_shift(p: Seq<u8>, m: Seq<u8>, off: int, i: nat, acc: u64)
    requires
        off >= 0,
    ensures
        varint_from(p + m, p.len() + off, i, acc) == match varint_from(m, off, i, acc) {
            Ok((v, o)) => Ok::<(u64, int), VarintError>((v, o + p.len())),
            Err(e) => Err::<(u64, int), VarintError>(e),
        },
    decreases 10 - i,
{
    let pos = off + i;
    if pos < m.len() && i < 10 {
        assert((p + m)[p.len() + pos] == m[pos]);
        let b = m[pos];
        let acc2 = acc | ((((b & 0x7F) as u64) << ((7 * i) as u64)) as u64);
        if b & 0x80 != 0 && 7 * (i + 1) < 64 {
            lemma_varint_from_shift(p, m, off, i + 1, acc2);
        }
    }
}

/// The references of a message after a prefix `p` are the references of
/// the message alone.
proof fn lemma_refs_shift(p: Seq<u8>, m: Seq<u8>, off: int)
    requires
        0 <= off <= m.len(),
    ensures
        refs_from(p + m, p.len() + off) == refs_from(m, off),
    decreases m.len() - off,
{
    let d = p + m;
    let pl = p.len() as int;
    if off < m.len() {
        lemma_varint_from_shift(p, m, off, 0, 0);
        lemma_varint_advances(m, off);
        match varint(m, off) {
            Err(_) => {},
            Ok((tag, o1)) => {
                let wire = tag & 7;
                if wire == 2 {
                    lemma_varint_from_shift(p, m, o1, 0, 0);
                    lemma_varint_advances(m, o1);
                    match varint(m, o1) {
                        Err(_) => {},
                        Ok((len, start)) => {
                            if start + len > m.len() {
                            } else if len == 32 {
                                assert(d.subrange(pl + start, pl + start + 32) =~= m.subrange(start, start + 32));
                                lemma_refs_shift(p, m, start + 32);
                            } else if len > 0 {
                                assert(d.subrange(pl + start, pl + start + len) =~= m.subrange(start, start + len));
                                lemma_refs_shift(p, m, start + len);
                            } else {
                                lemma_refs_shift(p, m, start);
                            }
                        },
                    }
                } else if wire == 0 {
                    lemma_varint_from_shift(p, m, o1, 0, 0);
                    lemma_varint_advances(m, o1);
                    match varint(m, o1) {
                        Err(_) => {},
                        Ok((_, o2)) => {
                            lemma_refs_shift(p, m, o2);
                        },
                    }
                } else if wire == 5 {
                    if o1 + 4 <= m.len() {
                        lemma_refs_shift(p, m, o1 + 4);
                    }
                } else if wire == 1 {
                    if o1 + 8 <= m.len() {
                        lemma_refs_shift(p, m, o1 + 8);
                    }
                } else {
                    if o1 + 1 <= m.len() {
                        lemma_refs_shift(p, m, o1 + 1);
                    }
                }
            },
        }
    }
}

/// A varint field (wire type 0) holds no reference and hides none: the
/// references of a varint field followed by a message are those of the
/// message.
pub proof fn lemma_varint_field_skipped(field: Seq<u8>, m: Seq<u8>)
    requires
        varint(field, 0) is Ok,
        (varint(field, 0)->Ok_0).0 & 7 == 0,
        varint(field, (varint(field, 0)->Ok_0).1) is Ok,
        (varint(field, (varint(field, 0)->Ok_0).1)->Ok_0).1 == field.len(),
    ensures
        proto_refs(field + m) == proto_refs(m),
{
    let d = field + m;
    let (tag, o1) = varint(field, 0)->Ok_0;
    lemma_varint_from_prefix(field, m, 0, 0, 0);
    lemma_varint_from_prefix(field, m, o1, 0, 0);
    lemma_varint_advances(field, 0);
    lemma_refs_shift(field, m, 0);
    assert(refs_from(d, 0) == refs_from(d, field.len() as int));
}

/// Lowercase hex of each byte sequence.
pub open spec fn hexes(refs: Seq<Seq<u8>>) -> Seq<Seq<char>> {
    refs.map_values(|r: Seq<u8>| codec::hex_of(r))
}

pub proof fn lemma_hexes_add(a: Seq<Seq<u8>>, b: Seq<Seq<u8>>)
    ensures
        hexes(a + b) == hexes(a) + hexes(b),
{
    assert(hexes(a + b) =~= hexes(a) + hexes(b));
}

/// The blob references in `data`, in field order.
pub open spec fn proto_refs(data: Seq<u8>) -> Seq<Seq<u8>> {
    refs_from(data, 0)
}

/// The blob references in `data` as lowercase hex.
pub open spec fn proto_refs_hex(data: Seq<u8>) -> Seq<Seq<char>> {
    hexes(proto_refs(data))
}

/// `read_varint`: the varint at `offset` and the offset just past it.
pub fn read_varint(data: &[u8], offset: usize) -> (r: Result<(u64, usize), VarintError>)
    ensures
        match r {
            Ok((v, o)) => varint(data@, offset as int) == Ok::<(u64, int), VarintError>(
                (v, o as int),
            ),
            Err(e) => varint(data@, offset as int) == Err::<(u64, int), VarintError>(e),
        },
{
    let mut result: u64 = 0;
    let mut i: usize = 0;
    let ghost off = offset as int;
    while i < 10
        invariant
            i < 10,
            off == offset as int,
            varint(data@, off) == varint_from(data@, off, i as nat, result),
        decreases 10 - i,
    {
        if offset >= data.len() || i >= data.len() - offset {
            return Err(VarintError::Truncated);
        }
        let p = offset + i;
        let b = data[p];
        let chunk = (b & 0x7F) as u64;
        let sh = (7 * i) as u64;
        let next = result | (chunk << sh);
        proof {
            assert(varint_from(data@, off, i as nat, result) == (if b & 0x80 == 0 {
                Ok::<(u64, int), VarintError>((next, p + 1))
            } else if 7 * (i + 1) >= 64 {
                Err::<(u64, int), VarintError>(VarintError::TooLong)
            } else {
                varint_from(data@, off, (i + 1) as nat, next)
            }));
        }
        if b & 0x80 == 0 {
            return Ok((next, p + 1));
        }
        if 7 * (i + 1) >= 64 {
            return Err(VarintError::TooLong);
        }
        result = next;
        i = i + 1;
    }
    Err(VarintError::Truncated)
}

/// Appends the hex of every blob reference of the message at `off` to `into`.
pub fn walk_protobuf_refs_from(data: &[u8], off: usize, into: &mut Vec<String>)
    ensures
        views(final(into)@) == views(old(into)@) + hexes(refs_from(data@, off as int)),
    decreases data@.len(), data@.len() - off,
{
    let ghost start_into = views(into@);
    let ghost d = data@;
    let mut offset = off;
    loop
        invariant
            d == data@,
            start_into == views(old(into)@),
            views(into@) + hexes(refs_from(d, offset as int)) == start_into + hexes(
                refs_from(d, off as int),
            ),
            offset >= off,
        decreases data@.len() - offset,
    {
        let ghost before = views(into@);
        if offset >= data.len() {
            proof {
                assert(refs_from(d, offset as int) =~= Seq::<Seq<u8>>::empty());
                assert(before + hexes(refs_from(d, offset as int)) =~= before);
            }
            return;
        }
        let (tag, o1) = match read_varint(data, offset) {
            Ok(x) => x,
            Err(_) => {
                proof {
                    assert(refs_from(d, offset as int) =~= Seq::<Seq<u8>>::empty());
                    assert(before + hexes(refs_from(d, offset as int)) =~= before);
                }
                return;
            },
        };
        proof {
            lemma_varint_advances(d, offset as int);
        }
        let wire = tag & 7;
        if wire == 2 {
            let (len, start) = match read_varint(data, o1) {
                Ok(x) => x,
                Err(_) => {
                    proof {
                        assert(refs_from(d, offset as int) =~= Seq::<Seq<u8>>::empty());
                        assert(before + hexes(refs_from(d, offset as int)) =~= before);
                    }
                    return;
                },
            };
            proof {
                lemma_varint_advances(d, o1 as int);
            }
            if len > (data.len() - start) as u64 {
                proof {
                    assert(refs_from(d, offset as int) =~= Seq::<Seq<u8>>::empty());
                    assert(before + hexes(refs_from(d, offset as int)) =~= before);
                }
                return;
            }
            let n = len as usize;
            if n == 32 {
                let piece = vstd::slice::slice_subrange(data, start, start + 32);
                let h = codec::hex_encode(piece);
                into.push(h);
                proof {
                    lemma_views_push(into@.drop_last(), h);
                    assert(into@.drop_last() =~= old(into)@.take(0) + into@.drop_last());
                    let one = seq![d.subrange(start as int, start + 32)];
                    let rest = refs_from(d, start + 32);
                    assert(refs_from(d, offset as int) == one + rest);
                    lemma_hexes_add(one, rest);
                    assert(hexes(one) =~= seq![h@]);
                }
                offset = start + 32;
            } else if n > 0 {
                let piece = vstd::slice::slice_subrange(data, start, start + n);
                walk_protobuf_refs_from(piece, 0, into);
                proof {
                    let inner = refs_from(d.subrange(start as int, start + n), 0);
                    let rest = refs_from(d, start + n);
                    assert(refs_from(d, offset as int) == inner + rest);
                    lemma_hexes_add(inner, rest);
                }
                offset = start + n;
            } else {
                offset = start;
            }
        } else if wire == 0 {
            let o2 = match read_varint(data, o1) {
                Ok((_, o)) => o,
                Err(_) => {
                    proof {
                        assert(refs_from(d, offset as int) =~= Seq::<Seq<u8>>::empty());
                        assert(before + hexes(refs_from(d, offset as int)) =~= before);
                    }
                    return;
                },
            };
            proof {
                lemma_varint_advances(d, o1 as int);
            }
            offset = o2;
        } else if wire == 5 {
            if data.len() - o1 < 4 {
                proof {
                    assert(refs_from(d, offset as int) =~= Seq::<Seq<u8>>::empty());
                    assert(before + hexes(refs_from(d, offset as int)) =~= before);
                }
                return;
            }
            offset = o1 + 4;
        } else if wire == 1 {
            if data.len() - o1 < 8 {
                proof {
                    assert(refs_from(d, offset as int) =~= Seq::<Seq<u8>>::empty());
                    assert(before + hexes(refs_from(d, offset as int)) =~= before);
                }
                return;
            }
            offset = o1 + 8;
        } else {
            if data.len() - o1 < 1 {
                proof {
                    assert(refs_from(d, offset as int) =~= Seq::<Seq<u8>>::empty());
                    assert(before + hexes(refs_from(d, offset as int)) =~= before);
                }
                return;
            }
            offset = o1 + 1;
        }
    }
}

/// `protobuf_child_refs_ordered`: the blob references in `data`, in field
/// order, as lowercase hex.
pub fn protobuf_child_refs_ordered(data: &[u8]) -> (r: Vec<String>)
    ensures
        views(r@) == proto_refs_hex(data@),
{
    let mut out: Vec<String> = Vec::new();
    proof {
        assert(views(out@) =~= Seq::<Seq<char>>::empty());
    }
    walk_protobuf_refs(data, &mut out);
    proof {
        assert(views(out@) =~= proto_refs_hex(data@));
    }
    out
}

/// `walk_protobuf_refs`: appends the hex of every blob reference in
/// `data`, in field order, to `into`.
pub fn walk_protobuf_refs(data: &[u8], into: &mut Vec<String>)
    ensures
        views(final(into)@) == views(old(into)@) + proto_refs_hex(data@),
{
    walk_protobuf_refs_from(data, 0, into);
}

/// `extract_blob_ids_from_protobuf`: the distinct blob references in `raw`,
/// as lowercase hex.
pub fn extract_blob_ids_from_protobuf(raw: &[u8]) -> (r: Vec<String>)
    ensures
        views(r@).no_duplicates(),
        views(r@).to_set() == proto_refs_hex(raw@).to_set(),
{
    let all = protobuf_child_refs_ordered(raw);
    let mut out: Vec<String> = Vec::new();
    let mut i: usize = 0;
    proof {
        assert(views(out@) =~= Seq::<Seq<char>>::empty());
        assert(views(all@.take(0)) =~= Seq::<Seq<char>>::empty());
    }
    while i < all.len()
        invariant
            i <= all@.len(),
            views(out@).no_duplicates(),
            views(out@).to_set() == views(all@.take(i as int)).to_set(),
        decreases all.len() - i,
    {
        let found = strings_contain(&out, &all[i]);
        let ghost old_out = views(out@);
        let ghost old_vec = out@;
        proof {
            assert(all@.take(i + 1) =~= all@.take(i as int).push(all@[i as int]));
            lemma_views_push(all@.take(i as int), all@[i as int]);
        }
        if !found {
            let c = all[i].clone();
            out.push(c);
            proof {
                lemma_views_push(old_vec, c);
                assert(out@ == old_vec.push(c));
                let ns = views(out@);
                assert(ns =~= old_out.push(all@[i as int]@));
                assert forall|a: int, b: int|
                    0 <= a < ns.len() && 0 <= b < ns.len() && a != b implies #[trigger] ns[a]
                    != #[trigger] ns[b] by {
                    if b == ns.len() - 1 {
                        assert(old_out.contains(ns[a]) || a == b);
                    } else if a == ns.len() - 1 {
                        assert(old_out.contains(ns[b]));
                    } else {
                        assert(ns[a] == old_out[a] && ns[b] == old_out[b]);
                    }
                }
                old_out.lemma_push_to_set_commute(all@[i as int]@);
                views(all@.take(i as int)).lemma_push_to_set_commute(all@[i as int]@);
            }
        } else {
            proof {
                views(all@.take(i as int)).lemma_push_to_set_commute(all@[i as int]@);
                assert(old_out.to_set().contains(all@[i as int]@));
                assert(old_out.to_set().insert(all@[i as int]@) =~= old_out.to_set());
            }
        }
        i = i + 1;
    }
    proof {
        assert(all@.take(i as int) =~= all@);
    }
    out
}

} // verus!
