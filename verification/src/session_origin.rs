//! Which endpoint created a session, and when: kept in `unified.db` and
//! distinct from `CanonicalSession.sources`, which says which layers hold
//! the session now.
//!
//! Reading the stores and `unified.db` is the caller's part: the functions
//! here take the timestamps and rows those gave.
use vstd::prelude::*;

use crate::canonical::{CanonicalSession, SourceLayer, SessionV};
use crate::json::{self, Json, JsonV};
use crate::text;

verus! {

/// The name `unified.db` stores for an endpoint kind.
pub open spec fn kind_name(layer: SourceLayer) -> Seq<char> {
    match layer {
        SourceLayer::Mac => "mac"@,
        SourceLayer::LinuxCli => "linux_cli"@,
        SourceLayer::LinuxDesktop => "linux_desktop"@,
    }
}

/// `endpoint_kind_str`: the stored name of an endpoint kind.
pub fn endpoint_kind_str(layer: &SourceLayer) -> (r: &'static str)
    ensures
        r@ == kind_name(*layer),
{
    match layer {
        SourceLayer::Mac => "mac",
        SourceLayer::LinuxCli => "linux_cli",
        SourceLayer::LinuxDesktop => "linux_desktop",
    }
}

/// The endpoint kind a stored name stands for.
pub open spec fn kind_of_name(s: Seq<char>) -> Option<SourceLayer> {
    if s == "mac"@ {
        Some(SourceLayer::Mac)
    } else if s == "linux_cli"@ {
        Some(SourceLayer::LinuxCli)
    } else if s == "linux_desktop"@ {
        Some(SourceLayer::LinuxDesktop)
    } else {
        None
    }
}

/// `parse_endpoint_kind`: the endpoint kind of a stored name, `None` for
/// any other text.
pub fn parse_endpoint_kind(s: &str) -> (r: Option<SourceLayer>)
    ensures
        r == kind_of_name(s@),
{
    if text::str_eq(s, "mac") {
        Some(SourceLayer::Mac)
    } else if text::str_eq(s, "linux_cli") {
        Some(SourceLayer::LinuxCli)
    } else if text::str_eq(s, "linux_desktop") {
        Some(SourceLayer::LinuxDesktop)
    } else {
        None
    }
}

/// The first positive value of `vals`.
pub open spec fn first_positive_spec(vals: Seq<i64>) -> Option<i64>
    decreases vals.len(),
{
    if vals.len() == 0 {
        None
    } else if vals[0] > 0 {
        Some(vals[0])
    } else {
        first_positive_spec(vals.drop_first())
    }
}

/// `first_positive`: the first positive value, if any.
pub fn first_positive(vals: &[i64]) -> (r: Option<i64>)
    ensures
        r == first_positive_spec(vals@),
{
    let mut i: usize = 0;
    assert(vals@.skip(0) =~= vals@);
    while i < vals.len()
        invariant
            i <= vals@.len(),
            first_positive_spec(vals@) == first_positive_spec(vals@.skip(i as int)),
        decreases vals.len() - i,
    {
        assert(vals@.skip(i as int).drop_first() =~= vals@.skip(i + 1));
        if vals[i] > 0 {
            return Some(vals[i]);
        }
        i = i + 1;
    }
    None
}

/// A positive timestamp, `None` otherwise.
pub open spec fn positive(o: Option<i64>) -> Option<i64> {
    match o {
        Some(t) => if t > 0 {
            Some(t)
        } else {
            None
        },
        None => None,
    }
}

/// When Layer 2 says the session was created: the positive `createdAt` of
/// its `store.db` meta row.
pub open spec fn l2_created_spec(meta: Option<JsonV>) -> Option<i64> {
    match meta {
        Some(v) => positive(json::get_i64(v, "createdAt"@)),
        None => None,
    }
}

/// `read_l2_created_at_ms`: the positive `createdAt` of the session's
/// Layer 2 meta row (`meta`, as the caller read it from the resolved
/// `store.db`; `None` when there was none).
pub fn read_l2_created_at_ms(meta: Option<&Json>) -> (r: Option<i64>)
    ensures
        r == l2_created_spec(
            match meta {
                Some(v) => Some(v@),
                None => None,
            },
        ),
{
    match meta {
        Some(v) => match v.get_i64("createdAt") {
            Some(t) => if t > 0 {
                Some(t)
            } else {
                None
            },
            None => None,
        },
        None => None,
    }
}

/// When Layer 3 says the session was created: a positive `createdAt` of
/// its `composerData`, else a positive `lastUpdatedAt`.
pub open spec fn l3_created_spec(composer: Option<JsonV>) -> Option<i64> {
    match composer {
        Some(v) => {
            let created = match json::get_i64(v, "createdAt"@) {
                Some(t) => t,
                None => 0,
            };
            if created > 0 {
                Some(created)
            } else {
                positive(json::get_i64(v, "lastUpdatedAt"@))
            }
        },
        None => None,
    }
}

/// `read_l3_created_at_ms`: when Layer 3 says the session was created,
/// from its `composerData` JSON (`composer`, the session's `full_json` as
/// parsed by the caller; `None` when there is none or it did not parse).
pub fn read_l3_created_at_ms(composer: Option<&Json>) -> (r: Option<i64>)
    ensures
        r == l3_created_spec(
            match composer {
                Some(v) => Some(v@),
                None => None,
            },
        ),
{
    let v = match composer {
        Some(v) => v,
        None => return None,
    };
    let created = match v.get_i64("createdAt") {
        Some(t) => t,
        None => 0,
    };
    if created > 0 {
        return Some(created);
    }
    match v.get_i64("lastUpdatedAt") {
        Some(t) => if t > 0 {
            Some(t)
        } else {
            None
        },
        None => None,
    }
}

/// The desktop layer a session is attributed to: `mac` when it has a Mac
/// source, `linux_desktop` otherwise.
pub open spec fn desktop_of(s: SessionV) -> SourceLayer {
    if s.sources.mac is Some {
        SourceLayer::Mac
    } else {
        SourceLayer::LinuxDesktop
    }
}

/// `resolve_dual_origin`: the origin of a session that both the CLI and a
/// desktop hold. The earlier timestamp wins; on a tie, or when neither is
/// known, the CLI wins when Layer 2 holds parseable turns
/// (`l2_has_turns`), the desktop otherwise; with neither timestamp the
/// session's positive `last_updated_at` stands in.
pub open spec fn dual_origin_spec(
    l2: Option<i64>,
    l3: Option<i64>,
    desktop: SourceLayer,
    last_updated_at: i64,
    l2_has_turns: bool,
) -> Option<(SourceLayer, i64)> {
    match (l2, l3) {
        (Some(a), Some(b)) => if a < b {
            Some((SourceLayer::LinuxCli, a))
        } else if b < a {
            Some((desktop, b))
        } else if l2_has_turns {
            Some((SourceLayer::LinuxCli, a))
        } else {
            Some((desktop, b))
        },
        (Some(a), None) => Some((SourceLayer::LinuxCli, a)),
        (None, Some(b)) => Some((desktop, b)),
        (None, None) => if last_updated_at > 0 {
            if l2_has_turns {
                Some((SourceLayer::LinuxCli, last_updated_at))
            } else {
                Some((desktop, last_updated_at))
            }
        } else {
            None
        },
    }
}

/// `resolve_dual_origin`.
pub fn resolve_dual_origin(
    l2_ms: Option<i64>,
    l3_ms: Option<i64>,
    desktop_layer: SourceLayer,
    last_updated_at: i64,
    l2_has_turns: bool,
) -> (r: Option<(SourceLayer, i64)>)
    ensures
        r == dual_origin_spec(l2_ms, l3_ms, desktop_layer, last_updated_at, l2_has_turns),
{
    match (l2_ms, l3_ms) {
        (Some(l2), Some(l3)) => {
            if l2 < l3 {
                Some((SourceLayer::LinuxCli, l2))
            } else if l3 < l2 {
                Some((desktop_layer, l3))
            } else if l2_has_turns {
                Some((SourceLayer::LinuxCli, l2))
            } else {
                Some((desktop_layer, l3))
            }
        },
        (Some(l2), None) => Some((SourceLayer::LinuxCli, l2)),
        (None, Some(l3)) => Some((desktop_layer, l3)),
        (None, None) => {
            let ms = first_positive(&[last_updated_at]);
            proof {
                reveal_with_fuel(first_positive_spec, 2);
            }
            match ms {
                Some(t) => if l2_has_turns {
                    Some((SourceLayer::LinuxCli, t))
                } else {
                    Some((desktop_layer, t))
                },
                None => None,
            }
        },
    }
}

/// The inferred origin of a session from the layers that hold it: none
/// without a source; the CLI, or the desktop, when only one holds it, at
/// that layer's creation time or else the positive `last_updated_at`; the
/// rule of `dual_origin_spec` when both do.
pub open spec fn inferred_spec(
    s: SessionV,
    l2: Option<i64>,
    l3: Option<i64>,
    l2_has_turns: bool,
) -> Option<(SourceLayer, i64)> {
    let has_cli = s.sources.linux_cli is Some;
    let has_desktop = s.sources.mac is Some || s.sources.linux_desktop is Some;
    let fallback = if s.last_updated_at > 0 {
        Some(s.last_updated_at)
    } else {
        None
    };
    if !has_cli && !has_desktop {
        None
    } else if has_cli && !has_desktop {
        match (if l2 is Some { l2 } else { fallback }) {
            Some(ms) => Some((SourceLayer::LinuxCli, ms)),
            None => None,
        }
    } else if !has_cli && has_desktop {
        match (if l3 is Some { l3 } else { fallback }) {
            Some(ms) => Some((desktop_of(s), ms)),
            None => None,
        }
    } else {
        dual_origin_spec(l2, l3, desktop_of(s), s.last_updated_at, l2_has_turns)
    }
}

/// `infer_created_endpoint`: the origin of `s` inferred from the layers on
/// disk. `l2_ms` and `l3_ms` are what `read_l2_created_at_ms` and
/// `read_l3_created_at_ms` gave; `l2_has_turns` says whether Layer 2 holds
/// parseable turns for the session.
pub fn infer_created_endpoint(
    s: &CanonicalSession,
    l2_ms: Option<i64>,
    l3_ms: Option<i64>,
    l2_has_turns: bool,
) -> (r: Option<(SourceLayer, i64)>)
    ensures
        r == inferred_spec(s@, l2_ms, l3_ms, l2_has_turns),
{
    let has_cli = s.sources.linux_cli.is_some();
    let has_mac = s.sources.mac.is_some();
    let has_ld = s.sources.linux_desktop.is_some();
    let has_desktop = has_mac || has_ld;
    let desktop_layer = if has_mac {
        SourceLayer::Mac
    } else {
        SourceLayer::LinuxDesktop
    };
    proof {
        reveal_with_fuel(first_positive_spec, 2);
    }
    if !has_cli && !has_desktop {
        None
    } else if has_cli && !has_desktop {
        let ms = match l2_ms {
            Some(t) => Some(t),
            None => first_positive(&[s.last_updated_at]),
        };
        match ms {
            Some(t) => Some((SourceLayer::LinuxCli, t)),
            None => None,
        }
    } else if !has_cli && has_desktop {
        let ms = match l3_ms {
            Some(t) => Some(t),
            None => first_positive(&[s.last_updated_at]),
        };
        match ms {
            Some(t) => Some((desktop_layer, t)),
            None => None,
        }
    } else {
        resolve_dual_origin(l2_ms, l3_ms, desktop_layer, s.last_updated_at, l2_has_turns)
    }
}

/// `infer_only`, for one session: a session without a recorded origin
/// takes the inferred one (`inferred`, what `infer_created_endpoint`
/// gave).
pub fn infer_only(s: &mut CanonicalSession, inferred: Option<(SourceLayer, i64)>)
    ensures
        old(s)@.created_endpoint is Some || inferred is None ==> final(s)@ == old(s)@,
        old(s)@.created_endpoint is None && inferred is Some ==> final(s)@ == (SessionV {
            created_endpoint: Some((inferred->0).0),
            created_at_ms: Some((inferred->0).1),
            ..old(s)@
        }),
{
    if s.created_endpoint.is_some() {
        return;
    }
    match inferred {
        Some((ep, ms)) => {
            s.created_endpoint = Some(ep);
            s.created_at_ms = Some(ms);
        },
        None => {},
    }
}

/// `enrich_created_endpoints`, for one session: a stored origin
/// (`stored`, the kind name and time `unified.db` holds for the uuid) wins
/// when its kind parses; otherwise the inferred origin is taken and
/// returned, as the row to persist.
pub fn enrich_created_endpoint(
    s: &mut CanonicalSession,
    stored: Option<(&str, i64)>,
    inferred: Option<(SourceLayer, i64)>,
) -> (persist: Option<(String, i64)>)
    ensures
        ({
            let stored_kind = match stored {
                Some(p) => kind_of_name(p.0@),
                None => None,
            };
            if stored_kind is Some {
                &&& final(s)@ == (SessionV {
                    created_endpoint: stored_kind,
                    created_at_ms: Some((stored->0).1),
                    ..old(s)@
                })
                &&& persist is None
            } else if inferred is Some {
                &&& final(s)@ == (SessionV {
                    created_endpoint: Some((inferred->0).0),
                    created_at_ms: Some((inferred->0).1),
                    ..old(s)@
                })
                &&& persist is Some && (persist->0).0@ == kind_name((inferred->0).0) && (persist->0).1
                    == (inferred->0).1
            } else {
                final(s)@ == old(s)@ && persist is None
            }
        }),
{
    match stored {
        Some((kind, ms)) => match parse_endpoint_kind(kind) {
            Some(ep) => {
                s.created_endpoint = Some(ep);
                s.created_at_ms = Some(ms);
                return None;
            },
            None => {},
        },
        None => {},
    }
    match inferred {
        Some((ep, ms)) => {
            let kind = endpoint_kind_str(&ep);
            s.created_endpoint = Some(ep);
            s.created_at_ms = Some(ms);
            Some((text::owned(kind), ms))
        },
        None => None,
    }
}


/// A session that both the CLI and a desktop hold, with two different
/// known creation times, was created where it appears first: the origin is
/// the layer with the smaller time, and that time is the earlier of the two.
pub proof fn lemma_dual_origin_earliest(
    l2: i64,
    l3: i64,
    desktop: SourceLayer,
    last_updated_at: i64,
    l2_has_turns: bool,
)
    requires
        l2 != l3,
        desktop != SourceLayer::LinuxCli,
    ensures
        ({
            let r = dual_origin_spec(Some(l2), Some(l3), desktop, last_updated_at, l2_has_turns);
            &&& r is Some
            &&& (r->0).1 <= l2 && (r->0).1 <= l3
            &&& ((r->0).1 == l2 || (r->0).1 == l3)
            &&& ((r->0).0 == SourceLayer::LinuxCli) <==> l2 < l3
            &&& (r->0).0 != SourceLayer::LinuxCli ==> (r->0).0 == desktop
        }),
{
}

/// The same for the inference over a session: when a session has a CLI
/// source and a desktop source and both creation times are known and
/// differ, the inferred origin is the layer that created it first, at the
/// earlier time.
pub proof fn lemma_inferred_origin_earliest(s: SessionV, l2: i64, l3: i64, l2_has_turns: bool)
    requires
        s.sources.linux_cli is Some,
        s.sources.mac is Some || s.sources.linux_desktop is Some,
        l2 != l3,
    ensures
        ({
            let r = inferred_spec(s, Some(l2), Some(l3), l2_has_turns);
            &&& r is Some
            &&& (r->0).1 <= l2 && (r->0).1 <= l3
            &&& ((r->0).1 == l2 || (r->0).1 == l3)
            &&& ((r->0).0 == SourceLayer::LinuxCli) <==> l2 < l3
        }),
{
    lemma_dual_origin_earliest(l2, l3, desktop_of(s), s.last_updated_at, l2_has_turns);
}

} // verus!
