//! Event envelopes: provenance resolution and the merge of metadata fields
//! with decoded payload fields.  Metadata (`_ts`, `_event`, and the
//! provenance fields) is inserted first; a payload field with a colliding
//! key silently overwrites the metadata value in place, last write wins.

use vstd::prelude::*;
use crate::bytes::ascii;
use crate::bytes::ascii_bytes;
use crate::clock::get_timestamp;
use crate::clock::spec_ts_shape;
use crate::json::field_views;
use crate::json::int_value;
use crate::json::json_int_value;
use crate::json::json_object_fields;
use crate::json::json_text_value;
use crate::json::parse_payload_fields;
use crate::json::text_value;

verus! {

// ---------------------------------------------------------------------------
// Provenance
// ---------------------------------------------------------------------------

/// Origin information attached to an event: the network peer's address, the
/// kernel-asserted identity of a local peer, or nothing.
pub enum PeerInfo {
    /// A network peer, known only by its remote address.
    Tcp { client_addr: Vec<u8> },
    /// A local-socket peer with kernel-asserted credentials; `pid` is `-1`
    /// on platforms that report only user and group.
    Unix { pid: i32, uid: u32, gid: u32 },
    /// Identity could not be resolved.
    Unknown,
}

/// What a kernel credential query on a local-socket connection reported:
/// process, user and group; user and group only; or nothing, on platforms
/// without such a facility.  `code` is the query's return code, zero on
/// success.
pub enum CredReport {
    Full { code: i32, pid: i32, uid: u32, gid: u32 },
    UserGroup { code: i32, uid: u32, gid: u32 },
    Unsupported,
}

/// The provenance a credential report resolves to: a successful query with
/// a positive process id gives the full identity; one that reports only
/// user and group gives the `-1` sentinel for the process; anything else
/// degrades to `Unknown`.
pub open spec fn spec_resolve_peer(q: CredReport) -> PeerInfo {
    match q {
        CredReport::Full { code, pid, uid, gid } => {
            if code == 0 && pid > 0 {
                PeerInfo::Unix { pid, uid, gid }
            } else {
                PeerInfo::Unknown
            }
        },
        CredReport::UserGroup { code, uid, gid } => {
            if code == 0 {
                PeerInfo::Unix { pid: -1i32, uid, gid }
            } else {
                PeerInfo::Unknown
            }
        },
        CredReport::Unsupported => PeerInfo::Unknown,
    }
}

/// Resolve a credential report into provenance.  Never fails: failure
/// degrades to `Unknown` rather than aborting the request.
pub fn resolve_peer(q: &CredReport) -> (r: PeerInfo)
    ensures
        r == spec_resolve_peer(*q),
{
    match q {
        CredReport::Full { code, pid, uid, gid } => {
            if *code == 0 && *pid > 0 {
                PeerInfo::Unix { pid: *pid, uid: *uid, gid: *gid }
            } else {
                PeerInfo::Unknown
            }
        },
        CredReport::UserGroup { code, uid, gid } => {
            if *code == 0 {
                PeerInfo::Unix { pid: -1i32, uid: *uid, gid: *gid }
            } else {
                PeerInfo::Unknown
            }
        },
        CredReport::Unsupported => PeerInfo::Unknown,
    }
}

// ---------------------------------------------------------------------------
// The envelope and its merge
// ---------------------------------------------------------------------------

/// The merged record of metadata plus payload fields, in insertion order,
/// as emitted to output destinations.
pub struct EventEnvelope {
    pub fields: Vec<(Vec<u8>, serde_json::Value)>,
}

/// `fs` with `key` bound to `value`: an existing binding is overwritten in
/// place, a new key is appended.
pub open spec fn spec_upsert(
    fs: Seq<(Seq<u8>, serde_json::Value)>,
    key: Seq<u8>,
    value: serde_json::Value,
) -> Seq<(Seq<u8>, serde_json::Value)>
    decreases fs.len(),
{
    if fs.len() == 0 {
        seq![(key, value)]
    } else if fs[0].0 == key {
        seq![(key, value)] + fs.drop_first()
    } else {
        seq![fs[0]] + spec_upsert(fs.drop_first(), key, value)
    }
}

/// `env` with every payload field upserted, in payload order.
pub open spec fn spec_merge(
    env: Seq<(Seq<u8>, serde_json::Value)>,
    payload: Seq<(Seq<u8>, serde_json::Value)>,
) -> Seq<(Seq<u8>, serde_json::Value)>
    decreases payload.len(),
{
    if payload.len() == 0 {
        env
    } else {
        spec_merge(spec_upsert(env, payload[0].0, payload[0].1), payload.drop_first())
    }
}

/// The metadata fields of an envelope: `_ts`, `_event`, then the fields of
/// the provenance variant (`_client` for a network peer; `_peer_pid`,
/// `_peer_uid`, `_peer_gid` for a local peer; none for `Unknown`).
pub open spec fn spec_meta_fields(event: Seq<u8>, peer: PeerInfo, ts: Seq<u8>) -> Seq<
    (Seq<u8>, serde_json::Value),
> {
    seq![
        (ascii("_ts"), json_text_value(ts)),
        (ascii("_event"), json_text_value(event)),
    ] + match peer {
        PeerInfo::Tcp { client_addr } => seq![(ascii("_client"), json_text_value(client_addr@))],
        PeerInfo::Unix { pid, uid, gid } => seq![
            (ascii("_peer_pid"), json_int_value(pid as int)),
            (ascii("_peer_uid"), json_int_value(uid as int)),
            (ascii("_peer_gid"), json_int_value(gid as int)),
        ],
        PeerInfo::Unknown => Seq::empty(),
    }
}

/// A whole envelope: the metadata fields, with the payload fields merged
/// after them, payload value winning on a colliding key.
pub open spec fn spec_envelope(
    payload: Seq<(Seq<u8>, serde_json::Value)>,
    event: Seq<u8>,
    peer: PeerInfo,
    ts: Seq<u8>,
) -> Seq<(Seq<u8>, serde_json::Value)> {
    spec_merge(spec_meta_fields(event, peer, ts), payload)
}

/// Upserting a key bound nowhere in `fs` appends the new field.
pub proof fn lemma_upsert_fresh(
    fs: Seq<(Seq<u8>, serde_json::Value)>,
    key: Seq<u8>,
    value: serde_json::Value,
)
    requires
        forall|j: int| 0 <= j < fs.len() ==> (#[trigger] fs[j]).0 != key,
    ensures
        spec_upsert(fs, key, value) == fs.push((key, value)),
    decreases fs.len(),
{
    if fs.len() == 0 {
        assert(spec_upsert(fs, key, value) =~= fs.push((key, value)));
    } else {
        lemma_upsert_fresh(fs.drop_first(), key, value);
        assert(seq![fs[0]] + fs.drop_first().push((key, value)) =~= fs.push((key, value)));
    }
}

/// Upserting the first occurrence of a bound key overwrites it in place.
pub proof fn lemma_upsert_update(
    fs: Seq<(Seq<u8>, serde_json::Value)>,
    key: Seq<u8>,
    value: serde_json::Value,
    i: int,
)
    requires
        0 <= i < fs.len(),
        fs[i].0 == key,
        forall|j: int| 0 <= j < i ==> (#[trigger] fs[j]).0 != key,
    ensures
        spec_upsert(fs, key, value) == fs.update(i, (key, value)),
    decreases fs.len(),
{
    if i == 0 {
        assert(seq![(key, value)] + fs.drop_first() =~= fs.update(0, (key, value)));
    } else {
        lemma_upsert_update(fs.drop_first(), key, value, i - 1);
        assert(seq![fs[0]] + fs.drop_first().update(i - 1, (key, value)) =~= fs.update(
            i,
            (key, value),
        ));
    }
}

/// Merging payload fields with pairwise-distinct keys, none of which is
/// bound in `env`, appends them unchanged.
pub proof fn lemma_merge_fresh(
    env: Seq<(Seq<u8>, serde_json::Value)>,
    payload: Seq<(Seq<u8>, serde_json::Value)>,
)
    requires
        forall|i: int, j: int|
            0 <= i < env.len() && 0 <= j < payload.len() ==> (#[trigger] env[i]).0 != (
            #[trigger] payload[j]).0,
        forall|i: int, j: int|
            0 <= i < j < payload.len() ==> (#[trigger] payload[i]).0 != (#[trigger] payload[j]).0,
    ensures
        spec_merge(env, payload) == env + payload,
    decreases payload.len(),
{
    if payload.len() == 0 {
        assert(spec_merge(env, payload) =~= env + payload);
    } else {
        assert forall|j: int| 0 <= j < env.len() implies (#[trigger] env[j]).0 != payload[0].0 by {
            assert(env[j].0 != payload[0].0);
        }
        lemma_upsert_fresh(env, payload[0].0, payload[0].1);
        let env2 = env.push((payload[0].0, payload[0].1));
        assert(env2 =~= env.push(payload[0]));
        lemma_merge_fresh(env2, payload.drop_first());
        assert(env.push(payload[0]) + payload.drop_first() =~= env + payload);
    }
}

/// The keys of the metadata fields for a given provenance variant.
pub open spec fn spec_meta_keys(peer: PeerInfo) -> Set<Seq<u8>> {
    set![ascii("_ts"), ascii("_event")] + match peer {
        PeerInfo::Tcp { client_addr } => set![ascii("_client")],
        PeerInfo::Unix { pid, uid, gid } => set![
            ascii("_peer_pid"),
            ascii("_peer_uid"),
            ascii("_peer_gid"),
        ],
        PeerInfo::Unknown => Set::empty(),
    }
}

/// For a payload whose pairwise-distinct keys avoid the reserved metadata
/// names of the provenance variant, the envelope is exactly the metadata
/// fields followed by every payload field unchanged.
pub proof fn lemma_envelope_disjoint(
    payload: Seq<(Seq<u8>, serde_json::Value)>,
    event: Seq<u8>,
    peer: PeerInfo,
    ts: Seq<u8>,
)
    requires
        forall|j: int|
            0 <= j < payload.len() ==> !spec_meta_keys(peer).contains(
                (#[trigger] payload[j]).0,
            ),
        forall|i: int, j: int|
            0 <= i < j < payload.len() ==> (#[trigger] payload[i]).0 != (#[trigger] payload[j]).0,
    ensures
        spec_envelope(payload, event, peer, ts) == spec_meta_fields(event, peer, ts) + payload,
{
    let meta = spec_meta_fields(event, peer, ts);
    assert forall|i: int, j: int|
        0 <= i < meta.len() && 0 <= j < payload.len() implies (#[trigger] meta[i]).0 != (
    #[trigger] payload[j]).0 by {
        assert(spec_meta_keys(peer).contains(meta[i].0));
    }
    lemma_merge_fresh(meta, payload);
}

// ---------------------------------------------------------------------------
// Executable enrichment
// ---------------------------------------------------------------------------

/// Bind `key` to `value` in the envelope: overwrite the first existing
/// binding in place, else append.
fn upsert_field(env: &mut Vec<(Vec<u8>, serde_json::Value)>, key: Vec<u8>, value: serde_json::Value)
    ensures
        field_views(final(env)@) == spec_upsert(field_views(old(env)@), key@, value),
{
    let mut i: usize = 0;
    let n = env.len();
    while i < n
        invariant
            n == env@.len(),
            i <= n,
            *env == *old(env),
            forall|j: int| 0 <= j < i ==> (#[trigger] field_views(env@)[j]).0 != key@,
        decreases n - i,
    {
        let hit = env[i].0 == key;
        proof {
            if hit {
                assert(env@[i as int].0@ =~= key@);
            } else {
                assert(!(env@[i as int].0@ =~= key@));
            }
            assert(field_views(env@)[i as int].0 == env@[i as int].0@);
        }
        if hit {
            proof {
                lemma_upsert_update(field_views(env@), key@, value, i as int);
            }
            env.set(i, (key, value));
            proof {
                assert(field_views(env@) =~= field_views(old(env)@).update(
                    i as int,
                    (key@, value),
                ));
            }
            return ;
        }
        i = i + 1;
    }
    proof {
        lemma_upsert_fresh(field_views(env@), key@, value);
    }
    env.push((key, value));
    proof {
        assert(field_views(env@) =~= field_views(old(env)@).push((key@, value)));
    }
}

/// Build the envelope for a decoded payload at a given timestamp: metadata
/// first, then every payload field in order, payload winning on collision.
pub fn build_envelope(
    payload: Vec<(Vec<u8>, serde_json::Value)>,
    event: &Vec<u8>,
    peer: &PeerInfo,
    ts: &Vec<u8>,
) -> (env: EventEnvelope)
    ensures
        field_views(env.fields@) == spec_envelope(field_views(payload@), event@, *peer, ts@),
{
    proof {
        reveal_strlit("_ts");
        reveal_strlit("_event");
        reveal_strlit("_client");
        reveal_strlit("_peer_pid");
        reveal_strlit("_peer_uid");
        reveal_strlit("_peer_gid");
    }
    let mut fields: Vec<(Vec<u8>, serde_json::Value)> = Vec::new();
    fields.push((ascii_bytes("_ts"), text_value(ts)));
    fields.push((ascii_bytes("_event"), text_value(event)));
    match peer {
        PeerInfo::Tcp { client_addr } => {
            fields.push((ascii_bytes("_client"), text_value(client_addr)));
        },
        PeerInfo::Unix { pid, uid, gid } => {
            fields.push((ascii_bytes("_peer_pid"), int_value(*pid as i64)));
            fields.push((ascii_bytes("_peer_uid"), int_value(*uid as i64)));
            fields.push((ascii_bytes("_peer_gid"), int_value(*gid as i64)));
        },
        PeerInfo::Unknown => {},
    }
    proof {
        assert(field_views(fields@) =~= spec_meta_fields(event@, *peer, ts@));
    }
    let mut payload = payload;
    let ghost payload0 = field_views(payload@);
    while payload.len() > 0
        invariant
            spec_merge(field_views(fields@), field_views(payload@)) == spec_merge(
                spec_meta_fields(event@, *peer, ts@),
                payload0,
            ),
        decreases payload@.len(),
    {
        let ghost fields_prev = field_views(fields@);
        let ghost payload_prev = field_views(payload@);
        let (key, value) = payload.remove(0);
        proof {
            assert(payload_prev[0] == (key@, value));
            assert(field_views(payload@) =~= payload_prev.drop_first());
        }
        upsert_field(&mut fields, key, value);
        proof {
            assert(spec_merge(fields_prev, payload_prev) == spec_merge(
                spec_upsert(fields_prev, key@, value),
                payload_prev.drop_first(),
            ));
        }
    }
    proof {
        assert(field_views(payload@) =~= Seq::<(Seq<u8>, serde_json::Value)>::empty());
    }
    EventEnvelope { fields }
}

/// Enrich a decoded payload with metadata for the current moment: the
/// timestamp is whatever the clock reports, and everything else is exact.
pub fn enrich_payload(
    payload: Vec<(Vec<u8>, serde_json::Value)>,
    event: &Vec<u8>,
    peer: &PeerInfo,
) -> (env: EventEnvelope)
    ensures
        exists|ts: Seq<u8>|
            #[trigger] spec_ts_shape(ts) && field_views(env.fields@) == spec_envelope(
                field_views(payload@),
                event@,
                *peer,
                ts,
            ),
{
    let ts = get_timestamp();
    let env = build_envelope(payload, event, peer, &ts);
    proof {
        assert(spec_ts_shape(ts@) && field_views(env.fields@) == spec_envelope(
            field_views(payload@),
            event@,
            *peer,
            ts@,
        ));
    }
    env
}

/// The payload fields a raw body decodes to: an empty body gives no
/// fields; a JSON object gives its fields; other valid JSON gives no
/// fields; anything else is wrapped whole under `_raw`, never rejected.
pub open spec fn spec_payload_fields(body: Seq<u8>) -> Seq<(Seq<u8>, serde_json::Value)> {
    if body.len() == 0 {
        Seq::empty()
    } else {
        match json_object_fields(body) {
            Some(fs) => fs,
            None => seq![(ascii("_raw"), json_text_value(body))],
        }
    }
}

/// Decode a raw body into payload fields, as `spec_payload_fields` says.
pub fn payload_fields(body: &Vec<u8>) -> (r: Vec<(Vec<u8>, serde_json::Value)>)
    ensures
        field_views(r@) == spec_payload_fields(body@),
{
    if body.len() == 0 {
        let r: Vec<(Vec<u8>, serde_json::Value)> = Vec::new();
        proof {
            assert(field_views(r@) =~= spec_payload_fields(body@));
        }
        r
    } else {
        match parse_payload_fields(body) {
            Some(fs) => fs,
            None => {
                proof {
                    reveal_strlit("_raw");
                }
                let mut r: Vec<(Vec<u8>, serde_json::Value)> = Vec::new();
                r.push((ascii_bytes("_raw"), text_value(body)));
                proof {
                    assert(field_views(r@) =~= spec_payload_fields(body@));
                }
                r
            },
        }
    }
}

} // verus!
