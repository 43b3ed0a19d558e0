//! Routing and the per-connection pipeline: decode, route, resolve, enrich,
//! format.  The surrounding process reads the raw bytes, completes the
//! body, performs the writes, and hands this module plain values.
//! Startup-parameter resolution (environment overrides, octal permission
//! bits, output-mode selection) lives here too.

use vstd::prelude::*;
use crate::bytes::ascii;
use crate::bytes::ascii_bytes;
use crate::bytes::bytes_eq;
use crate::bytes::find_sub;
use crate::bytes::find_sub_bytes;
use crate::bytes::lemma_find_sub;
use crate::bytes::parse_dec;
use crate::bytes::parse_dec_usize;
use crate::bytes::parse_oct;
use crate::bytes::parse_oct_u32;
use crate::bytes::subvec;
use crate::clock::get_timestamp;
use crate::clock::spec_ts_shape;
use crate::envelope::build_envelope;
use crate::envelope::payload_fields;
use crate::envelope::spec_envelope;
use crate::envelope::spec_payload_fields;
use crate::envelope::PeerInfo;
use crate::format::format_event;
use crate::format::spec_format_event;
use crate::format::OutputMode;
use crate::format::YamlHighlighter;
use crate::wire::build_http_response;
use crate::wire::lookup_bytes;
use crate::wire::lookup_pair;
use crate::wire::parse_query_string;
use crate::wire::spec_query_pairs;
use crate::wire::spec_response;
use crate::wire::Request;

verus! {

// ---------------------------------------------------------------------------
// Routing
// ---------------------------------------------------------------------------

/// Where a request goes: the health check, the not-found response, or the
/// event hook.
#[derive(Clone, Copy, PartialEq, Eq, Structural)]
pub enum Route {
    Health,
    NotFound,
    Hook,
}

/// The route of a method/path pair: `GET /health` is the health check,
/// any other non-`POST` request is not found, and every `POST` reaches the
/// hook.
pub open spec fn spec_route(method: Seq<u8>, path: Seq<u8>) -> Route {
    if method == ascii("GET") && path == ascii("/health") {
        Route::Health
    } else if method != ascii("POST") {
        Route::NotFound
    } else {
        Route::Hook
    }
}

/// Route a decoded request by method and path.
pub fn route_request(method: &Vec<u8>, path: &Vec<u8>) -> (r: Route)
    ensures
        r == spec_route(method@, path@),
{
    proof {
        reveal_strlit("GET");
        reveal_strlit("/health");
        reveal_strlit("POST");
    }
    let get = ascii_bytes("GET");
    let health = ascii_bytes("/health");
    let post = ascii_bytes("POST");
    if bytes_eq(method, &get) && bytes_eq(path, &health) {
        Route::Health
    } else if !bytes_eq(method, &post) {
        Route::NotFound
    } else {
        Route::Hook
    }
}

// ---------------------------------------------------------------------------
// Event name extraction
// ---------------------------------------------------------------------------

/// The event name a path carries: the last `event` value of its query
/// string, or `Unknown` without a query string or an `event` key.
pub open spec fn spec_event_of(path: Seq<u8>) -> Seq<u8> {
    match find_sub(path, seq![63u8]) {
        Some(i) => if 0 <= i < path.len() {
            match lookup_pair(spec_query_pairs(path.skip(i + 1)), ascii("event")) {
                Some(v) => v,
                None => ascii("Unknown"),
            }
        } else {
            ascii("Unknown")
        },
        None => ascii("Unknown"),
    }
}

/// Extract the event name from a request path.
pub fn extract_event(path: &Vec<u8>) -> (r: Vec<u8>)
    ensures
        r@ == spec_event_of(path@),
{
    proof {
        reveal_strlit("event");
        reveal_strlit("Unknown");
        lemma_find_sub(path@, seq![63u8]);
    }
    let mut qmark: Vec<u8> = Vec::new();
    qmark.push(63);
    proof {
        assert(qmark@ =~= seq![63u8]);
    }
    let path_len = path.len();
    match find_sub_bytes(path, &qmark) {
        Some(i) => {
            let query = subvec(path, i + 1, path_len);
            proof {
                assert(query@ =~= path@.skip(i + 1));
            }
            let pairs = parse_query_string(query.as_slice());
            let key = ascii_bytes("event");
            match lookup_bytes(&pairs, &key) {
                Some(v) => v,
                None => ascii_bytes("Unknown"),
            }
        },
        None => ascii_bytes("Unknown"),
    }
}

// ---------------------------------------------------------------------------
// The hook pipeline
// ---------------------------------------------------------------------------

/// The line published for a hook body at a given timestamp: the decoded
/// payload fields, enriched with metadata, rendered in the output mode.
pub open spec fn spec_hook_line(
    body: Seq<u8>,
    event: Seq<u8>,
    peer: PeerInfo,
    ts: Seq<u8>,
    mode: OutputMode,
    is_tty: bool,
) -> Seq<u8> {
    spec_format_event(spec_envelope(spec_payload_fields(body), event, peer, ts), mode, is_tty)
}

/// Decode, enrich and render one hook body at a given timestamp.
pub fn process_hook_at(
    body: &Vec<u8>,
    event: &Vec<u8>,
    peer: &PeerInfo,
    ts: &Vec<u8>,
    mode: OutputMode,
    highlighter: &YamlHighlighter,
    is_tty: bool,
) -> (r: Vec<u8>)
    ensures
        r@ == spec_hook_line(body@, event@, *peer, ts@, mode, is_tty),
        mode is Jsonl ==> r@.len() > 0 && r@[r@.len() - 1] == 10 && (forall|i: int|
            0 <= i < r@.len() - 1 ==> (#[trigger] r@[i]) != 10),
        mode is PrettyYaml && !is_tty ==> forall|i: int|
            0 <= i < r@.len() ==> (#[trigger] r@[i]) != 27,
{
    let fields = payload_fields(body);
    let env = build_envelope(fields, event, peer, ts);
    format_event(&env, mode, highlighter, is_tty)
}

/// What one connection's request comes to: the response to write back, and
/// the line to publish, if any.
pub struct Outcome {
    pub response: Vec<u8>,
    pub publish: Option<Vec<u8>>,
}

/// Run the full pipeline on a decoded request: route it, and for a hook
/// request enrich and render its body at the current moment.  Exactly one
/// line is published per hook request; the health check and the not-found
/// path never publish.
pub fn handle_request(
    req: &Request,
    peer: &PeerInfo,
    mode: OutputMode,
    highlighter: &YamlHighlighter,
    is_tty: bool,
) -> (r: Outcome)
    ensures
        (r.publish is Some) == (spec_route(req.method@, req.path@) is Hook),
        spec_route(req.method@, req.path@) is Health ==> r.response@ == spec_response(
            200,
            ascii("{\"status\":\"ok\"}"),
        ),
        spec_route(req.method@, req.path@) is NotFound ==> r.response@ == spec_response(
            404,
            Seq::empty(),
        ),
        spec_route(req.method@, req.path@) is Hook ==> {
            &&& r.response@ == spec_response(200, Seq::empty())
            &&& (r.publish matches Some(line) ==> exists|ts: Seq<u8>|
                #[trigger] spec_ts_shape(ts) && line@ == spec_hook_line(
                    req.body@,
                    spec_event_of(req.path@),
                    *peer,
                    ts,
                    mode,
                    is_tty,
                ))
            &&& (mode is Jsonl ==> (r.publish matches Some(line) ==> line@.len() > 0 && line@[
                line@.len() - 1
            ] == 10 && (forall|i: int| 0 <= i < line@.len() - 1 ==> (#[trigger] line@[i]) != 10)))
            &&& (mode is PrettyYaml && !is_tty ==> (r.publish matches Some(line) ==> forall|i: int|
                0 <= i < line@.len() ==> (#[trigger] line@[i]) != 27))
        },
{
    match route_request(&req.method, &req.path) {
        Route::Health => {
            proof {
                reveal_strlit("{\"status\":\"ok\"}");
            }
            let body = ascii_bytes("{\"status\":\"ok\"}");
            Outcome { response: build_http_response(200, &body), publish: None }
        },
        Route::NotFound => {
            let body: Vec<u8> = Vec::new();
            Outcome { response: build_http_response(404, &body), publish: None }
        },
        Route::Hook => {
            let event = extract_event(&req.path);
            let ts = get_timestamp();
            let line = process_hook_at(&req.body, &event, peer, &ts, mode, highlighter, is_tty);
            proof {
                assert(spec_ts_shape(ts@) && line@ == spec_hook_line(
                    req.body@,
                    spec_event_of(req.path@),
                    *peer,
                    ts@,
                    mode,
                    is_tty,
                ));
            }
            let body: Vec<u8> = Vec::new();
            Outcome { response: build_http_response(200, &body), publish: Some(line) }
        },
    }
}

// ---------------------------------------------------------------------------
// Startup parameters
// ---------------------------------------------------------------------------

/// The built-in port of the network transport.
pub const DEFAULT_TCP_PORT: u16 = 23518;

/// The built-in path of the local-socket transport.
pub open spec fn spec_default_socket() -> Seq<u8> {
    ascii("/tmp/observatory.sock")
}

/// The built-in path of the local-socket transport, as bytes.
pub fn default_socket_path() -> (r: Vec<u8>)
    ensures
        r@ == spec_default_socket(),
{
    proof {
        reveal_strlit("/tmp/observatory.sock");
    }
    ascii_bytes("/tmp/observatory.sock")
}

/// The view of an optional byte vector.
pub open spec fn opt_bytes(o: Option<Vec<u8>>) -> Option<Seq<u8>> {
    match o {
        Some(v) => Some(v@),
        None => None,
    }
}

/// The effective port: an environment override that reads as a port number
/// wins only when the explicit parameter was left at its built-in default.
pub open spec fn spec_effective_port(cli_port: u16, env_val: Option<Seq<u8>>) -> u16 {
    match env_val {
        Some(s) => match parse_dec(s, u16::MAX as int) {
            Some(v) => if cli_port == DEFAULT_TCP_PORT {
                v as u16
            } else {
                cli_port
            },
            None => cli_port,
        },
        None => cli_port,
    }
}

/// Resolve the effective port from the explicit parameter and the
/// environment override, if any.
pub fn resolve_port(cli_port: u16, env_val: &Option<Vec<u8>>) -> (r: u16)
    ensures
        r == spec_effective_port(cli_port, opt_bytes(*env_val)),
{
    match env_val {
        Some(v) => {
            match parse_dec_usize(v) {
                Some(n) => {
                    if n <= 65535 {
                        if cli_port == DEFAULT_TCP_PORT {
                            n as u16
                        } else {
                            cli_port
                        }
                    } else {
                        cli_port
                    }
                },
                None => cli_port,
            }
        },
        None => cli_port,
    }
}

/// The effective socket path: a non-empty environment override wins only
/// when the explicit parameter was left at its built-in default.
pub open spec fn spec_effective_socket(cli_path: Seq<u8>, env_val: Option<Seq<u8>>) -> Seq<u8> {
    match env_val {
        Some(s) => if s.len() > 0 && cli_path == spec_default_socket() {
            s
        } else {
            cli_path
        },
        None => cli_path,
    }
}

/// Resolve the effective socket path from the explicit parameter and the
/// environment override, if any.
pub fn resolve_socket_path(cli_path: Vec<u8>, env_val: Option<Vec<u8>>) -> (r: Vec<u8>)
    ensures
        r@ == spec_effective_socket(cli_path@, opt_bytes(env_val)),
{
    let ghost cli0 = cli_path@;
    match env_val {
        Some(v) => {
            let default = default_socket_path();
            if v.len() > 0 && bytes_eq(&cli_path, &default) {
                v
            } else {
                cli_path
            }
        },
        None => cli_path,
    }
}

/// How many leading `0` bytes a numeral carries.
pub open spec fn lead_zeros(s: Seq<u8>) -> int
    decreases s.len(),
{
    if s.len() > 0 && s[0] == 48 {
        1 + lead_zeros(s.drop_first())
    } else {
        0
    }
}

/// The leading-zero count is within the numeral.
proof fn lemma_lead_zeros_bounds(s: Seq<u8>)
    ensures
        0 <= lead_zeros(s) <= s.len(),
    decreases s.len(),
{
    if s.len() > 0 && s[0] == 48 {
        lemma_lead_zeros_bounds(s.drop_first());
    }
}

/// The permission bits an octal mode string resolves to: leading zeros are
/// trimmed, the rest is read as octal, and anything unreadable falls back
/// to `0o660`.
pub open spec fn spec_socket_mode(s: Seq<u8>) -> u32 {
    match parse_oct(s.skip(lead_zeros(s)), u32::MAX as int) {
        Some(v) => v as u32,
        None => 0o660u32,
    }
}

/// Parse the local-socket permission mode from its octal string.
pub fn parse_socket_mode(s: &Vec<u8>) -> (r: u32)
    ensures
        r == spec_socket_mode(s@),
{
    proof {
        lemma_lead_zeros_bounds(s@);
    }
    let n = s.len();
    let mut i: usize = 0;
    proof {
        assert(s@.skip(0) =~= s@);
    }
    while i < n && s[i] == 48
        invariant
            n == s@.len(),
            i <= n,
            lead_zeros(s@) == i + lead_zeros(s@.skip(i as int)),
        decreases n - i,
    {
        proof {
            assert(s@.skip(i as int)[0] == s@[i as int]);
            assert(s@.skip(i as int).drop_first() =~= s@.skip(i as int + 1));
        }
        i = i + 1;
    }
    proof {
        if i < n {
            assert(s@.skip(i as int)[0] == s@[i as int]);
        } else {
            assert(s@.skip(n as int) =~= Seq::<u8>::empty());
        }
        assert(i as int == lead_zeros(s@));
    }
    let trimmed = subvec(s, i, n);
    proof {
        assert(trimmed@ =~= s@.skip(lead_zeros(s@)));
    }
    match parse_oct_u32(&trimmed) {
        Some(v) => v,
        None => 0o660u32,
    }
}

/// The output mode two presentation flags select: YAML highlighting wins,
/// then indented JSON, and compact JSON is the default.
pub open spec fn spec_select_mode(pretty_json: bool, pretty_yaml: bool) -> OutputMode {
    if pretty_yaml {
        OutputMode::PrettyYaml
    } else if pretty_json {
        OutputMode::PrettyJson
    } else {
        OutputMode::Jsonl
    }
}

/// Select the output mode from the presentation flags.
pub fn select_mode(pretty_json: bool, pretty_yaml: bool) -> (r: OutputMode)
    ensures
        r == spec_select_mode(pretty_json, pretty_yaml),
{
    if pretty_yaml {
        OutputMode::PrettyYaml
    } else if pretty_json {
        OutputMode::PrettyJson
    } else {
        OutputMode::Jsonl
    }
}

} // verus!
